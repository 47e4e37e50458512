//! The guarantees the audit gives as a whole, stated over the
//! aggregation, normalization and detection contracts and proved once for
//! all inputs.

use vstd::prelude::*;
use crate::aggregate::requests_for;
use crate::depmap::DependencyMap;
use crate::depmap::EntryModel;
use crate::detect::ConflictReport;
use crate::detect::is_conflicting;
use crate::detect::report_matches;
use crate::detect::lemma_conflict_iff_two;
use crate::manifest::MemberManifest;
use crate::manifest::spec_deps;
use crate::version::VersionSpec;
use crate::version::spec_normalize;

verus! {

/// When every member's dependency table is empty, no name gathers any
/// request at all, and none can conflict.
pub proof fn lemma_empty_tables_no_requests(
    members: Seq<(String, MemberManifest)>,
    name: Seq<char>,
)
    requires
        forall|i: int|
            0 <= i < members.len() ==> spec_deps((#[trigger] members[i]).1).len() == 0,
    ensures
        requests_for(members, name) == Seq::<EntryModel>::empty(),
        !is_conflicting(requests_for(members, name)),
    decreases members.len(),
{
    if members.len() > 0 {
        assert(forall|i: int|
            0 <= i < members.drop_last().len() ==> #[trigger] members.drop_last()[i]
                == members[i]);
        lemma_empty_tables_no_requests(members.drop_last(), name);
        assert(spec_deps(members.last().1).len() == 0);
        assert(requests_for(members, name) =~= Seq::<EntryModel>::empty());
    }
}

/// When every member's dependency table is empty, a correct report list
/// drawn from the aggregated map is empty: no conflict is reported.
pub proof fn lemma_empty_tables_empty_report(
    members: Seq<(String, MemberManifest)>,
    dm: DependencyMap,
    reports: Seq<ConflictReport>,
)
    requires
        forall|i: int|
            0 <= i < members.len() ==> spec_deps((#[trigger] members[i]).1).len() == 0,
        forall|n: Seq<char>| dm.entries_of(n) == requests_for(members, n),
        forall|k: int| 0 <= k < reports.len() ==> report_matches(dm, #[trigger] reports[k]),
    ensures
        reports.len() == 0,
{
    if reports.len() > 0 {
        let r0 = reports[0];
        lemma_empty_tables_no_requests(members, r0.name@);
        assert(dm.entries_of(r0.name@).len() == 0);
        assert(false);
    }
}

/// A dependency with at most one declaration can never conflict,
/// regardless of its version content.
pub proof fn lemma_single_request_no_conflict(entries: Seq<EntryModel>)
    requires
        entries.len() <= 1,
    ensures
        !is_conflicting(entries),
{
}

/// Declarations that all carry one identical version string never
/// conflict, however many members made them.
pub proof fn lemma_identical_versions_no_conflict(entries: Seq<EntryModel>)
    requires
        forall|i: int, j: int|
            0 <= i < entries.len() && 0 <= j < entries.len() ==> (
            #[trigger] entries[i]).version == (#[trigger] entries[j]).version,
    ensures
        !is_conflicting(entries),
{
}

/// Every name a correct report carries is genuinely conflicting in the
/// map it was drawn from.
pub proof fn lemma_report_name_conflicts(dm: DependencyMap, r: ConflictReport)
    requires
        report_matches(dm, r),
    ensures
        is_conflicting(dm.entries_of(r.name@)),
{
    lemma_conflict_iff_two(r.versions@, dm.entries_of(r.name@));
}

/// A name whose entries do not conflict appears in no correct report, so
/// in particular a single-requester name and a name all of whose requests
/// agree are never reported.
pub proof fn lemma_nonconflicting_never_reported(
    dm: DependencyMap,
    reports: Seq<ConflictReport>,
    n: Seq<char>,
    k: int,
)
    requires
        !is_conflicting(dm.entries_of(n)),
        forall|k: int| 0 <= k < reports.len() ==> report_matches(dm, #[trigger] reports[k]),
        0 <= k < reports.len(),
    ensures
        reports[k].name@ != n,
{
    if reports[k].name@ == n {
        lemma_report_name_conflicts(dm, reports[k]);
    }
}

/// A bare version string and a table whose `version` entry carries the
/// same string normalize to the same value, so that variance alone never
/// makes a conflict.
pub proof fn lemma_normalization_round_trip(s: String)
    ensures
        spec_normalize(VersionSpec::Bare(s)) == s@,
        spec_normalize(VersionSpec::Table(Option::Some(s))) == s@,
{
}

/// Version shapes that carry no usable version string normalize to the
/// empty string, which still takes part in duplicate comparison.
pub proof fn lemma_unsupported_shape_normalizes_empty(v: VersionSpec)
    requires
        v == VersionSpec::Other || v == VersionSpec::Table(Option::<String>::None),
    ensures
        spec_normalize(v) == Seq::<char>::empty(),
{
}

} // verus!
