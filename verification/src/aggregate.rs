//! The aggregator: folds every member's declarations into one dependency
//! map, one entry per declaration, nothing merged and nothing dropped.

use vstd::prelude::*;
use crate::depmap::DependencyEntry;
use crate::depmap::DependencyMap;
use crate::depmap::EntryModel;
use crate::manifest::Dependency;
use crate::manifest::MemberManifest;
use crate::manifest::spec_deps;
use crate::version::spec_normalize;

verus! {

/// The entries `name` gathers from one member's dependency list, in
/// declaration order: one entry per declaration of `name`.
pub open spec fn deps_requests_for(
    project: Seq<char>,
    deps: Seq<Dependency>,
    name: Seq<char>,
) -> Seq<EntryModel>
    decreases deps.len(),
{
    if deps.len() == 0 {
        Seq::empty()
    } else {
        deps_requests_for(project, deps.drop_last(), name) + (if deps.last().name@ == name {
            seq![EntryModel { project: project, version: spec_normalize(deps.last().requested) }]
        } else {
            Seq::empty()
        })
    }
}

/// Every entry `name` gathers across the members, members in order, and
/// within one member in declaration order.
pub open spec fn requests_for(
    members: Seq<(String, MemberManifest)>,
    name: Seq<char>,
) -> Seq<EntryModel>
    decreases members.len(),
{
    if members.len() == 0 {
        Seq::empty()
    } else {
        requests_for(members.drop_last(), name) + deps_requests_for(
            members.last().0@,
            spec_deps(members.last().1),
            name,
        )
    }
}

/// Builds the dependency map: every declaration of every member becomes
/// exactly one entry under its dependency's name. Each member is given as
/// its requester label (the member path) and its manifest.
pub fn dependency_map(members: &Vec<(String, MemberManifest)>) -> (dm: DependencyMap)
    ensures
        dm.wf(),
        forall|n: Seq<char>| dm.entries_of(n) == requests_for(members@, n),
{
    let mut dm = DependencyMap::new();
    let m = members.len();
    let mut i: usize = 0;
    proof {
        assert(members@.take(0) =~= Seq::empty());
    }
    while i < m
        invariant
            i <= m,
            m == members@.len(),
            dm.wf(),
            forall|n: Seq<char>| dm.entries_of(n) == requests_for(members@.take(i as int), n),
        decreases m - i,
    {
        let project = &members[i].0;
        match &members[i].1.dependencies {
            Option::None => {
                proof {
                    assert forall|n: Seq<char>|
                        dm.entries_of(n) == requests_for(
                            members@.take(i as int + 1),
                            n,
                        ) by {
                        assert(members@.take(i as int + 1).drop_last() =~= members@.take(
                            i as int,
                        ));
                        assert(members@.take(i as int + 1).last() == members@[i as int]);
                        assert(requests_for(members@.take(i as int + 1), n) =~= requests_for(
                            members@.take(i as int),
                            n,
                        ));
                    }
                }
            },
            Option::Some(deps) => {
                let d = deps.len();
                let mut j: usize = 0;
                proof {
                    assert(deps@.take(0) =~= Seq::empty());
                }
                while j < d
                    invariant
                        j <= d,
                        i < m,
                        m == members@.len(),
                        d == deps@.len(),
                        deps@ == spec_deps(members@[i as int].1),
                        project@ == members@[i as int].0@,
                        dm.wf(),
                        forall|n: Seq<char>|
                            dm.entries_of(n) == requests_for(members@.take(i as int), n)
                                + deps_requests_for(project@, deps@.take(j as int), n),
                    decreases d - j,
                {
                    let name = &deps[j].name;
                    let version = crate::version::normalize_version(&deps[j].requested);
                    let entry = DependencyEntry { project: project.clone(), version };
                    dm.append(name, entry);
                    proof {
                        assert(deps@.take(j as int + 1).drop_last() =~= deps@.take(j as int));
                        assert(deps@.take(j as int + 1).last() == deps@[j as int]);
                        assert forall|n: Seq<char>|
                            dm.entries_of(n) == requests_for(members@.take(i as int), n)
                                + deps_requests_for(project@, deps@.take(j as int + 1), n) by {
                            if n == name@ {
                                assert(deps_requests_for(project@, deps@.take(j as int + 1), n)
                                    =~= deps_requests_for(project@, deps@.take(j as int), n)
                                        + seq![
                                    EntryModel {
                                        project: project@,
                                        version: spec_normalize(deps@[j as int].requested),
                                    },
                                ]);
                                assert(dm.entries_of(n) =~= requests_for(
                                    members@.take(i as int),
                                    n,
                                ) + deps_requests_for(project@, deps@.take(j as int + 1), n));
                            } else {
                                assert(deps_requests_for(project@, deps@.take(j as int + 1), n)
                                    =~= deps_requests_for(project@, deps@.take(j as int), n));
                            }
                        }
                    }
                    j = j + 1;
                }
                proof {
                    assert(deps@.take(d as int) =~= deps@);
                    assert forall|n: Seq<char>|
                        dm.entries_of(n) == requests_for(
                            members@.take(i as int + 1),
                            n,
                        ) by {
                        assert(members@.take(i as int + 1).drop_last() =~= members@.take(
                            i as int,
                        ));
                        assert(members@.take(i as int + 1).last() == members@[i as int]);
                    }
                }
            },
        }
        i = i + 1;
    }
    proof {
        assert(members@.take(m as int) =~= members@);
    }
    dm
}

} // verus!
