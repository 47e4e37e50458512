//! The duplicate detector: per dependency name, the distinct normalized
//! versions requested, and the classification as consistent or conflicting.

use vstd::prelude::*;
use crate::depmap::DependencyEntry;
use crate::depmap::DependencyMap;
use crate::depmap::EntryModel;
use crate::depmap::models;
use crate::depmap::clone_entries;
use crate::order::str_lt;
use crate::order::str_le;
use crate::order::string_lt;
use crate::order::string_eq;
use crate::order::lemma_str_trichotomy;
use crate::order::lemma_str_le_trans;
use crate::order::lemma_str_lt_le_trans;

verus! {

/// The strings are in weakly ascending order.
pub open spec fn sorted_le(s: Seq<String>) -> bool {
    forall|i: int, j: int| 0 <= i < j < s.len() ==> str_le(#[trigger] s[i]@, #[trigger] s[j]@)
}

/// The strings are in strictly ascending order, so no value repeats.
pub open spec fn sorted_lt(s: Seq<String>) -> bool {
    forall|i: int, j: int| 0 <= i < j < s.len() ==> str_lt(#[trigger] s[i]@, #[trigger] s[j]@)
}

/// Some string in the list holds exactly the characters `v`.
pub open spec fn contains_str(s: Seq<String>, v: Seq<char>) -> bool {
    exists|i: int| 0 <= i < s.len() && (#[trigger] s[i])@ == v
}

/// Some entry requested exactly the version `v`.
pub open spec fn has_version(entries: Seq<EntryModel>, v: Seq<char>) -> bool {
    exists|i: int| 0 <= i < entries.len() && (#[trigger] entries[i]).version == v
}

/// Two entries disagree on the version: the mark of a genuine conflict.
pub open spec fn is_conflicting(entries: Seq<EntryModel>) -> bool {
    exists|i: int, j: int|
        0 <= i < entries.len() && 0 <= j < entries.len() && (#[trigger] entries[i]).version != (
        #[trigger] entries[j]).version
}

/// Inserting into a sequence adds exactly one value to its contents.
proof fn lemma_insert_contains(s: Seq<String>, pos: int, x: String, v: Seq<char>)
    requires
        0 <= pos <= s.len(),
    ensures
        contains_str(s.insert(pos, x), v) <==> (contains_str(s, v) || x@ == v),
{
    s.insert_ensures(pos, x);
    let t = s.insert(pos, x);
    if contains_str(s, v) {
        let k = choose|k: int| 0 <= k < s.len() && (#[trigger] s[k])@ == v;
        if k < pos {
            assert(t[k]@ == v);
        } else {
            assert(t[k + 1]@ == v);
        }
    }
    if x@ == v {
        assert(t[pos]@ == v);
    }
    if contains_str(t, v) && x@ != v {
        let k = choose|k: int| 0 <= k < t.len() && (#[trigger] t[k])@ == v;
        if k < pos {
            assert(s[k]@ == v);
        } else if k > pos {
            assert(s[k - 1]@ == v);
        }
    }
}

/// Appending to a sequence adds exactly one value to its contents.
proof fn lemma_push_contains(s: Seq<String>, x: String, v: Seq<char>)
    ensures
        contains_str(s.push(x), v) <==> (contains_str(s, v) || x@ == v),
{
    let t = s.push(x);
    if contains_str(s, v) {
        let k = choose|k: int| 0 <= k < s.len() && (#[trigger] s[k])@ == v;
        assert(t[k]@ == v);
    }
    if x@ == v {
        assert(t[s.len() as int]@ == v);
    }
    if contains_str(t, v) && x@ != v {
        let k = choose|k: int| 0 <= k < t.len() && (#[trigger] t[k])@ == v;
        assert(k < s.len());
        assert(s[k]@ == v);
    }
}

/// Taking one more element adds exactly that element's value.
proof fn lemma_take_contains(s: Seq<String>, i: int, v: Seq<char>)
    requires
        0 <= i < s.len(),
    ensures
        contains_str(s.take(i + 1), v) <==> (contains_str(s.take(i), v) || s[i]@ == v),
{
    assert(s.take(i + 1).drop_last() =~= s.take(i));
    lemma_push_contains(s.take(i), s[i], v);
    assert(s.take(i + 1) =~= s.take(i).push(s[i]));
}

/// Inserts `x` into a weakly sorted list, keeping it sorted.
fn insert_sorted(list: Vec<String>, x: String) -> (r: Vec<String>)
    requires
        sorted_le(list@),
    ensures
        sorted_le(r@),
        r@.len() == list@.len() + 1,
        forall|v: Seq<char>|
            #[trigger] contains_str(r@, v) <==> (contains_str(list@, v) || x@ == v),
{
    let ghost orig = list@;
    let mut out = list;
    let n = out.len();
    let mut pos: usize = 0;
    while pos < n && string_lt(&out[pos], &x)
        invariant
            pos <= n,
            n == out@.len(),
            out@ == orig,
            sorted_le(orig),
            forall|k: int| 0 <= k < pos ==> str_lt((#[trigger] orig[k])@, x@),
        decreases n - pos,
    {
        pos = pos + 1;
    }
    proof {
        if pos < n {
            lemma_str_trichotomy(orig[pos as int]@, x@);
        }
    }
    out.insert(pos, x);
    proof {
        orig.insert_ensures(pos as int, x);
        assert forall|i: int, j: int| 0 <= i < j < out@.len() implies str_le(
            (#[trigger] out@[i])@,
            (#[trigger] out@[j])@,
        ) by {
            let p = pos as int;
            if j < p {
                assert(out@[i] == orig[i] && out@[j] == orig[j]);
            } else if i < p && j == p {
                assert(out@[i] == orig[i]);
            } else if i < p && j > p {
                assert(out@[i] == orig[i] && out@[j] == orig[j - 1]);
                if i < j - 1 {
                } else {
                    assert(i == j - 1);
                    assert(false);
                }
            } else if i == p && j > p {
                assert(out@[j] == orig[j - 1]);
                lemma_str_trichotomy(orig[p]@, x@);
                if p < j - 1 {
                    lemma_str_le_trans(x@, orig[p]@, orig[j - 1]@);
                }
            } else {
                assert(out@[i] == orig[i - 1] && out@[j] == orig[j - 1]);
            }
        }
        assert forall|v: Seq<char>|
            #[trigger] contains_str(out@, v) <==> (contains_str(orig, v) || x@ == v) by {
            lemma_insert_contains(orig, pos as int, x, v);
        }
    }
    out
}

/// Sorts the list weakly ascending without changing its contents.
fn sort_strings(list: &Vec<String>) -> (r: Vec<String>)
    ensures
        sorted_le(r@),
        r@.len() == list@.len(),
        forall|v: Seq<char>| #[trigger] contains_str(r@, v) <==> contains_str(list@, v),
{
    let mut out: Vec<String> = Vec::new();
    let n = list.len();
    let mut i: usize = 0;
    proof {
        assert(list@.take(0) =~= Seq::empty());
    }
    while i < n
        invariant
            i <= n,
            n == list@.len(),
            sorted_le(out@),
            out@.len() == i,
            forall|v: Seq<char>|
                #[trigger] contains_str(out@, v) <==> contains_str(list@.take(i as int), v),
        decreases n - i,
    {
        let x = list[i].clone();
        out = insert_sorted(out, x);
        proof {
            assert forall|v: Seq<char>|
                #[trigger] contains_str(out@, v) <==> contains_str(
                list@.take(i as int + 1),
                v,
            ) by {
                lemma_take_contains(list@, i as int, v);
            }
        }
        i = i + 1;
    }
    proof {
        assert(list@.take(n as int) =~= list@);
    }
    out
}

/// Removes repeated values from a weakly sorted list, leaving it strictly
/// sorted with the same contents.
fn dedup_sorted(list: &Vec<String>) -> (r: Vec<String>)
    requires
        sorted_le(list@),
    ensures
        sorted_lt(r@),
        forall|v: Seq<char>| #[trigger] contains_str(r@, v) <==> contains_str(list@, v),
{
    let mut out: Vec<String> = Vec::new();
    let n = list.len();
    let mut i: usize = 0;
    proof {
        assert(list@.take(0) =~= Seq::empty());
    }
    while i < n
        invariant
            i <= n,
            n == list@.len(),
            sorted_le(list@),
            sorted_lt(out@),
            forall|v: Seq<char>|
                #[trigger] contains_str(out@, v) <==> contains_str(list@.take(i as int), v),
            i > 0 ==> out@.len() > 0 && out@.last()@ == list@[i as int - 1]@,
            i == 0 ==> out@.len() == 0,
        decreases n - i,
    {
        let push_it: bool = if out.len() == 0 {
            true
        } else {
            !string_eq(&out[out.len() - 1], &list[i])
        };
        let ghost before = out@;
        if push_it {
            out.push(list[i].clone());
            proof {
                assert forall|a: int, b: int| 0 <= a < b < out@.len() implies str_lt(
                    (#[trigger] out@[a])@,
                    (#[trigger] out@[b])@,
                ) by {
                    if b == out@.len() - 1 {
                        assert(out@[b]@ == list@[i as int]@);
                        if before.len() > 0 {
                            let last = before[before.len() - 1];
                            assert(str_le(last@, list@[i as int]@)) by {
                                if i > 0 {
                                    assert(last@ == list@[i as int - 1]@);
                                    assert(str_le(list@[i as int - 1]@, list@[i as int]@));
                                }
                            }
                            lemma_str_trichotomy(last@, list@[i as int]@);
                            if a < before.len() - 1 {
                                assert(str_lt(before[a]@, last@));
                                lemma_str_lt_le_trans(before[a]@, last@, list@[i as int]@);
                            }
                        }
                    } else {
                        assert(out@[a] == before[a] && out@[b] == before[b]);
                    }
                }
            }
        }
        proof {
            if push_it {
                assert forall|v: Seq<char>|
                    #[trigger] contains_str(out@, v) <==> contains_str(
                    list@.take(i as int + 1),
                    v,
                ) by {
                    lemma_push_contains(before, list@[i as int], v);
                    lemma_take_contains(list@, i as int, v);
                }
            } else {
                assert(out@.last()@ == list@[i as int]@);
                assert(contains_str(out@, list@[i as int]@)) by {
                    assert(out@[out@.len() - 1]@ == list@[i as int]@);
                }
                assert forall|v: Seq<char>|
                    #[trigger] contains_str(out@, v) <==> contains_str(
                    list@.take(i as int + 1),
                    v,
                ) by {
                    lemma_take_contains(list@, i as int, v);
                }
            }
        }
        i = i + 1;
    }
    proof {
        assert(list@.take(n as int) =~= list@);
    }
    out
}

/// The distinct versions among a list of entries: deduplicated by exact
/// string equality and sorted for deterministic output.
pub fn normalize_deps(vers: &Vec<DependencyEntry>) -> (r: Vec<String>)
    ensures
        sorted_lt(r@),
        forall|v: Seq<char>| #[trigger] contains_str(r@, v) <==> has_version(models(vers@), v),
{
    let mut vs: Vec<String> = Vec::new();
    let n = vers.len();
    let mut i: usize = 0;
    while i < n
        invariant
            i <= n,
            n == vers@.len(),
            vs@.len() == i,
            forall|k: int| 0 <= k < i ==> (#[trigger] vs@[k])@ == vers@[k].version@,
        decreases n - i,
    {
        vs.push(vers[i].version.clone());
        i = i + 1;
    }
    let sorted = sort_strings(&vs);
    let r = dedup_sorted(&sorted);
    proof {
        assert forall|v: Seq<char>|
            #[trigger] contains_str(vs@, v) <==> has_version(models(vers@), v) by {
            if contains_str(vs@, v) {
                let k = choose|k: int| 0 <= k < vs@.len() && (#[trigger] vs@[k])@ == v;
                assert(models(vers@)[k].version == v);
            }
            if has_version(models(vers@), v) {
                let k = choose|k: int|
                    0 <= k < models(vers@).len() && (#[trigger] models(vers@)[k]).version == v;
                assert(vs@[k]@ == v);
            }
        }
    }
    r
}

/// A strictly sorted list of the distinct versions holds more than one
/// string exactly when two entries disagree.
pub proof fn lemma_conflict_iff_two(r: Seq<String>, entries: Seq<EntryModel>)
    requires
        sorted_lt(r),
        forall|v: Seq<char>| #[trigger] contains_str(r, v) <==> has_version(entries, v),
    ensures
        (r.len() > 1) <==> is_conflicting(entries),
{
    if r.len() > 1 {
        lemma_str_trichotomy(r[0]@, r[1]@);
        assert(contains_str(r, r[0]@));
        assert(contains_str(r, r[1]@));
        let i = choose|i: int| 0 <= i < entries.len() && (#[trigger] entries[i]).version == r[0]@;
        let j = choose|j: int| 0 <= j < entries.len() && (#[trigger] entries[j]).version == r[1]@;
        assert(entries[i].version != entries[j].version);
    }
    if is_conflicting(entries) {
        let (i, j) = choose|i: int, j: int|
            0 <= i < entries.len() && 0 <= j < entries.len() && (#[trigger] entries[i]).version
                != (#[trigger] entries[j]).version;
        assert(has_version(entries, entries[i].version));
        assert(has_version(entries, entries[j].version));
        assert(contains_str(r, entries[i].version));
        assert(contains_str(r, entries[j].version));
        let k1 = choose|k: int| 0 <= k < r.len() && (#[trigger] r[k])@ == entries[i].version;
        let k2 = choose|k: int| 0 <= k < r.len() && (#[trigger] r[k])@ == entries[j].version;
        assert(k1 != k2);
        assert(r.len() > 1);
    }
}

/// A name among the first `i` pairs of `dm` whose list holds at least two
/// entries.
pub open spec fn kept_before(dm: DependencyMap, n: Seq<char>, i: int) -> bool {
    exists|j: int|
        0 <= j < i && (#[trigger] dm.spec_pairs()[j]).0@ == n && dm.spec_pairs()[j].1@.len() > 1
}

/// Having at least two entries is the same as some pair holding them.
proof fn lemma_kept_iff_long(dm: DependencyMap, n: Seq<char>)
    requires
        dm.wf(),
    ensures
        kept_before(dm, n, dm.spec_pairs().len() as int) <==> dm.entries_of(n).len() > 1,
{
    if kept_before(dm, n, dm.spec_pairs().len() as int) {
        let j = choose|j: int|
            0 <= j < dm.spec_pairs().len() && (#[trigger] dm.spec_pairs()[j]).0@ == n
                && dm.spec_pairs()[j].1@.len() > 1;
        dm.lemma_entries_at_is_lookup(j);
    }
    if dm.entries_of(n).len() > 1 {
        crate::depmap::lemma_lookup_some_key(dm.spec_pairs(), n);
        let j = choose|j: int|
            0 <= j < dm.spec_pairs().len() && (#[trigger] dm.spec_pairs()[j]).0@ == n;
        dm.lemma_entries_at_is_lookup(j);
        assert(dm.spec_pairs()[j].1@.len() > 1);
    }
}

/// The pre-filter: keeps exactly the names with at least two entries. A
/// kept name keeps its whole entry list; every other name is dropped.
pub fn detect_dupes(dm: DependencyMap) -> (r: DependencyMap)
    requires
        dm.wf(),
    ensures
        r.wf(),
        forall|n: Seq<char>|
            dm.entries_of(n).len() > 1 ==> r.entries_of(n) == dm.entries_of(n),
        forall|n: Seq<char>|
            dm.entries_of(n).len() <= 1 ==> r.entries_of(n) == Seq::<EntryModel>::empty(),
{
    let mut out = DependencyMap::new();
    let n = dm.len();
    let mut i: usize = 0;
    while i < n
        invariant
            i <= n,
            n == dm.spec_pairs().len(),
            dm.wf(),
            out.wf(),
            forall|m: Seq<char>|
                #[trigger] kept_before(dm, m, i as int) ==> out.entries_of(m) == dm.entries_of(
                    m,
                ),
            forall|m: Seq<char>|
                !(#[trigger] kept_before(dm, m, i as int)) ==> out.entries_of(m)
                    == Seq::<EntryModel>::empty(),
        decreases n - i,
    {
        let es = dm.entries_at(i);
        if es.len() > 1 {
            let name = dm.name_at(i);
            let copy = clone_entries(es);
            proof {
                assert(!kept_before(dm, name@, i as int));
                assert(!out.contains_name(name@));
            }
            out.insert_list(name, copy);
            proof {
                dm.lemma_entries_at_is_lookup(i as int);
                assert forall|m: Seq<char>|
                    #[trigger] kept_before(dm, m, i as int + 1) implies out.entries_of(m)
                    == dm.entries_of(m) by {
                    if m == name@ {
                    } else {
                        assert(kept_before(dm, m, i as int));
                    }
                }
                assert forall|m: Seq<char>|
                    !(#[trigger] kept_before(dm, m, i as int + 1)) implies out.entries_of(m)
                    == Seq::<EntryModel>::empty() by {
                    assert(m != name@) by {
                        assert(kept_before(dm, name@, i as int + 1));
                    }
                    assert(!kept_before(dm, m, i as int));
                }
            }
        } else {
            proof {
                assert forall|m: Seq<char>|
                    #[trigger] kept_before(dm, m, i as int + 1) == kept_before(
                    dm,
                    m,
                    i as int,
                ) by {
                    if kept_before(dm, m, i as int + 1) {
                        let j = choose|j: int|
                            0 <= j < i as int + 1 && (#[trigger] dm.spec_pairs()[j]).0@ == m
                                && dm.spec_pairs()[j].1@.len() > 1;
                        assert(j < i as int);
                    }
                }
            }
        }
        i = i + 1;
    }
    proof {
        assert forall|m: Seq<char>| dm.entries_of(m).len() > 1 implies out.entries_of(m)
            == dm.entries_of(m) by {
            lemma_kept_iff_long(dm, m);
        }
        assert forall|m: Seq<char>| dm.entries_of(m).len() <= 1 implies out.entries_of(m)
            == Seq::<EntryModel>::empty() by {
            lemma_kept_iff_long(dm, m);
        }
    }
    out
}

/// One conflicting dependency: its name, every declaration of it in
/// processing order, and the deduplicated sorted distinct versions.
pub struct ConflictReport {
    pub name: String,
    pub entries: Vec<DependencyEntry>,
    pub versions: Vec<String>,
}

/// What a correct report says about the map it was drawn from.
pub open spec fn report_matches(dm: DependencyMap, r: ConflictReport) -> bool {
    &&& dm.contains_name(r.name@)
    &&& models(r.entries@) == dm.entries_of(r.name@)
    &&& sorted_lt(r.versions@)
    &&& forall|v: Seq<char>|
        #[trigger] contains_str(r.versions@, v) <==> has_version(dm.entries_of(r.name@), v)
    &&& r.versions@.len() > 1
}

/// A name among the first `i` pairs of `f` whose entries disagree on the
/// version.
pub open spec fn conflicted_before(f: DependencyMap, n: Seq<char>, i: int) -> bool {
    exists|j: int|
        0 <= j < i && (#[trigger] f.spec_pairs()[j]).0@ == n && is_conflicting(
            models(f.spec_pairs()[j].1@),
        )
}

/// The duplicate detector: one report per dependency name requested with
/// more than one distinct version string, and no other report.
pub fn conflicts(dm: DependencyMap) -> (r: Vec<ConflictReport>)
    requires
        dm.wf(),
    ensures
        forall|k: int| 0 <= k < r@.len() ==> report_matches(dm, #[trigger] r@[k]),
        forall|k1: int, k2: int|
            0 <= k1 < k2 < r@.len() ==> (#[trigger] r@[k1]).name@ != (#[trigger] r@[k2]).name@,
        forall|n: Seq<char>|
            (dm.contains_name(n) && is_conflicting(dm.entries_of(n))) <==> exists|k: int|
                0 <= k < r@.len() && (#[trigger] r@[k]).name@ == n,
{
    let ghost dmg = dm;
    let filtered = detect_dupes(dm);
    let n = filtered.len();
    let mut out: Vec<ConflictReport> = Vec::new();
    let mut i: usize = 0;
    while i < n
        invariant
            i <= n,
            n == filtered.spec_pairs().len(),
            dmg.wf(),
            filtered.wf(),
            forall|m: Seq<char>|
                dmg.entries_of(m).len() > 1 ==> filtered.entries_of(m) == dmg.entries_of(m),
            forall|m: Seq<char>|
                dmg.entries_of(m).len() <= 1 ==> filtered.entries_of(m)
                    == Seq::<EntryModel>::empty(),
            forall|k: int| 0 <= k < out@.len() ==> report_matches(dmg, #[trigger] out@[k]),
            forall|k1: int, k2: int|
                0 <= k1 < k2 < out@.len() ==> (#[trigger] out@[k1]).name@ != (
                #[trigger] out@[k2]).name@,
            forall|m: Seq<char>|
                #[trigger] conflicted_before(filtered, m, i as int) <==> exists|k: int|
                    0 <= k < out@.len() && (#[trigger] out@[k]).name@ == m,
        decreases n - i,
    {
        let es = filtered.entries_at(i);
        let name = filtered.name_at(i);
        let versions = normalize_deps(es);
        proof {
            filtered.lemma_entries_at_is_lookup(i as int);
            lemma_conflict_iff_two(versions@, models(es@));
        }
        if versions.len() > 1 {
            proof {
                assert(filtered.entries_of(name@) == models(es@));
                assert(models(es@).len() == es@.len());
                if dmg.entries_of(name@).len() <= 1 {
                    assert(filtered.entries_of(name@) == Seq::<EntryModel>::empty());
                    assert(false);
                }
                assert(dmg.entries_of(name@) == filtered.entries_of(name@));
            }
            let report = ConflictReport {
                name: name.clone(),
                entries: clone_entries(es),
                versions,
            };
            let ghost before = out@;
            out.push(report);
            proof {
                assert(report_matches(dmg, out@[before.len() as int]));
                assert forall|k1: int, k2: int|
                    0 <= k1 < k2 < out@.len() implies (#[trigger] out@[k1]).name@ != (
                #[trigger] out@[k2]).name@ by {
                    if k2 == before.len() as int {
                        assert(conflicted_before(filtered, out@[k1].name@, i as int));
                        let j = choose|j: int|
                            0 <= j < i as int && (#[trigger] filtered.spec_pairs()[j]).0@
                                == out@[k1].name@ && is_conflicting(
                                models(filtered.spec_pairs()[j].1@),
                            );
                        assert(filtered.spec_pairs()[j].0@ != filtered.spec_pairs()[
                            i as int
                        ].0@);
                    }
                }
                assert forall|m: Seq<char>|
                    #[trigger] conflicted_before(filtered, m, i as int + 1) <==> exists|k: int|
                        0 <= k < out@.len() && (#[trigger] out@[k]).name@ == m by {
                    if m == name@ {
                        assert(conflicted_before(filtered, m, i as int + 1)) by {
                            assert((#[trigger] filtered.spec_pairs()[i as int]).0@ == m
                                && is_conflicting(models(filtered.spec_pairs()[i as int].1@)));
                        }
                        assert(out@[before.len() as int].name@ == m);
                    } else {
                        if conflicted_before(filtered, m, i as int + 1) {
                            let j = choose|j: int|
                                0 <= j < i as int + 1 && (#[trigger] filtered.spec_pairs()[
                                    j
                                ]).0@ == m && is_conflicting(
                                    models(filtered.spec_pairs()[j].1@),
                                );
                            assert(j < i as int);
                            assert(conflicted_before(filtered, m, i as int));
                        }
                        if exists|k: int|
                            0 <= k < out@.len() && (#[trigger] out@[k]).name@ == m {
                            let k = choose|k: int|
                                0 <= k < out@.len() && (#[trigger] out@[k]).name@ == m;
                            assert(k < before.len());
                            assert(conflicted_before(filtered, m, i as int));
                        }
                        if conflicted_before(filtered, m, i as int) {
                            let k = choose|k: int|
                                0 <= k < before.len() && (#[trigger] before[k]).name@ == m;
                            assert(out@[k].name@ == m);
                        }
                    }
                }
            }
        } else {
            proof {
                assert(!is_conflicting(models(es@)));
                assert forall|m: Seq<char>|
                    #[trigger] conflicted_before(filtered, m, i as int + 1)
                        == conflicted_before(filtered, m, i as int) by {
                    if conflicted_before(filtered, m, i as int + 1) {
                        let j = choose|j: int|
                            0 <= j < i as int + 1 && (#[trigger] filtered.spec_pairs()[j]).0@
                                == m && is_conflicting(models(filtered.spec_pairs()[j].1@));
                        assert(j < i as int);
                    }
                }
            }
        }
        i = i + 1;
    }
    proof {
        assert forall|m: Seq<char>|
            (dmg.contains_name(m) && is_conflicting(dmg.entries_of(m))) <==> exists|k: int|
                0 <= k < out@.len() && (#[trigger] out@[k]).name@ == m by {
            if dmg.contains_name(m) && is_conflicting(dmg.entries_of(m)) {
                let (a, b) = choose|a: int, b: int|
                    0 <= a < dmg.entries_of(m).len() && 0 <= b < dmg.entries_of(m).len() && (
                    #[trigger] dmg.entries_of(m)[a]).version != (#[trigger] dmg.entries_of(
                        m,
                    )[b]).version;
                assert(a != b);
                assert(dmg.entries_of(m).len() > 1);
                assert(filtered.entries_of(m) == dmg.entries_of(m));
                crate::depmap::lemma_lookup_some_key(filtered.spec_pairs(), m);
                let j = choose|j: int|
                    0 <= j < filtered.spec_pairs().len() && (#[trigger] filtered.spec_pairs()[
                        j
                    ]).0@ == m;
                filtered.lemma_entries_at_is_lookup(j);
                assert(conflicted_before(filtered, m, n as int));
            }
            if exists|k: int| 0 <= k < out@.len() && (#[trigger] out@[k]).name@ == m {
                assert(conflicted_before(filtered, m, n as int));
                let j = choose|j: int|
                    0 <= j < n as int && (#[trigger] filtered.spec_pairs()[j]).0@ == m
                        && is_conflicting(models(filtered.spec_pairs()[j].1@));
                filtered.lemma_entries_at_is_lookup(j);
                assert(is_conflicting(filtered.entries_of(m)));
                let (a, b) = choose|a: int, b: int|
                    0 <= a < filtered.entries_of(m).len() && 0 <= b < filtered.entries_of(
                        m,
                    ).len() && (#[trigger] filtered.entries_of(m)[a]).version != (
                    #[trigger] filtered.entries_of(m)[b]).version;
                assert(filtered.entries_of(m).len() > 0);
                if dmg.entries_of(m).len() <= 1 {
                    assert(false);
                }
                assert(dmg.entries_of(m) == filtered.entries_of(m));
            }
        }
    }
    out
}

} // verus!
