//! The dependency map: every declaration of a dependency name across the
//! workspace, keyed by name, each key holding its declarations in the order
//! the members were processed.

use vstd::prelude::*;

verus! {

/// One declaration of a dependency: which member requested it and the
/// normalized version string it asked for.
pub struct DependencyEntry {
    pub project: String,
    pub version: String,
}

/// The mathematical value of a [`DependencyEntry`]: its two strings as
/// character sequences.
pub struct EntryModel {
    pub project: Seq<char>,
    pub version: Seq<char>,
}

impl View for DependencyEntry {
    type V = EntryModel;

    open spec fn view(&self) -> EntryModel {
        EntryModel { project: self.project@, version: self.version@ }
    }
}

/// The entry sequence as entry models.
pub open spec fn models(entries: Seq<DependencyEntry>) -> Seq<EntryModel> {
    entries.map_values(|e: DependencyEntry| e@)
}

/// The list a key holds: the first pair whose name matches, or the empty
/// sequence when no pair does.
pub open spec fn spec_lookup(
    pairs: Seq<(String, Vec<DependencyEntry>)>,
    name: Seq<char>,
) -> Seq<EntryModel>
    decreases pairs.len(),
{
    if pairs.len() == 0 {
        Seq::empty()
    } else if pairs[0].0@ == name {
        models(pairs[0].1@)
    } else {
        spec_lookup(pairs.drop_first(), name)
    }
}

/// Mapping from dependency name to the ordered list of entries that
/// declared it, append-only during aggregation.
pub struct DependencyMap {
    pairs: Vec<(String, Vec<DependencyEntry>)>,
}

impl DependencyMap {
    pub closed spec fn spec_pairs(self) -> Seq<(String, Vec<DependencyEntry>)> {
        self.pairs@
    }

    /// Well-formed: names are unique keys and no key holds an empty list.
    pub open spec fn wf(self) -> bool {
        &&& forall|i: int, j: int|
            0 <= i < j < self.spec_pairs().len()
                ==> self.spec_pairs()[i].0@ != self.spec_pairs()[j].0@
        &&& forall|i: int|
            0 <= i < self.spec_pairs().len() ==> self.spec_pairs()[i].1@.len() > 0
    }

    /// The entries recorded under `name`; empty when the name is absent.
    pub open spec fn entries_of(self, name: Seq<char>) -> Seq<EntryModel> {
        spec_lookup(self.spec_pairs(), name)
    }

    /// Whether any entry was recorded under `name`.
    pub open spec fn contains_name(self, name: Seq<char>) -> bool {
        self.entries_of(name).len() > 0
    }

    pub fn new() -> (r: DependencyMap)
        ensures
            r.wf(),
            forall|n: Seq<char>| r.entries_of(n) == Seq::<EntryModel>::empty(),
    {
        DependencyMap { pairs: Vec::new() }
    }

    pub fn len(&self) -> (r: usize)
        ensures
            r == self.spec_pairs().len(),
    {
        self.pairs.len()
    }

    /// The dependency name of the pair at position `i`.
    pub fn name_at(&self, i: usize) -> (r: &String)
        requires
            i < self.spec_pairs().len(),
        ensures
            r@ == self.spec_pairs()[i as int].0@,
    {
        &self.pairs[i].0
    }

    /// The entry list of the pair at position `i`.
    pub fn entries_at(&self, i: usize) -> (r: &Vec<DependencyEntry>)
        requires
            i < self.spec_pairs().len(),
        ensures
            r@ == self.spec_pairs()[i as int].1@,
    {
        &self.pairs[i].1
    }

    /// The entry list at position `i` is what lookup by its own name finds.
    pub proof fn lemma_entries_at_is_lookup(self, i: int)
        requires
            self.wf(),
            0 <= i < self.spec_pairs().len(),
        ensures
            self.entries_of(self.spec_pairs()[i].0@) == models(self.spec_pairs()[i].1@),
    {
        lemma_lookup_at(self.spec_pairs(), i);
    }

    /// The entries declared under `name`, if any member declared it.
    pub fn get<'a>(&'a self, name: &str) -> (r: Option<&'a Vec<DependencyEntry>>)
        requires
            self.wf(),
        ensures
            match r {
                Some(es) => models(es@) == self.entries_of(name@) && self.contains_name(name@),
                None => !self.contains_name(name@),
            },
    {
        let ghost all = self.spec_pairs();
        proof {
            assert(all.skip(0) =~= all);
        }
        let n = self.pairs.len();
        let mut i: usize = 0;
        while i < n
            invariant
                i <= n,
                n == all.len(),
                all == self.spec_pairs(),
                self.wf(),
                spec_lookup(all, name@) == spec_lookup(all.skip(i as int), name@),
            decreases n - i,
        {
            let key = &self.pairs[i].0;
            if crate::order::string_eq_str(key.as_str(), name) {
                proof {
                    lemma_lookup_skip_head(all, i as int, name@);
                }
                return Some(&self.pairs[i].1);
            }
            proof {
                lemma_lookup_skip_head(all, i as int, name@);
            }
            i = i + 1;
        }
        proof {
            assert(all.skip(n as int) =~= Seq::empty());
        }
        None
    }

    /// Whether any member declared `name`.
    pub fn contains_key(&self, name: &str) -> (r: bool)
        requires
            self.wf(),
        ensures
            r == self.contains_name(name@),
    {
        match self.get(name) {
            Some(_) => true,
            None => false,
        }
    }

    /// Records one more declaration of `name`.
    pub fn append(&mut self, name: &String, entry: DependencyEntry)
        requires
            old(self).wf(),
        ensures
            final(self).wf(),
            final(self).entries_of(name@) == old(self).entries_of(name@).push(entry@),
            forall|n: Seq<char>|
                n != name@ ==> final(self).entries_of(n) == old(self).entries_of(n),
    {
        let ghost all = old(self).spec_pairs();
        let n = self.pairs.len();
        let mut i: usize = 0;
        while i < n
            invariant
                i <= n,
                n == all.len(),
                all == old(self).spec_pairs(),
                self.spec_pairs() == old(self).spec_pairs(),
                old(self).wf(),
                forall|j: int| 0 <= j < i ==> all[j].0@ != name@,
            decreases n - i,
        {
            let key = &self.pairs[i].0;
            if crate::order::string_eq(key, name) {
                self.pairs[i].1.push(entry);
                proof {
                    let upd = self.spec_pairs();
                    let v = upd[i as int];
                    assert(upd == all.update(i as int, v));
                    assert(v.0 == all[i as int].0);
                    assert(v.1@ == all[i as int].1@.push(entry));
                    lemma_lookup_update(all, i as int, v, name@);
                    assert forall|n: Seq<char>| n != name@
                        implies spec_lookup(upd, n) == spec_lookup(all, n) by {
                        lemma_lookup_update(all, i as int, v, n);
                    }
                    lemma_lookup_at(all, i as int);
                    assert(models(v.1@) =~= models(all[i as int].1@).push(entry@));
                    assert forall|j: int, k: int|
                        0 <= j < k < upd.len() implies upd[j].0@ != upd[k].0@ by {
                        assert(upd[j].0@ == all[j].0@);
                        assert(upd[k].0@ == all[k].0@);
                    }
                    assert forall|j: int| 0 <= j < upd.len() implies upd[j].1@.len() > 0 by {
                        if j != i as int {
                            assert(upd[j] == all[j]);
                        }
                    }
                }
                return;
            }
            i = i + 1;
        }
        let mut list: Vec<DependencyEntry> = Vec::new();
        list.push(entry);
        self.pairs.push((name.clone(), list));
        proof {
            let upd = self.spec_pairs();
            let v = upd[all.len() as int];
            assert(upd == all.push(v));
            assert(v.0@ == name@);
            assert(v.1@ == Seq::<DependencyEntry>::empty().push(entry));
            lemma_lookup_push(all, v, name@);
            assert forall|n: Seq<char>| n != name@
                implies spec_lookup(upd, n) == spec_lookup(all, n) by {
                lemma_lookup_push(all, v, n);
            }
            lemma_lookup_absent(all, name@);
            assert(models(v.1@) =~= Seq::<EntryModel>::empty().push(entry@));
            assert forall|j: int, k: int|
                0 <= j < k < upd.len() implies upd[j].0@ != upd[k].0@ by {
                if k < all.len() {
                    assert(upd[j] == all[j]);
                    assert(upd[k] == all[k]);
                } else {
                    assert(upd[j] == all[j]);
                }
            }
            assert forall|j: int| 0 <= j < upd.len() implies upd[j].1@.len() > 0 by {
                if j < all.len() {
                    assert(upd[j] == all[j]);
                }
            }
        }
    }

    /// Records a whole entry list under a name not yet present.
    pub fn insert_list(&mut self, name: &String, entries: Vec<DependencyEntry>)
        requires
            old(self).wf(),
            !old(self).contains_name(name@),
            entries@.len() > 0,
        ensures
            final(self).wf(),
            final(self).entries_of(name@) == models(entries@),
            forall|n: Seq<char>|
                n != name@ ==> final(self).entries_of(n) == old(self).entries_of(n),
    {
        let ghost all = old(self).spec_pairs();
        proof {
            lemma_absent_of_empty_lookup(all, name@);
        }
        self.pairs.push((name.clone(), entries));
        proof {
            let upd = self.spec_pairs();
            let v = upd[all.len() as int];
            assert(upd == all.push(v));
            assert(v.0@ == name@);
            lemma_lookup_push(all, v, name@);
            assert forall|n: Seq<char>| n != name@
                implies spec_lookup(upd, n) == spec_lookup(all, n) by {
                lemma_lookup_push(all, v, n);
            }
            assert forall|j: int, k: int|
                0 <= j < k < upd.len() implies upd[j].0@ != upd[k].0@ by {
                if k < all.len() {
                    assert(upd[j] == all[j]);
                    assert(upd[k] == all[k]);
                } else {
                    assert(upd[j] == all[j]);
                }
            }
            assert forall|j: int| 0 <= j < upd.len() implies upd[j].1@.len() > 0 by {
                if j < all.len() {
                    assert(upd[j] == all[j]);
                }
            }
        }
    }
}

/// A name whose lookup found nothing is carried by no pair, as long as no
/// pair holds an empty list.
proof fn lemma_absent_of_empty_lookup(
    pairs: Seq<(String, Vec<DependencyEntry>)>,
    name: Seq<char>,
)
    requires
        spec_lookup(pairs, name).len() == 0,
        forall|i: int| 0 <= i < pairs.len() ==> (#[trigger] pairs[i]).1@.len() > 0,
    ensures
        forall|j: int| 0 <= j < pairs.len() ==> (#[trigger] pairs[j]).0@ != name,
    decreases pairs.len(),
{
    if pairs.len() > 0 {
        assert(pairs[0].0@ != name);
        assert(forall|j: int|
            0 <= j < pairs.drop_first().len() ==> #[trigger] pairs.drop_first()[j] == pairs[
                j + 1
            ]);
        lemma_absent_of_empty_lookup(pairs.drop_first(), name);
        assert forall|j: int| 1 <= j < pairs.len() implies (#[trigger] pairs[j]).0@ != name by {
            assert(pairs.drop_first()[j - 1] == pairs[j]);
        }
    }
}

/// Copies an entry list, value for value.
pub fn clone_entries(es: &Vec<DependencyEntry>) -> (r: Vec<DependencyEntry>)
    ensures
        r@.len() == es@.len(),
        models(r@) == models(es@),
{
    let mut out: Vec<DependencyEntry> = Vec::new();
    let n = es.len();
    let mut i: usize = 0;
    while i < n
        invariant
            i <= n,
            n == es@.len(),
            out@.len() == i,
            forall|k: int| 0 <= k < i ==> (#[trigger] out@[k])@ == es@[k]@,
        decreases n - i,
    {
        let e = DependencyEntry {
            project: es[i].project.clone(),
            version: es[i].version.clone(),
        };
        out.push(e);
        i = i + 1;
    }
    proof {
        assert(models(out@) =~= models(es@));
    }
    out
}

/// A name whose lookup found entries is carried by some pair.
pub proof fn lemma_lookup_some_key(pairs: Seq<(String, Vec<DependencyEntry>)>, name: Seq<char>)
    requires
        spec_lookup(pairs, name).len() > 0,
    ensures
        exists|j: int| 0 <= j < pairs.len() && (#[trigger] pairs[j]).0@ == name,
    decreases pairs.len(),
{
    if pairs.len() > 0 {
        if pairs[0].0@ == name {
            assert(pairs[0].0@ == name);
        } else {
            lemma_lookup_some_key(pairs.drop_first(), name);
            let j = choose|j: int|
                0 <= j < pairs.drop_first().len() && (#[trigger] pairs.drop_first()[j]).0@
                    == name;
            assert(pairs[j + 1].0@ == name);
        }
    }
}

/// Skipping past a non-matching head pair leaves the lookup unchanged.
proof fn lemma_lookup_skip_head(
    pairs: Seq<(String, Vec<DependencyEntry>)>,
    i: int,
    name: Seq<char>,
)
    requires
        0 <= i < pairs.len(),
    ensures
        pairs[i].0@ == name ==> spec_lookup(pairs.skip(i), name) == models(pairs[i].1@),
        pairs[i].0@ != name ==> spec_lookup(pairs.skip(i), name) == spec_lookup(
            pairs.skip(i + 1),
            name,
        ),
{
    assert(pairs.skip(i)[0] == pairs[i]);
    assert(pairs.skip(i).drop_first() =~= pairs.skip(i + 1));
}

/// Lookup finds no entries for a name that no pair carries.
proof fn lemma_lookup_absent(pairs: Seq<(String, Vec<DependencyEntry>)>, name: Seq<char>)
    requires
        forall|j: int| 0 <= j < pairs.len() ==> pairs[j].0@ != name,
    ensures
        spec_lookup(pairs, name) == Seq::<EntryModel>::empty(),
    decreases pairs.len(),
{
    if pairs.len() > 0 {
        assert(forall|j: int|
            0 <= j < pairs.drop_first().len() ==> #[trigger] pairs.drop_first()[j] == pairs[j + 1]);
        lemma_lookup_absent(pairs.drop_first(), name);
    }
}

/// When names are unique, lookup by the name at position `i` finds the list
/// at position `i`.
proof fn lemma_lookup_at(pairs: Seq<(String, Vec<DependencyEntry>)>, i: int)
    requires
        0 <= i < pairs.len(),
        forall|j: int, k: int| 0 <= j < k < pairs.len() ==> pairs[j].0@ != pairs[k].0@,
    ensures
        spec_lookup(pairs, pairs[i].0@) == models(pairs[i].1@),
    decreases i,
{
    if i > 0 {
        assert(pairs.drop_first()[i - 1] == pairs[i]);
        lemma_lookup_at(pairs.drop_first(), i - 1);
    }
}

/// Replacing the first pair that carries a name changes lookup for that
/// name alone.
proof fn lemma_lookup_update(
    pairs: Seq<(String, Vec<DependencyEntry>)>,
    i: int,
    v: (String, Vec<DependencyEntry>),
    m: Seq<char>,
)
    requires
        0 <= i < pairs.len(),
        v.0@ == pairs[i].0@,
        forall|j: int| 0 <= j < i ==> pairs[j].0@ != pairs[i].0@,
    ensures
        m == pairs[i].0@ ==> spec_lookup(pairs.update(i, v), m) == models(v.1@),
        m != pairs[i].0@ ==> spec_lookup(pairs.update(i, v), m) == spec_lookup(pairs, m),
    decreases i,
{
    let upd = pairs.update(i, v);
    if i == 0 {
        assert(upd[0] == v);
        assert(upd.drop_first() =~= pairs.drop_first());
    } else {
        assert(upd[0] == pairs[0]);
        assert(upd.drop_first() =~= pairs.drop_first().update(i - 1, v));
        assert(forall|j: int|
            0 <= j < i - 1 ==> pairs.drop_first()[j] == pairs[j + 1]);
        lemma_lookup_update(pairs.drop_first(), i - 1, v, m);
    }
}

/// Appending a pair with a fresh name changes lookup for that name alone.
proof fn lemma_lookup_push(
    pairs: Seq<(String, Vec<DependencyEntry>)>,
    v: (String, Vec<DependencyEntry>),
    m: Seq<char>,
)
    requires
        forall|j: int| 0 <= j < pairs.len() ==> pairs[j].0@ != v.0@,
    ensures
        m == v.0@ ==> spec_lookup(pairs.push(v), m) == models(v.1@),
        m != v.0@ ==> spec_lookup(pairs.push(v), m) == spec_lookup(pairs, m),
    decreases pairs.len(),
{
    let ext = pairs.push(v);
    if pairs.len() == 0 {
        assert(ext[0] == v);
        if m != v.0@ {
            assert(ext.drop_first() =~= Seq::empty());
            assert(spec_lookup(ext.drop_first(), m) =~= Seq::empty());
        }
    } else {
        assert(ext[0] == pairs[0]);
        assert(ext.drop_first() =~= pairs.drop_first().push(v));
        assert(forall|j: int|
            0 <= j < pairs.drop_first().len() ==> #[trigger] pairs.drop_first()[j] == pairs[j + 1]);
        lemma_lookup_push(pairs.drop_first(), v, m);
    }
}

} // verus!
