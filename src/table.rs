//! A table keyed by text, kept in order of first insertion.
use vstd::prelude::*;
use crate::m2::M2Area;
use crate::text::same_text;

verus! {

/// A map from text keys to values; each key occurs once, and the entries keep
/// the order in which their keys were first inserted.
pub struct StrMap<V> {
    entries: Vec<(String, V)>,
}

impl<V> StrMap<V> {
    /// The entries, keys as character sequences, in order.
    pub closed spec fn pairs(&self) -> Seq<(Seq<char>, V)> {
        self.entries@.map_values(|e: (String, V)| (e.0@, e.1))
    }

    /// The keys, in order.
    pub open spec fn key_seq(&self) -> Seq<Seq<char>> {
        self.pairs().map_values(|e: (Seq<char>, V)| e.0)
    }

    /// The values, in order.
    pub open spec fn value_seq(&self) -> Seq<V> {
        self.pairs().map_values(|e: (Seq<char>, V)| e.1)
    }

    /// No key occurs twice.
    pub open spec fn wf(&self) -> bool {
        forall|i: int, j: int|
            0 <= i < self.pairs().len() && 0 <= j < self.pairs().len() && i != j
                ==> #[trigger] self.pairs()[i].0 != #[trigger] self.pairs()[j].0
    }

    /// The table as a mathematical map.
    pub open spec fn map(&self) -> Map<Seq<char>, V> {
        Map::new(
            |k: Seq<char>| exists|i: int| 0 <= i < self.pairs().len() && #[trigger] self.pairs()[i].0 == k,
            |k: Seq<char>|
                self.pairs()[choose|i: int| 0 <= i < self.pairs().len() && #[trigger] self.pairs()[i].0 == k].1,
        )
    }

    /// In a well-formed table, the entry at `i` is what the map holds for its key.
    pub proof fn lemma_entry(&self, i: int)
        requires
            self.wf(),
            0 <= i < self.pairs().len(),
        ensures
            self.map().contains_key(self.pairs()[i].0),
            self.map()[self.pairs()[i].0] == self.pairs()[i].1,
    {
        let k = self.pairs()[i].0;
        assert(self.map().dom().contains(k));
        let j = choose|j: int| 0 <= j < self.pairs().len() && #[trigger] self.pairs()[j].0 == k;
        assert(j == i);
    }

    pub fn new() -> (r: Self)
        ensures
            r.wf(),
            r.pairs().len() == 0,
            r.map() == Map::<Seq<char>, V>::empty(),
    {
        let r = StrMap { entries: Vec::new() };
        assert(r.map() =~= Map::<Seq<char>, V>::empty());
        r
    }

    /// The number of entries.
    pub fn len(&self) -> (r: usize)
        ensures
            r == self.pairs().len(),
    {
        self.entries.len()
    }

    /// The key of the entry at `i`.
    pub fn key_at(&self, i: usize) -> (r: &String)
        requires
            i < self.pairs().len(),
        ensures
            r@ == self.pairs()[i as int].0,
    {
        &self.entries[i].0
    }

    /// The value of the entry at `i`.
    pub fn value_at(&self, i: usize) -> (r: &V)
        requires
            i < self.pairs().len(),
        ensures
            *r == self.pairs()[i as int].1,
    {
        &self.entries[i].1
    }

    /// The place of `key`, if it is present.
    pub fn find(&self, key: &str) -> (r: Option<usize>)
        requires
            self.wf(),
        ensures
            r.is_none() ==> !self.map().contains_key(key@),
            r.is_none() ==> forall|i: int| 0 <= i < self.pairs().len() ==> #[trigger] self.pairs()[i].0 != key@,
            r.is_some() ==> r.unwrap() < self.pairs().len() && self.pairs()[r.unwrap() as int].0 == key@,
    {
        let mut i: usize = 0;
        while i < self.entries.len()
            invariant
                i <= self.entries@.len(),
                forall|j: int| 0 <= j < i ==> #[trigger] self.pairs()[j].0 != key@,
            decreases self.entries.len() - i,
        {
            assert(self.pairs()[i as int].0 == self.entries@[i as int].0@);
            if same_text(self.entries[i].0.as_str(), key) {
                return Some(i);
            }
            i = i + 1;
        }
        None
    }

    /// The value held for `key`.
    pub fn get(&self, key: &str) -> (r: Option<&V>)
        requires
            self.wf(),
        ensures
            r.is_some() == self.map().contains_key(key@),
            r.is_some() ==> *r.unwrap() == self.map()[key@],
    {
        match self.find(key) {
            Some(i) => {
                proof {
                    self.lemma_entry(i as int);
                }
                Some(&self.entries[i].1)
            },
            None => None,
        }
    }

    /// Sets the value of `key`; a new key goes after the others.
    pub fn insert(&mut self, key: String, value: V)
        requires
            old(self).wf(),
        ensures
            final(self).wf(),
            final(self).map() == old(self).map().insert(key@, value),
    {
        let ghost k = key@;
        let ghost mut at: int = 0;
        match self.find(key.as_str()) {
            Some(i) => {
                proof { at = i as int; }
                self.entries.set(i, (key, value));
                assert(self.pairs() =~= old(self).pairs().update(i as int, (k, value)));
            },
            None => {
                proof { at = old(self).pairs().len() as int; }
                self.entries.push((key, value));
                assert(self.pairs() =~= old(self).pairs().push((k, value)));
            },
        }
        assert(self.wf());
        assert forall|x: Seq<char>| #[trigger] self.map().contains_key(x) == old(self).map().insert(k, value).contains_key(x) by {
            if old(self).map().contains_key(x) && x != k {
                let j = choose|j: int| 0 <= j < old(self).pairs().len() && #[trigger] old(self).pairs()[j].0 == x;
                assert(self.pairs()[j].0 == x);
            }
            if x == k {
                assert(self.pairs()[at].0 == k);
            }
            if self.map().contains_key(x) && x != k {
                let j = choose|j: int| 0 <= j < self.pairs().len() && #[trigger] self.pairs()[j].0 == x;
                assert(old(self).pairs()[j].0 == x);
            }
        }
        assert forall|x: Seq<char>| #[trigger] self.map().contains_key(x) implies self.map()[x] == old(self).map().insert(k, value)[x] by {
            let j = choose|j: int| 0 <= j < self.pairs().len() && #[trigger] self.pairs()[j].0 == x;
            self.lemma_entry(j);
            if x != k {
                old(self).lemma_entry(j);
            }
        }
        assert(self.map() =~= old(self).map().insert(k, value));
    }

    /// Removes `key` and hands back its value, if present; the other entries
    /// keep their order.
    pub fn take(&mut self, key: &str) -> (r: Option<V>)
        requires
            old(self).wf(),
        ensures
            final(self).wf(),
            final(self).map() == old(self).map().remove(key@),
            r.is_some() == old(self).map().contains_key(key@),
            r.is_some() ==> r.unwrap() == old(self).map()[key@],
    {
        let ghost k = key@;
        match self.find(key) {
            Some(i) => {
                proof {
                    old(self).lemma_entry(i as int);
                }
                let (_, v) = self.entries.remove(i);
                assert(self.pairs() =~= old(self).pairs().remove(i as int));
                assert(self.wf());
                assert forall|x: Seq<char>| #[trigger] self.map().contains_key(x) == old(self).map().remove(k).contains_key(x) by {
                    if old(self).map().contains_key(x) && x != k {
                        let j = choose|j: int| 0 <= j < old(self).pairs().len() && #[trigger] old(self).pairs()[j].0 == x;
                        if j < i {
                            assert(self.pairs()[j].0 == x);
                        } else {
                            assert(j != i);
                            assert(self.pairs()[j - 1].0 == x);
                        }
                    }
                    if self.map().contains_key(x) {
                        let j = choose|j: int| 0 <= j < self.pairs().len() && #[trigger] self.pairs()[j].0 == x;
                        if j < i {
                            assert(old(self).pairs()[j].0 == x);
                        } else {
                            assert(old(self).pairs()[j + 1].0 == x);
                        }
                    }
                }
                assert forall|x: Seq<char>| #[trigger] self.map().contains_key(x) implies self.map()[x] == old(self).map().remove(k)[x] by {
                    let j = choose|j: int| 0 <= j < self.pairs().len() && #[trigger] self.pairs()[j].0 == x;
                    self.lemma_entry(j);
                    if j < i {
                        old(self).lemma_entry(j);
                    } else {
                        old(self).lemma_entry(j + 1);
                    }
                }
                assert(self.map() =~= old(self).map().remove(k));
                Some(v)
            },
            None => {
                assert(old(self).map().remove(k) =~= old(self).map());
                None
            },
        }
    }
}

/// One table for each area.
pub struct AreaTables<V> {
    frontend: StrMap<V>,
    adminhtml: StrMap<V>,
    base: StrMap<V>,
}

impl<V> AreaTables<V> {
    /// The table of area `a`.
    pub closed spec fn table(&self, a: M2Area) -> StrMap<V> {
        match a {
            M2Area::Frontend => self.frontend,
            M2Area::Adminhtml => self.adminhtml,
            M2Area::Base => self.base,
        }
    }

    pub open spec fn wf(&self) -> bool {
        &&& self.table(M2Area::Frontend).wf()
        &&& self.table(M2Area::Adminhtml).wf()
        &&& self.table(M2Area::Base).wf()
    }

    pub fn new() -> (r: Self)
        ensures
            r.wf(),
            forall|a: M2Area| #[trigger] r.table(a).map() == Map::<Seq<char>, V>::empty(),
            forall|a: M2Area| #[trigger] r.table(a).pairs().len() == 0,
    {
        AreaTables { frontend: StrMap::new(), adminhtml: StrMap::new(), base: StrMap::new() }
    }

    /// The table of area `a`.
    pub fn at(&self, a: M2Area) -> (r: &StrMap<V>)
        ensures
            *r == self.table(a),
    {
        match a {
            M2Area::Frontend => &self.frontend,
            M2Area::Adminhtml => &self.adminhtml,
            M2Area::Base => &self.base,
        }
    }

    /// Sets `key` to `value` in the table of `a`.
    pub fn insert(&mut self, a: M2Area, key: String, value: V)
        requires
            old(self).wf(),
        ensures
            final(self).wf(),
            final(self).table(a).map() == old(self).table(a).map().insert(key@, value),
            forall|b: M2Area| b != a ==> #[trigger] final(self).table(b) == old(self).table(b),
    {
        match a {
            M2Area::Frontend => self.frontend.insert(key, value),
            M2Area::Adminhtml => self.adminhtml.insert(key, value),
            M2Area::Base => self.base.insert(key, value),
        }
    }

    /// Removes `key` from the table of `a` and hands back its value.
    pub fn take(&mut self, a: M2Area, key: &str) -> (r: Option<V>)
        requires
            old(self).wf(),
        ensures
            final(self).wf(),
            final(self).table(a).map() == old(self).table(a).map().remove(key@),
            forall|b: M2Area| b != a ==> #[trigger] final(self).table(b) == old(self).table(b),
            r.is_some() == old(self).table(a).map().contains_key(key@),
            r.is_some() ==> r.unwrap() == old(self).table(a).map()[key@],
    {
        match a {
            M2Area::Frontend => self.frontend.take(key),
            M2Area::Adminhtml => self.adminhtml.take(key),
            M2Area::Base => self.base.take(key),
        }
    }
}

} // verus!
