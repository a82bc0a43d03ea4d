//! A table keyed by unit name that keeps its entries in the order in which
//! their names first came in.

use crate::unit::{name_views, UnitName, UnitNameView};
use vstd::prelude::*;

verus! {

/// What a table holds: the names in order, and the value under each name.
#[verifier::ext_equal]
pub struct TableView<T> {
    pub order: Seq<UnitNameView>,
    pub entries: Map<UnitNameView, T>,
}

impl<T> TableView<T> {
    /// No name occurs twice, and the names are exactly those with a value.
    pub open spec fn wf(self) -> bool {
        &&& self.order.no_duplicates()
        &&& forall|name: UnitNameView| self.entries.contains_key(name) <==> self.order.contains(name)
    }

    pub open spec fn empty() -> Self {
        TableView { order: Seq::empty(), entries: Map::empty() }
    }

    pub open spec fn contains(self, name: UnitNameView) -> bool {
        self.entries.contains_key(name)
    }

    pub open spec fn get(self, name: UnitNameView) -> Option<T> {
        if self.entries.contains_key(name) {
            Some(self.entries[name])
        } else {
            None
        }
    }

    /// The table with `value` under `name`: a new name goes to the end, a
    /// known name keeps its place.
    pub open spec fn insert(self, name: UnitNameView, value: T) -> Self {
        TableView {
            order: if self.entries.contains_key(name) {
                self.order
            } else {
                self.order.push(name)
            },
            entries: self.entries.insert(name, value),
        }
    }

    /// The table without `name`; the other names keep their order.
    pub open spec fn remove(self, name: UnitNameView) -> Self {
        TableView {
            order: if self.entries.contains_key(name) {
                self.order.remove(self.order.index_of(name))
            } else {
                self.order
            },
            entries: self.entries.remove(name),
        }
    }

    /// Inserting keeps the table well formed.
    pub proof fn lemma_insert_wf(self, name: UnitNameView, value: T)
        requires
            self.wf(),
        ensures
            self.insert(name, value).wf(),
    {
        let after = self.insert(name, value);
        if !self.entries.contains_key(name) {
            assert forall|n: UnitNameView| after.entries.contains_key(n) <==> after.order.contains(
                n,
            ) by {
                if n == name {
                    assert(after.order[self.order.len() as int] == name);
                } else if self.order.contains(n) {
                    let i = choose|i: int| 0 <= i < self.order.len() && self.order[i] == n;
                    assert(after.order[i] == n);
                } else if after.order.contains(n) {
                    let i = choose|i: int| 0 <= i < after.order.len() && after.order[i] == n;
                    assert(self.order[i] == n);
                }
            }
            assert(!self.order.contains(name));
            assert forall|a: int, b: int|
                0 <= a < after.order.len() && 0 <= b < after.order.len() && a != b implies after.order[a]
                != after.order[b] by {
                if a < self.order.len() {
                    assert(self.order[a] == after.order[a]);
                }
                if b < self.order.len() {
                    assert(self.order[b] == after.order[b]);
                }
            }
        } else {
            assert(self.order.contains(name));
            assert(after.entries.dom() =~= self.entries.dom());
        }
    }

    /// Removing keeps the table well formed.
    pub proof fn lemma_remove_wf(self, name: UnitNameView)
        requires
            self.wf(),
        ensures
            self.remove(name).wf(),
            !self.remove(name).order.contains(name),
    {
        let after = self.remove(name);
        if self.entries.contains_key(name) {
            let at = self.order.index_of(name);
            assert(self.order.contains(name));
            assert(0 <= at < self.order.len() && self.order[at] == name);
            assert forall|n: UnitNameView| after.entries.contains_key(n) <==> after.order.contains(
                n,
            ) by {
                if after.order.contains(n) {
                    let i = choose|i: int| 0 <= i < after.order.len() && after.order[i] == n;
                    if i < at {
                        assert(self.order[i] == n);
                    } else {
                        assert(self.order[i + 1] == n);
                    }
                }
                if n != name && self.order.contains(n) {
                    let i = choose|i: int| 0 <= i < self.order.len() && self.order[i] == n;
                    if i < at {
                        assert(after.order[i] == n);
                    } else {
                        assert(after.order[i - 1] == n);
                    }
                }
            }
        }
    }
}

/// A table from unit names to values of `T`.
pub struct UnitTable<T> {
    names: Vec<UnitName>,
    values: Vec<T>,
}

impl<T: View> View for UnitTable<T> {
    type V = TableView<T::V>;

    closed spec fn view(&self) -> TableView<T::V> {
        let order = name_views(self.names@);
        TableView {
            order,
            entries: Map::new(
                |name: UnitNameView| order.contains(name),
                |name: UnitNameView| self.values@[order.index_of(name)]@,
            ),
        }
    }
}

impl<T: View> UnitTable<T> {
    /// The table's invariant: one value for each name, and no name twice.
    pub closed spec fn wf(&self) -> bool {
        &&& self.names.len() == self.values.len()
        &&& name_views(self.names@).no_duplicates()
    }

    /// A well-formed table has a well-formed view.
    pub proof fn lemma_view_wf(&self)
        requires
            self.wf(),
        ensures
            self@.wf(),
    {
    }

    proof fn lemma_slot(&self, i: int)
        requires
            self.wf(),
            0 <= i < self.names.len(),
        ensures
            self@.order[i] == self.names@[i]@,
            self@.order.len() == self.names.len(),
            self@.entries.contains_key(self.names@[i]@),
            self@.entries[self.names@[i]@] == self.values@[i]@,
            self@.order.index_of(self.names@[i]@) == i,
    {
        let order = name_views(self.names@);
        assert(order[i] == self.names@[i]@);
        assert(order.contains(self.names@[i]@));
        let j = order.index_of(self.names@[i]@);
        assert(0 <= j < order.len() && order[j] == order[i]);
    }

    pub fn new() -> (table: Self)
        ensures
            table.wf(),
            table@ == TableView::<T::V>::empty(),
    {
        let table = UnitTable { names: Vec::new(), values: Vec::new() };
        assert(table@.entries =~= Map::empty());
        assert(table@.order =~= Seq::empty());
        table
    }

    pub fn len(&self) -> (n: usize)
        requires
            self.wf(),
        ensures
            n == self@.order.len(),
    {
        self.names.len()
    }

    pub fn is_empty(&self) -> (r: bool)
        requires
            self.wf(),
        ensures
            r == (self@.order.len() == 0),
    {
        self.names.len() == 0
    }

    /// The name in place `i`.
    pub fn name_at(&self, i: usize) -> (name: &UnitName)
        requires
            self.wf(),
            i < self@.order.len(),
        ensures
            name@ == self@.order[i as int],
    {
        proof {
            self.lemma_slot(i as int);
        }
        &self.names[i]
    }

    /// The value in place `i`.
    pub fn value_at(&self, i: usize) -> (value: &T)
        requires
            self.wf(),
            i < self@.order.len(),
        ensures
            self@.entries.contains_key(self@.order[i as int]),
            value@ == self@.entries[self@.order[i as int]],
    {
        proof {
            self.lemma_slot(i as int);
        }
        &self.values[i]
    }

    /// The place of `name`, if the table holds it.
    pub fn position(&self, name: &UnitName) -> (found: Option<usize>)
        requires
            self.wf(),
        ensures
            match found {
                Some(i) => i < self@.order.len() && self@.order[i as int] == name@
                    && self@.order.index_of(name@) == i && self@.entries.contains_key(name@),
                None => !self@.entries.contains_key(name@),
            },
    {
        let mut i: usize = 0;
        while i < self.names.len()
            invariant
                self.wf(),
                i <= self.names.len(),
                forall|j: int| 0 <= j < i ==> self.names@[j]@ != name@,
            decreases self.names.len() - i,
        {
            if self.names[i].same(name) {
                proof {
                    self.lemma_slot(i as int);
                }
                return Some(i);
            }
            i += 1;
        }
        proof {
            let order = name_views(self.names@);
            if order.contains(name@) {
                let j = choose|j: int| 0 <= j < order.len() && order[j] == name@;
                assert(self.names@[j]@ == name@);
            }
        }
        None
    }

    pub fn contains(&self, name: &UnitName) -> (r: bool)
        requires
            self.wf(),
        ensures
            r == self@.contains(name@),
    {
        self.position(name).is_some()
    }

    pub fn get(&self, name: &UnitName) -> (value: Option<&T>)
        requires
            self.wf(),
        ensures
            match value {
                Some(v) => self@.get(name@) == Some(v@),
                None => self@.get(name@).is_none(),
            },
    {
        match self.position(name) {
            Some(i) => {
                proof {
                    self.lemma_slot(i as int);
                }
                Some(&self.values[i])
            },
            None => None,
        }
    }

    /// Puts `value` under `name` and hands back what stood there before.
    pub fn insert(&mut self, name: UnitName, value: T) -> (previous: Option<T>)
        requires
            old(self).wf(),
        ensures
            final(self).wf(),
            final(self)@ == old(self)@.insert(name@, value@),
            match previous {
                Some(p) => old(self)@.get(name@) == Some(p@),
                None => old(self)@.get(name@).is_none(),
            },
    {
        match self.position(&name) {
            Some(i) => {
                proof {
                    self.lemma_slot(i as int);
                }
                let ghost before = *self;
                let previous = self.values.remove(i);
                self.values.insert(i, value);
                proof {
                    assert(self.values@ == before.values@.update(i as int, value));
                    let order = name_views(self.names@);
                    assert(self@.order == before@.order);
                    assert forall|n: UnitNameView| #[trigger]
                        self@.entries.contains_key(n) implies self@.entries[n]
                        == before@.insert(name@, value@).entries[n] by {
                        let j = order.index_of(n);
                        assert(0 <= j < order.len() && order[j] == n);
                        if n == name@ {
                            assert(j == i);
                        } else {
                            assert(j != i);
                        }
                    }
                    assert(self@.entries =~= before@.insert(name@, value@).entries);
                }
                Some(previous)
            },
            None => {
                let ghost before = *self;
                let ghost key = name@;
                let ghost item = value@;
                self.names.push(name);
                self.values.push(value);
                proof {
                    let order = name_views(self.names@);
                    let old_order = name_views(before.names@);
                    assert(order =~= old_order.push(key));
                    assert(!old_order.contains(key));
                    assert(order.no_duplicates());
                    assert forall|n: UnitNameView|
                        self@.entries.contains_key(n) <==> before@.insert(
                            key,
                            item,
                        ).entries.contains_key(n) by {
                        if n == key {
                            assert(order[old_order.len() as int] == key);
                        } else if old_order.contains(n) {
                            let j = choose|j: int| 0 <= j < old_order.len() && old_order[j] == n;
                            assert(order[j] == n);
                        } else if order.contains(n) {
                            let j = choose|j: int| 0 <= j < order.len() && order[j] == n;
                            assert(old_order[j] == n);
                        }
                    }
                    assert forall|n: UnitNameView| #[trigger]
                        self@.entries.contains_key(n) implies self@.entries[n] == before@.insert(
                        key,
                        item,
                    ).entries[n] by {
                        let j = order.index_of(n);
                        assert(0 <= j < order.len() && order[j] == n);
                        if n != key {
                            let k = old_order.index_of(n);
                            assert(old_order.contains(n));
                            assert(0 <= k < old_order.len() && old_order[k] == n);
                            assert(order[k] == n);
                            assert(j == k);
                        } else {
                            assert(order[old_order.len() as int] == key);
                            assert(j == old_order.len());
                        }
                    }
                    assert(self@.entries =~= before@.insert(key, item).entries);
                }
                None
            },
        }
    }

    /// Takes `name` out and hands back what stood under it.
    pub fn remove(&mut self, name: &UnitName) -> (removed: Option<T>)
        requires
            old(self).wf(),
        ensures
            final(self).wf(),
            final(self)@ == old(self)@.remove(name@),
            match removed {
                Some(r) => old(self)@.get(name@) == Some(r@),
                None => old(self)@.get(name@).is_none(),
            },
    {
        match self.position(name) {
            Some(i) => {
                proof {
                    self.lemma_slot(i as int);
                }
                let ghost before = *self;
                self.names.remove(i);
                let removed = self.values.remove(i);
                proof {
                    let order = name_views(self.names@);
                    let old_order = name_views(before.names@);
                    assert(order =~= old_order.remove(i as int));
                    assert(order.no_duplicates()) by {
                        assert forall|a: int, b: int|
                            0 <= a < order.len() && 0 <= b < order.len() && a != b implies order[a]
                            != order[b] by {
                            let a0 = if a < i { a } else { a + 1 };
                            let b0 = if b < i { b } else { b + 1 };
                            assert(order[a] == old_order[a0]);
                            assert(order[b] == old_order[b0]);
                        }
                    }
                    before@.lemma_remove_wf(name@);
                    assert forall|n: UnitNameView| #[trigger]
                        self@.entries.contains_key(n) implies self@.entries[n] == before@.remove(
                        name@,
                    ).entries[n] by {
                        let j = order.index_of(n);
                        assert(0 <= j < order.len() && order[j] == n);
                        let j0 = if j < i { j } else { j + 1 };
                        assert(old_order[j0] == n);
                        assert(old_order.contains(n));
                        let k = old_order.index_of(n);
                        assert(0 <= k < old_order.len() && old_order[k] == n);
                        assert(k == j0);
                    }
                    assert(self@.entries =~= before@.remove(name@).entries);
                }
                Some(removed)
            },
            None => {
                assert(self@.entries =~= self@.remove(name@).entries);
                None
            },
        }
    }

    /// Empties the table.
    pub fn clear(&mut self)
        ensures
            final(self).wf(),
            final(self)@ == TableView::<T::V>::empty(),
    {
        self.names.clear();
        self.values.clear();
        assert(self@.entries =~= Map::empty());
        assert(self@.order =~= Seq::empty());
    }
}

} // verus!
