//! Maps from symbols, walked in the order in which symbols came in.

use vstd::hash_map::StringHashMap;
use vstd::prelude::*;

use crate::text::texts;

verus! {

/// A map from symbols to values that remembers the order of its symbols.
#[verifier::reject_recursive_types(V)]
pub struct SymbolMap<V> {
    slots: StringHashMap<usize>,
    names: Vec<String>,
    values: Vec<V>,
}

impl<V> View for SymbolMap<V> {
    type V = Map<Seq<char>, V>;

    closed spec fn view(&self) -> Map<Seq<char>, V> {
        Map::new(|k: Seq<char>| self.slots@.contains_key(k), |k: Seq<char>| self.values@[self.slots@[k] as int])
    }
}

impl<V> SymbolMap<V> {
    /// The symbols, oldest first.
    pub closed spec fn order(&self) -> Seq<Seq<char>> {
        texts(self.names@)
    }

    /// Every symbol has its own slot.
    pub closed spec fn well_formed(&self) -> bool {
        &&& self.names@.len() == self.values@.len()
        &&& forall|k: Seq<char>| #[trigger]
            self.slots@.contains_key(k) ==> self.slots@[k] < self.names@.len() && self.names@[self.slots@[k] as int]@
                == k
        &&& forall|i: int|
            0 <= i < self.names@.len() ==> self.slots@.contains_key((#[trigger] self.names@[i])@)
                && self.slots@[self.names@[i]@] == i
    }

    /// A map without symbols.
    pub fn new() -> (r: Self)
        ensures
            r.well_formed(),
            r@ == Map::<Seq<char>, V>::empty(),
            r.order() == Seq::<Seq<char>>::empty(),
    {
        let r = SymbolMap { slots: StringHashMap::new(), names: Vec::new(), values: Vec::new() };
        assert(r@ =~= Map::<Seq<char>, V>::empty());
        assert(r.order() =~= Seq::<Seq<char>>::empty());
        r
    }

    /// Sets the value of a symbol. A new symbol comes last.
    pub fn insert(&mut self, symbol: &str, value: V)
        requires
            old(self).well_formed(),
        ensures
            final(self).well_formed(),
            final(self)@ == old(self)@.insert(symbol@, value),
            final(self).order() == (if old(self)@.contains_key(symbol@) {
                old(self).order()
            } else {
                old(self).order().push(symbol@)
            }),
    {
        match self.slots.get(symbol) {
            Some(slot) => {
                let at: usize = *slot;
                self.values.set(at, value);
                proof {
                    assert(self@ =~= old(self)@.insert(symbol@, value));
                }
            },
            None => {
                let at: usize = self.values.len();
                let name: String = symbol.to_owned();
                self.slots.insert(symbol.to_owned(), at);
                self.names.push(name);
                self.values.push(value);
                proof {
                    assert forall|i: int| 0 <= i < self.names@.len() implies self.slots@.contains_key(
                        (#[trigger] self.names@[i])@,
                    ) && self.slots@[self.names@[i]@] == i by {
                        if i < at {
                            assert(self.names@[i] == old(self).names@[i]);
                            assert(old(self).slots@.contains_key(old(self).names@[i]@));
                        }
                    }
                    assert(self@ =~= old(self)@.insert(symbol@, value));
                    assert(self.order() =~= old(self).order().push(symbol@));
                }
            },
        }
    }

    /// The value of a symbol, where it has one.
    pub fn get(&self, symbol: &str) -> (r: Option<&V>)
        requires
            self.well_formed(),
        ensures
            match r {
                Some(v) => self@.contains_key(symbol@) && *v == self@[symbol@],
                None => !self@.contains_key(symbol@),
            },
    {
        match self.slots.get(symbol) {
            Some(slot) => Some(&self.values[*slot]),
            None => None,
        }
    }

    /// The place of a symbol's value, where it has one, for it to be changed.
    pub fn get_mut(&mut self, symbol: &str) -> (r: Option<&mut V>)
        requires
            old(self).well_formed(),
        ensures
            final(self).well_formed(),
            final(self).order() == old(self).order(),
            match r {
                Some(v) => {
                    &&& old(self)@.contains_key(symbol@)
                    &&& *v == old(self)@[symbol@]
                    &&& final(self)@ == old(self)@.insert(symbol@, *final(v))
                },
                None => !old(self)@.contains_key(symbol@) && final(self)@ == old(self)@,
            },
    {
        match self.slots.get(symbol) {
            Some(slot) => {
                let at: usize = *slot;
                Some(&mut self.values[at])
            },
            None => None,
        }
    }

    /// Does the symbol have a value?
    pub fn contains_key(&self, symbol: &str) -> (r: bool)
        requires
            self.well_formed(),
        ensures
            r == self@.contains_key(symbol@),
    {
        self.slots.contains_key(symbol)
    }

    /// The number of symbols.
    pub fn len(&self) -> (r: usize)
        requires
            self.well_formed(),
        ensures
            r == self.order().len(),
    {
        self.names.len()
    }

    /// The name of the symbol at a place of the order.
    pub fn name(&self, i: usize) -> (r: &String)
        requires
            self.well_formed(),
            i < self.order().len(),
        ensures
            r@ == self.order()[i as int],
    {
        &self.names[i]
    }

    /// The value of the symbol at a place of the order.
    pub fn value(&self, i: usize) -> (r: &V)
        requires
            self.well_formed(),
            i < self.order().len(),
        ensures
            *r == self@[self.order()[i as int]],
    {
        assert(self.slots@.contains_key(self.names@[i as int]@));
        &self.values[i]
    }

    /// The symbols, oldest first.
    pub fn symbols(&self) -> (r: Vec<String>)
        requires
            self.well_formed(),
        ensures
            texts(r@) == self.order(),
    {
        let mut out: Vec<String> = Vec::new();
        let mut i: usize = 0;
        while i < self.names.len()
            invariant
                0 <= i <= self.names@.len(),
                out@ == self.names@.take(i as int),
            decreases self.names@.len() - i,
        {
            out.push(self.names[i].clone());
            assert(out@ =~= self.names@.take(i + 1));
            i += 1;
        }
        assert(out@ =~= self.names@);
        out
    }

    /// The order holds each symbol once.
    pub proof fn order_is_domain(&self)
        requires
            self.well_formed(),
        ensures
            self.order().no_duplicates(),
            forall|k: Seq<char>| self.order().contains(k) <==> #[trigger] self@.contains_key(k),
    {
        assert forall|i: int, j: int| 0 <= i < j < self.order().len() implies self.order()[i] != self.order()[j] by {
            assert(self.slots@[self.names@[i]@] == i);
            assert(self.slots@[self.names@[j]@] == j);
        }
        assert forall|k: Seq<char>| self.order().contains(k) <==> #[trigger] self@.contains_key(k) by {
            if self@.contains_key(k) {
                let i = self.slots@[k] as int;
                assert(self.names@[i]@ == k);
                assert(self.order()[i] == k);
            }
            if self.order().contains(k) {
                let i = choose|i: int| 0 <= i < self.order().len() && self.order()[i] == k;
                assert(self.slots@.contains_key(self.names@[i]@));
            }
        }
    }
}

} // verus!
