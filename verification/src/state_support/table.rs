//! A map from 32-bit numbers, seen as the map of what its values stand for.

use std::collections::BTreeMap;
use vstd::laws_cmp::{obeys_cmp, obeys_cmp_ord, obeys_cmp_partial_ord, obeys_partial_cmp_spec_properties};
use vstd::laws_eq::obeys_eq_spec_properties;
use vstd::prelude::*;
use vstd::std_specs::btree::increasing_seq;
use vstd::std_specs::cmp::OrdSpec;
use vstd::std_specs::iter::IteratorSpec;

verus! {

broadcast use vstd::std_specs::btree::group_btree_axioms;

/// A map from 32-bit numbers.
#[derive(Debug)]
pub struct Table<V> {
    entries: BTreeMap<u32, V>,
}

/// References to numbers are ordered as the numbers are.
proof fn lemma_reference_order()
    ensures
        obeys_cmp::<&u32>(),
{
    reveal(obeys_eq_spec_properties);
    reveal(obeys_partial_cmp_spec_properties);
    reveal(obeys_cmp_partial_ord);
    reveal(obeys_cmp_ord);
}

/// The map of what the values of a map stand for.
pub open spec fn viewed<V: View>(m: Map<u32, V>) -> Map<u32, V::V> {
    m.map_values(|v: V| v@)
}

impl<V: View> View for Table<V> {
    type V = Map<u32, V::V>;

    closed spec fn view(&self) -> Map<u32, V::V> {
        viewed(self.entries@)
    }
}

impl<V: View> Table<V> {
    /// A table without entries.
    pub fn new() -> (r: Self)
        ensures
            r@ == Map::<u32, V::V>::empty(),
    {
        let r = Table { entries: BTreeMap::new() };
        proof {
            assert(r@ =~= Map::<u32, V::V>::empty());
        }
        r
    }

    /// The number of entries.
    pub fn len(&self) -> (r: usize)
        ensures
            r == self@.len(),
            self@.dom().finite(),
    {
        proof {
            assert(self@.dom() =~= self.entries@.dom());
        }
        self.entries.len()
    }

    /// The entry of a number.
    pub fn get(&self, k: u32) -> (r: Option<&V>)
        ensures
            match r {
                Some(v) => self@.contains_key(k) && self@[k] == v@,
                None => !self@.contains_key(k),
            },
    {
        self.entries.get(&k)
    }

    /// Whether a number has an entry.
    pub fn contains(&self, k: u32) -> (r: bool)
        ensures
            r == self@.contains_key(k),
    {
        self.entries.contains_key(&k)
    }

    /// Sets the entry of a number.
    pub fn insert(&mut self, k: u32, v: V)
        ensures
            final(self)@ == old(self)@.insert(k, v@),
    {
        let _before = self.entries.insert(k, v);
        proof {
            assert(self@ =~= old(self)@.insert(k, v@));
        }
    }

    /// Takes the entry of a number out.
    pub fn remove(&mut self, k: u32) -> (r: V)
        requires
            old(self)@.contains_key(k),
        ensures
            r@ == old(self)@[k],
            final(self)@ == old(self)@.remove(k),
    {
        let out = self.entries.remove(&k);
        proof {
            assert(self@ =~= old(self)@.remove(k));
        }
        out.unwrap()
    }

    /// The numbers, in ascending order.
    pub fn keys(&self) -> (r: Vec<u32>)
        ensures
            is_keys(r@, self@),
            r@.len() == self@.len(),
    {
        let mut out: Vec<u32> = Vec::new();
        let keys = self.entries.keys();
        let ghost all = keys.remaining();
        for k in it: keys
            invariant
                it.seq() == all,
                out@.len() == it.index(),
                forall|j: int| 0 <= j < it.index() ==> #[trigger] out@[j] == *all[j],
        {
            out.push(*k);
        }
        proof {
            assert(self@.dom() =~= self.entries@.dom());
            assert(out@ =~= all.unref());
            assert forall|k: u32| #[trigger] out@.contains(k) == self@.contains_key(k) by {
                assert(all.unref().to_set().contains(k) == self.entries@.dom().contains(k));
            }
            lemma_reference_order();
            assert(increasing_seq(all));
            assert forall|a: int, b: int| 0 <= a < b < out@.len() implies (#[trigger] out@[a]) < (#[trigger] out@[b]) by {
                assert(OrdSpec::cmp_spec(&all[a], &all[b]) is Less);
            }
        }
        out
    }
}

/// The numbers of a map, in ascending order.
pub open spec fn is_keys<W>(v: Seq<u32>, m: Map<u32, W>) -> bool {
    &&& forall|a: int, b: int| 0 <= a < b < v.len() ==> (#[trigger] v[a]) < (#[trigger] v[b])
    &&& forall|k: u32| #[trigger] v.contains(k) == m.contains_key(k)
}

} // verus!
