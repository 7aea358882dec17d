//! The token store that the interpreter owns when it runs without a blackboard.

use crate::occurrences::{
    after_get, after_tell, ask_answer, ask_in, from_entries, get_in, nask_answer, nask_in,
    saturating_succ, stored, tell_in, views_of,
};
use vstd::hash_map::StringHashMap;
use vstd::prelude::*;

verus! {

/// The operations of a store that its one owner changes in place.
pub trait BachTStoreTrait {
    /// The multiset held: each known token with its occurrence count.
    spec fn counts(&self) -> Map<Seq<char>, u32>;

    /// Adds one occurrence of `token`. Always succeeds.
    fn tell(&mut self, token: String) -> (res: bool)
        ensures
            res,
            final(self).counts() == after_tell(old(self).counts(), token@),
    ;

    /// Says whether at least one occurrence of `token` is there. The store stays
    /// as it is.
    fn ask(&mut self, token: &str) -> (res: bool)
        ensures
            res == ask_answer(old(self).counts(), token@),
            final(self).counts() == old(self).counts(),
    ;

    /// Removes one occurrence of `token` and answers `true`, or answers `false`
    /// and changes nothing where there is none.
    fn get(&mut self, token: String) -> (res: bool)
        ensures
            res == ask_answer(old(self).counts(), token@),
            final(self).counts() == after_get(old(self).counts(), token@),
    ;

    /// Says whether no occurrence of `token` is there. The store stays as it is.
    fn nask(&mut self, token: &str) -> (res: bool)
        ensures
            res == nask_answer(old(self).counts(), token@),
            final(self).counts() == old(self).counts(),
    ;

    /// Removes every entry.
    fn clear_store(&mut self)
        ensures
            final(self).counts() == Map::<Seq<char>, u32>::empty(),
    ;
}

/// A store that keeps the number of occurrences of each token in a hash map.
pub struct BachTStore {
    the_store: StringHashMap<u32>,
}

impl BachTStoreTrait for BachTStore {
    closed spec fn counts(&self) -> Map<Seq<char>, u32> {
        self.the_store@
    }

    fn tell(&mut self, token: String) -> (res: bool) {
        tell_in(&mut self.the_store, token)
    }

    fn ask(&mut self, token: &str) -> (res: bool) {
        ask_in(&self.the_store, token)
    }

    fn get(&mut self, token: String) -> (res: bool) {
        get_in(&mut self.the_store, token)
    }

    fn nask(&mut self, token: &str) -> (res: bool) {
        nask_in(&self.the_store, token)
    }

    fn clear_store(&mut self) {
        self.the_store.clear();
    }
}

impl BachTStore {
    /// An empty store.
    pub fn new() -> (res: BachTStore)
        ensures
            res.counts() == Map::<Seq<char>, u32>::empty(),
    {
        BachTStore { the_store: StringHashMap::new() }
    }

    /// A store that holds `data`: each pair is a token and its count, and of two
    /// pairs with one token the later stands.
    pub fn new_with_data(data: Vec<(String, u32)>) -> (res: BachTStore)
        ensures
            res.counts() == from_entries(views_of(data@)),
    {
        let mut res = BachTStore::new();
        let mut i: usize = 0;
        while i < data.len()
            invariant
                i <= data.len(),
                res.counts() == from_entries(views_of(data@.take(i as int))),
            decreases data.len() - i,
        {
            let token = data[i].0.clone();
            let count = data[i].1;
            proof {
                let upto = data@.take(i as int + 1);
                assert(upto.drop_last() == data@.take(i as int));
                assert(views_of(upto).drop_last() == views_of(upto.drop_last()));
            }
            res.the_store.insert(token, count);
            i += 1;
        }
        proof {
            assert(data@.take(data.len() as int) == data@);
        }
        res
    }

    /// Adds one to `nbr` unless it is the largest count.
    pub fn safe_inc(nbr: u32) -> (res: u32)
        ensures
            res == saturating_succ(nbr),
    {
        crate::occurrences::safe_inc(nbr)
    }

    /// The count kept under `token`, or `None` where the store has no such key.
    pub fn occurrences(&self, token: &str) -> (res: Option<u32>)
        ensures
            res == (if self.counts().contains_key(token@) {
                Some(self.counts()[token@])
            } else {
                None
            }),
    {
        stored(&self.the_store, token)
    }

    /// Says whether the store has no key at all.
    pub fn is_empty(&self) -> (res: bool)
        ensures
            res == self.counts().is_empty(),
    {
        self.the_store.is_empty()
    }
}

} // verus!
