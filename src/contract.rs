use vstd::prelude::*;

use crate::felt::Felt;
use crate::history::{
    accepts_index, current_value, indices_increasing, reverted, value_at, History,
};

verus! {

/// The class hash and nonce histories of one contract.
#[derive(Debug)]
pub struct Contract {
    class_hash: History<Felt>,
    nonce: History<Felt>,
}

impl View for Contract {
    /// The class hash history, then the nonce history.
    type V = (Seq<(u64, Felt)>, Seq<(u64, Felt)>);

    closed spec fn view(&self) -> (Seq<(u64, Felt)>, Seq<(u64, Felt)>) {
        (self.class_hash@, self.nonce@)
    }
}

impl Contract {
    /// Both histories are well formed.
    pub open spec fn wf(&self) -> bool {
        indices_increasing(self@.0) && indices_increasing(self@.1)
    }

    /// A record with two empty histories.
    pub fn new() -> (r: Self)
        ensures
            r.wf(),
            r@.0 == Seq::<(u64, Felt)>::empty(),
            r@.1 == Seq::<(u64, Felt)>::empty(),
    {
        Contract { class_hash: History::new(), nonce: History::new() }
    }

    /// The class hash history.
    pub fn class_hash_history(&self) -> (r: &History<Felt>)
        ensures
            r@ == self@.0,
    {
        &self.class_hash
    }

    /// The nonce history.
    pub fn nonce_history(&self) -> (r: &History<Felt>)
        ensures
            r@ == self@.1,
    {
        &self.nonce
    }

    /// The record made of the given histories.
    pub fn from_histories(class_hash: History<Felt>, nonce: History<Felt>) -> (r: Self)
        ensures
            r@ == (class_hash@, nonce@),
    {
        Contract { class_hash, nonce }
    }

    /// Records `class_hash` at block `index`; fails, changing nothing, when
    /// `index` does not lie past the last recorded class hash.
    pub fn push_class_hash(&mut self, index: u64, class_hash: Felt) -> (r: Result<(), ()>)
        requires
            old(self).wf(),
        ensures
            final(self).wf(),
            final(self)@.1 == old(self)@.1,
            r is Ok <==> accepts_index(old(self)@.0, index),
            r is Ok ==> final(self)@.0 == old(self)@.0.push((index, class_hash)),
            r is Err ==> final(self)@.0 == old(self)@.0,
    {
        self.class_hash.push(index, class_hash)
    }

    /// The current class hash.
    pub fn get_class_hash(&self) -> (r: Option<&Felt>)
        ensures
            match r {
                Some(v) => current_value(self@.0) == Some(*v),
                None => current_value(self@.0) is None,
            },
    {
        self.class_hash.get()
    }

    /// The class hash as of block `index`.
    pub fn get_class_hash_at(&self, index: u64) -> (r: Option<&Felt>)
        requires
            self.wf(),
        ensures
            match r {
                Some(v) => value_at(self@.0, index) == Some(*v),
                None => value_at(self@.0, index) is None,
            },
    {
        self.class_hash.get_at(index)
    }

    /// Records `nonce` at block `index`; fails, changing nothing, when `index`
    /// does not lie past the last recorded nonce.
    pub fn push_nonce(&mut self, index: u64, nonce: Felt) -> (r: Result<(), ()>)
        requires
            old(self).wf(),
        ensures
            final(self).wf(),
            final(self)@.0 == old(self)@.0,
            r is Ok <==> accepts_index(old(self)@.1, index),
            r is Ok ==> final(self)@.1 == old(self)@.1.push((index, nonce)),
            r is Err ==> final(self)@.1 == old(self)@.1,
    {
        self.nonce.push(index, nonce)
    }

    /// The current nonce.
    pub fn get_nonce(&self) -> (r: Option<&Felt>)
        ensures
            match r {
                Some(v) => current_value(self@.1) == Some(*v),
                None => current_value(self@.1) is None,
            },
    {
        self.nonce.get()
    }

    /// The nonce as of block `index`.
    pub fn get_nonce_at(&self, index: u64) -> (r: Option<&Felt>)
        requires
            self.wf(),
        ensures
            match r {
                Some(v) => value_at(self@.1, index) == Some(*v),
                None => value_at(self@.1, index) is None,
            },
    {
        self.nonce.get_at(index)
    }

    /// Drops from both histories every entry past block `index`.
    pub fn revert_to(&mut self, index: u64)
        requires
            old(self).wf(),
        ensures
            final(self).wf(),
            final(self)@.0 == reverted(old(self)@.0, index),
            final(self)@.1 == reverted(old(self)@.1, index),
    {
        self.class_hash.revert_to(index);
        self.nonce.revert_to(index);
    }

    /// Neither history holds an entry.
    pub fn is_empty(&self) -> (r: bool)
        ensures
            r <==> self@.0.len() == 0 && self@.1.len() == 0,
    {
        self.class_hash.is_empty() && self.nonce.is_empty()
    }
}

} // verus!
