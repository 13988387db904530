use vstd::prelude::*;

verus! {

/// Block indices of the entries strictly increase.
pub open spec fn indices_increasing<V>(s: Seq<(u64, V)>) -> bool {
    forall|i: int, j: int| 0 <= i < j < s.len() ==> s[i].0 < s[j].0
}

/// A push of `index` is accepted: the history is empty or `index` lies past
/// its last stored index.
pub open spec fn accepts_index<V>(s: Seq<(u64, V)>, index: u64) -> bool {
    s.len() == 0 || s.last().0 < index
}

/// The current value: that of the entry with the greatest index.
pub open spec fn current_value<V>(s: Seq<(u64, V)>) -> Option<V> {
    if s.len() == 0 {
        None
    } else {
        Some(s.last().1)
    }
}

/// The value visible at `index`: that of the last entry whose index is at most
/// `index`, if there is one.
pub open spec fn value_at<V>(s: Seq<(u64, V)>, index: u64) -> Option<V>
    decreases s.len(),
{
    if s.len() == 0 {
        None
    } else if s.last().0 <= index {
        Some(s.last().1)
    } else {
        value_at(s.drop_last(), index)
    }
}

/// The history without its entries whose index exceeds `index`.
pub open spec fn reverted<V>(s: Seq<(u64, V)>, index: u64) -> Seq<(u64, V)>
    decreases s.len(),
{
    if s.len() == 0 {
        s
    } else if s.last().0 <= index {
        s
    } else {
        reverted(s.drop_last(), index)
    }
}

/// `k` splits `s` into the entries at or before `index` and those after it.
pub open spec fn splits_at<V>(s: Seq<(u64, V)>, index: u64, k: int) -> bool {
    &&& 0 <= k <= s.len()
    &&& forall|i: int| 0 <= i < k ==> s[i].0 <= index
    &&& forall|i: int| k <= i < s.len() ==> s[i].0 > index
}

proof fn lemma_split_value_and_revert<V>(s: Seq<(u64, V)>, index: u64, k: int)
    requires
        splits_at(s, index, k),
    ensures
        value_at(s, index) == (if k == 0 {
            None::<V>
        } else {
            Some(s[k - 1].1)
        }),
        reverted(s, index) == s.take(k),
    decreases s.len(),
{
    if s.len() == 0 {
        assert(s.take(k) =~= s);
    } else if k == s.len() {
        assert(s.take(k) =~= s);
    } else {
        let t = s.drop_last();
        assert(splits_at(t, index, k));
        lemma_split_value_and_revert(t, index, k);
        assert(t.take(k) =~= s.take(k));
    }
}

/// A value pushed at an accepted index is read back at that index, and it is
/// then the current value: the current value always equals the value at the
/// last pushed index.
pub proof fn lemma_push_then_read<V>(s: Seq<(u64, V)>, index: u64, value: V)
    requires
        indices_increasing(s),
        accepts_index(s, index),
    ensures
        indices_increasing(s.push((index, value))),
        value_at(s.push((index, value)), index) == Some(value),
        current_value(s.push((index, value))) == value_at(s.push((index, value)), index),
{
    let t = s.push((index, value));
    assert(t.drop_last() =~= s);
}

/// The current value of a non-empty history is the value visible at its last
/// index.
pub proof fn lemma_current_is_value_at_last<V>(s: Seq<(u64, V)>)
    requires
        s.len() > 0,
    ensures
        current_value(s) == value_at(s, s.last().0),
{
}

/// After a revert to `index`, a read at any block sees what the history showed
/// at that block if it is at most `index`, and otherwise what it showed at
/// `index`: as if nothing had been pushed past `index`.
pub proof fn lemma_revert_forgets_later<V>(s: Seq<(u64, V)>, index: u64, at: u64)
    requires
        indices_increasing(s),
    ensures
        value_at(reverted(s, index), at) == value_at(
            s,
            if at <= index {
                at
            } else {
                index
            },
        ),
    decreases s.len(),
{
    if s.len() > 0 && s.last().0 > index {
        lemma_revert_forgets_later(s.drop_last(), index, at);
    }
}

/// What a revert to `index` keeps: a prefix of the history, every entry of it
/// at most `index`, every dropped entry past `index`.
pub proof fn lemma_reverted_is_prefix<V>(s: Seq<(u64, V)>, index: u64)
    requires
        indices_increasing(s),
    ensures
        reverted(s, index).len() <= s.len(),
        reverted(s, index) == s.take(reverted(s, index).len() as int),
        forall|i: int| 0 <= i < reverted(s, index).len() ==> s[i].0 <= index,
        forall|i: int| reverted(s, index).len() <= i < s.len() ==> s[i].0 > index,
    decreases s.len(),
{
    if s.len() == 0 {
        assert(s.take(0) =~= s);
    } else if s.last().0 <= index {
        assert(s.take(s.len() as int) =~= s);
        assert forall|i: int| 0 <= i < s.len() implies s[i].0 <= index by {
            if i < s.len() - 1 {
                assert(s[i].0 < s[s.len() - 1].0);
            }
        }
    } else {
        let t = s.drop_last();
        lemma_reverted_is_prefix(t, index);
        let k = reverted(t, index).len() as int;
        assert(t.take(k) =~= s.take(k));
        assert forall|i: int| 0 <= i < k implies s[i].0 <= index by {
            assert(s[i] == t[i]);
        }
        assert forall|i: int| k <= i < s.len() implies s[i].0 > index by {
            if i < s.len() - 1 {
                assert(s[i] == t[i]);
            }
        }
    }
}

/// Reverting twice to the same index leaves what reverting once left.
pub proof fn lemma_revert_idempotent<V>(s: Seq<(u64, V)>, index: u64)
    ensures
        reverted(reverted(s, index), index) == reverted(s, index),
    decreases s.len(),
{
    if s.len() > 0 && s.last().0 > index {
        lemma_revert_idempotent(s.drop_last(), index);
    }
}

/// An ordered, sparse history of the values of one field, indexed by block.
#[derive(Debug)]
pub struct History<V> {
    entries: Vec<(u64, V)>,
}

impl<V> View for History<V> {
    type V = Seq<(u64, V)>;

    closed spec fn view(&self) -> Seq<(u64, V)> {
        self.entries@
    }
}

impl<V> History<V> {
    /// The history is well formed: its indices strictly increase.
    pub open spec fn wf(&self) -> bool {
        indices_increasing(self@)
    }

    /// An empty history.
    pub fn new() -> (r: Self)
        ensures
            r.wf(),
            r@ == Seq::<(u64, V)>::empty(),
    {
        History { entries: Vec::new() }
    }

    /// Number of stored entries.
    pub fn len(&self) -> (r: usize)
        ensures
            r == self@.len(),
    {
        self.entries.len()
    }

    /// The stored entries, oldest first.
    pub fn entries(&self) -> (r: &Vec<(u64, V)>)
        ensures
            r@ == self@,
    {
        &self.entries
    }

    /// Appends `value` at `index`. Fails, leaving the history as it was, when
    /// `index` does not lie past the last stored index.
    pub fn push(&mut self, index: u64, value: V) -> (r: Result<(), ()>)
        requires
            old(self).wf(),
        ensures
            final(self).wf(),
            r is Ok <==> accepts_index(old(self)@, index),
            r is Ok ==> final(self)@ == old(self)@.push((index, value)),
            r is Err ==> final(self)@ == old(self)@,
    {
        let n = self.entries.len();
        if n > 0 && self.entries[n - 1].0 >= index {
            return Err(());
        }
        self.entries.push((index, value));
        Ok(())
    }

    /// Number of leading entries whose index is at most `index`.
    fn split_point(&self, index: u64) -> (k: usize)
        requires
            self.wf(),
        ensures
            splits_at(self@, index, k as int),
    {
        let mut lo: usize = 0;
        let mut hi: usize = self.entries.len();
        while lo < hi
            invariant
                self.wf(),
                0 <= lo <= hi <= self@.len(),
                forall|i: int| 0 <= i < lo ==> self@[i].0 <= index,
                forall|i: int| hi <= i < self@.len() ==> self@[i].0 > index,
            decreases hi - lo,
        {
            let mid = lo + (hi - lo) / 2;
            if self.entries[mid].0 <= index {
                lo = mid + 1;
            } else {
                hi = mid;
            }
        }
        lo
    }

    /// The current value, held by the entry with the greatest index.
    pub fn get(&self) -> (r: Option<&V>)
        ensures
            match r {
                Some(v) => current_value(self@) == Some(*v),
                None => current_value(self@) is None,
            },
    {
        let n = self.entries.len();
        if n == 0 {
            None
        } else {
            Some(&self.entries[n - 1].1)
        }
    }

    /// The value as of block `index`: that of the last entry whose index is at
    /// most `index`.
    pub fn get_at(&self, index: u64) -> (r: Option<&V>)
        requires
            self.wf(),
        ensures
            match r {
                Some(v) => value_at(self@, index) == Some(*v),
                None => value_at(self@, index) is None,
            },
    {
        let k = self.split_point(index);
        proof {
            lemma_split_value_and_revert(self@, index, k as int);
        }
        if k == 0 {
            None
        } else {
            Some(&self.entries[k - 1].1)
        }
    }

    /// Drops every entry whose index exceeds `index`.
    pub fn revert_to(&mut self, index: u64)
        requires
            old(self).wf(),
        ensures
            final(self).wf(),
            final(self)@ == reverted(old(self)@, index),
    {
        let k = self.split_point(index);
        proof {
            lemma_split_value_and_revert(self@, index, k as int);
        }
        self.entries.truncate(k);
    }

    /// The history holds no entry.
    pub fn is_empty(&self) -> (r: bool)
        ensures
            r <==> self@.len() == 0,
    {
        self.entries.len() == 0
    }
}

} // verus!
