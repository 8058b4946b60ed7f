//! A growable, never-empty sequence with a cursor that wraps in both directions.
use vstd::prelude::*;
use vstd::arithmetic::div_mod::{lemma_mod_self_0, lemma_small_mod};

verus! {

/// Index after moving forward by one on a ring of `len` slots.
pub open spec fn next_index(i: nat, len: nat) -> nat
    recommends
        len > 0,
{
    (i + 1) % len
}

/// Index after moving backward by one on a ring of `len` slots.
pub open spec fn prev_index(i: nat, len: nat) -> nat
    recommends
        len > 0,
{
    if i == 0 {
        (len - 1) as nat
    } else {
        (i - 1) as nat
    }
}

pub struct CursorVec<T> {
    index: usize,
    vec: Vec<T>,
}

impl<T> CursorVec<T> {
    /// The items, in insertion order.
    pub closed spec fn items(&self) -> Seq<T> {
        self.vec@
    }

    /// The position of the cursor.
    pub closed spec fn cursor(&self) -> nat {
        self.index as nat
    }

    /// Never empty, and the cursor always names an item.
    pub closed spec fn wf(&self) -> bool {
        &&& self.vec@.len() > 0
        &&& self.index < self.vec@.len()
    }

    pub fn new(first: T) -> (r: CursorVec<T>)
        ensures
            r.wf(),
            r.items() == seq![first],
            r.cursor() == 0,
    {
        let mut vec: Vec<T> = Vec::new();
        vec.push(first);
        CursorVec { index: 0, vec }
    }

    /// The item under the cursor.
    pub fn get(&self) -> (r: &T)
        requires
            self.wf(),
        ensures
            *r == self.items()[self.cursor() as int],
    {
        &self.vec[self.index]
    }

    pub fn next(&mut self)
        requires
            old(self).wf(),
        ensures
            final(self).wf(),
            final(self).items() == old(self).items(),
            final(self).cursor() == next_index(old(self).cursor(), old(self).items().len()),
    {
        let len = self.vec.len();
        self.index = if self.index + 1 < len {
            self.index + 1
        } else {
            0
        };
        proof {
            lemma_step_round_trip(old(self).index as nat, len as nat);
        }
    }

    pub fn prev(&mut self)
        requires
            old(self).wf(),
        ensures
            final(self).wf(),
            final(self).items() == old(self).items(),
            final(self).cursor() == prev_index(old(self).cursor(), old(self).items().len()),
    {
        if self.index == 0 {
            self.index = self.vec.len() - 1;
        } else {
            self.index = self.index - 1;
        }
    }

    /// The item that the sequence was created with.
    pub fn first(&self) -> (r: &T)
        requires
            self.wf(),
        ensures
            *r == self.items()[0],
    {
        &self.vec[0]
    }

    pub fn wrapping_seek(&mut self, index: usize)
        requires
            old(self).wf(),
        ensures
            final(self).wf(),
            final(self).items() == old(self).items(),
            final(self).cursor() == index as nat % old(self).items().len(),
    {
        self.index = index % self.vec.len();
    }

    /// The item at `index`, without moving the cursor.
    pub fn try_get_at(&self, index: usize) -> (r: Option<&T>)
        ensures
            index < self.items().len() ==> r == Some(&self.items()[index as int]),
            index >= self.items().len() ==> r is None,
    {
        if index < self.vec.len() {
            Some(&self.vec[index])
        } else {
            None
        }
    }

    pub fn push(&mut self, item: T)
        requires
            old(self).wf(),
        ensures
            final(self).wf(),
            final(self).items() == old(self).items().push(item),
            final(self).cursor() == old(self).cursor(),
    {
        self.vec.push(item);
    }
}

/// Stepping forward then backward, or backward then forward, puts the cursor
/// back where it was; both steps stay inside the sequence.
pub proof fn lemma_step_round_trip(i: nat, len: nat)
    requires
        i < len,
    ensures
        next_index(i, len) < len,
        prev_index(i, len) < len,
        prev_index(next_index(i, len), len) == i,
        next_index(prev_index(i, len), len) == i,
{
    if i + 1 < len {
        lemma_small_mod((i + 1) as nat, len);
    } else {
        lemma_mod_self_0(len as int);
    }
    if i == 0 {
        lemma_mod_self_0(len as int);
    } else {
        lemma_small_mod(i, len);
    }
}

} // verus!
