//! A generic single-slot-or-more pushback adapter over any pull-based
//! producer of items.  The scanner uses it over characters; it is the
//! uniform lookahead primitive of the crate.

use vstd::prelude::*;

verus! {

/// A pull-based producer of items of type `T`.
///
/// `remaining` is an abstract measure of how much the producer still has to
/// hand out; it funds termination of every loop that drains a producer.
/// `can_produce` is the producer's own promise about one call: it relates
/// the state before the call, the item handed out and the state after.
pub trait Producer<T>: Sized {
    /// How much this producer still has to hand out.
    spec fn remaining(&self) -> nat;

    /// The producer's contract for one call of `produce`.
    spec fn can_produce(&self, r: Option<T>, next: &Self) -> bool;

    /// Every produced item makes progress: the measure shrinks on `Some`
    /// and never grows.
    proof fn produce_progress(&self, r: Option<T>, next: &Self)
        requires
            self.can_produce(r, next),
        ensures
            r is Some ==> next.remaining() < self.remaining(),
            r is None ==> next.remaining() <= self.remaining(),
    ;

    /// Hand out the next item, if any.
    fn produce(&mut self) -> (r: Option<T>)
        ensures
            old(self).can_produce(r, final(self)),
    ;
}

/// Wraps a producer with a stack of pushed-back items.  `pop` returns the
/// most recently pushed-back item if there is one, and pulls from the
/// producer otherwise; `push` stores an item for the next `pop`, in LIFO
/// order.
pub struct BufferedIterator<T, TIter: Producer<T>> {
    itr: TIter,
    buf: Vec<T>,
}

impl<T, TIter: Producer<T>> BufferedIterator<T, TIter> {
    /// The pushed-back items, oldest first (so the next `pop` returns the
    /// last element).
    pub closed spec fn buffered(&self) -> Seq<T> {
        self.buf@
    }

    /// The wrapped producer.
    pub closed spec fn producer(&self) -> TIter {
        self.itr
    }

    /// Joint measure of the buffer and the producer; shrinks on every
    /// successful `pop` and grows by one on every `push`.
    pub open spec fn measure(&self) -> nat {
        self.buffered().len() + self.producer().remaining()
    }

    pub fn new(itr: TIter) -> (r: BufferedIterator<T, TIter>)
        ensures
            r.buffered() == Seq::<T>::empty(),
            r.producer() == itr,
    {
        BufferedIterator { itr, buf: Vec::new() }
    }

    pub fn pop(&mut self) -> (r: Option<T>)
        ensures
            old(self).buffered().len() > 0 ==> {
                &&& r == Some(old(self).buffered().last())
                &&& final(self).buffered() == old(self).buffered().drop_last()
                &&& final(self).producer() == old(self).producer()
            },
            old(self).buffered().len() == 0 ==> {
                &&& final(self).buffered().len() == 0
                &&& old(self).producer().can_produce(r, &final(self).producer())
            },
            r is Some ==> final(self).measure() < old(self).measure(),
            r is None ==> final(self).measure() <= old(self).measure(),
    {
        if self.buf.len() == 0 {
            let r = self.itr.produce();
            proof {
                old(self).producer().produce_progress(r, &self.itr);
            }
            r
        } else {
            self.buf.pop()
        }
    }

    pub fn push(&mut self, item: T)
        ensures
            final(self).buffered() == old(self).buffered().push(item),
            final(self).producer() == old(self).producer(),
            final(self).measure() == old(self).measure() + 1,
    {
        self.buf.push(item);
    }
}

} // verus!
