//! A thread's own context: its slot in the registry and the objects it has
//! retired, oldest first.

use vstd::prelude::*;
use crate::registry::MAX_THREADS;

verus! {

/// Length of a thread's garbage sequence from which a retirement tries to
/// advance the global epoch.
pub const RECLAIM_THRESHOLD: usize = 64;

/// An object that was unlinked from the shared structure, with the epoch at
/// which it was retired. Whoever holds the value owns the object.
#[derive(Debug)]
pub struct Retired<T> {
    pub object: T,
    pub epoch: usize,
}

/// A thread's context as a mathematical value.
pub struct LocalView<T> {
    pub slot: usize,
    pub garbage: Seq<Retired<T>>,
}

/// A thread's context. Only the thread itself touches it.
pub struct LocalData<T> {
    index: usize,
    local_garbage: Vec<Retired<T>>,
}

/// An object retired at `retired_epoch` may be handed out for destruction
/// once the global epoch is `new_epoch`: two generations lie between them.
pub open spec fn reclaimable(retired_epoch: usize, new_epoch: usize) -> bool {
    retired_epoch + 1 < new_epoch
}

/// The entries that a sweep at `new_epoch` takes out.
pub open spec fn is_due<T>(new_epoch: usize) -> spec_fn(Retired<T>) -> bool {
    |r: Retired<T>| reclaimable(r.epoch, new_epoch)
}

/// The entries that a sweep at `new_epoch` leaves in.
pub open spec fn is_not_due<T>(new_epoch: usize) -> spec_fn(Retired<T>) -> bool {
    |r: Retired<T>| !reclaimable(r.epoch, new_epoch)
}

/// What a sweep at `new_epoch` hands out, in the order of retirement.
pub open spec fn reclaimed<T>(garbage: Seq<Retired<T>>, new_epoch: usize) -> Seq<Retired<T>> {
    garbage.filter(is_due(new_epoch))
}

/// What a sweep at `new_epoch` leaves behind, in the order of retirement.
pub open spec fn kept<T>(garbage: Seq<Retired<T>>, new_epoch: usize) -> Seq<Retired<T>> {
    garbage.filter(is_not_due(new_epoch))
}

/// Whether an object retired at `retired_epoch` may be destroyed at
/// `new_epoch`.
pub fn is_reclaimable(retired_epoch: usize, new_epoch: usize) -> (due: bool)
    ensures
        due == reclaimable(retired_epoch, new_epoch),
{
    retired_epoch < new_epoch && retired_epoch + 1 < new_epoch
}

impl<T> View for LocalData<T> {
    type V = LocalView<T>;

    closed spec fn view(&self) -> LocalView<T> {
        LocalView { slot: self.index, garbage: self.local_garbage@ }
    }
}

impl<T> LocalData<T> {
    /// The slot is one of the registry's.
    pub open spec fn wf(&self) -> bool {
        self@.slot < MAX_THREADS
    }

    /// The context of a thread that has just taken slot `index`.
    pub fn new(index: usize) -> (local: LocalData<T>)
        requires
            index < MAX_THREADS,
        ensures
            local.wf(),
            local@.slot == index,
            local@.garbage == Seq::<Retired<T>>::empty(),
    {
        LocalData { index, local_garbage: Vec::new() }
    }

    /// The thread's slot in the registry.
    pub fn index(&self) -> (index: usize)
        ensures
            index == self@.slot,
    {
        self.index
    }

    /// Number of retired objects that wait.
    pub fn garbage_len(&self) -> (len: usize)
        ensures
            len == self@.garbage.len(),
    {
        self.local_garbage.len()
    }

    /// Epoch at which the `k`-th waiting object was retired.
    pub fn retired_epoch(&self, k: usize) -> (epoch: usize)
        requires
            k < self@.garbage.len(),
        ensures
            epoch == self@.garbage[k as int].epoch,
    {
        self.local_garbage[k].epoch
    }

    /// Appends an object to the garbage sequence.
    pub fn defer(&mut self, object: T, epoch: usize)
        ensures
            final(self)@.slot == old(self)@.slot,
            final(self)@.garbage == old(self)@.garbage.push(Retired { object, epoch }),
    {
        self.local_garbage.push(Retired { object, epoch });
    }

    /// Takes out of the garbage sequence every object that may be destroyed
    /// at `new_epoch` and hands them to the caller. Both what leaves and what
    /// stays keep the order of retirement.
    pub fn sweep(&mut self, new_epoch: usize) -> (freed: Vec<Retired<T>>)
        ensures
            final(self)@.slot == old(self)@.slot,
            final(self)@.garbage == kept(old(self)@.garbage, new_epoch),
            freed@ == reclaimed(old(self)@.garbage, new_epoch),
    {
        let ghost orig = self.local_garbage@;
        let ghost mut seen: int = 0;
        let mut freed: Vec<Retired<T>> = Vec::new();
        let mut i: usize = 0;
        proof {
            assert(orig.take(0) =~= Seq::empty());
            assert(orig.skip(0) =~= orig);
            reveal(Seq::filter);
            assert(kept(orig.take(0), new_epoch) =~= Seq::empty());
            assert(reclaimed(orig.take(0), new_epoch) =~= Seq::empty());
        }
        while i < self.local_garbage.len()
            invariant
                0 <= seen <= orig.len(),
                self.index == old(self).index,
                i == kept(orig.take(seen), new_epoch).len(),
                self.local_garbage@ =~= kept(orig.take(seen), new_epoch) + orig.skip(seen),
                freed@ == reclaimed(orig.take(seen), new_epoch),
            decreases orig.len() - seen,
        {
            proof {
                assert(orig.take(seen + 1) =~= orig.take(seen).push(orig[seen]));
                orig.take(seen).lemma_filter_push(orig[seen], is_due(new_epoch));
                orig.take(seen).lemma_filter_push(orig[seen], is_not_due(new_epoch));
                assert(self.local_garbage@[i as int] == orig[seen]);
            }
            if is_reclaimable(self.local_garbage[i].epoch, new_epoch) {
                let r = self.local_garbage.remove(i);
                freed.push(r);
            } else {
                i += 1;
            }
            proof {
                seen = seen + 1;
            }
        }
        proof {
            assert(orig.take(seen) =~= orig);
        }
        freed
    }

    /// Gives up the context and hands every waiting object to the caller, in
    /// the order of retirement.
    pub fn drain(self) -> (freed: Vec<Retired<T>>)
        ensures
            freed@ == self@.garbage,
    {
        self.local_garbage
    }
}

} // verus!
