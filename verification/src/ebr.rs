//! The operations of the protocol: pin and release, retirement, the attempt
//! to advance the global epoch, and a thread's leave.

use vstd::prelude::*;
use crate::garbage::{kept, reclaimed, LocalData, LocalView, Retired, RECLAIM_THRESHOLD};
use crate::laws::lemma_attempt_releases_in_time;
use crate::registry::{next_epoch, EBRThread, GlobalEBR, RegistryView, MAX_THREADS, UNPINNED_EPOCH};

verus! {

/// What a guard certifies: its thread's slot and the epoch it pinned at.
pub struct GuardView {
    pub slot: usize,
    pub epoch: usize,
}

/// The token of an active pin. While a thread holds it, the thread may follow
/// pointers that it read from the shared structure after `pin` returned.
/// `release` ends the pin; a guard that is dropped without it leaves the
/// thread pinned.
#[must_use]
#[derive(Debug)]
pub struct Guard {
    index: usize,
    epoch: usize,
}

impl View for Guard {
    type V = GuardView;

    closed spec fn view(&self) -> GuardView {
        GuardView { slot: self.index, epoch: self.epoch }
    }
}

impl Guard {
    #[verifier::type_invariant]
    spec fn slot_in_range(self) -> bool {
        self.index < MAX_THREADS
    }

    /// The epoch that the thread pinned at.
    pub fn epoch(&self) -> (epoch: usize)
        ensures
            epoch == self@.epoch,
    {
        self.epoch
    }

    /// The slot of the thread that pinned.
    pub fn index(&self) -> (index: usize)
        ensures
            index == self@.slot,
            index < MAX_THREADS,
    {
        proof {
            use_type_invariant(self);
        }
        self.index
    }

    /// Ends the pin: the thread's slot reads `UNPINNED_EPOCH` again. Nothing
    /// else in the registry changes.
    pub fn release(self, global: &mut GlobalEBR)
        ensures
            self@.slot < MAX_THREADS,
            final(global)@ == old(global)@.unpin(self@.slot as int),
            final(global)@.slots[self@.slot as int].local_epoch == UNPINNED_EPOCH,
    {
        proof {
            use_type_invariant(&self);
        }
        let active: bool = global.threads[self.index].active;
        global.threads[self.index] = EBRThread { active, local_epoch: UNPINNED_EPOCH };
        assert(global@.slots =~= old(global)@.unpin(self@.slot as int).slots);
    }
}

/// Every object of `freed` was retired before the epoch at which any
/// registered thread is pinned in `registry`.
pub open spec fn released_in_time<T>(registry: RegistryView, freed: Seq<Retired<T>>) -> bool {
    forall|k: int, i: int|
        0 <= k < freed.len() && 0 <= i < registry.slots.len() && (
        #[trigger] registry.slots[i]).is_pinned() ==> (#[trigger] freed[k]).epoch
            < registry.slots[i].local_epoch
}

/// The registry after an attempt to advance it: one epoch further, unless a
/// registered thread is pinned at an earlier epoch.
pub open spec fn after_attempt(registry: RegistryView) -> RegistryView {
    if registry.advance_blocked() {
        registry
    } else {
        registry.advance()
    }
}

/// What an attempt on `registry` leaves of `garbage`.
pub open spec fn kept_by_attempt<T>(registry: RegistryView, garbage: Seq<Retired<T>>) -> Seq<
    Retired<T>,
> {
    if registry.advance_blocked() {
        garbage
    } else {
        kept(garbage, next_epoch(registry.epoch))
    }
}

/// What an attempt on `registry` hands out of `garbage`.
pub open spec fn freed_by_attempt<T>(registry: RegistryView, garbage: Seq<Retired<T>>) -> Seq<
    Retired<T>,
> {
    if registry.advance_blocked() {
        Seq::empty()
    } else {
        reclaimed(garbage, next_epoch(registry.epoch))
    }
}

/// Registers the calling thread: takes the first slot that nobody owns, marks
/// it owned and not pinned, and gives the thread a context with that slot and
/// no garbage. Returns the slot.
///
/// A registry without a free slot is a fault of configuration; `GlobalEBR::find_free_slot`
/// tells beforehand.
pub fn auto_register_thread<T>(global: &mut GlobalEBR, local: &mut Option<LocalData<T>>) -> (index:
    usize)
    requires
        old(global)@.has_free_slot(),
        *old(local) is None,
    ensures
        old(global)@.is_first_free(index as int),
        final(global)@ == old(global)@.claim(index as int),
        *final(local) matches Some(ld) && ld.wf() && ld@ == (LocalView {
            slot: index,
            garbage: Seq::<Retired<T>>::empty(),
        }),
{
    let found = global.find_free_slot();
    let index: usize = found.unwrap();
    global.threads[index] = EBRThread { active: true, local_epoch: UNPINNED_EPOCH };
    assert(global@.slots =~= old(global)@.claim(index as int).slots);
    *local = Some(LocalData::new(index));
    index
}

/// Pins the calling thread: registers it first if it has no context yet, then
/// publishes the global epoch in its slot. The guard holds the slot and that
/// epoch.
pub fn pin<T>(global: &mut GlobalEBR, local: &mut Option<LocalData<T>>) -> (guard: Guard)
    requires
        *old(local) is None ==> old(global)@.has_free_slot(),
        *old(local) matches Some(ld) ==> ld.wf(),
    ensures
        guard@.slot < MAX_THREADS,
        guard@.epoch == old(global)@.epoch,
        *final(local) matches Some(ld) && ld.wf() && ld@.slot == guard@.slot,
        *old(local) matches Some(ld) ==> *final(local) == *old(local) && final(global)@ == old(global)@.pin(ld@.slot as int),
        *old(local) is None ==> old(global)@.is_first_free(guard@.slot as int)
            && final(global)@ == old(global)@.claim(guard@.slot as int).pin(guard@.slot as int)
            && final(local)->0@.garbage == Seq::<Retired<T>>::empty(),
{
    let thr_id: usize = match local {
        Some(ld) => ld.index(),
        None => auto_register_thread(global, local),
    };
    let ghost registered = global@;
    let global_epoch: usize = global.global_epoch;
    let active: bool = global.threads[thr_id].active;
    global.threads[thr_id] = EBRThread { active, local_epoch: global_epoch };
    assert(global@.slots =~= registered.pin(thr_id as int).slots);
    Guard { index: thr_id, epoch: global_epoch }
}

/// Tries to advance the global epoch, and on success sweeps the calling
/// thread's garbage.
///
/// If a registered thread is pinned at an epoch before the global one, nothing
/// changes and nothing is handed out. Otherwise the global epoch moves one
/// step, wrapping at the end of its range, and every object of `ld` that was
/// retired at least two epochs before the new one leaves the garbage sequence
/// and is handed to the caller, oldest first.
pub fn attempt_advance_epoch<T>(global: &mut GlobalEBR, ld: &mut LocalData<T>) -> (freed: Vec<
    Retired<T>,
>)
    ensures
        final(global)@ == after_attempt(old(global)@),
        final(ld)@.slot == old(ld)@.slot,
        final(ld)@.garbage == kept_by_attempt(old(global)@, old(ld)@.garbage),
        freed@ == freed_by_attempt(old(global)@, old(ld)@.garbage),
        released_in_time(final(global)@, freed@),
{
    proof {
        lemma_attempt_releases_in_time(global@, ld@.garbage);
    }
    if global.advance_is_blocked() {
        return Vec::new();
    }
    let new_epoch: usize = GlobalEBR::next_epoch(global.global_epoch);
    global.global_epoch = new_epoch;
    ld.sweep(new_epoch)
}

/// Retires an object that the caller has unlinked from the shared structure:
/// appends it to the thread's garbage sequence with the guard's epoch. When
/// the sequence has then reached `RECLAIM_THRESHOLD` entries, the call also
/// tries to advance the global epoch, as `attempt_advance_epoch` does, and
/// hands out what that reclaims.
pub fn retire<T>(global: &mut GlobalEBR, ld: &mut LocalData<T>, object: T, guard: &Guard) -> (freed:
    Vec<Retired<T>>)
    ensures
        final(ld)@.slot == old(ld)@.slot,
        ({
            let grown = old(ld)@.garbage.push(Retired { object, epoch: guard@.epoch });
            if grown.len() >= RECLAIM_THRESHOLD {
                &&& final(global)@ == after_attempt(old(global)@)
                &&& final(ld)@.garbage == kept_by_attempt(old(global)@, grown)
                &&& freed@ == freed_by_attempt(old(global)@, grown)
            } else {
                &&& final(global)@ == old(global)@
                &&& final(ld)@.garbage == grown
                &&& freed@ == Seq::<Retired<T>>::empty()
            }
        }),
        released_in_time(final(global)@, freed@),
{
    ld.defer(object, guard.epoch());
    if ld.garbage_len() >= RECLAIM_THRESHOLD {
        attempt_advance_epoch(global, ld)
    } else {
        Vec::new()
    }
}

/// The calling thread leaves: its slot is given back, and every object that
/// still waits in its garbage sequence is handed to the caller at once, oldest
/// first, whatever its epoch. A thread without a context changes nothing.
pub fn unregister_thread<T>(global: &mut GlobalEBR, local: &mut Option<LocalData<T>>) -> (freed:
    Vec<Retired<T>>)
    requires
        *old(local) matches Some(ld) ==> ld.wf(),
    ensures
        *final(local) is None,
        *old(local) matches Some(ld) ==> final(global)@ == old(global)@.vacate(ld@.slot as int)
            && !final(global)@.slots[ld@.slot as int].active && freed@ == ld@.garbage,
        *old(local) is None ==> final(global)@ == old(global)@ && freed@ == Seq::<
            Retired<T>,
        >::empty(),
{
    match local.take() {
        Some(data) => {
            let index: usize = data.index();
            global.threads[index] = EBRThread::vacant();
            assert(global@.slots =~= old(global)@.vacate(index as int).slots);
            data.drain()
        },
        None => Vec::new(),
    }
}

} // verus!
