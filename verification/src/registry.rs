//! The registry: the global epoch and the fixed table of thread slots.

use vstd::prelude::*;

verus! {

/// Number of slots in the registry, that is the number of threads that can be
/// registered at one time.
pub const MAX_THREADS: usize = 32;

/// The local epoch of a slot whose thread is not looking at shared state.
pub const UNPINNED_EPOCH: usize = usize::MAX;

/// One slot of the registry.
#[derive(Clone, Copy, Debug, PartialEq, Eq, Structural)]
pub struct EBRThread {
    /// Whether a thread owns the slot.
    pub active: bool,
    /// The epoch that the owner published when it last pinned, or
    /// `UNPINNED_EPOCH`.
    pub local_epoch: usize,
}

/// The registry as a mathematical value.
pub struct RegistryView {
    pub epoch: usize,
    pub slots: Seq<EBRThread>,
}

/// The registry: the global epoch and one slot for each thread that may
/// register. An operation holds the registry exclusively while it runs, so
/// two attempts to advance the epoch never overlap.
#[derive(Debug)]
pub struct GlobalEBR {
    pub global_epoch: usize,
    pub threads: [EBRThread; MAX_THREADS],
}

impl View for GlobalEBR {
    type V = RegistryView;

    open spec fn view(&self) -> RegistryView {
        RegistryView { epoch: self.global_epoch, slots: self.threads@ }
    }
}

impl EBRThread {
    /// A slot that nobody owns.
    pub open spec fn vacant_spec() -> EBRThread {
        EBRThread { active: false, local_epoch: UNPINNED_EPOCH }
    }

    /// The owner is registered and has published an epoch.
    pub open spec fn is_pinned(self) -> bool {
        self.active && self.local_epoch != UNPINNED_EPOCH
    }

    /// The slot forbids an advance from `cur`: its owner is pinned at an
    /// epoch before `cur`.
    pub open spec fn blocks(self, cur: usize) -> bool {
        self.is_pinned() && self.local_epoch < cur
    }

    pub fn vacant() -> (slot: EBRThread)
        ensures
            slot == Self::vacant_spec(),
    {
        EBRThread { active: false, local_epoch: UNPINNED_EPOCH }
    }

    /// Whether this slot forbids an advance of the global epoch from `cur`.
    pub fn blocks_advance(&self, cur: usize) -> (b: bool)
        ensures
            b == self.blocks(cur),
    {
        self.active && self.local_epoch != UNPINNED_EPOCH && self.local_epoch < cur
    }
}

impl RegistryView {
    pub open spec fn wf(self) -> bool {
        self.slots.len() == MAX_THREADS
    }

    /// `i` is the first slot that nobody owns.
    pub open spec fn is_first_free(self, i: int) -> bool {
        &&& 0 <= i < self.slots.len()
        &&& !self.slots[i].active
        &&& forall|j: int| 0 <= j < i ==> (#[trigger] self.slots[j]).active
    }

    pub open spec fn has_free_slot(self) -> bool {
        exists|i: int| 0 <= i < self.slots.len() && !(#[trigger] self.slots[i]).active
    }

    /// Some registered thread is pinned at an epoch before the global one.
    pub open spec fn advance_blocked(self) -> bool {
        exists|i: int| 0 <= i < self.slots.len() && (#[trigger] self.slots[i]).blocks(self.epoch)
    }

    /// The registry with slot `i` replaced.
    pub open spec fn with_slot(self, i: int, slot: EBRThread) -> RegistryView {
        RegistryView { epoch: self.epoch, slots: self.slots.update(i, slot) }
    }

    /// Slot `i` taken by a thread that is not pinned yet.
    pub open spec fn claim(self, i: int) -> RegistryView {
        self.with_slot(i, EBRThread { active: true, local_epoch: UNPINNED_EPOCH })
    }

    /// The owner of slot `i` publishes the global epoch.
    pub open spec fn pin(self, i: int) -> RegistryView {
        self.with_slot(i, EBRThread { active: self.slots[i].active, local_epoch: self.epoch })
    }

    /// The owner of slot `i` stops looking at shared state.
    pub open spec fn unpin(self, i: int) -> RegistryView {
        self.with_slot(
            i,
            EBRThread { active: self.slots[i].active, local_epoch: UNPINNED_EPOCH },
        )
    }

    /// Slot `i` given back.
    pub open spec fn vacate(self, i: int) -> RegistryView {
        self.with_slot(i, EBRThread::vacant_spec())
    }

    /// The global epoch moved one step forward.
    pub open spec fn advance(self) -> RegistryView {
        RegistryView { epoch: next_epoch(self.epoch), slots: self.slots }
    }
}

/// The epoch after `cur`. The counter wraps at the end of its range.
pub open spec fn next_epoch(cur: usize) -> usize {
    if cur == usize::MAX {
        0
    } else {
        (cur + 1) as usize
    }
}

/// `array_init::array_init`, which calls the closure once for each index from
/// 0 up and returns the array of what it gave. The closure here gives a vacant
/// slot for every index, so every element is a vacant slot.
#[verifier::external_body]
fn vacant_slots() -> (slots: [EBRThread; MAX_THREADS])
    ensures
        forall|i: int| 0 <= i < MAX_THREADS ==> #[trigger] slots@[i] == EBRThread::vacant_spec(),
{
    array_init::array_init(|_| EBRThread::vacant())
}

impl GlobalEBR {
    /// A registry at epoch zero in which no slot is owned.
    pub fn new() -> (global: GlobalEBR)
        ensures
            global@.epoch == 0,
            global@.wf(),
            forall|i: int|
                0 <= i < MAX_THREADS ==> #[trigger] global@.slots[i] == EBRThread::vacant_spec(),
            global@.has_free_slot(),
            !global@.advance_blocked(),
    {
        let global = GlobalEBR { global_epoch: 0, threads: vacant_slots() };
        assert(!global@.slots[0].active);
        global
    }

    /// The first slot that nobody owns, if there is one.
    pub fn find_free_slot(&self) -> (found: Option<usize>)
        ensures
            found is None <==> !self@.has_free_slot(),
            found matches Some(i) ==> self@.is_first_free(i as int),
    {
        let mut i: usize = 0;
        while i < MAX_THREADS
            invariant
                i <= MAX_THREADS,
                forall|j: int| 0 <= j < i ==> (#[trigger] self.threads@[j]).active,
            decreases MAX_THREADS - i,
        {
            if !self.threads[i].active {
                assert(!self@.slots[i as int].active);
                return Some(i);
            }
            i += 1;
        }
        None
    }

    /// Whether some registered thread is pinned at an epoch before the global
    /// one, so that the global epoch must stay where it is.
    pub fn advance_is_blocked(&self) -> (blocked: bool)
        ensures
            blocked == self@.advance_blocked(),
    {
        let cur: usize = self.global_epoch;
        let mut i: usize = 0;
        while i < MAX_THREADS
            invariant
                i <= MAX_THREADS,
                cur == self.global_epoch,
                forall|j: int| 0 <= j < i ==> !(#[trigger] self.threads@[j]).blocks(cur),
            decreases MAX_THREADS - i,
        {
            if self.threads[i].blocks_advance(cur) {
                assert(self@.slots[i as int].blocks(self@.epoch));
                return true;
            }
            i += 1;
        }
        false
    }

    /// The global epoch after one advance.
    pub fn next_epoch(cur: usize) -> (next: usize)
        ensures
            next == next_epoch(cur),
    {
        cur.wrapping_add(1)
    }
}

} // verus!
