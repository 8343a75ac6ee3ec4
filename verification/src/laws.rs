//! What holds of the protocol as a whole, stated over the values that the
//! operations' contracts speak of.

use vstd::prelude::*;
use crate::ebr::{after_attempt, freed_by_attempt, kept_by_attempt, released_in_time};
use crate::garbage::{is_due, is_not_due, kept, reclaimable, reclaimed, Retired};
use crate::registry::{RegistryView, UNPINNED_EPOCH};

verus! {

/// Every object that a sweep hands out was due at the sweep's epoch and was in
/// the garbage sequence.
pub proof fn lemma_reclaimed_was_due<T>(garbage: Seq<Retired<T>>, new_epoch: usize, k: int)
    requires
        0 <= k < reclaimed(garbage, new_epoch).len(),
    ensures
        reclaimable(reclaimed(garbage, new_epoch)[k].epoch, new_epoch),
        garbage.contains(reclaimed(garbage, new_epoch)[k]),
{
    garbage.lemma_filter_pred(is_due(new_epoch), k);
    let r = reclaimed(garbage, new_epoch)[k];
    assert(reclaimed(garbage, new_epoch).contains(r));
    garbage.lemma_filter_contains_rev(is_due(new_epoch), r);
}

/// Every object that a sweep leaves behind was not due at the sweep's epoch
/// and was in the garbage sequence.
pub proof fn lemma_kept_was_not_due<T>(garbage: Seq<Retired<T>>, new_epoch: usize, k: int)
    requires
        0 <= k < kept(garbage, new_epoch).len(),
    ensures
        !reclaimable(kept(garbage, new_epoch)[k].epoch, new_epoch),
        garbage.contains(kept(garbage, new_epoch)[k]),
{
    garbage.lemma_filter_pred(is_not_due(new_epoch), k);
    let r = kept(garbage, new_epoch)[k];
    assert(kept(garbage, new_epoch).contains(r));
    garbage.lemma_filter_contains_rev(is_not_due(new_epoch), r);
}

/// A sweep loses nothing and doubles nothing: each entry of the garbage
/// sequence is afterwards either still there or handed out, and never both.
pub proof fn lemma_sweep_partitions<T>(garbage: Seq<Retired<T>>, new_epoch: usize)
    ensures
        garbage.to_multiset() =~= kept(garbage, new_epoch).to_multiset().add(
            reclaimed(garbage, new_epoch).to_multiset(),
        ),
        garbage.len() == kept(garbage, new_epoch).len() + reclaimed(garbage, new_epoch).len(),
    decreases garbage.len(),
{
    broadcast use vstd::seq_lib::group_to_multiset_ensures;

    if garbage.len() == 0 {
        reveal(Seq::filter);
        assert(kept(garbage, new_epoch) =~= Seq::empty());
        assert(reclaimed(garbage, new_epoch) =~= Seq::empty());
    } else {
        let front = garbage.drop_last();
        let last = garbage.last();
        lemma_sweep_partitions(front, new_epoch);
        assert(garbage =~= front.push(last));
        front.lemma_filter_push(last, is_due(new_epoch));
        front.lemma_filter_push(last, is_not_due(new_epoch));
    }
}

/// An attempt to advance loses nothing and doubles nothing, whether it
/// advances or not.
pub proof fn lemma_attempt_partitions<T>(registry: RegistryView, garbage: Seq<Retired<T>>)
    ensures
        garbage.to_multiset() =~= kept_by_attempt(registry, garbage).to_multiset().add(
            freed_by_attempt(registry, garbage).to_multiset(),
        ),
        garbage.len() == kept_by_attempt(registry, garbage).len() + freed_by_attempt(
            registry,
            garbage,
        ).len(),
{
    broadcast use vstd::seq_lib::group_to_multiset_ensures;

    if !registry.advance_blocked() {
        lemma_sweep_partitions(garbage, crate::registry::next_epoch(registry.epoch));
    }
}

/// Every object retired so far is accounted for once: it either waits in the
/// garbage sequence or has been handed out, and not both.
pub open spec fn accounted<T>(
    retired: Seq<Retired<T>>,
    waiting: Seq<Retired<T>>,
    handed_out: Seq<Retired<T>>,
) -> bool {
    retired.to_multiset() =~= waiting.to_multiset().add(handed_out.to_multiset())
}

/// A retirement keeps the account, whether it only appends or also attempts
/// an advance and hands objects out.
pub proof fn lemma_retire_keeps_account<T>(
    registry: RegistryView,
    retired: Seq<Retired<T>>,
    waiting: Seq<Retired<T>>,
    handed_out: Seq<Retired<T>>,
    item: Retired<T>,
)
    requires
        accounted(retired, waiting, handed_out),
    ensures
        accounted(retired.push(item), waiting.push(item), handed_out),
        accounted(
            retired.push(item),
            kept_by_attempt(registry, waiting.push(item)),
            handed_out + freed_by_attempt(registry, waiting.push(item)),
        ),
{
    broadcast use vstd::seq_lib::group_to_multiset_ensures;

    let grown = waiting.push(item);
    let stay = kept_by_attempt(registry, grown);
    let leave = freed_by_attempt(registry, grown);
    lemma_attempt_partitions(registry, grown);
    vstd::seq_lib::lemma_multiset_commutative(handed_out, leave);
    assert(retired.push(item).to_multiset() =~= retired.to_multiset().insert(item));
    assert(grown.to_multiset() =~= waiting.to_multiset().insert(item));
    assert(retired.push(item).to_multiset() =~= grown.to_multiset().add(
        handed_out.to_multiset(),
    ));
    assert(retired.push(item).to_multiset() =~= stay.to_multiset().add(
        (handed_out + leave).to_multiset(),
    ));
}

/// An attempt to advance keeps the account.
pub proof fn lemma_attempt_keeps_account<T>(
    registry: RegistryView,
    retired: Seq<Retired<T>>,
    waiting: Seq<Retired<T>>,
    handed_out: Seq<Retired<T>>,
)
    requires
        accounted(retired, waiting, handed_out),
    ensures
        accounted(
            retired,
            kept_by_attempt(registry, waiting),
            handed_out + freed_by_attempt(registry, waiting),
        ),
{
    lemma_attempt_partitions(registry, waiting);
    vstd::seq_lib::lemma_multiset_commutative(handed_out, freed_by_attempt(registry, waiting));
}

/// A leave keeps the account and leaves nothing waiting: from then on every
/// object that the thread ever retired has been handed out exactly once.
pub proof fn lemma_leave_settles_account<T>(
    retired: Seq<Retired<T>>,
    waiting: Seq<Retired<T>>,
    handed_out: Seq<Retired<T>>,
)
    requires
        accounted(retired, waiting, handed_out),
    ensures
        accounted(retired, Seq::empty(), handed_out + waiting),
        retired.to_multiset() =~= (handed_out + waiting).to_multiset(),
{
    broadcast use vstd::seq_lib::group_to_multiset_ensures;

    vstd::seq_lib::lemma_multiset_commutative(handed_out, waiting);
    assert(Seq::<Retired<T>>::empty().to_multiset() =~= vstd::multiset::Multiset::empty());
}

/// No object is handed out too early: when an attempt hands out an object
/// retired at epoch `e`, every registered thread that is pinned is pinned at
/// an epoch after `e`.
pub proof fn lemma_no_premature_reclamation<T>(
    registry: RegistryView,
    garbage: Seq<Retired<T>>,
    k: int,
    i: int,
)
    requires
        0 <= k < freed_by_attempt(registry, garbage).len(),
        0 <= i < registry.slots.len(),
        registry.slots[i].is_pinned(),
    ensures
        freed_by_attempt(registry, garbage)[k].epoch < registry.slots[i].local_epoch,
        after_attempt(registry).slots == registry.slots,
{
    assert(!registry.advance_blocked());
    assert(!registry.slots[i].blocks(registry.epoch));
    lemma_reclaimed_was_due(garbage, crate::registry::next_epoch(registry.epoch), k);
}

/// Two generations lie between a retirement and the release: an object that
/// an attempt hands out was retired at least two epochs before the epoch that
/// the attempt leaves.
pub proof fn lemma_freed_is_two_generations_old<T>(
    registry: RegistryView,
    garbage: Seq<Retired<T>>,
    k: int,
)
    requires
        0 <= k < freed_by_attempt(registry, garbage).len(),
    ensures
        freed_by_attempt(registry, garbage)[k].epoch + 2 <= after_attempt(registry).epoch,
{
    lemma_reclaimed_was_due(garbage, crate::registry::next_epoch(registry.epoch), k);
}

/// Whatever an attempt hands out, it hands out in time: in the registry that
/// the attempt leaves, every registered thread that is pinned is pinned at an
/// epoch after that of each object handed out.
pub proof fn lemma_attempt_releases_in_time<T>(registry: RegistryView, garbage: Seq<Retired<T>>)
    ensures
        released_in_time(after_attempt(registry), freed_by_attempt(registry, garbage)),
{
    let freed = freed_by_attempt(registry, garbage);
    let after = after_attempt(registry);
    assert forall|k: int, i: int|
        0 <= k < freed.len() && 0 <= i < after.slots.len() && (
        #[trigger] after.slots[i]).is_pinned() implies (#[trigger] freed[k]).epoch
        < after.slots[i].local_epoch by {
        lemma_no_premature_reclamation(registry, garbage, k, i);
    }
}

/// Two advances are enough: after two attempts that were not blocked, with
/// the global epoch one further at the second, nothing is left of what had
/// been retired at or before the epoch of the first. (The epoch counter is
/// taken not to wrap between the two.)
pub proof fn lemma_two_advances_reclaim<T>(
    first: RegistryView,
    second: RegistryView,
    garbage: Seq<Retired<T>>,
    k: int,
)
    requires
        first.epoch + 2 <= usize::MAX,
        !first.advance_blocked(),
        !second.advance_blocked(),
        second.epoch == after_attempt(first).epoch,
        0 <= k < kept_by_attempt(second, kept_by_attempt(first, garbage)).len(),
    ensures
        kept_by_attempt(second, kept_by_attempt(first, garbage))[k].epoch > first.epoch,
{
    lemma_kept_was_not_due(
        kept_by_attempt(first, garbage),
        crate::registry::next_epoch(second.epoch),
        k,
    );
}

/// There is at most one first free slot, so a registration has no choice.
pub proof fn lemma_first_free_is_unique(registry: RegistryView, i: int, j: int)
    requires
        registry.is_first_free(i),
        registry.is_first_free(j),
    ensures
        i == j,
{
    if i < j {
        assert(registry.slots[i].active);
    } else if j < i {
        assert(registry.slots[j].active);
    }
}

/// A registration takes a slot that nobody owned, and leaves the epoch and
/// every other slot as they were: no thread ever comes to share a slot with
/// one that is registered.
pub proof fn lemma_registration_takes_unowned_slot(registry: RegistryView, i: int, j: int)
    requires
        registry.is_first_free(i),
        0 <= j < registry.slots.len(),
        j != i,
    ensures
        !registry.slots[i].active,
        registry.claim(i).slots[i].active,
        !registry.claim(i).slots[i].is_pinned(),
        registry.claim(i).slots[j] == registry.slots[j],
        registry.claim(i).epoch == registry.epoch,
{
}

/// After a release the slot reads unpinned, the slot's owner stays
/// registered as it was, and the global epoch is what it was.
pub proof fn lemma_release_unpins(registry: RegistryView, i: int)
    requires
        0 <= i < registry.slots.len(),
    ensures
        registry.unpin(i).slots[i].local_epoch == UNPINNED_EPOCH,
        !registry.unpin(i).slots[i].is_pinned(),
        registry.unpin(i).slots[i].active == registry.slots[i].active,
        registry.unpin(i).epoch == registry.epoch,
{
}

/// After a thread has left, its slot is free and reads unpinned.
pub proof fn lemma_vacated_slot_is_free(registry: RegistryView, i: int)
    requires
        0 <= i < registry.slots.len(),
    ensures
        !registry.vacate(i).slots[i].active,
        registry.vacate(i).slots[i].local_epoch == UNPINNED_EPOCH,
        registry.vacate(i).has_free_slot(),
{
    assert(!registry.vacate(i).slots[i].active);
}

/// One operation on slot `i` leads from `a` to `b`.
pub open spec fn slot_step(a: RegistryView, b: RegistryView, i: int) -> bool {
    &&& 0 <= i < a.slots.len()
    &&& (b == a.claim(i) || b == a.pin(i) || b == a.unpin(i) || b == a.vacate(i))
}

/// One operation of the protocol leads from `a` to `b`: a registration, a
/// pin, a release, a leave, or an attempt to advance.
pub open spec fn step(a: RegistryView, b: RegistryView) -> bool {
    b == after_attempt(a) || exists|i: int| slot_step(a, b, i)
}

/// Each registry of `trace` arises from the one before it by one operation.
pub open spec fn is_run(trace: Seq<RegistryView>) -> bool {
    forall|k: int| 0 <= k < trace.len() - 1 ==> #[trigger] step(trace[k], trace[k + 1])
}

/// Only an attempt to advance moves the global epoch.
pub proof fn lemma_slot_step_keeps_epoch(a: RegistryView, b: RegistryView, i: int)
    requires
        slot_step(a, b, i),
    ensures
        b.epoch == a.epoch,
{
}

/// No operation changes the number of slots.
pub proof fn lemma_step_keeps_slot_count(a: RegistryView, b: RegistryView)
    requires
        step(a, b),
    ensures
        b.slots.len() == a.slots.len(),
{
}

/// The global epoch never goes back: in any run of the protocol a later
/// registry has an epoch at least that of an earlier one, as long as the
/// counter has not wrapped in between. So a thread that pins again after a
/// release observes an epoch at least that of its earlier pin.
pub proof fn lemma_epoch_never_goes_back(trace: Seq<RegistryView>, i: int, j: int)
    requires
        is_run(trace),
        0 <= i <= j < trace.len(),
        forall|k: int| i <= k < j ==> (#[trigger] trace[k]).epoch != usize::MAX,
    ensures
        trace[i].epoch <= trace[j].epoch,
    decreases j - i,
{
    if i < j {
        lemma_epoch_never_goes_back(trace, i, j - 1);
        assert(step(trace[j - 1], trace[j - 1 + 1]));
        assert(trace[j - 1].epoch != usize::MAX);
    }
}

/// A thread that pins again observes an epoch at least that of its earlier
/// pin: if two registries of a run arise by a pin of slot `slot`, the epoch
/// published by the later pin is not before the one published by the
/// earlier, as long as the counter has not wrapped in between.
pub proof fn lemma_later_pin_not_earlier(trace: Seq<RegistryView>, i: int, j: int, slot: int)
    requires
        is_run(trace),
        0 <= i <= j < trace.len() - 1,
        0 <= slot < trace[i].slots.len(),
        trace[i + 1] == trace[i].pin(slot),
        trace[j + 1] == trace[j].pin(slot),
        forall|k: int| i <= k < j ==> (#[trigger] trace[k]).epoch != usize::MAX,
    ensures
        trace[i + 1].slots[slot].local_epoch <= trace[j + 1].slots[slot].local_epoch,
{
    lemma_epoch_never_goes_back(trace, i, j);
    lemma_run_keeps_slot_count(trace, i, j);
}

/// No run changes the number of slots.
pub proof fn lemma_run_keeps_slot_count(trace: Seq<RegistryView>, i: int, j: int)
    requires
        is_run(trace),
        0 <= i <= j < trace.len(),
    ensures
        trace[j].slots.len() == trace[i].slots.len(),
    decreases j - i,
{
    if i < j {
        lemma_run_keeps_slot_count(trace, i, j - 1);
        assert(step(trace[j - 1], trace[j - 1 + 1]));
        lemma_step_keeps_slot_count(trace[j - 1], trace[j]);
    }
}

} // verus!
