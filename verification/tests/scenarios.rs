use epoch_reclaim::ebr::{pin, retire, unregister_thread, Guard};
use epoch_reclaim::garbage::{LocalData, Retired};
use epoch_reclaim::registry::{GlobalEBR, MAX_THREADS, UNPINNED_EPOCH};

fn check_not_premature(global: &GlobalEBR, freed: &Vec<Retired<u64>>) {
    for r in freed.iter() {
        for i in 0..MAX_THREADS {
            let slot = global.threads[i];
            if slot.active && slot.local_epoch != UNPINNED_EPOCH {
                assert!(slot.local_epoch > r.epoch);
            }
        }
    }
}

#[test]
fn four_retiring_threads_and_one_pinning_free_each_id_once() {
    let mut global = GlobalEBR::new();
    let mut workers: Vec<Option<LocalData<u64>>> = vec![None, None, None, None];
    let mut bystander: Option<LocalData<u64>> = None;
    let mut fired: Vec<u32> = vec![0; 4000];

    for round in 0..1000u64 {
        let watch = pin(&mut global, &mut bystander);
        for t in 0..4usize {
            let guard = pin(&mut global, &mut workers[t]);
            let id: u64 = (t as u64) * 1000 + round;
            let freed = retire(&mut global, workers[t].as_mut().unwrap(), id, &guard);
            guard.release(&mut global);
            check_not_premature(&global, &freed);
            for r in freed.iter() {
                fired[r.object as usize] += 1;
            }
            if t == 1 {
                // The bystander unpins in the middle of a round and pins again.
                let again = pin(&mut global, &mut bystander);
                again.release(&mut global);
            }
        }
        if round % 3 != 0 {
            watch.release(&mut global);
        }
    }
    bystander_leaves(&mut global, &mut bystander);
    for t in 0..4usize {
        let freed = unregister_thread(&mut global, &mut workers[t]);
        for r in freed.iter() {
            fired[r.object as usize] += 1;
        }
        assert!(workers[t].is_none());
    }
    for id in 0..4000usize {
        assert_eq!(fired[id], 1);
    }
    assert_eq!(global.find_free_slot(), Some(0));
    for i in 0..MAX_THREADS {
        assert!(!global.threads[i].active);
    }
}

fn bystander_leaves(global: &mut GlobalEBR, bystander: &mut Option<LocalData<u64>>) {
    let freed = unregister_thread(global, bystander);
    assert!(freed.is_empty());
}

#[test]
fn object_read_under_a_live_guard_outlives_its_retirement() {
    let mut global = GlobalEBR::new();
    let mut reader: Option<LocalData<u64>> = None;
    let mut remover: Option<LocalData<u64>> = None;

    // The reader pins and reads a pointer to node 7.
    let reader_guard: Guard = pin(&mut global, &mut reader);
    let node: u64 = 7;

    // The remover unlinks node 7 and retires it, then keeps retiring others.
    let mut released: Vec<u64> = Vec::new();
    let g = pin(&mut global, &mut remover);
    let freed = retire(&mut global, remover.as_mut().unwrap(), node, &g);
    g.release(&mut global);
    for r in freed.iter() {
        released.push(r.object);
    }
    for other in 100..400u64 {
        let g = pin(&mut global, &mut remover);
        let freed = retire(&mut global, remover.as_mut().unwrap(), other, &g);
        g.release(&mut global);
        for r in freed.iter() {
            released.push(r.object);
        }
    }
    // The reader's guard is still live: node 7 has not been handed out, nor anything else
    // that was retired at or after the reader's epoch.
    assert!(!released.contains(&node));
    assert_eq!(global.global_epoch, reader_guard.epoch() + 1);
    assert!(released.is_empty());

    // Once the reader has released, later retirements reclaim node 7.
    reader_guard.release(&mut global);
    for other in 400..464u64 {
        let g = pin(&mut global, &mut remover);
        let freed = retire(&mut global, remover.as_mut().unwrap(), other, &g);
        g.release(&mut global);
        for r in freed.iter() {
            released.push(r.object);
        }
    }
    assert_eq!(released.iter().filter(|id| **id == node).count(), 1);
}

#[test]
fn retired_object_is_freed_within_two_advances_when_nobody_stays_pinned() {
    let mut global = GlobalEBR::new();
    global.global_epoch = 20;
    let mut a: Option<LocalData<u64>> = None;
    let g = pin(&mut global, &mut a);
    let freed = retire(&mut global, a.as_mut().unwrap(), 99, &g);
    assert!(freed.is_empty());
    g.release(&mut global);

    let ld = a.as_mut().unwrap();
    let first = epoch_reclaim::ebr::attempt_advance_epoch(&mut global, ld);
    assert!(first.is_empty());
    assert_eq!(global.global_epoch, 21);
    let second = epoch_reclaim::ebr::attempt_advance_epoch(&mut global, ld);
    assert_eq!(second.len(), 1);
    assert_eq!(second[0].object, 99);
    assert_eq!(second[0].epoch, 20);
    assert_eq!(global.global_epoch, 22);
    assert_eq!(ld.garbage_len(), 0);
}
