use ebr::gc::epoch::{Epoch, Flag};
use ebr::gc::gc::{Bag, Global, Local};
use std::cell::Cell;
use std::rc::Rc;

struct Counted {
    drops: Rc<Cell<usize>>,
}

impl Drop for Counted {
    fn drop(&mut self) {
        self.drops.set(self.drops.get() + 1);
    }
}

fn counted(drops: &Rc<Cell<usize>>) -> Box<Counted> {
    Box::new(Counted { drops: drops.clone() })
}

fn parked_bags<T, const CAP: usize>(global: &Global<T, CAP>) -> usize {
    global.parked(Epoch::Epoch0) + global.parked(Epoch::Epoch1) + global.parked(Epoch::Epoch2)
}

#[test]
fn gc_one() {
    let mut global: Global<usize, 1> = Global::default();
    let mut local = global.register();

    let guard = local.pin(&mut global);
    for _ in 0..100 {
        local.migrate(&mut global, &guard, Box::new(0_usize));
    }
    guard.unpin(&mut global);
}

#[test]
fn gc_multiple() {
    let mut global: Global<usize, 1> = Global::default();

    let mut handles = Vec::new();
    for _ in 0..30 {
        handles.push(global.register());
    }

    for i in 0..500 {
        for local in handles.iter_mut() {
            let guard = local.pin(&mut global);
            local.migrate(&mut global, &guard, Box::new(i % 3));
            guard.unpin(&mut global);
        }
    }
    assert_eq!(global.participants(), 30);
}

#[test]
fn gc_onfly_register() {
    let mut global: Global<usize, 1> = Global::default();

    for _ in 0..10 {
        let mut local = global.register();
        for i in 0..1000 {
            let guard = local.pin(&mut global);
            local.migrate(&mut global, &guard, Box::new(i % 3));
            guard.unpin(&mut global);
        }
    }
    assert_eq!(global.participants(), 10);
}

#[test]
fn the_default_coordinator_is_a_new_one() {
    let global: Global<u8, 4> = Global::default();
    assert_eq!(global.epoch(), Epoch::Epoch0);
    assert_eq!(global.participants(), 0);
    assert_eq!(global.parked(Epoch::Epoch0), 0);
    assert_eq!(global.parked(Epoch::Epoch1), 0);
    assert_eq!(global.parked(Epoch::Epoch2), 0);
}

#[test]
fn a_new_coordinator_is_empty_at_the_first_epoch() {
    let global: Global<u8, 4> = Global::new();
    assert_eq!(global.epoch(), Epoch::Epoch0);
    assert_eq!(global.participants(), 0);
    assert_eq!(global.parked(Epoch::Epoch0), 0);
    assert_eq!(global.parked(Epoch::Epoch1), 0);
    assert_eq!(global.parked(Epoch::Epoch2), 0);
}

#[test]
fn bag_fills_up_to_its_capacity() {
    let mut bag: Bag<u8, 3> = Bag::default();
    assert_eq!(bag.len(), 0);
    assert!(!bag.is_full());
    bag.push(Box::new(1));
    assert_eq!(bag.len(), 1);
    assert!(!bag.is_full());
    bag.push(Box::new(2));
    assert!(!bag.is_full());
    bag.push(Box::new(3));
    assert_eq!(bag.len(), 3);
    assert!(bag.is_full());
}

#[test]
fn bag_of_capacity_one_is_full_after_one_push() {
    let mut bag: Bag<String, 1> = Bag::default();
    assert!(!bag.is_full());
    bag.push(Box::new(String::from("x")));
    assert!(bag.is_full());
    assert_eq!(bag.len(), 1);
}

#[test]
fn register_adds_an_unpinned_slot() {
    let mut global: Global<u8, 2> = Global::new();
    let a = global.register();
    let b = global.register();
    let c = global.register();
    assert_eq!(a.slot(), 0);
    assert_eq!(b.slot(), 1);
    assert_eq!(c.slot(), 2);
    assert_eq!(global.participants(), 3);
    for slot in 0..3 {
        assert_eq!(global.flag(slot), Flag::Unpin);
    }
    assert_eq!(a.buffered(), 0);
    assert_eq!(global.epoch(), Epoch::Epoch0);
}

#[test]
fn pin_announces_the_global_epoch_and_unpin_withdraws_it() {
    let mut global: Global<u8, 2> = Global::new();
    let a = global.register();
    let b = global.register();
    let guard = b.pin(&mut global);
    assert_eq!(guard.epoch(), Epoch::Epoch0);
    assert_eq!(guard.slot(), b.slot());
    assert_eq!(global.flag(b.slot()), Flag::Epoch0);
    assert_eq!(global.flag(a.slot()), Flag::Unpin);
    assert_eq!(global.epoch(), Epoch::Epoch0);
    guard.unpin(&mut global);
    assert_eq!(global.flag(b.slot()), Flag::Unpin);
    assert_eq!(global.flag(a.slot()), Flag::Unpin);
}

#[test]
fn pin_captures_the_epoch_current_at_that_time() {
    let mut global: Global<u8, 1> = Global::new();
    let mut local = global.register();
    let guard = local.pin(&mut global);
    local.migrate(&mut global, &guard, Box::new(0));
    guard.unpin(&mut global);
    assert_eq!(global.epoch(), Epoch::Epoch1);
    let guard = local.pin(&mut global);
    assert_eq!(guard.epoch(), Epoch::Epoch1);
    assert_eq!(global.flag(local.slot()), Flag::Epoch1);
    guard.unpin(&mut global);
}

#[test]
fn the_bag_never_exceeds_its_capacity() {
    let mut global: Global<usize, 4> = Global::new();
    let mut local = global.register();
    let guard = local.pin(&mut global);
    for i in 0..41_usize {
        assert_eq!(local.buffered(), i % 4);
        local.migrate(&mut global, &guard, Box::new(i));
        assert!(local.buffered() < 4);
        assert_eq!(local.buffered(), (i + 1) % 4);
    }
    guard.unpin(&mut global);
}

#[test]
fn a_bag_is_parked_only_when_it_is_full() {
    let mut global: Global<usize, 3> = Global::new();
    let mut local = global.register();
    let guard = local.pin(&mut global);
    local.migrate(&mut global, &guard, Box::new(1));
    local.migrate(&mut global, &guard, Box::new(2));
    assert_eq!(parked_bags(&global), 0);
    assert_eq!(global.epoch(), Epoch::Epoch0);
    assert_eq!(local.buffered(), 2);
    local.migrate(&mut global, &guard, Box::new(3));
    assert_eq!(local.buffered(), 0);
    assert_eq!(global.parked(Epoch::Epoch0), 1);
    assert_eq!(global.epoch(), Epoch::Epoch1);
    guard.unpin(&mut global);
}

#[test]
fn migrate_parks_under_the_epoch_of_the_guard() {
    let mut global: Global<u8, 2> = Global::new();
    let mut local = global.register();
    let guard = local.pin(&mut global);
    let mut bag: Bag<u8, 2> = Bag::default();
    bag.push(Box::new(1));
    global.migrate(&guard, bag);
    assert_eq!(global.parked(Epoch::Epoch0), 1);
    assert_eq!(global.parked(Epoch::Epoch1), 0);
    assert_eq!(global.parked(Epoch::Epoch2), 0);
    assert_eq!(global.epoch(), Epoch::Epoch1);
    assert_eq!(global.flag(local.slot()), Flag::Epoch0);
    let mut bag: Bag<u8, 2> = Bag::default();
    bag.push(Box::new(2));
    bag.push(Box::new(3));
    global.migrate(&guard, bag);
    assert_eq!(global.parked(Epoch::Epoch0), 2);
    assert_eq!(global.epoch(), Epoch::Epoch1);
    local.migrate(&mut global, &guard, Box::new(4));
    guard.unpin(&mut global);
}

#[test]
fn single_participant_fill_and_drain() {
    let drops = Rc::new(Cell::new(0_usize));
    let mut global: Global<Counted, 1> = Global::new();
    let mut local = global.register();

    let guard = local.pin(&mut global);
    for _ in 0..100 {
        local.migrate(&mut global, &guard, counted(&drops));
    }
    guard.unpin(&mut global);

    assert_ne!(global.epoch(), Epoch::Epoch0);
    assert_eq!(global.epoch(), Epoch::Epoch1);
    assert_eq!(global.parked(Epoch::Epoch0), 100);
    assert_eq!(drops.get(), 0);
    drop(local);
    drop(global);
    assert_eq!(drops.get(), 100);
}

#[test]
fn many_participants_in_turn() {
    let drops = Rc::new(Cell::new(0_usize));
    let mut global: Global<Counted, 1> = Global::new();
    let mut locals = Vec::new();
    for _ in 0..30 {
        locals.push(global.register());
    }
    let mut deferred = 0_usize;
    for _ in 0..500 {
        for local in locals.iter_mut() {
            let guard = local.pin(&mut global);
            local.migrate(&mut global, &guard, counted(&drops));
            deferred += 1;
            guard.unpin(&mut global);
            assert_eq!(drops.get() + parked_bags(&global), deferred);
        }
    }
    assert_eq!(deferred, 15_000);
    assert_eq!(global.participants(), 30);
    assert!(drops.get() > 0);
    drop(locals);
    drop(global);
    assert_eq!(drops.get(), 15_000);
}

#[test]
fn a_straggler_blocks_reclamation() {
    let drops = Rc::new(Cell::new(0_usize));
    let mut global: Global<Counted, 1> = Global::new();
    let l1 = global.register();
    let mut l2 = global.register();

    let held = l1.pin(&mut global);
    assert_eq!(held.epoch(), Epoch::Epoch0);

    for round in 0..50_usize {
        let guard = l2.pin(&mut global);
        l2.migrate(&mut global, &guard, counted(&drops));
        guard.unpin(&mut global);
        assert_eq!(global.epoch(), Epoch::Epoch1);
        assert_eq!(global.parked(Epoch::Epoch0), 1);
        assert_eq!(global.parked(Epoch::Epoch1), round);
        assert_eq!(drops.get(), 0);
        assert_eq!(global.flag(l1.slot()), Flag::Epoch0);
    }

    held.unpin(&mut global);
    let guard = l2.pin(&mut global);
    l2.migrate(&mut global, &guard, counted(&drops));
    guard.unpin(&mut global);
    assert_eq!(global.epoch(), Epoch::Epoch2);
    assert_eq!(global.parked(Epoch::Epoch0), 0);
    assert_eq!(drops.get(), 1);
    assert_eq!(global.parked(Epoch::Epoch1), 50);
}

#[test]
fn the_epoch_moves_one_step_at_a_time() {
    let mut global: Global<usize, 2> = Global::new();
    let mut a = global.register();
    let mut b = global.register();
    let mut advances = 0_usize;
    for i in 0..200_usize {
        let before = global.epoch();
        let guard = a.pin(&mut global);
        assert_eq!(global.epoch(), before);
        a.migrate(&mut global, &guard, Box::new(i));
        let after = global.epoch();
        assert!(after == before || after == before.increase());
        if after != before {
            advances += 1;
        }
        let other = b.pin(&mut global);
        assert_eq!(global.epoch(), after);
        b.migrate(&mut global, &other, Box::new(i));
        let last = global.epoch();
        assert!(last == after || last == after.increase());
        if last != after {
            advances += 1;
        }
        guard.unpin(&mut global);
        other.unpin(&mut global);
        assert_eq!(global.epoch(), last);
        let c = global.register();
        assert_eq!(global.epoch(), last);
        drop(c);
    }
    assert!(advances > 0);
}

#[test]
fn no_reclamation_under_a_witness() {
    let drops = Rc::new(Cell::new(0_usize));
    let mut global: Global<Counted, 1> = Global::new();
    let witness = global.register();
    let mut worker = global.register();

    let first = worker.pin(&mut global);
    worker.migrate(&mut global, &first, counted(&drops));
    first.unpin(&mut global);
    assert_eq!(global.epoch(), Epoch::Epoch1);

    let held = witness.pin(&mut global);
    assert_eq!(held.epoch(), Epoch::Epoch1);
    let second = worker.pin(&mut global);
    worker.migrate(&mut global, &second, counted(&drops));
    second.unpin(&mut global);
    assert_eq!(global.epoch(), Epoch::Epoch2);
    assert_eq!(global.parked(Epoch::Epoch0), 0);
    assert_eq!(drops.get(), 1);
    assert_eq!(global.parked(Epoch::Epoch1), 1);

    for round in 0..10_usize {
        let guard = worker.pin(&mut global);
        assert_eq!(guard.epoch(), Epoch::Epoch2);
        worker.migrate(&mut global, &guard, counted(&drops));
        guard.unpin(&mut global);
        assert_eq!(global.epoch(), Epoch::Epoch2);
        assert_eq!(global.parked(Epoch::Epoch1), 1);
        assert_eq!(global.parked(Epoch::Epoch2), round + 1);
        assert_eq!(drops.get(), 1);
    }
    held.unpin(&mut global);
}

#[test]
fn a_guard_of_another_participant_only_lends_its_epoch() {
    let mut global: Global<u8, 1> = Global::new();
    let a = global.register();
    let mut b = global.register();
    let guard = a.pin(&mut global);
    b.migrate(&mut global, &guard, Box::new(1));
    assert_eq!(global.parked(Epoch::Epoch0), 1);
    assert_eq!(global.epoch(), Epoch::Epoch1);
    assert_eq!(global.flag(a.slot()), Flag::Epoch0);
    assert_eq!(global.flag(b.slot()), Flag::Unpin);
    b.migrate(&mut global, &guard, Box::new(2));
    assert_eq!(global.parked(Epoch::Epoch0), 2);
    assert_eq!(global.epoch(), Epoch::Epoch1);
    guard.unpin(&mut global);
}

#[test]
fn every_payload_is_destroyed_exactly_once() {
    let drops = Rc::new(Cell::new(0_usize));
    let mut global: Global<Counted, 3> = Global::new();
    let mut locals: Vec<Local<Counted, 3>> = Vec::new();
    for _ in 0..4 {
        locals.push(global.register());
    }
    let mut deferred = 0_usize;
    for round in 0..100_usize {
        for (i, local) in locals.iter_mut().enumerate() {
            let guard = local.pin(&mut global);
            for _ in 0..(round + i) % 5 {
                local.migrate(&mut global, &guard, counted(&drops));
                deferred += 1;
            }
            guard.unpin(&mut global);
        }
        let buffered: usize = locals.iter().map(|l| l.buffered()).sum();
        assert_eq!(drops.get() + 3 * parked_bags(&global) + buffered, deferred);
    }
    let buffered: usize = locals.iter().map(|l| l.buffered()).sum();
    let in_flight = 3 * parked_bags(&global) + buffered;
    assert_eq!(drops.get() + in_flight, deferred);
    drop(locals);
    drop(global);
    assert_eq!(drops.get(), deferred);
}
