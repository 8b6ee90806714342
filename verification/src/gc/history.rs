//! A coordinator together with its participants, the events that move them,
//! and what holds after every sequence of such events.
//!
//! An event is one call of the engine: `Global::register`, `Local::pin`,
//! `PinGuard::unpin`, `Local::migrate` or `Global::migrate`. Each of these
//! promises to take the step of [`GlobalView`] that the event takes here.

use super::epoch::{Epoch, Flag};
use super::model::GlobalView;
use vstd::prelude::*;

verus! {

/// A coordinator and the bags of its participants.
pub struct SystemView<T> {
    /// The capacity of a bag.
    pub cap: nat,
    /// The coordinator.
    pub global: GlobalView<T>,
    /// The bag of each participant, by its slot on the roster.
    pub bags: Seq<Seq<T>>,
}

/// What a participant can do.
pub enum Event<T> {
    /// A new participant registers.
    Register,
    /// The participant in `slot` pins.
    Pin { slot: int },
    /// The participant in `slot` ends its pin.
    Unpin { slot: int },
    /// The participant in `slot` retires `payload` under the pin that the
    /// participant in `guard` holds.
    Defer { slot: int, guard: int, payload: T },
    /// A bag that belongs to no participant is handed to the coordinator
    /// under the pin that the participant in `guard` holds.
    Migrate { guard: int, bag: Seq<T> },
}

impl<T> Event<T> {
    /// The number of payloads that the event hands to the engine.
    pub open spec fn retires(self) -> nat {
        match self {
            Event::Defer { .. } => 1,
            Event::Migrate { bag, .. } => bag.len(),
            _ => 0,
        }
    }
}

impl<T> SystemView<T> {
    /// A fresh coordinator without participants.
    pub open spec fn initial(cap: nat) -> Self {
        SystemView { cap, global: GlobalView::initial(), bags: Seq::empty() }
    }

    /// The state is in order: the coordinator is, every participant has a
    /// bag, and every bag has room for one more payload.
    pub open spec fn inv(self) -> bool {
        &&& self.cap >= 1
        &&& self.global.inv()
        &&& self.bags.len() == self.global.flags.len()
        &&& forall|i: int| 0 <= i < self.bags.len() ==> (#[trigger] self.bags[i]).len() < self.cap
    }

    /// The number of payloads in the participants' bags.
    pub open spec fn buffered(self) -> nat {
        Self::total(self.bags)
    }

    /// The number of payloads in `bags`.
    pub open spec fn total(bags: Seq<Seq<T>>) -> nat
        decreases bags.len(),
    {
        if bags.len() == 0 {
            0
        } else {
            Self::total(bags.drop_last()) + bags.last().len()
        }
    }

    /// The participant in `slot` holds a pin.
    pub open spec fn pinned(self, slot: int) -> bool {
        &&& 0 <= slot < self.global.flags.len()
        &&& self.global.flags[slot] != Flag::Unpin
    }

    /// The epoch under which the participant in `slot` is pinned.
    pub open spec fn pin_epoch(self, slot: int) -> Epoch {
        self.global.flags[slot].pinned().unwrap()
    }

    /// Whether `event` can happen: a participant pins only while unpinned,
    /// and a pin is there to be ended or retired under only while it holds.
    pub open spec fn admits(self, event: Event<T>) -> bool {
        match event {
            Event::Register => true,
            Event::Pin { slot } => 0 <= slot < self.global.flags.len() && !self.pinned(slot),
            Event::Unpin { slot } => self.pinned(slot),
            Event::Defer { slot, guard, payload } => 0 <= slot < self.global.flags.len()
                && self.pinned(guard),
            Event::Migrate { guard, bag } => self.pinned(guard),
        }
    }

    /// The state after `event`.
    pub open spec fn step(self, event: Event<T>) -> Self {
        match event {
            Event::Register => SystemView {
                global: self.global.register(),
                bags: self.bags.push(Seq::empty()),
                ..self
            },
            Event::Pin { slot } => SystemView { global: self.global.pin(slot), ..self },
            Event::Unpin { slot } => SystemView { global: self.global.unpin(slot), ..self },
            Event::Defer { slot, guard, payload } => {
                let (global, bag) = self.global.defer(
                    self.bags[slot],
                    self.cap,
                    self.pin_epoch(guard),
                    payload,
                );
                SystemView { global, bags: self.bags.update(slot, bag), ..self }
            },
            Event::Migrate { guard, bag } => SystemView {
                global: self.global.migrate(self.pin_epoch(guard), bag),
                ..self
            },
        }
    }

    /// The number of payloads that `event` destroys.
    pub open spec fn destroys(self, event: Event<T>) -> nat {
        match event {
            Event::Defer { slot, guard, payload } => self.global.defer_destroys(
                self.bags[slot],
                self.cap,
                self.pin_epoch(guard),
                payload,
            ),
            Event::Migrate { guard, bag } => self.global.park(
                self.pin_epoch(guard),
                bag,
            ).reclaimable(),
            _ => 0,
        }
    }

    /// Whether the events of `history` can happen one after the other.
    pub open spec fn admits_all(self, history: Seq<Event<T>>) -> bool
        decreases history.len(),
    {
        history.len() > 0 ==> {
            &&& self.admits_all(history.drop_last())
            &&& self.run(history.drop_last()).admits(history.last())
        }
    }

    /// The state after the events of `history`.
    pub open spec fn run(self, history: Seq<Event<T>>) -> Self
        decreases history.len(),
    {
        if history.len() == 0 {
            self
        } else {
            self.run(history.drop_last()).step(history.last())
        }
    }

    /// The number of payloads that the events of `history` destroy.
    pub open spec fn destroyed(self, history: Seq<Event<T>>) -> nat
        decreases history.len(),
    {
        if history.len() == 0 {
            0
        } else {
            self.destroyed(history.drop_last()) + self.run(history.drop_last()).destroys(
                history.last(),
            )
        }
    }

    /// The number of payloads that the events of `history` retire.
    pub open spec fn deferred(history: Seq<Event<T>>) -> nat
        decreases history.len(),
    {
        if history.len() == 0 {
            0
        } else {
            Self::deferred(history.drop_last()) + history.last().retires()
        }
    }

    proof fn lemma_total_push(bags: Seq<Seq<T>>, bag: Seq<T>)
        ensures
            Self::total(bags.push(bag)) == Self::total(bags) + bag.len(),
    {
        assert(bags.push(bag).drop_last() =~= bags);
    }

    proof fn lemma_total_update(bags: Seq<Seq<T>>, slot: int, bag: Seq<T>)
        requires
            0 <= slot < bags.len(),
        ensures
            Self::total(bags.update(slot, bag)) + bags[slot].len() == Self::total(bags)
                + bag.len(),
        decreases bags.len(),
    {
        let after = bags.update(slot, bag);
        if slot == bags.len() - 1 {
            assert(after.drop_last() =~= bags.drop_last());
        } else {
            Self::lemma_total_update(bags.drop_last(), slot, bag);
            assert(after.drop_last() =~= bags.drop_last().update(slot, bag));
        }
    }

    /// One event keeps the state in order, moves the global epoch by one
    /// step at most, and neither loses a payload nor makes one up.
    pub proof fn lemma_step(self, event: Event<T>)
        requires
            self.inv(),
            self.admits(event),
        ensures
            self.step(event).inv(),
            self.step(event).cap == self.cap,
            self.step(event).global.epoch == self.global.epoch || self.step(event).global.epoch
                == self.global.epoch.next(),
            self.step(event).global.flags.len() >= self.global.flags.len(),
            self.step(event).global.held() + self.step(event).buffered() + self.destroys(event)
                == self.global.held() + self.buffered() + event.retires(),
    {
        match event {
            Event::Register => {
                Self::lemma_total_push(self.bags, Seq::empty());
            },
            Event::Defer { slot, guard, payload } => {
                let bag = self.bags[slot];
                let epoch = self.pin_epoch(guard);
                self.global.lemma_defer(bag, self.cap, epoch, payload);
                Self::lemma_total_update(
                    self.bags,
                    slot,
                    self.global.defer(bag, self.cap, epoch, payload).1,
                );
            },
            Event::Migrate { guard, bag } => {
                self.global.lemma_migrate_conserves_payloads(self.pin_epoch(guard), bag);
            },
            _ => {},
        }
    }

    /// Whatever the participants do, the state stays in order. In
    /// particular no bag ever holds more than its capacity, and no
    /// participant is pinned further back than the epoch before the global
    /// one.
    pub proof fn lemma_run_keeps_inv(self, history: Seq<Event<T>>)
        requires
            self.inv(),
            self.admits_all(history),
        ensures
            self.run(history).inv(),
            self.run(history).cap == self.cap,
            forall|i: int|
                0 <= i < self.run(history).bags.len() ==> (#[trigger] self.run(
                    history,
                ).bags[i]).len() <= self.cap,
        decreases history.len(),
    {
        if history.len() > 0 {
            self.lemma_run_keeps_inv(history.drop_last());
            self.run(history.drop_last()).lemma_step(history.last());
        }
    }

    /// Successive values of the global epoch follow the cycle without a
    /// skip: each event leaves it or moves it to its successor.
    pub proof fn lemma_run_steps_by_one(self, history: Seq<Event<T>>, event: Event<T>)
        requires
            self.inv(),
            self.admits_all(history.push(event)),
        ensures
            self.run(history.push(event)).global.epoch == self.run(history).global.epoch
                || self.run(history.push(event)).global.epoch == self.run(
                history,
            ).global.epoch.next(),
    {
        assert(history.push(event).drop_last() =~= history);
        self.lemma_run_keeps_inv(history);
        self.run(history).lemma_step(event);
    }

    /// Every payload is accounted for: after any sequence of events, the
    /// payloads in the bags, parked or not, together with those destroyed
    /// on the way, are those that were there at the start and those retired
    /// since.
    pub proof fn lemma_run_conserves_payloads(self, history: Seq<Event<T>>)
        requires
            self.inv(),
            self.admits_all(history),
        ensures
            self.run(history).global.held() + self.run(history).buffered() + self.destroyed(
                history,
            ) == self.global.held() + self.buffered() + Self::deferred(history),
        decreases history.len(),
    {
        if history.len() > 0 {
            self.lemma_run_conserves_payloads(history.drop_last());
            self.lemma_run_keeps_inv(history.drop_last());
            self.run(history.drop_last()).lemma_step(history.last());
        }
    }

    /// What was retired under a pin outlives the pin: as long as the
    /// participant in `slot` stays pinned, no event destroys a bag that is
    /// parked under the epoch of its pin, and the global epoch gets no
    /// further than the successor of that epoch.
    pub proof fn lemma_pin_protects(self, slot: int, event: Event<T>)
        requires
            self.inv(),
            self.pinned(slot),
            self.admits(event),
            event != (Event::<T>::Unpin { slot }),
        ensures
            self.step(event).pinned(slot),
            self.step(event).pin_epoch(slot) == self.pin_epoch(slot),
            self.global.parked(self.pin_epoch(slot)).is_prefix_of(
                self.step(event).global.parked(self.pin_epoch(slot)),
            ),
            self.step(event).global.epoch == self.pin_epoch(slot) || self.step(event).global.epoch
                == self.pin_epoch(slot).next(),
    {
        match event {
            Event::Defer { slot: by, guard, payload } => {
                self.global.lemma_pinned_epoch_survives(
                    self.pin_epoch(slot),
                    self.pin_epoch(guard),
                    self.bags[by].push(payload),
                );
            },
            Event::Migrate { guard, bag } => {
                self.global.lemma_pinned_epoch_survives(
                    self.pin_epoch(slot),
                    self.pin_epoch(guard),
                    bag,
                );
            },
            _ => {},
        }
    }
}

} // verus!
