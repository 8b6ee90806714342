//! The coordinator as a mathematical state, its transitions, and what holds
//! of every run of them.

use super::epoch::{Epoch, Flag};
use vstd::prelude::*;

verus! {

/// The number of payloads in a stack of bags.
pub open spec fn payloads<T>(stack: Seq<Seq<T>>) -> nat
    decreases stack.len(),
{
    if stack.len() == 0 {
        0
    } else {
        payloads(stack.drop_last()) + stack.last().len()
    }
}

/// The state of a coordinator.
pub struct GlobalView<T> {
    /// The global epoch.
    pub epoch: Epoch,
    /// For each epoch, by its ordinal, the stack of bags parked under it,
    /// bottom first.
    pub bags: Seq<Seq<Seq<T>>>,
    /// The roster: one flag for each participant, in the order of
    /// registration.
    pub flags: Seq<Flag>,
}

impl<T> GlobalView<T> {
    /// A fresh coordinator: the first epoch, no garbage, no participant.
    pub open spec fn initial() -> Self {
        GlobalView {
            epoch: Epoch::Epoch0,
            bags: seq![Seq::empty(), Seq::empty(), Seq::empty()],
            flags: Seq::empty(),
        }
    }

    /// There is one stack of bags for each epoch, and no participant
    /// announces the epoch after the global one: every flag reads `Unpin`,
    /// the global epoch or the one before it. Three epochs are enough for
    /// that reason.
    pub open spec fn inv(self) -> bool {
        &&& self.bags.len() == 3
        &&& forall|i: int|
            0 <= i < self.flags.len() ==> #[trigger] self.flags[i] != Flag::of_epoch(
                self.epoch.next(),
            )
    }

    /// The stack of bags parked under `epoch`.
    pub open spec fn parked(self, epoch: Epoch) -> Seq<Seq<T>> {
        self.bags[epoch.ordinal() as int]
    }

    /// The number of payloads in all parked bags.
    pub open spec fn held(self) -> nat {
        payloads(self.bags[0]) + payloads(self.bags[1]) + payloads(self.bags[2])
    }

    /// Some participant still announces the epoch before the global one.
    pub open spec fn witnessed(self) -> bool {
        self.flags.contains(Flag::of_epoch(self.epoch.prev()))
    }

    /// The number of payloads that a reclamation pass destroys.
    pub open spec fn reclaimable(self) -> nat {
        if self.witnessed() {
            0
        } else {
            payloads(self.parked(self.epoch.prev()))
        }
    }

    /// A participant joins, unpinned, in a new slot at the end of the roster.
    pub open spec fn register(self) -> Self {
        GlobalView { flags: self.flags.push(Flag::Unpin), ..self }
    }

    /// The participant in `slot` announces the global epoch.
    pub open spec fn pin(self, slot: int) -> Self {
        GlobalView { flags: self.flags.update(slot, Flag::of_epoch(self.epoch)), ..self }
    }

    /// The participant in `slot` announces that it observes nothing.
    pub open spec fn unpin(self, slot: int) -> Self {
        GlobalView { flags: self.flags.update(slot, Flag::Unpin), ..self }
    }

    /// `bag` is parked on top of the stack of `epoch`.
    pub open spec fn park(self, epoch: Epoch, bag: Seq<T>) -> Self {
        GlobalView {
            bags: self.bags.update(epoch.ordinal() as int, self.parked(epoch).push(bag)),
            ..self
        }
    }

    /// A reclamation pass. With a witness of the epoch before the global one
    /// nothing changes. Without one, all bags parked under that epoch are
    /// destroyed and the global epoch moves to its successor.
    pub open spec fn reclaim(self) -> Self {
        if self.witnessed() {
            self
        } else {
            GlobalView {
                epoch: self.epoch.next(),
                bags: self.bags.update(self.epoch.prev().ordinal() as int, Seq::empty()),
                flags: self.flags,
            }
        }
    }

    /// `bag`, filled under a pin of `epoch`, is parked, and a reclamation
    /// pass follows.
    pub open spec fn migrate(self, epoch: Epoch, bag: Seq<T>) -> Self {
        self.park(epoch, bag).reclaim()
    }

    /// A participant whose bag holds `bag`, with room for `cap` payloads,
    /// retires `payload` under a pin of `epoch`. The payload goes to the bag;
    /// a bag that this fills is migrated, and an empty one takes its place.
    /// The result is the coordinator and the participant's bag afterwards.
    pub open spec fn defer(self, bag: Seq<T>, cap: nat, epoch: Epoch, payload: T) -> (
        Self,
        Seq<T>,
    ) {
        if bag.len() + 1 < cap {
            (self, bag.push(payload))
        } else {
            (self.migrate(epoch, bag.push(payload)), Seq::empty())
        }
    }

    /// The number of payloads that `defer` destroys.
    pub open spec fn defer_destroys(
        self,
        bag: Seq<T>,
        cap: nat,
        epoch: Epoch,
        payload: T,
    ) -> nat {
        if bag.len() + 1 < cap {
            0
        } else {
            self.park(epoch, bag.push(payload)).reclaimable()
        }
    }

    /// A fresh coordinator is in order.
    pub proof fn lemma_initial_inv()
        ensures
            Self::initial().inv(),
            Self::initial().held() == 0,
    {
    }

    /// Every transition keeps the state in order, and none but the
    /// reclamation pass moves the global epoch.
    pub proof fn lemma_inv_preserved(self, slot: int, epoch: Epoch, bag: Seq<T>)
        requires
            self.inv(),
        ensures
            self.register().inv(),
            self.register().epoch == self.epoch,
            0 <= slot < self.flags.len() ==> self.pin(slot).inv(),
            self.pin(slot).epoch == self.epoch,
            0 <= slot < self.flags.len() ==> self.unpin(slot).inv(),
            self.unpin(slot).epoch == self.epoch,
            self.park(epoch, bag).inv(),
            self.park(epoch, bag).epoch == self.epoch,
            self.reclaim().inv(),
            self.migrate(epoch, bag).inv(),
    {
    }

    /// The global epoch moves one step at a time: after a migration it is
    /// what it was, or the successor of that.
    pub proof fn lemma_epoch_steps_by_one(self, epoch: Epoch, bag: Seq<T>)
        ensures
            self.reclaim().epoch == self.epoch || self.reclaim().epoch == self.epoch.next(),
            self.migrate(epoch, bag).epoch == self.epoch || self.migrate(epoch, bag).epoch
                == self.epoch.next(),
            self.migrate(epoch, bag).epoch == self.epoch.next() <==> !self.witnessed(),
    {
    }

    /// No reclamation under a witness: while a flag announces the epoch
    /// before the global one, a pass changes nothing, and a migration does no
    /// more than park its bag.
    pub proof fn lemma_witness_blocks_reclaim(self, epoch: Epoch, bag: Seq<T>)
        requires
            self.inv(),
            self.witnessed(),
        ensures
            self.reclaim() == self,
            self.migrate(epoch, bag) == self.park(epoch, bag),
            epoch != self.epoch.prev() ==> self.migrate(epoch, bag).parked(self.epoch.prev())
                == self.parked(self.epoch.prev()),
    {
    }

    /// What was retired under a pin outlives the pin: while a participant
    /// announces `pinned`, no migration destroys a bag parked under `pinned`,
    /// and the global epoch gets no further than the successor of `pinned`.
    pub proof fn lemma_pinned_epoch_survives(self, pinned: Epoch, epoch: Epoch, bag: Seq<T>)
        requires
            self.inv(),
            self.flags.contains(Flag::of_epoch(pinned)),
        ensures
            self.epoch == pinned || self.epoch == pinned.next(),
            self.migrate(epoch, bag).epoch == pinned || self.migrate(epoch, bag).epoch
                == pinned.next(),
            self.migrate(epoch, bag).parked(pinned) == self.park(epoch, bag).parked(pinned),
            self.reclaim().parked(pinned) == self.parked(pinned),
    {
    }

    /// No payload is lost and none appears: what a migration leaves parked,
    /// together with what its pass destroys, is what was parked before
    /// together with the new bag.
    pub proof fn lemma_migrate_conserves_payloads(self, epoch: Epoch, bag: Seq<T>)
        requires
            self.inv(),
        ensures
            self.park(epoch, bag).held() == self.held() + bag.len(),
            self.reclaim().held() + self.reclaimable() == self.held(),
            self.migrate(epoch, bag).held() + self.park(epoch, bag).reclaimable() == self.held()
                + bag.len(),
    {
        let stack = self.parked(epoch);
        assert(stack.push(bag).drop_last() =~= stack);
    }

    /// Retiring a payload keeps the bag below its capacity and the
    /// coordinator in order, moves the global epoch by one step at most, and
    /// accounts for every payload: what is in the bag and in the parked bags
    /// afterwards, together with what was destroyed, is what was there before
    /// and the one retired.
    pub proof fn lemma_defer(self, bag: Seq<T>, cap: nat, epoch: Epoch, payload: T)
        requires
            self.inv(),
            bag.len() < cap,
        ensures
            self.defer(bag, cap, epoch, payload).0.inv(),
            self.defer(bag, cap, epoch, payload).1.len() < cap,
            self.defer(bag, cap, epoch, payload).0.epoch == self.epoch || self.defer(
                bag,
                cap,
                epoch,
                payload,
            ).0.epoch == self.epoch.next(),
            self.defer(bag, cap, epoch, payload).0.flags == self.flags,
            self.defer(bag, cap, epoch, payload).0.held() + self.defer(
                bag,
                cap,
                epoch,
                payload,
            ).1.len() + self.defer_destroys(bag, cap, epoch, payload) == self.held() + bag.len()
                + 1,
    {
        self.lemma_migrate_conserves_payloads(epoch, bag.push(payload));
    }

    /// A slot on the roster stays its participant's own: no transition
    /// removes it, and only a pin or an unpin of that slot changes its flag.
    pub proof fn lemma_slots_stay(self, slot: int, other: int, epoch: Epoch, bag: Seq<T>)
        requires
            0 <= slot < self.flags.len(),
            0 <= other < self.flags.len(),
        ensures
            self.register().flags.len() == self.flags.len() + 1,
            self.register().flags[slot] == self.flags[slot],
            self.register().flags[self.flags.len() as int] == Flag::Unpin,
            self.pin(other).flags.len() == self.flags.len(),
            other != slot ==> self.pin(other).flags[slot] == self.flags[slot],
            self.pin(slot).flags[slot] == Flag::of_epoch(self.epoch),
            self.unpin(other).flags.len() == self.flags.len(),
            other != slot ==> self.unpin(other).flags[slot] == self.flags[slot],
            self.unpin(slot).flags[slot] == Flag::Unpin,
            self.migrate(epoch, bag).flags == self.flags,
    {
    }
}

} // verus!
