//! The coordinator, the participants' handles and their pins.
//!
//! A participant registers once and gets a `Local`, bound to a fresh slot on
//! the roster. It pins before it reads shared data and unpins after. What it
//! retires under a pin goes to its bag; a full bag is parked with the
//! coordinator under the epoch of the pin, and a reclamation pass follows.

use super::epoch::{AtomicEpoch, AtomicFlag, Epoch, Flag};
use super::model::GlobalView;
use super::stack::{top_down, AtomicStack, StackGuard};
use vstd::prelude::*;

verus! {

/// A batch of at most `CAP` retired payloads, in the order of their arrival.
#[derive(Debug)]
pub struct Bag<T, const CAP: usize> {
    data: Vec<Box<T>>,
}

impl<T, const CAP: usize> View for Bag<T, CAP> {
    type V = Seq<T>;

    closed spec fn view(&self) -> Seq<T> {
        self.data@.map_values(|b: Box<T>| *b)
    }
}

impl<T, const CAP: usize> Default for Bag<T, CAP> {
    fn default() -> (r: Self)
        ensures
            r@ == Seq::<T>::empty(),
    {
        Bag { data: Vec::with_capacity(CAP) }
    }
}

impl<T, const CAP: usize> Bag<T, CAP> {
    #[verifier::type_invariant]
    spec fn bounded(self) -> bool {
        self.data@.len() <= CAP
    }

    /// An empty bag that has not reserved its room yet.
    fn unallocated() -> (r: Self)
        ensures
            r@ == Seq::<T>::empty(),
    {
        Bag { data: Vec::new() }
    }

    /// The number of payloads in the bag, which never exceeds `CAP`.
    pub fn len(&self) -> (n: usize)
        ensures
            n == self@.len(),
            n <= CAP,
    {
        proof {
            use_type_invariant(self);
        }
        self.data.len()
    }

    /// Whether the bag holds `CAP` payloads.
    pub fn is_full(&self) -> (r: bool)
        ensures
            r == (self@.len() == CAP),
    {
        self.data.len() == CAP
    }

    /// Adds `value` at the end of a bag that is not full.
    pub fn push(&mut self, value: Box<T>)
        requires
            old(self)@.len() < CAP,
        ensures
            final(self)@ == old(self)@.push(*value),
    {
        let mut data = Vec::new();
        core::mem::swap(&mut data, &mut self.data);
        data.push(value);
        self.data = data;
    }
}

/// The coordinator of one reclamation domain: the global epoch, one stack of
/// parked bags for each epoch, and the roster of the participants' flags.
#[derive(Debug)]
pub struct Global<T, const CAP: usize> {
    epoch: AtomicEpoch,
    bags: [AtomicStack<Bag<T, CAP>>; 3],
    flags: AtomicStack<AtomicFlag>,
}

impl<T, const CAP: usize> View for Global<T, CAP> {
    type V = GlobalView<T>;

    closed spec fn view(&self) -> GlobalView<T> {
        GlobalView {
            epoch: self.epoch@,
            bags: Seq::new(3, |i: int| Self::contents(self.bags[i]@)),
            flags: Self::announced(self.flags@),
        }
    }
}

impl<T, const CAP: usize> Default for Global<T, CAP> {
    /// A coordinator at the first epoch, with no garbage and no participant.
    /// With bags of capacity 0 it is not in order, and nothing can be done
    /// with it.
    fn default() -> (r: Self)
        ensures
            r@ == GlobalView::<T>::initial(),
            r.wf() <==> CAP >= 1,
    {
        let r = Global {
            epoch: AtomicEpoch::default(),
            bags: [AtomicStack::default(), AtomicStack::default(), AtomicStack::default()],
            flags: AtomicStack::default(),
        };
        assert(r@.bags =~~= GlobalView::<T>::initial().bags);
        assert(r@.flags =~= GlobalView::<T>::initial().flags);
        r
    }
}

impl<T, const CAP: usize> Global<T, CAP> {
    /// The payloads of each bag of a stack.
    spec fn contents(stack: Seq<Bag<T, CAP>>) -> Seq<Seq<T>> {
        stack.map_values(|bag: Bag<T, CAP>| bag@)
    }

    /// The flag in each cell of a roster.
    spec fn announced(roster: Seq<AtomicFlag>) -> Seq<Flag> {
        roster.map_values(|cell: AtomicFlag| cell@)
    }

    /// Nobody holds the claim on the roster's snapshot iteration.
    pub closed spec fn roster_free(&self) -> bool {
        !self.flags.is_taken()
    }

    /// The coordinator is in order: bags have room for a payload, the roster
    /// is free for the next reclamation pass, and no participant is pinned
    /// further back than the epoch before the global one.
    pub open spec fn wf(&self) -> bool {
        &&& CAP >= 1
        &&& self.roster_free()
        &&& self@.inv()
    }

    /// A coordinator at the first epoch, with no garbage and no participant.
    /// Its bags must have room for a payload.
    pub fn new() -> (r: Self)
        requires
            CAP >= 1,
        ensures
            r.wf(),
            r@ == GlobalView::<T>::initial(),
    {
        Self::default()
    }

    /// Admits a participant: a fresh `Unpin` flag goes on the roster, and
    /// the handle that comes back is bound to its slot, with an empty bag.
    pub fn register(&mut self) -> (local: Local<T, CAP>)
        requires
            old(self).wf(),
        ensures
            final(self).wf(),
            final(self)@ == old(self)@.register(),
            local.slot() == old(self)@.flags.len(),
            final(self)@.flags[local.slot() as int] == Flag::Unpin,
            local.bag() == Seq::<T>::empty(),
    {
        let flag = self.flags.push(AtomicFlag::default());
        assert(self@.flags =~= old(self)@.flags.push(Flag::Unpin));
        Local { bag: Bag::default(), flag }
    }

    /// Parks `bag` under the epoch of `guard`, then tries to reclaim: if no
    /// participant announces the epoch before the global one, every bag
    /// parked under that epoch is destroyed and the global epoch moves on.
    pub fn migrate(&mut self, guard: &PinGuard, bag: Bag<T, CAP>)
        requires
            old(self).wf(),
        ensures
            final(self).wf(),
            final(self)@ == old(self)@.migrate(guard.epoch(), bag@),
            final(self)@.epoch == old(self)@.epoch || final(self)@.epoch == old(
                self,
            )@.epoch.next(),
            old(self)@.witnessed() ==> final(self)@ == old(self)@.park(guard.epoch(), bag@),
            final(self)@.flags == old(self)@.flags,
    {
        let ghost parked = self@.park(guard.epoch, bag@);
        self.bags[guard.epoch.to_usize()].push(bag);
        assert(self@.bags =~~= parked.bags);
        let epoch = self.epoch.load();
        match self.flags.try_own() {
            Some(claim) => {
                let target = epoch.decrease();
                if !self.witnessed(&claim, target) {
                    let slot = target.to_usize();
                    let ghost full = *self;
                    while self.bags[slot].len() > 0
                        invariant
                            slot < 3,
                            self.epoch == full.epoch,
                            self.flags == full.flags,
                            forall|i: int|
                                0 <= i < 3 && i != slot ==> self.bags[i] == full.bags[i],
                        decreases self.bags[slot as int]@.len(),
                    {
                        self.bags[slot].boxed_pop();
                    }
                    self.epoch.store(epoch.increase());
                    assert(self@.bags =~~= parked.reclaim().bags);
                }
                self.flags.release(claim);
            },
            None => {},
        }
    }

    /// Whether a flag on the roster announces `target`.
    fn witnessed(&self, claim: &StackGuard<AtomicFlag>, target: Epoch) -> (r: bool)
        ensures
            r == self@.flags.contains(Flag::of_epoch(target)),
    {
        let witness = Flag::from_epoch(target);
        let ghost walk = top_down(self.flags@);
        let ghost mut visited: int = 0;
        let mut iter = self.flags.into_iter(claim);
        loop
            invariant
                0 <= visited <= walk.len(),
                walk == top_down(self.flags@),
                iter@ == walk.skip(visited),
                witness == Flag::of_epoch(target),
                forall|j: int| 0 <= j < visited ==> (#[trigger] walk[j])@ != witness,
            decreases iter@.len(),
        {
            match iter.next() {
                Some(flag) => {
                    if flag.load() == witness {
                        assert(self@.flags[self.flags@.len() - 1 - visited] == witness);
                        return true;
                    }
                    proof {
                        visited = visited + 1;
                    }
                },
                None => {
                    proof {
                        assert forall|i: int| 0 <= i < self@.flags.len() implies self@.flags[i]
                            != witness by {
                            assert(walk[self.flags@.len() - 1 - i] == self.flags@[i]);
                        }
                    }
                    return false;
                },
            }
        }
    }

    /// The global epoch.
    pub fn epoch(&self) -> (r: Epoch)
        ensures
            r == self@.epoch,
    {
        self.epoch.load()
    }

    /// The number of registered participants.
    pub fn participants(&self) -> (n: usize)
        ensures
            n == self@.flags.len(),
    {
        self.flags.len()
    }

    /// What the participant in `slot` announces.
    pub fn flag(&self, slot: usize) -> (r: Flag)
        requires
            slot < self@.flags.len(),
        ensures
            r == self@.flags[slot as int],
    {
        self.flags.get(slot).load()
    }

    /// The number of bags parked under `epoch`.
    pub fn parked(&self, epoch: Epoch) -> (n: usize)
        ensures
            n == self@.parked(epoch).len(),
    {
        self.bags[epoch.to_usize()].len()
    }
}

/// The token of a pin: its holder announces the epoch that it carries.
#[derive(Debug)]
pub struct PinGuard {
    epoch: Epoch,
    flag: usize,
}

impl PinGuard {
    /// The slot on the roster whose flag this pin set.
    pub closed spec fn spec_slot(&self) -> usize {
        self.flag
    }

    /// The slot on the roster whose flag this pin set.
    #[verifier::when_used_as_spec(spec_slot)]
    pub fn slot(&self) -> (r: usize)
        ensures
            r == self.slot(),
    {
        self.flag
    }

    /// The global epoch that was read when the pin was taken.
    pub closed spec fn spec_epoch(&self) -> Epoch {
        self.epoch
    }

    /// The global epoch that was read when the pin was taken.
    #[verifier::when_used_as_spec(spec_epoch)]
    pub fn epoch(&self) -> (r: Epoch)
        ensures
            r == self.epoch(),
    {
        self.epoch
    }

    /// The pin holds in `global`: the flag in its slot announces its epoch.
    pub open spec fn live<T>(&self, global: GlobalView<T>) -> bool {
        &&& self.slot() < global.flags.len()
        &&& global.flags[self.slot() as int] == Flag::of_epoch(self.epoch())
    }

    /// Ends the pin: the flag in its slot goes back to `Unpin`.
    pub fn unpin<T, const CAP: usize>(self, global: &mut Global<T, CAP>)
        requires
            old(global).wf(),
            self.slot() < old(global)@.flags.len(),
        ensures
            final(global).wf(),
            final(global)@ == old(global)@.unpin(self.slot() as int),
    {
        proof {
            old(global)@.lemma_inv_preserved(self.flag as int, self.epoch, Seq::empty());
        }
        global.flags.get_mut(self.flag).store(Flag::Unpin);
        assert(global@.flags =~= old(global)@.flags.update(self.flag as int, Flag::Unpin));
    }
}

/// A participant's handle: its bag, and the slot of its flag on the roster
/// of the coordinator that registered it.
#[derive(Debug)]
pub struct Local<T, const CAP: usize> {
    bag: Bag<T, CAP>,
    flag: usize,
}

impl<T, const CAP: usize> Local<T, CAP> {
    #[verifier::type_invariant]
    spec fn has_room(self) -> bool {
        self.bag@.len() < CAP
    }

    /// The slot of this participant's flag on the roster.
    pub closed spec fn spec_slot(&self) -> usize {
        self.flag
    }

    /// The slot of this participant's flag on the roster.
    #[verifier::when_used_as_spec(spec_slot)]
    pub fn slot(&self) -> (r: usize)
        ensures
            r == self.slot(),
    {
        self.flag
    }

    /// The payloads retired by this participant and not yet parked.
    pub closed spec fn bag(&self) -> Seq<T> {
        self.bag@
    }

    /// The number of payloads in the bag, which is never full.
    pub fn buffered(&self) -> (n: usize)
        ensures
            n == self.bag().len(),
            n < CAP,
    {
        proof {
            use_type_invariant(self);
        }
        self.bag.len()
    }

    /// Pins the participant: reads the global epoch, announces it in the
    /// participant's flag, and returns the token of the pin. The participant
    /// must not be pinned already.
    pub fn pin(&self, global: &mut Global<T, CAP>) -> (guard: PinGuard)
        requires
            old(global).wf(),
            self.slot() < old(global)@.flags.len(),
            old(global)@.flags[self.slot() as int] == Flag::Unpin,
        ensures
            final(global).wf(),
            final(global)@ == old(global)@.pin(self.slot() as int),
            guard.epoch() == old(global)@.epoch,
            guard.slot() == self.slot(),
            guard.live(final(global)@),
    {
        proof {
            old(global)@.lemma_inv_preserved(self.flag as int, Epoch::Epoch0, Seq::empty());
        }
        let epoch = global.epoch.load();
        global.flags.get_mut(self.flag).store(Flag::from_epoch(epoch));
        assert(global@.flags =~= old(global)@.flags.update(
            self.flag as int,
            Flag::of_epoch(epoch),
        ));
        PinGuard { epoch, flag: self.flag }
    }

    /// Retires `garbage` under the pin of `guard`. It goes to the bag; if
    /// that fills the bag, the bag is parked with `global` under the epoch of
    /// the pin, a reclamation pass follows, and an empty bag takes its place.
    pub fn migrate(&mut self, global: &mut Global<T, CAP>, guard: &PinGuard, garbage: Box<T>)
        requires
            old(global).wf(),
        ensures
            final(global).wf(),
            final(self).slot() == old(self).slot(),
            (final(global)@, final(self).bag()) == old(global)@.defer(
                old(self).bag(),
                CAP as nat,
                guard.epoch(),
                *garbage,
            ),
            final(self).bag().len() < CAP,
            final(global)@.epoch == old(global)@.epoch || final(global)@.epoch == old(
                global,
            )@.epoch.next(),
            final(global)@.flags == old(global)@.flags,
    {
        proof {
            use_type_invariant(&*self);
            old(global)@.lemma_defer(old(self).bag(), CAP as nat, guard.epoch(), *garbage);
        }
        let mut bag = Bag::unallocated();
        core::mem::swap(&mut bag, &mut self.bag);
        bag.push(garbage);
        if bag.is_full() {
            self.bag = Bag::default();
            global.migrate(guard, bag);
        } else {
            self.bag = bag;
        }
    }
}

} // verus!
