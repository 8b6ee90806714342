//! The rotating epoch, the per-participant flag, and the word cells that
//! store them.
//!
//! An epoch and a flag share one numeric encoding on the three epoch values,
//! so that announcing an epoch in a flag is a reinterpretation of the word.

use vstd::prelude::*;

verus! {

/// The three-valued logical clock of the engine.
#[derive(Debug, Copy, Clone, PartialEq, Eq, Structural)]
pub enum Epoch {
    Epoch0,
    Epoch1,
    Epoch2,
}

impl Epoch {
    /// Numeric encoding of the epoch: 0, 1 or 2.
    pub open spec fn ordinal(self) -> nat {
        match self {
            Epoch::Epoch0 => 0,
            Epoch::Epoch1 => 1,
            Epoch::Epoch2 => 2,
        }
    }

    /// The epoch that a word encodes. Words above 2 encode no epoch; they are
    /// read as the default one.
    pub open spec fn of_ordinal(word: nat) -> Epoch {
        if word == 1 {
            Epoch::Epoch1
        } else if word == 2 {
            Epoch::Epoch2
        } else {
            Epoch::Epoch0
        }
    }

    /// The cyclic successor.
    pub open spec fn next(self) -> Epoch {
        match self {
            Epoch::Epoch0 => Epoch::Epoch1,
            Epoch::Epoch1 => Epoch::Epoch2,
            Epoch::Epoch2 => Epoch::Epoch0,
        }
    }

    /// The cyclic predecessor: two steps forward on the cycle of three.
    pub open spec fn prev(self) -> Epoch {
        self.next().next()
    }

    /// The epoch reached from `self` by `steps` applications of `next`.
    pub open spec fn advanced(self, steps: nat) -> Epoch
        decreases steps,
    {
        if steps == 0 {
            self
        } else {
            self.advanced((steps - 1) as nat).next()
        }
    }

    /// The successor of this epoch on the cycle.
    pub fn increase(self) -> (r: Epoch)
        ensures
            r == self.next(),
            r.ordinal() == (self.ordinal() + 1) % 3,
    {
        match self {
            Epoch::Epoch0 => Epoch::Epoch1,
            Epoch::Epoch1 => Epoch::Epoch2,
            Epoch::Epoch2 => Epoch::Epoch0,
        }
    }

    /// The predecessor of this epoch on the cycle.
    pub fn decrease(self) -> (r: Epoch)
        ensures
            r == self.prev(),
            r.ordinal() == (self.ordinal() + 2) % 3,
    {
        match self {
            Epoch::Epoch0 => Epoch::Epoch2,
            Epoch::Epoch1 => Epoch::Epoch0,
            Epoch::Epoch2 => Epoch::Epoch1,
        }
    }

    /// The word that encodes this epoch.
    pub fn to_usize(self) -> (word: usize)
        ensures
            word == self.ordinal(),
    {
        match self {
            Epoch::Epoch0 => 0,
            Epoch::Epoch1 => 1,
            Epoch::Epoch2 => 2,
        }
    }

    /// The epoch that `word` encodes.
    pub fn from_usize(word: usize) -> (r: Epoch)
        requires
            word < 3,
        ensures
            r.ordinal() == word,
            r == Epoch::of_ordinal(word as nat),
    {
        if word == 0 {
            Epoch::Epoch0
        } else if word == 1 {
            Epoch::Epoch1
        } else {
            Epoch::Epoch2
        }
    }

    /// Encoding and decoding are inverse to each other, and the predecessor
    /// undoes the successor.
    pub proof fn lemma_cycle(self)
        ensures
            Epoch::of_ordinal(self.ordinal()) == self,
            self.next().prev() == self,
            self.prev().next() == self,
            self.next() != self,
            self.prev() != self,
            self.next() != self.prev(),
    {
    }

    /// Three steps lead back to the start, so any multiple of three does.
    pub proof fn lemma_wrap(self, rounds: nat)
        ensures
            self.advanced(3 * rounds) == self,
        decreases rounds,
    {
        if rounds > 0 {
            self.lemma_wrap((rounds - 1) as nat);
            let before = self.advanced((3 * (rounds - 1)) as nat);
            assert(self.advanced((3 * rounds - 2) as nat) == before.next());
            assert(self.advanced((3 * rounds - 1) as nat) == before.next().next());
        }
    }
}

impl Default for Epoch {
    fn default() -> (r: Self)
        ensures
            r == Epoch::Epoch0,
    {
        Epoch::Epoch0
    }
}

/// A cell that stores an epoch as one machine word.
///
/// The holder of `&mut` is the only writer, so every operation is atomic with
/// respect to every other.
#[derive(Debug)]
pub struct AtomicEpoch {
    word: usize,
}

impl View for AtomicEpoch {
    type V = Epoch;

    closed spec fn view(&self) -> Epoch {
        Epoch::of_ordinal(self.word as nat)
    }
}

impl AtomicEpoch {
    #[verifier::type_invariant]
    spec fn encodes_an_epoch(self) -> bool {
        self.word < 3
    }

    /// Replaces the stored epoch.
    pub fn store(&mut self, epoch: Epoch)
        ensures
            final(self)@ == epoch,
    {
        self.word = epoch.to_usize();
    }

    /// The stored epoch.
    pub fn load(&self) -> (r: Epoch)
        ensures
            r == self@,
    {
        proof {
            use_type_invariant(self);
        }
        Epoch::from_usize(self.word)
    }

    /// Replaces `current` by `new`. The cell must hold `current`: with no
    /// other writer, waiting for it to appear would never end.
    pub fn compare_and_swap(&mut self, current: Epoch, new: Epoch)
        requires
            old(self)@ == current,
        ensures
            final(self)@ == new,
    {
        proof {
            use_type_invariant(&*self);
        }
        if self.word == current.to_usize() {
            self.word = new.to_usize();
        }
    }
}

impl Default for AtomicEpoch {
    fn default() -> (r: Self)
        ensures
            r@ == Epoch::Epoch0,
    {
        AtomicEpoch { word: Epoch::default().to_usize() }
    }
}

/// What a participant announces: the epoch it observes, or that it observes
/// none.
#[derive(Debug, Copy, Clone, PartialEq, Eq, Structural)]
pub enum Flag {
    Epoch0,
    Epoch1,
    Epoch2,
    Unpin,
}

impl Flag {
    /// Numeric encoding of the flag: that of the epoch it announces, or 3.
    pub open spec fn ordinal(self) -> nat {
        match self {
            Flag::Epoch0 => 0,
            Flag::Epoch1 => 1,
            Flag::Epoch2 => 2,
            Flag::Unpin => 3,
        }
    }

    /// The flag that a word encodes. Words above 3 encode no flag; they are
    /// read as the default one.
    pub open spec fn of_ordinal(word: nat) -> Flag {
        if word == 0 {
            Flag::Epoch0
        } else if word == 1 {
            Flag::Epoch1
        } else if word == 2 {
            Flag::Epoch2
        } else {
            Flag::Unpin
        }
    }

    /// The flag that announces `epoch`.
    pub open spec fn of_epoch(epoch: Epoch) -> Flag {
        match epoch {
            Epoch::Epoch0 => Flag::Epoch0,
            Epoch::Epoch1 => Flag::Epoch1,
            Epoch::Epoch2 => Flag::Epoch2,
        }
    }

    /// The epoch that this flag announces, if it announces one.
    pub open spec fn pinned(self) -> Option<Epoch> {
        match self {
            Flag::Epoch0 => Some(Epoch::Epoch0),
            Flag::Epoch1 => Some(Epoch::Epoch1),
            Flag::Epoch2 => Some(Epoch::Epoch2),
            Flag::Unpin => None,
        }
    }

    /// The encoding of a flag that announces an epoch.
    pub fn value(self) -> (word: usize)
        requires
            self != Flag::Unpin,
        ensures
            word == self.ordinal(),
            word < 3,
    {
        self.to_usize()
    }

    /// The flag that announces `epoch`: the same word, read as a flag.
    pub fn from_epoch(epoch: Epoch) -> (r: Flag)
        ensures
            r == Flag::of_epoch(epoch),
            r.ordinal() == epoch.ordinal(),
            r != Flag::Unpin,
    {
        match epoch {
            Epoch::Epoch0 => Flag::Epoch0,
            Epoch::Epoch1 => Flag::Epoch1,
            Epoch::Epoch2 => Flag::Epoch2,
        }
    }

    /// The word that encodes this flag.
    pub fn to_usize(self) -> (word: usize)
        ensures
            word == self.ordinal(),
    {
        match self {
            Flag::Epoch0 => 0,
            Flag::Epoch1 => 1,
            Flag::Epoch2 => 2,
            Flag::Unpin => 3,
        }
    }

    /// The flag that `word` encodes.
    pub fn from_usize(word: usize) -> (r: Flag)
        requires
            word <= 3,
        ensures
            r.ordinal() == word,
            r == Flag::of_ordinal(word as nat),
    {
        if word == 0 {
            Flag::Epoch0
        } else if word == 1 {
            Flag::Epoch1
        } else if word == 2 {
            Flag::Epoch2
        } else {
            Flag::Unpin
        }
    }

    /// A flag and the epoch it announces have the same encoding, distinct
    /// epochs have distinct flags, and `Unpin` is none of them.
    pub proof fn lemma_coincides(epoch: Epoch, other: Epoch)
        ensures
            Flag::of_epoch(epoch).ordinal() == epoch.ordinal(),
            Flag::of_epoch(epoch) != Flag::Unpin,
            Flag::Unpin.ordinal() != epoch.ordinal(),
            Flag::of_epoch(epoch) == Flag::of_epoch(other) <==> epoch == other,
            Flag::of_ordinal(Flag::of_epoch(epoch).ordinal()) == Flag::of_epoch(epoch),
            Flag::of_ordinal(Flag::Unpin.ordinal()) == Flag::Unpin,
            Flag::of_epoch(epoch).pinned() == Some(epoch),
    {
    }
}

impl Default for Flag {
    fn default() -> (r: Self)
        ensures
            r == Flag::Unpin,
    {
        Flag::Unpin
    }
}

/// A cell that stores a flag as one machine word.
///
/// The holder of `&mut` is the only writer, so every operation is atomic with
/// respect to every other.
#[derive(Debug)]
pub struct AtomicFlag {
    word: usize,
}

impl View for AtomicFlag {
    type V = Flag;

    closed spec fn view(&self) -> Flag {
        Flag::of_ordinal(self.word as nat)
    }
}

impl AtomicFlag {
    #[verifier::type_invariant]
    spec fn encodes_a_flag(self) -> bool {
        self.word <= 3
    }

    /// Replaces the stored flag.
    pub fn store(&mut self, flag: Flag)
        ensures
            final(self)@ == flag,
    {
        self.word = flag.to_usize();
    }

    /// The stored flag.
    pub fn load(&self) -> (r: Flag)
        ensures
            r == self@,
    {
        proof {
            use_type_invariant(self);
        }
        Flag::from_usize(self.word)
    }

    /// Replaces `current` by `new`. The cell must hold `current`: with no
    /// other writer, waiting for it to appear would never end.
    pub fn compare_and_swap(&mut self, current: Flag, new: Flag)
        requires
            old(self)@ == current,
        ensures
            final(self)@ == new,
    {
        proof {
            use_type_invariant(&*self);
        }
        if self.word == current.to_usize() {
            self.word = new.to_usize();
        }
    }
}

impl Default for AtomicFlag {
    fn default() -> (r: Self)
        ensures
            r@ == Flag::Unpin,
    {
        AtomicFlag { word: Flag::default().to_usize() }
    }
}

} // verus!
