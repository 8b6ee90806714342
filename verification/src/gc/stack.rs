//! A singly linked stack with an owner-only snapshot iteration.
//!
//! The nodes live in an arena, bottom first: the node in slot `i` links to
//! the node in slot `i - 1`, and the head is the last slot. A push hands out
//! the slot of the new node as a handle, which stays good until that node is
//! popped. The view of a stack is the sequence of its payloads, bottom first.

use core::marker::PhantomData;
use vstd::prelude::*;

verus! {

/// The payloads of `s` in the order in which a walk from the head meets
/// them: last pushed first.
pub open spec fn top_down<T>(s: Seq<T>) -> Seq<T> {
    Seq::new(s.len(), |i: int| s[s.len() - 1 - i])
}

/// The payloads that `count` successive pops hand out, in that order. A pop
/// of an empty stack hands out nothing.
pub open spec fn popped<T>(s: Seq<T>, count: nat) -> Seq<T>
    decreases count,
{
    if count == 0 || s.len() == 0 {
        Seq::empty()
    } else {
        seq![s.last()] + popped(s.drop_last(), (count - 1) as nat)
    }
}

/// What `count` successive pops leave of the stack.
pub open spec fn left<T>(s: Seq<T>, count: nat) -> Seq<T>
    decreases count,
{
    if count == 0 || s.len() == 0 {
        s
    } else {
        left(s.drop_last(), (count - 1) as nat)
    }
}

/// A pop that follows a push hands out what was pushed and restores the
/// stack.
pub proof fn lemma_pop_undoes_push<T>(s: Seq<T>, value: T)
    ensures
        s.push(value).last() == value,
        s.push(value).drop_last() == s,
        popped(s.push(value), 1) == seq![value],
        left(s.push(value), 1) == s,
{
    let t = s.push(value);
    assert(popped(t.drop_last(), 0) =~= Seq::<T>::empty());
    assert(left(t.drop_last(), 0) == s);
}

/// Last in, first out: after `values` were pushed in order, as many pops
/// hand them out in the opposite order and leave the stack as it was before.
pub proof fn lemma_lifo<T>(s: Seq<T>, values: Seq<T>)
    ensures
        popped(s + values, values.len()) == top_down(values),
        left(s + values, values.len()) == s,
    decreases values.len(),
{
    if values.len() > 0 {
        let rest = values.drop_last();
        assert((s + values).drop_last() =~= s + rest);
        lemma_lifo(s, rest);
    }
}

/// Handles are stable: whatever is pushed later, a handle that was good
/// before still leads to the same payload.
pub proof fn lemma_handles_stable<T>(s: Seq<T>, later: Seq<T>, handle: int)
    requires
        0 <= handle < s.len(),
    ensures
        handle < (s + later).len(),
        (s + later)[handle] == s[handle],
{
}

/// The claim on a stack's snapshot iteration. There is one way to get it,
/// `AtomicStack::try_own`, and it is given back with `AtomicStack::release`.
pub struct StackGuard<T> {
    claimed: PhantomData<T>,
}

/// A stack of boxed payloads.
#[derive(Debug)]
pub struct AtomicStack<T> {
    nodes: Vec<Box<T>>,
    taken: bool,
}

impl<T> View for AtomicStack<T> {
    type V = Seq<T>;

    closed spec fn view(&self) -> Seq<T> {
        self.nodes@.map_values(|b: Box<T>| *b)
    }
}

impl<T> Default for AtomicStack<T> {
    fn default() -> (r: Self)
        ensures
            r@ == Seq::<T>::empty(),
            !r.is_taken(),
    {
        AtomicStack { nodes: Vec::new(), taken: false }
    }
}

impl<T> AtomicStack<T> {
    /// Whether the snapshot iteration of this stack is claimed.
    pub closed spec fn is_taken(&self) -> bool {
        self.taken
    }

    /// Pushes `value` and returns its handle.
    pub fn push(&mut self, value: T) -> (handle: usize)
        ensures
            final(self)@ == old(self)@.push(value),
            handle == old(self)@.len(),
            final(self).is_taken() == old(self).is_taken(),
    {
        self.boxed_push(Box::new(value))
    }

    /// Links a new node that carries `value` in front of the head, and
    /// returns its handle. No payload that is already there moves.
    pub fn boxed_push(&mut self, value: Box<T>) -> (handle: usize)
        ensures
            final(self)@ == old(self)@.push(*value),
            handle == old(self)@.len(),
            final(self)@[handle as int] == *value,
            forall|h: int| 0 <= h < old(self)@.len() ==> final(self)@[h] == old(self)@[h],
            final(self).is_taken() == old(self).is_taken(),
    {
        let handle = self.nodes.len();
        self.nodes.push(value);
        handle
    }

    /// Unlinks the head node, frees it, and returns its payload; `None` if
    /// the stack is empty.
    pub fn boxed_pop(&mut self) -> (r: Option<Box<T>>)
        ensures
            old(self)@.len() == 0 ==> r is None && final(self)@ == old(self)@,
            old(self)@.len() > 0 ==> r == Some(Box::new(old(self)@.last())) && final(self)@ == old(
                self,
            )@.drop_last(),
            final(self).is_taken() == old(self).is_taken(),
    {
        self.nodes.pop()
    }

    /// Pops the head and returns a copy of its payload.
    pub fn pop(&mut self) -> (r: Option<T>) where T: Copy
        ensures
            old(self)@.len() == 0 ==> r is None && final(self)@ == old(self)@,
            old(self)@.len() > 0 ==> r == Some(old(self)@.last()) && final(self)@ == old(
                self,
            )@.drop_last(),
            final(self).is_taken() == old(self).is_taken(),
    {
        match self.boxed_pop() {
            Some(payload) => Some(*payload),
            None => None,
        }
    }

    /// Starts a walk from the head as it is now.
    pub fn into_iter<'a>(&'a self, _guard: &StackGuard<T>) -> (iter: QueueIterator<'a, T>)
        ensures
            iter@ == top_down(self@),
    {
        QueueIterator { stack: self, next: self.nodes.len() }
    }

    /// Claims the snapshot iteration, if nobody holds the claim.
    pub fn try_own(&mut self) -> (r: Option<StackGuard<T>>)
        ensures
            r is Some <==> !old(self).is_taken(),
            final(self).is_taken(),
            final(self)@ == old(self)@,
    {
        if self.taken {
            None
        } else {
            self.taken = true;
            Some(StackGuard { claimed: PhantomData })
        }
    }

    /// Gives the claim back.
    pub fn release(&mut self, _guard: StackGuard<T>)
        ensures
            !final(self).is_taken(),
            final(self)@ == old(self)@,
    {
        self.taken = false;
    }

    /// The number of nodes.
    pub fn len(&self) -> (n: usize)
        ensures
            n == self@.len(),
    {
        self.nodes.len()
    }

    /// The payload behind `handle`.
    pub fn get(&self, handle: usize) -> (r: &T)
        requires
            handle < self@.len(),
        ensures
            *r == self@[handle as int],
    {
        &*self.nodes[handle]
    }

    /// The payload behind `handle`, to be changed in place. Nothing else in
    /// the stack changes.
    pub fn get_mut(&mut self, handle: usize) -> (r: &mut T)
        requires
            handle < old(self)@.len(),
        ensures
            *r == old(self)@[handle as int],
            final(self)@ == old(self)@.update(handle as int, *final(r)),
            final(self).is_taken() == old(self).is_taken(),
    {
        &mut *self.nodes[handle]
    }
}

/// A walk over the nodes of a stack, from the head down. Its view is the
/// sequence of payloads that it has yet to visit, in the order of the visit.
#[derive(Debug)]
pub struct QueueIterator<'a, T> {
    stack: &'a AtomicStack<T>,
    /// The number of nodes below the one that the walk has reached: the
    /// node to visit next is in the slot before this one, and 0 is the end.
    next: usize,
}

impl<'a, T> View for QueueIterator<'a, T> {
    type V = Seq<T>;

    closed spec fn view(&self) -> Seq<T> {
        top_down(self.stack@.take(self.next as int))
    }
}

impl<'a, T> QueueIterator<'a, T> {
    #[verifier::type_invariant]
    spec fn within_the_stack(self) -> bool {
        self.next <= self.stack.nodes@.len()
    }

    /// Steps to the next node and returns the payload of the one that was
    /// left; `None` at the bottom.
    pub fn next(&mut self) -> (r: Option<&'a T>)
        ensures
            old(self)@.len() == 0 ==> r is None && final(self)@ == old(self)@,
            old(self)@.len() > 0 ==> r == Some(&old(self)@.first()) && final(self)@ == old(
                self,
            )@.drop_first(),
    {
        proof {
            use_type_invariant(&*self);
        }
        if self.next == 0 {
            None
        } else {
            self.next = self.next - 1;
            Some(&*self.stack.nodes[self.next])
        }
    }
}

} // verus!
