//! An in-process sink that keeps what it receives, in arrival order.

use vstd::prelude::*;
use crate::push::{Push, PushRef};

verus! {

/// A sink that stores every delivery, closure signals included.
pub struct Queue<M> {
    messages: Vec<Option<M>>,
}

impl<M> View for Queue<M> {
    type V = Seq<Option<M>>;

    closed spec fn view(&self) -> Seq<Option<M>> {
        self.messages@
    }
}

impl<M> Queue<M> {
    /// An empty queue.
    pub fn new() -> (queue: Queue<M>)
        ensures
            queue@ == Seq::<Option<M>>::empty(),
    {
        Queue { messages: Vec::new() }
    }

    /// How many deliveries the queue holds.
    pub fn len(&self) -> (n: usize)
        ensures
            n == self@.len(),
    {
        self.messages.len()
    }

    /// The delivery at position `index`, counted from the oldest.
    pub fn get(&self, index: usize) -> (message: &Option<M>)
        requires
            index < self@.len(),
        ensures
            *message == self@[index as int],
    {
        &self.messages[index]
    }

    /// Hands out everything received so far, oldest first.
    pub fn into_messages(self) -> (messages: Vec<Option<M>>)
        ensures
            messages@ == self@,
    {
        self.messages
    }
}

impl<M> Push<M> for Queue<M> {
    open spec fn accepts(&self, message: Option<M>) -> bool {
        true
    }

    open spec fn pushed(&self, message: Option<M>, after: Self) -> bool {
        after@ == self@.push(message)
    }

    /// Moves the message into the queue and leaves `None` behind.
    fn push(&mut self, message: &mut Option<M>)
        ensures
            *final(message) is None,
    {
        let taken = message.take();
        self.messages.push(taken);
    }
}

impl<M: Clone> PushRef<M> for Queue<M> {
    open spec fn accepts_ref(&self, message: Option<&M>) -> bool {
        true
    }

    open spec fn pushed_ref(&self, message: Option<&M>, after: Self) -> bool {
        &&& after@.len() == self@.len() + 1
        &&& after@.subrange(0, self@.len() as int) == self@
        &&& match message {
            Some(m) => after@.last() is Some && cloned(*m, after@.last()->0),
            None => after@.last() is None,
        }
    }

    /// Stores a clone of the observed message.
    fn push_ref(&mut self, message: Option<&M>) {
        let copy = message.cloned();
        self.messages.push(copy);
        assert(self@.subrange(0, old(self)@.len() as int) =~= old(self)@);
    }
}

} // verus!
