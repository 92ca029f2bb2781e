//! The two sink capabilities: accepting a message by value and by reference.

use vstd::prelude::*;

verus! {

/// A sink that takes ownership of what it is handed.
///
/// `Some(m)` delivers one message and `None` signals that the channel is
/// closed. Each implementor says in `accepts` which messages it can take and in
/// `pushed` how one delivery changes it; `push` promises exactly that change.
pub trait Push<M>: Sized {
    /// Whether the sink, as it stands, can take `message`.
    spec fn accepts(&self, message: Option<M>) -> bool;

    /// Whether `after` is this sink once `message` has been delivered to it.
    spec fn pushed(&self, message: Option<M>, after: Self) -> bool;

    /// Delivers `message`. The sink may take the value out of `message` or
    /// leave something behind in it for the caller to reuse.
    fn push(&mut self, message: &mut Option<M>)
        requires
            old(self).accepts(*old(message)),
        ensures
            old(self).pushed(*old(message), *final(self)),
    ;
}

/// A sink that only looks at what it is handed.
pub trait PushRef<M>: Sized {
    /// Whether the sink, as it stands, can observe `message`.
    spec fn accepts_ref(&self, message: Option<&M>) -> bool;

    /// Whether `after` is this sink once it has observed `message`.
    spec fn pushed_ref(&self, message: Option<&M>, after: Self) -> bool;

    /// Shows `message` to the sink; `None` signals that the channel is closed.
    fn push_ref(&mut self, message: Option<&M>)
        requires
            old(self).accepts_ref(message),
        ensures
            old(self).pushed_ref(message, *final(self)),
    ;
}

/// The borrowed form of a message, as a by-reference sink sees it.
pub open spec fn borrowed<M>(message: &Option<M>) -> Option<&M> {
    match message {
        Some(m) => Some(m),
        None => None,
    }
}

} // verus!
