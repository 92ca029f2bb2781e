//! A pusher that applies a function to every message on its way to a sink.

use vstd::prelude::*;
use crate::push::{Push, PushRef};

verus! {

/// Relays each message to one inner sink after applying a function to it.
pub struct MapPusher<F, P> {
    /// The function applied to every message.
    pub func: F,
    /// The sink that receives the results.
    pub pusher: P,
}

impl<F, P> MapPusher<F, P> {
    /// A pusher that applies `func` to every message before passing it to `pusher`.
    pub fn new(func: F, pusher: P) -> (mapper: MapPusher<F, P>)
        ensures
            mapper.func == func,
            mapper.pusher == pusher,
    {
        MapPusher { func: func, pusher: pusher }
    }

    /// Gives up the pusher for the sink inside it.
    pub fn into_pusher(self) -> (pusher: P)
        ensures
            pusher == self.pusher,
    {
        self.pusher
    }
}

impl<F: Fn(D1) -> D2, D1, D2, P: Push<D2>> Push<D1> for MapPusher<F, P> {
    /// A message is accepted when the function can be applied to it and the
    /// inner sink accepts whatever the function may return for it.
    open spec fn accepts(&self, message: Option<D1>) -> bool {
        match message {
            Some(m) => self.func.requires((m,)) && forall|mapped: D2|
                #[trigger] self.func.ensures((m,), mapped) ==> self.pusher.accepts(Some(mapped)),
            None => self.pusher.accepts(None),
        }
    }

    /// The inner sink has received one message: a result of the function on
    /// `Some`, the closure signal on `None`. The function is unchanged.
    open spec fn pushed(&self, message: Option<D1>, after: Self) -> bool {
        &&& after.func == self.func
        &&& match message {
            Some(m) => exists|mapped: D2|
                self.func.ensures((m,), mapped) && self.pusher.pushed(Some(mapped), after.pusher),
            None => self.pusher.pushed(None, after.pusher),
        }
    }

    /// Takes the message, applies the function once and forwards the result.
    fn push(&mut self, message: &mut Option<D1>)
        ensures
            *final(message) is None,
    {
        let mut mapped = match message.take() {
            Some(m) => Some((self.func)(m)),
            None => None,
        };
        let ghost forwarded = mapped;
        proof {
            if forwarded is Some {
                assert(self.func.ensures((old(message)->0,), forwarded->0));
            }
        }
        self.pusher.push(&mut mapped);
        proof {
            if forwarded is Some {
                let m = old(message)->0;
                assert(old(self).func.ensures((m,), forwarded->0) && old(self).pusher.pushed(
                    Some(forwarded->0),
                    self.pusher,
                ));
            }
        }
    }
}

impl<F: Fn(&D1) -> D2, D1, D2, P: Push<D2>> PushRef<D1> for MapPusher<F, P> {
    /// As for an owned message, with the function applied to the borrow.
    open spec fn accepts_ref(&self, message: Option<&D1>) -> bool {
        match message {
            Some(m) => self.func.requires((m,)) && forall|mapped: D2|
                #[trigger] self.func.ensures((m,), mapped) ==> self.pusher.accepts(Some(mapped)),
            None => self.pusher.accepts(None),
        }
    }

    /// The inner sink has received one owned message made from the borrow.
    open spec fn pushed_ref(&self, message: Option<&D1>, after: Self) -> bool {
        &&& after.func == self.func
        &&& match message {
            Some(m) => exists|mapped: D2|
                self.func.ensures((m,), mapped) && self.pusher.pushed(Some(mapped), after.pusher),
            None => self.pusher.pushed(None, after.pusher),
        }
    }

    /// Applies the function to the borrowed message once and forwards the result.
    fn push_ref(&mut self, message: Option<&D1>) {
        let mut mapped = match message {
            Some(m) => Some((self.func)(m)),
            None => None,
        };
        let ghost forwarded = mapped;
        proof {
            if forwarded is Some {
                assert(self.func.ensures((message->0,), forwarded->0));
            }
        }
        self.pusher.push(&mut mapped);
        proof {
            if forwarded is Some {
                let m = message->0;
                assert(old(self).func.ensures((m,), forwarded->0) && old(self).pusher.pushed(
                    Some(forwarded->0),
                    self.pusher,
                ));
            }
        }
    }
}

} // verus!
