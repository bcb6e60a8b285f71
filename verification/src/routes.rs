//! Which tunnel a datagram belongs to.
use std::collections::HashMap;
use vstd::prelude::*;
use vstd::std_specs::hash::*;
use crate::masque;
use crate::masque::{ConnectRequest, Dispatch};

verus! {

/// Whether a tunnel uses datagrams.
pub open spec fn uses_datagrams(to: Dispatch) -> bool {
    to is Udp || to is Ip
}

/// The inboxes of the tunnels of a connection, by stream.
#[verifier::reject_recursive_types(T)]
pub struct Routes<T> {
    inboxes: HashMap<u64, T>,
}

impl<T> View for Routes<T> {
    type V = Map<u64, T>;

    closed spec fn view(&self) -> Map<u64, T> {
        self.inboxes@
    }
}

impl<T> Routes<T> {
    /// A table without tunnels.
    pub fn new() -> (r: Routes<T>)
        ensures
            r@ == Map::<u64, T>::empty(),
    {
        Routes { inboxes: HashMap::new() }
    }

    /// Takes a request that came on a stream: decides which tunnel serves it, and
    /// adds its inbox when that tunnel uses datagrams.
    pub fn accept(&mut self, stream: u64, req: &ConnectRequest, inbox: T) -> (r: Dispatch)
        ensures
            r == masque::dispatch_of(*req),
            final(self)@ == (if uses_datagrams(r) {
                old(self)@.insert(stream, inbox)
            } else {
                old(self)@
            }),
    {
        let to = masque::dispatch(req);
        match to {
            Dispatch::Udp | Dispatch::Ip => self.register(stream, inbox),
            Dispatch::WebSocket | Dispatch::Tcp | Dispatch::Refuse(_) => {},
        }
        to
    }

    /// Adds the tunnel of a stream; it takes the place of an earlier one.
    pub fn register(&mut self, stream: u64, inbox: T)
        ensures
            final(self)@ == old(self)@.insert(stream, inbox),
    {
        broadcast use group_hash_axioms;

        self.inboxes.insert(stream, inbox);
    }

    /// The inbox of the tunnel of a stream. A datagram without one is dropped.
    pub fn inbox(&self, stream: u64) -> (r: Option<&T>)
        ensures
            match r {
                Some(inbox) => self@.contains_key(stream) && *inbox == self@[stream],
                None => !self@.contains_key(stream),
            },
    {
        broadcast use group_hash_axioms;

        self.inboxes.get(&stream)
    }

    /// Removes the tunnel of a stream: it has ended, or its inbox is gone.
    pub fn unregister(&mut self, stream: u64)
        ensures
            final(self)@ == old(self)@.remove(stream),
    {
        broadcast use group_hash_axioms;

        self.inboxes.remove(&stream);
    }

    /// Removes every tunnel, so that each of them sees its inbox closed.
    pub fn clear(&mut self)
        ensures
            final(self)@ == Map::<u64, T>::empty(),
    {
        broadcast use group_hash_axioms;

        self.inboxes.clear();
    }
}

/// A datagram reaches the tunnel of its own stream and no other: registering or
/// removing another stream does not change where it goes.
pub proof fn lemma_streams_apart<T>(routes: Map<u64, T>, stream: u64, other: u64, inbox: T)
    requires
        stream != other,
    ensures
        routes.insert(other, inbox).contains_key(stream) == routes.contains_key(stream),
        routes.remove(other).contains_key(stream) == routes.contains_key(stream),
        routes.contains_key(stream) ==> routes.insert(other, inbox)[stream] == routes[stream]
            && routes.remove(other)[stream] == routes[stream],
{
}

/// UDP and IP tunnels use datagrams; TCP and WebSocket tunnels, and requests that
/// get none, do not.
pub proof fn lemma_datagram_users(to: Dispatch)
    ensures
        to is Udp ==> uses_datagrams(to),
        to is Ip ==> uses_datagrams(to),
        !(to is Udp) && !(to is Ip) ==> !uses_datagrams(to),
{
}

} // verus!
