use vstd::prelude::*;
use crate::registry::{Registry, SERVER_TOKEN};

verus! {

/// A plain acceptor: it registers each accepted transport under a fresh
/// identifier and performs no handshake.
pub struct WebSocketServer<L, S> {
    pub socket: L,
    clients: Registry<S>,
}

impl<L, S> WebSocketServer<L, S> {
    pub closed spec fn clients(&self) -> Registry<S> {
        self.clients
    }

    pub closed spec fn listener(&self) -> L {
        self.socket
    }

    pub fn new(socket: L) -> (r: Self)
        ensures
            r.clients().wf(),
            r.listener() == socket,
            r.clients().entries() == Seq::<(usize, S)>::empty(),
    {
        WebSocketServer { socket, clients: Registry::new() }
    }

    /// Whether an event is for the listening socket and calls for accepting.
    pub fn accepts_on(&self, token: usize, readable: bool) -> (r: bool)
        ensures
            r == (token == SERVER_TOKEN && readable),
    {
        token == SERVER_TOKEN && readable
    }

    /// Keeps an accepted transport under a fresh identifier; `None` once
    /// identifiers are exhausted.
    pub fn accept(&mut self, socket: S) -> (r: Option<usize>)
        requires
            old(self).clients().wf(),
        ensures
            final(self).clients().wf(),
            final(self).listener() == old(self).listener(),
            r is Some <==> old(self).clients().counter() < usize::MAX,
            r is None ==> final(self).clients().entries() == old(self).clients().entries(),
            r matches Some(id) ==> {
                &&& id == old(self).clients().counter() + 1
                &&& !old(self).clients().contains(id)
                &&& final(self).clients().entries() == old(self).clients().entries().push(
                    (id, socket),
                )
            },
    {
        match self.clients.allocate() {
            None => None,
            Some(id) => {
                self.clients.insert(id, socket);
                Some(id)
            },
        }
    }

    /// The number of kept transports.
    pub fn len(&self) -> (r: usize)
        ensures
            r == self.clients().entries().len(),
    {
        self.clients.len()
    }
}

} // verus!
