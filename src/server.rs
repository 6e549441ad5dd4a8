use vstd::prelude::*;
use crate::client::{client_wf, new_client_model, WebSocketClient};
use crate::registry::{Registry, SERVER_TOKEN};

verus! {

/// What a readiness event calls for.
#[derive(PartialEq, Eq, Structural, Clone, Copy, Debug)]
pub enum Dispatch {
    /// Accept every pending connection on the listening socket.
    AcceptAll,
    /// Run the live connection's read step and/or write step, then re-arm
    /// it with its interest.
    Client { read: bool, write: bool },
    /// No live connection has this identifier: log it and go on.
    Unknown,
    /// Nothing to do.
    Ignore,
}

pub open spec fn route_spec(listener_event: bool, live: bool, readable: bool, writable: bool) -> Dispatch {
    if listener_event {
        if readable { Dispatch::AcceptAll } else { Dispatch::Ignore }
    } else if live {
        if readable || writable {
            Dispatch::Client { read: readable, write: writable }
        } else {
            Dispatch::Ignore
        }
    } else {
        Dispatch::Unknown
    }
}

/// The dispatcher: the listening transport and the live connections.
pub struct WebSocketServer<L, S> {
    pub socket: L,
    clients: Registry<WebSocketClient<S>>,
}

impl<L, S> WebSocketServer<L, S> {
    pub closed spec fn clients(&self) -> Registry<WebSocketClient<S>> {
        self.clients
    }

    pub closed spec fn listener(&self) -> L {
        self.socket
    }

    /// The registry is consistent and every live connection is too.
    pub open spec fn wf(&self) -> bool {
        &&& self.clients().wf()
        &&& forall|i: int|
            0 <= i < self.clients().entries().len() ==> client_wf(
                #[trigger] self.clients().entries()[i].1@,
            )
    }

    /// A dispatcher over a listening transport, with no connections.
    pub fn new(socket: L) -> (r: Self)
        ensures
            r.wf(),
            r.listener() == socket,
            r.clients().entries() == Seq::<(usize, WebSocketClient<S>)>::empty(),
    {
        WebSocketServer { socket, clients: Registry::new() }
    }

    /// Decides what a readiness event for `token` calls for.
    pub fn route(&self, token: usize, readable: bool, writable: bool) -> (r: Dispatch)
        ensures
            r == route_spec(token == SERVER_TOKEN, self.clients().contains(token), readable, writable),
    {
        if token == SERVER_TOKEN {
            if readable { Dispatch::AcceptAll } else { Dispatch::Ignore }
        } else if self.clients.contains_id(token) {
            if readable || writable {
                Dispatch::Client { read: readable, write: writable }
            } else {
                Dispatch::Ignore
            }
        } else {
            Dispatch::Unknown
        }
    }

    /// Registers an accepted transport as a new connection awaiting the
    /// handshake, under a fresh identifier; `None` (and the transport is
    /// dropped) once identifiers are exhausted.
    pub fn accept(&mut self, socket: S) -> (r: Option<usize>)
        requires
            old(self).wf(),
        ensures
            final(self).wf(),
            final(self).listener() == old(self).listener(),
            r is Some <==> old(self).clients().counter() < usize::MAX,
            r is None ==> final(self).clients().entries() == old(self).clients().entries()
                && final(self).clients().counter() == old(self).clients().counter(),
            r matches Some(id) ==> {
                &&& id == old(self).clients().counter() + 1
                &&& id != SERVER_TOKEN
                &&& !old(self).clients().contains(id)
                &&& final(self).clients().counter() == id
                &&& final(self).clients().entries().len() == old(self).clients().entries().len() + 1
                &&& final(self).clients().entries().drop_last() == old(self).clients().entries()
                &&& final(self).clients().entries().last().0 == id
                &&& final(self).clients().entries().last().1@ == new_client_model()
                &&& final(self).clients().entries().last().1.transport() == socket
            },
    {
        match self.clients.allocate() {
            None => None,
            Some(id) => {
                let client = WebSocketClient::new(socket);
                self.clients.insert(id, client);
                assert(self.clients().entries().drop_last() =~= old(self).clients().entries());
                assert forall|i: int| 0 <= i < self.clients().entries().len() implies client_wf(
                    #[trigger] self.clients().entries()[i].1@,
                ) by {
                    if i < old(self).clients().entries().len() {
                        assert(self.clients().entries()[i] == old(self).clients().entries()[i]);
                    }
                }
                Some(id)
            },
        }
    }

    /// Takes the connection under `token` out, to run its steps or to close
    /// it; every other connection stays as it was.
    pub fn take(&mut self, token: usize) -> (r: Option<WebSocketClient<S>>)
        requires
            old(self).wf(),
        ensures
            final(self).wf(),
            final(self).listener() == old(self).listener(),
            final(self).clients().counter() == old(self).clients().counter(),
            !final(self).clients().contains(token),
            r is Some <==> old(self).clients().contains(token),
            r is None ==> final(self).clients().entries() == old(self).clients().entries()
                && final(self).clients().counter() == old(self).clients().counter(),
            r matches Some(c) ==> client_wf(c@) && exists|i: int|
                0 <= i < old(self).clients().entries().len() && old(self).clients().entries()[i]
                    == (token, c) && final(self).clients().entries()
                    == old(self).clients().entries().remove(i),
    {
        let r = self.clients.remove(token);
        assert forall|i: int| 0 <= i < self.clients().entries().len() implies client_wf(
            #[trigger] self.clients().entries()[i].1@,
        ) by {
            if r is Some {
                let k = choose|k: int|
                    0 <= k < old(self).clients().entries().len()
                        && old(self).clients().entries()[k] == (token, r->0)
                        && self.clients().entries() == old(self).clients().entries().remove(k);
                if i < k {
                    assert(self.clients().entries()[i] == old(self).clients().entries()[i]);
                } else {
                    assert(self.clients().entries()[i] == old(self).clients().entries()[i + 1]);
                }
            }
        }
        proof {
            if r is Some {
            let k = choose|k: int|
                0 <= k < old(self).clients().entries().len()
                    && old(self).clients().entries()[k] == (token, r->0)
                    && self.clients().entries() == old(self).clients().entries().remove(k);
            assert(client_wf(old(self).clients().entries()[k].1@));
            }
        }
        r
    }

    /// Puts back a connection taken out under `token`.
    pub fn restore(&mut self, token: usize, client: WebSocketClient<S>)
        requires
            old(self).wf(),
            client_wf(client@),
            SERVER_TOKEN < token <= old(self).clients().counter(),
            !old(self).clients().contains(token),
        ensures
            final(self).wf(),
            final(self).listener() == old(self).listener(),
            final(self).clients().counter() == old(self).clients().counter(),
            final(self).clients().entries() == old(self).clients().entries().push((token, client)),
    {
        self.clients.insert(token, client);
        assert forall|i: int| 0 <= i < self.clients().entries().len() implies client_wf(
            #[trigger] self.clients().entries()[i].1@,
        ) by {
            if i < old(self).clients().entries().len() {
                assert(self.clients().entries()[i] == old(self).clients().entries()[i]);
            }
        }
    }

    /// The number of live connections.
    pub fn len(&self) -> (r: usize)
        ensures
            r == self.clients().entries().len(),
    {
        self.clients.len()
    }
}

} // verus!
