use vstd::prelude::*;
use vstd::slice::slice_subrange;
use vstd::string::StringExecFns;
use vstd::utf8::encode_utf8;
use crate::parser::{
    concat_chunks, initial_model, is_upgrade_request, lemma_run_append, lookup, run, HttpParser,
    ParserModel, Phase,
};
use crate::security::{accept_token, derive_accept_token};

verus! {

/// Where a connection stands in the opening handshake.
#[derive(PartialEq, Eq, Structural, Clone, Copy, Debug)]
pub enum ClientState {
    AwaitingHandshake,
    HandshakeResponse,
    Connected,
}

/// The readiness a connection asks the poller for.
#[derive(PartialEq, Eq, Structural, Clone, Copy, Debug)]
pub enum Interest {
    Readable,
    Writable,
}

/// Why a handshake was refused; the connection is then closed.
#[derive(PartialEq, Eq, Structural, Clone, Copy, Debug)]
pub enum HandshakeError {
    /// A header line had no field name, or no colon.
    MalformedRequest,
    /// The request asked for an upgrade but carried no `Sec-WebSocket-Key`.
    MissingKey,
}

/// The abstract state of a connection: its parser, its handshake state and
/// interest, the response once it was built (as bytes), and how many of
/// those bytes the transport has taken.
pub struct ClientModel {
    pub parser: ParserModel,
    pub state: ClientState,
    pub interest: Interest,
    pub response: Option<Seq<u8>>,
    pub written: nat,
}

pub open spec fn key_name() -> Seq<u8> {
    encode_utf8("sec-websocket-key"@)
}

/// The text of the `101 Switching Protocols` response for an accept token.
pub open spec fn response_text(token: Seq<char>) -> Seq<char> {
    "HTTP/1.1 101 Switching Protocols\r\nConnection: Upgrade\r\nSec-WebSocket-Accept: "@ + token
        + "\r\nUpgrade: websocket\r\n\r\n"@
}

/// The bytes of the response to a client key.
pub open spec fn handshake_response(key: Seq<u8>) -> Seq<u8> {
    encode_utf8(response_text(accept_token(key)))
}

pub open spec fn new_client_model() -> ClientModel {
    ClientModel {
        parser: initial_model(),
        state: ClientState::AwaitingHandshake,
        interest: Interest::Readable,
        response: None,
        written: 0,
    }
}

/// The consistency of a connection: its interest matches its state, and
/// the response, once built, answers the key that the request carried.
pub open spec fn client_wf(m: ClientModel) -> bool {
    match m.state {
        ClientState::AwaitingHandshake => {
            &&& m.interest == Interest::Readable
            &&& m.response is None
            &&& m.written == 0
            &&& !is_upgrade_request(m.parser)
        },
        ClientState::HandshakeResponse => {
            &&& m.interest == Interest::Writable
            &&& is_upgrade_request(m.parser)
            &&& match m.response {
                Some(r) => {
                    &&& lookup(m.parser.headers, key_name()) is Some
                    &&& r == handshake_response(lookup(m.parser.headers, key_name())->0)
                    &&& m.written <= r.len()
                },
                None => m.written == 0,
            }
        },
        ClientState::Connected => {
            &&& m.interest == Interest::Readable
            &&& is_upgrade_request(m.parser)
            &&& lookup(m.parser.headers, key_name()) is Some
            &&& m.response == Some(handshake_response(lookup(m.parser.headers, key_name())->0))
            &&& m.written == m.response->0.len()
        },
    }
}

/// A chunk of input: fed to the parser while the request is awaited; once
/// the header block asks for an upgrade, a response is due.
pub open spec fn after_read(m: ClientModel, data: Seq<u8>) -> ClientModel {
    if m.state != ClientState::AwaitingHandshake {
        m
    } else {
        let p = run(m.parser, data);
        if is_upgrade_request(p) {
            ClientModel {
                parser: p,
                state: ClientState::HandshakeResponse,
                interest: Interest::Writable,
                ..m
            }
        } else {
            ClientModel { parser: p, ..m }
        }
    }
}

/// Builds the response when one is due and not built yet.
pub open spec fn after_prepare(m: ClientModel) -> ClientModel {
    if m.state == ClientState::HandshakeResponse && m.response is None && lookup(
        m.parser.headers,
        key_name(),
    ) is Some {
        ClientModel {
            response: Some(handshake_response(lookup(m.parser.headers, key_name())->0)),
            written: 0,
            ..m
        }
    } else {
        m
    }
}

/// The bytes of the response that the transport has not taken yet.
pub open spec fn unsent(m: ClientModel) -> Seq<u8> {
    m.response->0.subrange(m.written as int, m.response->0.len() as int)
}

/// The transport took `n` more bytes; once all are taken the connection
/// is established and reads again.
pub open spec fn after_sent(m: ClientModel, n: nat) -> ClientModel {
    let w = m.written + n;
    if w == m.response->0.len() {
        ClientModel {
            written: w,
            state: ClientState::Connected,
            interest: Interest::Readable,
            ..m
        }
    } else {
        ClientModel { written: w, ..m }
    }
}

/// A request read in any number of chunks that does not ask for an upgrade
/// leaves the connection awaiting the handshake, with no response.
pub proof fn law_no_upgrade_no_response(m: ClientModel, cs: Seq<Seq<u8>>)
    requires
        client_wf(m),
        m.state == ClientState::AwaitingHandshake,
        !is_upgrade_request(run(m.parser, concat_chunks(cs))),
    ensures
        reads(m, cs).state == ClientState::AwaitingHandshake,
        reads(m, cs).response is None,
        reads(m, cs).parser == run(m.parser, concat_chunks(cs)),
    decreases cs.len(),
{
    if cs.len() > 0 {
        let pre = cs.drop_last();
        lemma_run_append(m.parser, concat_chunks(pre), cs.last());
        let p = run(m.parser, concat_chunks(pre));
        if is_upgrade_request(p) {
            lemma_upgrade_stays(p, cs.last());
        }
        law_no_upgrade_no_response(m, pre);
    }
}

/// The connection after reading the chunks in turn.
pub open spec fn reads(m: ClientModel, cs: Seq<Seq<u8>>) -> ClientModel
    decreases cs.len(),
{
    if cs.len() == 0 {
        m
    } else {
        after_read(reads(m, cs.drop_last()), cs.last())
    }
}

/// A complete header block is left as it is by further input.
pub proof fn lemma_upgrade_stays(p: ParserModel, data: Seq<u8>)
    requires
        is_upgrade_request(p),
    ensures
        run(p, data) == p,
    decreases data.len(),
{
    if data.len() > 0 {
        lemma_upgrade_stays(p, data.drop_last());
    }
}

/// A response taken by the transport in two parts, the first short,
/// leaves the connection waiting after the first part and established
/// after the second, and the two parts joined are the whole response.
pub proof fn law_short_write(m: ClientModel, n1: nat, n2: nat)
    requires
        client_wf(m),
        m.state == ClientState::HandshakeResponse,
        m.response is Some,
        m.written == 0,
        0 < n2,
        n1 + n2 == m.response->0.len(),
    ensures
        after_sent(m, n1).state == ClientState::HandshakeResponse,
        after_sent(after_sent(m, n1), n2).state == ClientState::Connected,
        unsent(m).subrange(0, n1 as int) + unsent(after_sent(m, n1)) == m.response->0,
        client_wf(after_sent(m, n1)),
        client_wf(after_sent(after_sent(m, n1), n2)),
{
    let r = m.response->0;
    assert(unsent(m) =~= r);
    assert(unsent(m).subrange(0, n1 as int) + unsent(after_sent(m, n1)) =~= r);
}

/// One connection: the transport it owns and its handshake state machine.
pub struct WebSocketClient<S> {
    pub socket: S,
    parser: HttpParser,
    state: ClientState,
    interest: Interest,
    response: Option<String>,
    written: usize,
}

impl<S> View for WebSocketClient<S> {
    type V = ClientModel;

    closed spec fn view(&self) -> ClientModel {
        ClientModel {
            parser: self.parser@,
            state: self.state,
            interest: self.interest,
            response: match self.response {
                Some(s) => Some(encode_utf8(s@)),
                None => None,
            },
            written: self.written as nat,
        }
    }
}

impl<S> WebSocketClient<S> {
    /// The transport this connection owns.
    pub closed spec fn transport(&self) -> S {
        self.socket
    }

    /// A connection over `socket`, awaiting the handshake request.
    pub fn new(socket: S) -> (r: Self)
        ensures
            r@ == new_client_model(),
            r.transport() == socket,
            client_wf(r@),
    {
        WebSocketClient {
            socket,
            parser: HttpParser::new(),
            state: ClientState::AwaitingHandshake,
            interest: Interest::Readable,
            response: None,
            written: 0,
        }
    }

    pub fn state(&self) -> (r: ClientState)
        ensures
            r == self@.state,
    {
        self.state
    }

    pub fn interest(&self) -> (r: Interest)
        ensures
            r == self@.interest,
    {
        self.interest
    }

    /// Handles one chunk read from the transport. `Ok(true)`: the request
    /// asked for an upgrade, stop reading and wait to write. `Ok(false)`:
    /// keep reading. An error: the request is malformed.
    pub fn read(&mut self, data: &[u8]) -> (r: Result<bool, HandshakeError>)
        requires
            client_wf(old(self)@),
        ensures
            final(self)@ == after_read(old(self)@, data@),
            final(self).transport() == old(self).transport(),
            client_wf(final(self)@),
            r == if old(self)@.state != ClientState::AwaitingHandshake {
                Ok(false)
            } else if run(old(self)@.parser, data@).phase == Phase::Failed {
                Err(HandshakeError::MalformedRequest)
            } else {
                Ok(final(self)@.state == ClientState::HandshakeResponse)
            },
    {
        if self.state != ClientState::AwaitingHandshake {
            return Ok(false);
        }
        self.parser.parse(data);
        if self.parser.phase() == Phase::Failed {
            return Err(HandshakeError::MalformedRequest);
        }
        if self.parser.is_upgrade() {
            self.state = ClientState::HandshakeResponse;
            self.interest = Interest::Writable;
            Ok(true)
        } else {
            Ok(false)
        }
    }

    /// On write readiness: builds the response to the request's
    /// `Sec-WebSocket-Key` if it is due and not built yet. Fails, changing
    /// nothing, where the key is missing.
    pub fn write(&mut self) -> (r: Result<(), HandshakeError>)
        requires
            client_wf(old(self)@),
        ensures
            final(self)@ == after_prepare(old(self)@),
            final(self).transport() == old(self).transport(),
            client_wf(final(self)@),
            r is Err <==> (old(self)@.state == ClientState::HandshakeResponse
                && old(self)@.response is None
                && lookup(old(self)@.parser.headers, key_name()) is None),
            r is Err ==> r == Err::<(), HandshakeError>(HandshakeError::MissingKey),
            r is Ok && final(self)@.state == ClientState::HandshakeResponse
                ==> final(self)@.response is Some,
    {
        if self.state != ClientState::HandshakeResponse || self.response.is_some() {
            return Ok(());
        }
        let name: &str = "sec-websocket-key";
        let key = match self.parser.header(name.as_bytes()) {
            Some(k) => k,
            None => {
                return Err(HandshakeError::MissingKey);
            },
        };
        let token = derive_accept_token(key.as_slice());
        let mut response = String::from_str("HTTP/1.1 101 Switching Protocols\r\nConnection: Upgrade\r\nSec-WebSocket-Accept: ");
        response.append(token.as_str());
        response.append("\r\nUpgrade: websocket\r\n\r\n");
        self.response = Some(response);
        self.written = 0;
        Ok(())
    }

    /// The bytes of the response that the transport has not taken yet.
    pub fn pending(&self) -> (r: &[u8])
        requires
            client_wf(self@),
            self@.response is Some,
        ensures
            r@ == unsent(self@),
    {
        let s = self.response.as_ref().unwrap();
        let b = s.as_str().as_bytes();
        slice_subrange(b, self.written, b.len())
    }

    /// Records that the transport took the first `n` bytes of what
    /// `pending` returned.
    pub fn advance(&mut self, n: usize)
        requires
            client_wf(old(self)@),
            old(self)@.state == ClientState::HandshakeResponse,
            old(self)@.response is Some,
            n <= unsent(old(self)@).len(),
        ensures
            final(self)@ == after_sent(old(self)@, n as nat),
            final(self).transport() == old(self).transport(),
            client_wf(final(self)@),
    {
        let total = match &self.response {
            Some(s) => s.as_str().as_bytes().len(),
            None => 0,
        };
        self.written = self.written + n;
        if self.written == total {
            self.state = ClientState::Connected;
            self.interest = Interest::Readable;
        }
    }
}

} // verus!
