use vstd::prelude::*;
use vstd::slice::slice_subrange;
use vstd::utf8::encode_utf8;

verus! {

pub const LF: u8 = 10;
pub const CR: u8 = 13;
pub const COLON: u8 = 58;
pub const SP: u8 = 32;
pub const HT: u8 = 9;
pub const COMMA: u8 = 44;

/// Where the parser stands in the request.
#[derive(PartialEq, Eq, Structural, Clone, Copy, Debug)]
pub enum Phase {
    /// Skipping the request line.
    RequestLine,
    /// Reading header lines.
    Headers,
    /// The empty line that ends the header block was seen; later bytes are
    /// not consumed.
    Complete,
    /// A header line was malformed; later bytes are not consumed.
    Failed,
}

/// The abstract state of the parser: its phase, the bytes of the header
/// line read so far, and the header fields recorded, in order of arrival.
pub struct ParserModel {
    pub phase: Phase,
    pub line: Seq<u8>,
    pub headers: Seq<(Seq<u8>, Seq<u8>)>,
}

pub open spec fn initial_model() -> ParserModel {
    ParserModel { phase: Phase::RequestLine, line: seq![], headers: seq![] }
}

pub open spec fn is_ws(b: u8) -> bool {
    b == SP || b == HT
}

pub open spec fn lower_byte(b: u8) -> u8 {
    if 65 <= b <= 90 { (b + 32) as u8 } else { b }
}

/// ASCII lower case of a byte string.
pub open spec fn lower(s: Seq<u8>) -> Seq<u8> {
    Seq::new(s.len(), |i: int| lower_byte(s[i]))
}

/// Index of the first occurrence of `c` in `s`, or `s.len()` if none.
pub open spec fn index_of(s: Seq<u8>, c: u8) -> int
    decreases s.len(),
{
    if s.len() == 0 {
        0
    } else if s[0] == c {
        0
    } else {
        1 + index_of(s.drop_first(), c)
    }
}

pub open spec fn trim_start(s: Seq<u8>) -> Seq<u8>
    decreases s.len(),
{
    if s.len() > 0 && is_ws(s[0]) {
        trim_start(s.drop_first())
    } else {
        s
    }
}

pub open spec fn trim_end(s: Seq<u8>) -> Seq<u8>
    decreases s.len(),
{
    if s.len() > 0 && is_ws(s.last()) {
        trim_end(s.drop_last())
    } else {
        s
    }
}

/// A header line `name: value`: the name in lower case and the value
/// without surrounding blanks. A line with no colon, or with nothing before
/// it (a value with no field name), is malformed.
pub open spec fn parse_line(line: Seq<u8>) -> Option<(Seq<u8>, Seq<u8>)> {
    let k = index_of(line, COLON);
    if k >= line.len() || k == 0 {
        None
    } else {
        Some(
            (
                lower(line.subrange(0, k)),
                trim_end(trim_start(line.subrange(k + 1, line.len() as int))),
            ),
        )
    }
}

/// The effect of one byte on the parser.
pub open spec fn step(m: ParserModel, b: u8) -> ParserModel {
    match m.phase {
        Phase::RequestLine => {
            if b == LF {
                ParserModel { phase: Phase::Headers, line: seq![], headers: m.headers }
            } else {
                m
            }
        },
        Phase::Headers => {
            if b == LF {
                if m.line.len() == 0 {
                    ParserModel { phase: Phase::Complete, ..m }
                } else {
                    match parse_line(m.line) {
                        Some(h) => ParserModel {
                            phase: Phase::Headers,
                            line: seq![],
                            headers: m.headers.push(h),
                        },
                        None => ParserModel { phase: Phase::Failed, ..m },
                    }
                }
            } else if b == CR {
                m
            } else {
                ParserModel { line: m.line.push(b), ..m }
            }
        },
        _ => m,
    }
}

/// The parser after consuming `bytes` one at a time.
pub open spec fn run(m: ParserModel, bytes: Seq<u8>) -> ParserModel
    decreases bytes.len(),
{
    if bytes.len() == 0 {
        m
    } else {
        step(run(m, bytes.drop_last()), bytes.last())
    }
}

/// The chunks laid end to end.
pub open spec fn concat_chunks(cs: Seq<Seq<u8>>) -> Seq<u8>
    decreases cs.len(),
{
    if cs.len() == 0 {
        seq![]
    } else {
        concat_chunks(cs.drop_last()) + cs.last()
    }
}

/// The parser after consuming the chunks in turn.
pub open spec fn run_chunks(m: ParserModel, cs: Seq<Seq<u8>>) -> ParserModel
    decreases cs.len(),
{
    if cs.len() == 0 {
        m
    } else {
        run(run_chunks(m, cs.drop_last()), cs.last())
    }
}

/// The value recorded last under `name`, if any.
pub open spec fn lookup(hs: Seq<(Seq<u8>, Seq<u8>)>, name: Seq<u8>) -> Option<Seq<u8>>
    decreases hs.len(),
{
    if hs.len() == 0 {
        None
    } else if hs.last().0 == name {
        Some(hs.last().1)
    } else {
        lookup(hs.drop_last(), name)
    }
}

/// Feeding two pieces one after the other is feeding them joined.
pub proof fn lemma_run_append(m: ParserModel, a: Seq<u8>, b: Seq<u8>)
    ensures
        run(m, a + b) == run(run(m, a), b),
    decreases b.len(),
{
    if b.len() == 0 {
        assert(a + b == a);
    } else {
        assert((a + b).drop_last() == a + b.drop_last());
        assert((a + b).last() == b.last());
        lemma_run_append(m, a, b.drop_last());
    }
}

/// However a request is split into chunks, feeding the chunks in turn
/// leaves the parser, and so the recorded headers, exactly as feeding the
/// whole request at once.
pub proof fn law_chunk_boundaries(m: ParserModel, cs: Seq<Seq<u8>>)
    ensures
        run_chunks(m, cs) == run(m, concat_chunks(cs)),
    decreases cs.len(),
{
    if cs.len() > 0 {
        law_chunk_boundaries(m, cs.drop_last());
        lemma_run_append(m, concat_chunks(cs.drop_last()), cs.last());
    }
}

/// Whether the comma-separated list `v` holds the token `t`, compared
/// without surrounding blanks and in lower case.
pub open spec fn has_token(v: Seq<u8>, t: Seq<u8>) -> bool
    decreases v.len(),
{
    let k = index_of(v, COMMA);
    if 0 <= k < v.len() {
        lower(trim_end(trim_start(v.subrange(0, k)))) == t || has_token(
            v.subrange(k + 1, v.len() as int),
            t,
        )
    } else {
        lower(trim_end(trim_start(v))) == t
    }
}

pub open spec fn connection_name() -> Seq<u8> {
    encode_utf8("connection"@)
}

pub open spec fn upgrade_name() -> Seq<u8> {
    encode_utf8("upgrade"@)
}

pub open spec fn websocket_word() -> Seq<u8> {
    encode_utf8("websocket"@)
}

/// A complete header block that asks for the WebSocket protocol: a
/// `Connection` field listing `upgrade`, and an `Upgrade` field that is
/// `websocket`, both compared in lower case.
pub open spec fn is_upgrade_request(m: ParserModel) -> bool {
    &&& m.phase == Phase::Complete
    &&& match lookup(m.headers, connection_name()) {
        Some(c) => has_token(c, upgrade_name()),
        None => false,
    }
    &&& match lookup(m.headers, upgrade_name()) {
        Some(u) => lower(u) == websocket_word(),
        None => false,
    }
}

proof fn lemma_index_of(s: Seq<u8>, c: u8, i: int)
    requires
        0 <= i <= s.len(),
        forall|j: int| 0 <= j < i ==> s[j] != c,
        i < s.len() ==> s[i] == c,
    ensures
        index_of(s, c) == i,
    decreases i,
{
    if i > 0 {
        lemma_index_of(s.drop_first(), c, i - 1);
    }
}

fn find_byte(s: &[u8], c: u8) -> (r: usize)
    ensures
        r == index_of(s@, c),
        r <= s@.len(),
{
    let mut i: usize = 0;
    while i < s.len() && s[i] != c
        invariant
            i <= s@.len(),
            forall|j: int| 0 <= j < i ==> s@[j] != c,
        decreases s@.len() - i,
    {
        i = i + 1;
    }
    proof {
        lemma_index_of(s@, c, i as int);
    }
    i
}

fn lower_copy(s: &[u8]) -> (r: Vec<u8>)
    ensures
        r@ == lower(s@),
{
    let mut r: Vec<u8> = Vec::new();
    let mut i: usize = 0;
    while i < s.len()
        invariant
            i <= s@.len(),
            r@ == lower(s@.subrange(0, i as int)),
        decreases s@.len() - i,
    {
        let b = s[i];
        let l: u8 = if 65 <= b && b <= 90 { b + 32 } else { b };
        r.push(l);
        i = i + 1;
        assert(r@ =~= lower(s@.subrange(0, i as int)));
    }
    assert(s@.subrange(0, s@.len() as int) =~= s@);
    r
}

fn trim(s: &[u8]) -> (r: Vec<u8>)
    ensures
        r@ == trim_end(trim_start(s@)),
{
    let n = s.len();
    let mut i: usize = 0;
    assert(s@.subrange(0, n as int) =~= s@);
    while i < n && (s[i] == SP || s[i] == HT)
        invariant
            i <= n == s@.len(),
            trim_start(s@) == trim_start(s@.subrange(i as int, n as int)),
        decreases n - i,
    {
        assert(s@.subrange(i as int, n as int).drop_first() =~= s@.subrange(i + 1, n as int));
        i = i + 1;
    }
    let mut j: usize = n;
    while j > i && (s[j - 1] == SP || s[j - 1] == HT)
        invariant
            i <= j <= n == s@.len(),
            trim_end(trim_start(s@)) == trim_end(s@.subrange(i as int, j as int)),
        decreases j,
    {
        assert(s@.subrange(i as int, j as int).drop_last() =~= s@.subrange(i as int, j - 1));
        j = j - 1;
    }
    let mut r: Vec<u8> = Vec::new();
    let mut k: usize = i;
    while k < j
        invariant
            i <= k <= j <= n == s@.len(),
            r@ == s@.subrange(i as int, k as int),
        decreases j - k,
    {
        r.push(s[k]);
        k = k + 1;
        assert(r@ =~= s@.subrange(i as int, k as int));
    }
    r
}

fn bytes_eq(a: &[u8], b: &[u8]) -> (r: bool)
    ensures
        r == (a@ == b@),
{
    if a.len() != b.len() {
        return false;
    }
    let mut i: usize = 0;
    while i < a.len()
        invariant
            i <= a@.len() == b@.len(),
            forall|j: int| 0 <= j < i ==> a@[j] == b@[j],
        decreases a@.len() - i,
    {
        if a[i] != b[i] {
            return false;
        }
        i = i + 1;
    }
    assert(a@ =~= b@);
    true
}

fn parse_header_line(line: &[u8]) -> (r: Option<(Vec<u8>, Vec<u8>)>)
    ensures
        match r {
            Some(h) => parse_line(line@) == Some((h.0@, h.1@)),
            None => parse_line(line@) is None,
        },
{
    let k = find_byte(line, COLON);
    if k >= line.len() || k == 0 {
        return None;
    }
    let name = lower_copy(slice_subrange(line, 0, k));
    let value = trim(slice_subrange(line, k + 1, line.len()));
    Some((name, value))
}

fn has_token_in(v: &[u8], t: &[u8]) -> (r: bool)
    ensures
        r == has_token(v@, t@),
{
    let mut rest: &[u8] = v;
    loop
        invariant
            has_token(v@, t@) == has_token(rest@, t@),
        decreases rest@.len(),
    {
        let k = find_byte(rest, COMMA);
        let seg = slice_subrange(rest, 0, k);
        let trimmed = trim(seg);
        let lowered = lower_copy(trimmed.as_slice());
        if k < rest.len() {
            if bytes_eq(lowered.as_slice(), t) {
                return true;
            }
            rest = slice_subrange(rest, k + 1, rest.len());
        } else {
            assert(seg@ =~= rest@);
            return bytes_eq(lowered.as_slice(), t);
        }
    }
}

/// Streaming extractor of the header fields of one HTTP request. Bytes may
/// arrive split anywhere; the parser keeps the partial header line itself.
pub struct HttpParser {
    phase: Phase,
    line: Vec<u8>,
    headers: Vec<(Vec<u8>, Vec<u8>)>,
}

impl View for HttpParser {
    type V = ParserModel;

    closed spec fn view(&self) -> ParserModel {
        ParserModel {
            phase: self.phase,
            line: self.line@,
            headers: self.headers@.map_values(|h: (Vec<u8>, Vec<u8>)| (h.0@, h.1@)),
        }
    }
}

impl HttpParser {
    /// A parser at the start of a request.
    pub fn new() -> (r: HttpParser)
        ensures
            r@ == initial_model(),
    {
        let r = HttpParser { phase: Phase::RequestLine, line: Vec::new(), headers: Vec::new() };
        assert(r@.headers =~= Seq::<(Seq<u8>, Seq<u8>)>::empty());
        r
    }

    /// The phase the parser is in.
    pub fn phase(&self) -> (r: Phase)
        ensures
            r == self@.phase,
    {
        self.phase
    }

    fn feed_byte(&mut self, b: u8)
        ensures
            final(self)@ == step(old(self)@, b),
    {
        match self.phase {
            Phase::RequestLine => {
                if b == LF {
                    self.phase = Phase::Headers;
                    self.line = Vec::new();
                    assert(self@.line =~= Seq::<u8>::empty());
                }
            },
            Phase::Headers => {
                if b == LF {
                    if self.line.len() == 0 {
                        self.phase = Phase::Complete;
                    } else {
                        match parse_header_line(self.line.as_slice()) {
                            Some(h) => {
                                let ghost hv = (h.0@, h.1@);
                                self.headers.push(h);
                                self.line = Vec::new();
                                assert(self@.line =~= Seq::<u8>::empty());
                                assert(self@.headers =~= old(self)@.headers.push(hv));
                            },
                            None => {
                                self.phase = Phase::Failed;
                            },
                        }
                    }
                } else if b != CR {
                    self.line.push(b);
                }
            },
            _ => {},
        }
    }

    /// Consumes one chunk of the request.
    pub fn parse(&mut self, data: &[u8])
        ensures
            final(self)@ == run(old(self)@, data@),
    {
        let mut i: usize = 0;
        assert(data@.subrange(0, 0) =~= Seq::<u8>::empty());
        while i < data.len()
            invariant
                i <= data@.len(),
                self@ == run(old(self)@, data@.subrange(0, i as int)),
            decreases data@.len() - i,
        {
            self.feed_byte(data[i]);
            i = i + 1;
            assert(data@.subrange(0, i as int).drop_last() =~= data@.subrange(0, i - 1));
        }
        assert(data@.subrange(0, data@.len() as int) =~= data@);
    }

    /// The value recorded last under `name` (a lower-case field name).
    pub fn header(&self, name: &[u8]) -> (r: Option<&Vec<u8>>)
        ensures
            match r {
                Some(v) => lookup(self@.headers, name@) == Some(v@),
                None => lookup(self@.headers, name@) is None,
            },
    {
        let mut i: usize = self.headers.len();
        assert(self@.headers.subrange(0, i as int) =~= self@.headers);
        while i > 0
            invariant
                i <= self.headers@.len(),
                lookup(self@.headers, name@) == lookup(self@.headers.subrange(0, i as int), name@),
            decreases i,
        {
            let h = &self.headers[i - 1];
            if bytes_eq(h.0.as_slice(), name) {
                return Some(&h.1);
            }
            assert(self@.headers.subrange(0, i as int).drop_last() =~= self@.headers.subrange(0, i - 1));
            i = i - 1;
        }
        None
    }

    /// Whether the header block is complete and asks for an upgrade to
    /// WebSocket.
    pub fn is_upgrade(&self) -> (r: bool)
        ensures
            r == is_upgrade_request(self@),
    {
        if self.phase != Phase::Complete {
            return false;
        }
        let conn_name: &str = "connection";
        let upg_name: &str = "upgrade";
        let ws: &str = "websocket";
        let connection = match self.header(conn_name.as_bytes()) {
            Some(c) => has_token_in(c.as_slice(), upg_name.as_bytes()),
            None => false,
        };
        if !connection {
            return false;
        }
        match self.header(upg_name.as_bytes()) {
            Some(u) => {
                let lowered = lower_copy(u.as_slice());
                bytes_eq(lowered.as_slice(), ws.as_bytes())
            },
            None => false,
        }
    }
}

} // verus!
