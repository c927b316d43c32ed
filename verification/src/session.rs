//! The course of one client connection.
//!
//! A [`Session`] decides what to do with one client connection. Whoever owns the
//! sockets reports what happened as an [`Event`] and carries out the [`Step`]
//! that comes back.

use crate::clock;
use crate::clock::TimeOfDay;
use crate::guardian;
use crate::guardian::{
    Action, BlockedWord, BlockedWordView, ConnectionContext, ConnectionMatch, Decision, Guardian,
};
use crate::net::IpAddress;
use crate::protocol;
use crate::proxy;
use crate::proxy::{HandshakeError, HeaderProgress, ProxyConfig};
use crate::text;
use crate::trust;
use vstd::prelude::*;
use vstd::string::*;

verus! {

/// Statements of this many bytes or more are forwarded without being looked at.
pub const INSPECTION_LIMIT: usize = 1024;

/// The bytes of a message in front of its body: the type and the length word.
pub const FRAME_HEADER_LEN: usize = 5;

/// `S`: the answer that accepts an SSLRequest.
pub const ACCEPT: u8 = 0x53;

/// `N`: the answer that declines an SSLRequest or a GSSENCRequest.
pub const DECLINE: u8 = 0x4e;

/// `I`: the transaction status of a ReadyForQuery outside any transaction.
pub const IDLE: u8 = 0x49;

/// What a session waits for.
#[derive(Clone, Copy, Debug, PartialEq, Eq, Structural)]
pub enum Phase {
    /// Nothing is known of the peer yet.
    Accepting,
    /// The bytes of the PROXY header.
    Header,
    /// The length word of a startup-phase packet.
    StartupLength,
    /// The payload of a startup-phase packet.
    StartupPayload,
    /// The end of the TLS handshake.
    TlsHandshake,
    /// A connection to PostgreSQL.
    Connecting,
    /// The type and the length word of a message.
    FrameHeader,
    /// The body of a message that is inspected.
    Statement,
    /// The end of a message that is forwarded as it comes.
    PassingThrough,
    /// Nothing any more.
    Closed,
}

/// What happened on the sockets.
pub enum Event {
    /// A peer connected.
    Accepted(IpAddress),
    /// The bytes that were asked for came from the client.
    Received(Vec<u8>),
    /// The TLS handshake with the client succeeded.
    TlsEstablished,
    /// PostgreSQL accepted the connection.
    UpstreamConnected,
    /// PostgreSQL refused the connection or did not accept it in time.
    UpstreamUnreachable,
    /// The message that was to pass through has passed.
    PassedThrough,
    /// The client went away, took too long, or a transfer failed.
    Ended,
}

/// What to do on the sockets, and what to wait for.
pub enum Step {
    /// Read this many bytes from the client.
    Read(usize),
    /// Send `reply` to the client, then read `read` bytes from it.
    Reply { reply: Vec<u8>, read: usize },
    /// Send these bytes to the client, then begin the TLS handshake with it.
    StartTls(Vec<u8>),
    /// Connect to PostgreSQL.
    Connect,
    /// Send `packet` to PostgreSQL, then read `read` bytes from the client.
    Forward { packet: Vec<u8>, read: usize },
    /// Send `header` to PostgreSQL, then `len` bytes as they come from the client.
    PassThrough { header: Vec<u8>, len: usize },
    /// The statement is blocked, for `word` where one can be named: send `reply` to
    /// the client, then read `read` bytes from it.
    Block { reply: Vec<u8>, read: usize, word: Option<BlockedWord> },
    /// Send `reply` to the client, then close the connection. `reason` is what the
    /// client is told.
    Refuse { reply: Vec<u8>, reason: String },
    /// Close the connection.
    Close,
}

/// An [`Event`] over sequences.
pub enum EventView {
    Accepted(IpAddress),
    Received(Seq<u8>),
    TlsEstablished,
    UpstreamConnected,
    UpstreamUnreachable,
    PassedThrough,
    Ended,
}

/// A [`Step`] over sequences.
#[verifier::ext_equal]
pub enum StepView {
    Read(nat),
    Reply { reply: Seq<u8>, read: nat },
    StartTls(Seq<u8>),
    Connect,
    Forward { packet: Seq<u8>, read: nat },
    PassThrough { header: Seq<u8>, len: nat },
    Block { reply: Seq<u8>, read: nat, word: Option<BlockedWordView> },
    Refuse { reply: Seq<u8>, reason: Seq<char> },
    Close,
}

impl View for Event {
    type V = EventView;

    open spec fn view(&self) -> EventView {
        match *self {
            Event::Accepted(peer) => EventView::Accepted(peer),
            Event::Received(bytes) => EventView::Received(bytes@),
            Event::TlsEstablished => EventView::TlsEstablished,
            Event::UpstreamConnected => EventView::UpstreamConnected,
            Event::UpstreamUnreachable => EventView::UpstreamUnreachable,
            Event::PassedThrough => EventView::PassedThrough,
            Event::Ended => EventView::Ended,
        }
    }
}

impl View for Step {
    type V = StepView;

    open spec fn view(&self) -> StepView {
        match *self {
            Step::Read(n) => StepView::Read(n as nat),
            Step::Reply { reply, read } => StepView::Reply { reply: reply@, read: read as nat },
            Step::StartTls(reply) => StepView::StartTls(reply@),
            Step::Connect => StepView::Connect,
            Step::Forward { packet, read } => StepView::Forward {
                packet: packet@,
                read: read as nat,
            },
            Step::PassThrough { header, len } => StepView::PassThrough {
                header: header@,
                len: len as nat,
            },
            Step::Block { reply, read, word } => StepView::Block {
                reply: reply@,
                read: read as nat,
                word: match word {
                    Some(w) => Some(w@),
                    None => None,
                },
            },
            Step::Refuse { reply, reason } => StepView::Refuse { reply: reply@, reason: reason@ },
            Step::Close => StepView::Close,
        }
    }
}

/// What a session knows.
#[verifier::ext_equal]
pub struct SessionView {
    pub phase: Phase,
    /// The bytes of the PROXY header that have come.
    pub header: Seq<u8>,
    /// The client's address, as the PROXY header gives it.
    pub client_ip: Seq<char>,
    /// Whether the client speaks TLS.
    pub secure: bool,
    /// How many bytes were asked for, where that is not fixed by the phase.
    pub wanted: nat,
    /// The payload of the startup message.
    pub payload: Seq<u8>,
    /// What was decided of the connection, if anything was.
    pub decision: Option<Decision>,
    /// The name of the rule that decided, if one did.
    pub rule: Option<Seq<char>>,
    /// The type and the length word of the message that is being inspected.
    pub frame: Seq<u8>,
}

/// The course of one client connection.
pub struct Session {
    phase: Phase,
    header: Vec<u8>,
    client_ip: String,
    secure: bool,
    wanted: usize,
    payload: Vec<u8>,
    context: Option<ConnectionContext>,
    rule: Option<String>,
    frame: Vec<u8>,
}

impl View for Session {
    type V = SessionView;

    closed spec fn view(&self) -> SessionView {
        SessionView {
            phase: self.phase,
            header: self.header@,
            client_ip: self.client_ip@,
            secure: self.secure,
            wanted: self.wanted as nat,
            payload: self.payload@,
            decision: match self.context {
                Some(context) => Some(context@),
                None => None,
            },
            rule: match self.rule {
                Some(name) => Some(name@),
                None => None,
            },
            frame: self.frame@,
        }
    }
}

/// A session before anything has happened.
pub open spec fn fresh() -> SessionView {
    SessionView {
        phase: Phase::Accepting,
        header: Seq::empty(),
        client_ip: Seq::empty(),
        secure: false,
        wanted: 0,
        payload: Seq::empty(),
        decision: None,
        rule: None,
        frame: Seq::empty(),
    }
}

// ---- the rules of a connection ------------------------------------------

/// The connection is closed and nothing is sent.
pub open spec fn closing(s: SessionView) -> (SessionView, StepView) {
    (SessionView { phase: Phase::Closed, ..s }, StepView::Close)
}

/// The client is told why, and the connection is closed.
pub open spec fn refusing(s: SessionView, message: Seq<char>, code: Seq<char>) -> (
    SessionView,
    StepView,
) {
    (
        SessionView { phase: Phase::Closed, ..s },
        StepView::Refuse { reply: protocol::error_response(message, code), reason: message },
    )
}

/// A peer that is not trusted is turned away without a byte being read or sent.
pub open spec fn on_accepted(s: SessionView, peer: IpAddress, cfg: ProxyConfig) -> (
    SessionView,
    StepView,
) {
    if trust::trusts(cfg.trusted.networks(), peer) {
        (SessionView { phase: Phase::Header, ..s }, StepView::Read(1))
    } else {
        closing(s)
    }
}

/// The PROXY header is read byte by byte until its line ends.
pub open spec fn on_header_byte(s: SessionView, byte: Seq<u8>, cfg: ProxyConfig) -> (
    SessionView,
    StepView,
) {
    let read = SessionView { header: s.header + byte, ..s };
    match proxy::header_progress(read.header, cfg.limits.max_proxy_header_len as nat) {
        None => (read, StepView::Read(1)),
        Some(Ok(ip)) => (
            SessionView { phase: Phase::StartupLength, client_ip: ip, ..read },
            StepView::Read(4),
        ),
        Some(Err(why)) => refusing(read, why, "08P01"@),
    }
}

/// A startup-phase length word is held to the limits before anything is read.
pub open spec fn on_startup_length(s: SessionView, word: Seq<u8>, cfg: ProxyConfig) -> (
    SessionView,
    StepView,
) {
    match proxy::startup_length(
        protocol::wire_number(word),
        cfg.limits.max_startup_len as nat,
    ) {
        Ok(n) => (
            SessionView { phase: Phase::StartupPayload, wanted: n, ..s },
            StepView::Read(n),
        ),
        Err(why) => refusing(s, why, "08P01"@),
    }
}

/// A request for encryption that is declined; the client goes on in plain text.
pub open spec fn declining(s: SessionView) -> (SessionView, StepView) {
    (
        SessionView { phase: Phase::StartupLength, ..s },
        StepView::Reply { reply: seq![DECLINE], read: 4 },
    )
}

/// Whether a payload opens with a version of the third protocol, whatever its
/// minor version.
pub open spec fn is_startup_message(payload: Seq<u8>) -> bool {
    protocol::wire_number(payload) / 65536 == 3
}

/// A startup-phase payload. Requests for encryption are answered while the
/// connection is in plain text. Every startup message is put to Guardian; a
/// connection that it denies is refused before PostgreSQL hears of it.
pub open spec fn on_startup_payload(
    s: SessionView,
    payload: Seq<u8>,
    cfg: ProxyConfig,
    now: TimeOfDay,
) -> (SessionView, StepView) {
    let code = protocol::wire_number(payload);
    if !s.secure && code == protocol::SSL_REQUEST {
        if cfg.tls_available {
            (SessionView { phase: Phase::TlsHandshake, ..s }, StepView::StartTls(seq![ACCEPT]))
        } else {
            declining(s)
        }
    } else if !s.secure && code == protocol::GSSENC_REQUEST {
        declining(s)
    } else if is_startup_message(payload) {
        let decision = startup_decision(s.client_ip, payload, cfg, now);
        let decided = SessionView {
            payload,
            decision: Some(decision),
            rule: startup_rule(s.client_ip, payload, cfg, now),
            ..s
        };
        if decision.action == Action::DENY {
            refusing(
                decided,
                "Connection denied by PG-Prism Guardian for IP: "@ + s.client_ip,
                "28000"@,
            )
        } else {
            (SessionView { phase: Phase::Connecting, ..decided }, StepView::Connect)
        }
    } else {
        (SessionView { phase: Phase::Connecting, payload, ..s }, StepView::Connect)
    }
}

/// What Guardian decides of a startup message.
pub open spec fn startup_decision(
    client_ip: Seq<char>,
    payload: Seq<u8>,
    cfg: ProxyConfig,
    now: TimeOfDay,
) -> Decision {
    let (user, db) = protocol::startup_identity(payload);
    guardian::connection_decision(cfg.guardian.rules@, client_ip, user, db, now)
}

/// The name of the rule by which Guardian decides of a startup message.
pub open spec fn startup_rule(
    client_ip: Seq<char>,
    payload: Seq<u8>,
    cfg: ProxyConfig,
    now: TimeOfDay,
) -> Option<Seq<char>> {
    let (user, db) = protocol::startup_identity(payload);
    guardian::deciding_rule_name(cfg.guardian.rules@, client_ip, user, db, now)
}

/// The payload that PostgreSQL gets: a CancelRequest as it came, anything else
/// with the client's address.
pub open spec fn forwarded_payload(payload: Seq<u8>, client_ip: Seq<char>) -> Seq<u8> {
    if protocol::wire_number(payload) == protocol::CANCEL_REQUEST {
        payload
    } else {
        protocol::injected(payload, client_ip)
    }
}

/// PostgreSQL is there and gets the startup message.
pub open spec fn on_upstream_connected(s: SessionView) -> (SessionView, StepView) {
    (
        SessionView { phase: Phase::FrameHeader, ..s },
        StepView::Forward {
            packet: protocol::startup_packet(forwarded_payload(s.payload, s.client_ip)),
            read: FRAME_HEADER_LEN as nat,
        },
    )
}

/// Whether a step sends PostgreSQL a startup message that says where the client
/// connects from: read back, it has the parameters that are forwarded for a client
/// at that address, and asks for the same user and database.
pub open spec fn attributes(s: SessionView, step: StepView) -> bool {
    step matches StepView::Forward { packet, .. } && {
        let sent = packet.skip(4);
        &&& protocol::startup_parameters(sent) == protocol::forwarded_parameters(
            protocol::startup_parameters(s.payload),
            s.client_ip,
        )
        &&& protocol::startup_identity(sent) == protocol::startup_identity(s.payload)
    }
}

/// How many bytes follow the header of a message.
pub open spec fn body_length(header: Seq<u8>) -> nat {
    let declared = protocol::wire_number(header.skip(1));
    if declared < 4 {
        0
    } else {
        (declared - 4) as nat
    }
}

/// Whether a message is looked at: a Query or a Parse, below the limit.
pub open spec fn is_inspected(header: Seq<u8>) -> bool {
    &&& header[0] == protocol::QUERY || header[0] == protocol::PARSE
    &&& body_length(header) < INSPECTION_LIMIT
}

/// The type and the length word of a message.
pub open spec fn on_frame_header(s: SessionView, header: Seq<u8>) -> (SessionView, StepView) {
    let len = body_length(header);
    if is_inspected(header) {
        (
            SessionView { phase: Phase::Statement, frame: header, wanted: len, ..s },
            StepView::Read(len),
        )
    } else {
        (SessionView { phase: Phase::PassingThrough, ..s }, StepView::PassThrough { header, len })
    }
}

/// The answer to a statement that is blocked: an error, and that the next
/// statement may come.
pub open spec fn blocked_reply() -> Seq<u8> {
    protocol::error_response("Query blocked by PG-Prism Guardian"@, "42501"@) + seq![
        protocol::READY_FOR_QUERY,
        0u8,
        0u8,
        0u8,
        5u8,
        IDLE,
    ]
}

/// Whether a connection of which that was decided may send a statement.
pub open spec fn may_send(statement: Seq<u8>, decision: Option<Decision>) -> bool {
    match decision {
        Some(d) => guardian::permits(statement, d),
        None => true,
    }
}

/// The word for which a statement is blocked, where one can be named.
pub open spec fn named_word(statement: Seq<u8>, decision: Option<Decision>) -> Option<
    BlockedWordView,
> {
    match decision {
        Some(d) => guardian::offending_word(statement, d),
        None => None,
    }
}

/// The body of a message that is inspected: it goes on as it came, or the client
/// is told that it is blocked and the connection stays open.
pub open spec fn on_statement(s: SessionView, statement: Seq<u8>) -> (SessionView, StepView) {
    let next = SessionView { phase: Phase::FrameHeader, ..s };
    if may_send(statement, s.decision) {
        (
            next,
            StepView::Forward { packet: s.frame + statement, read: FRAME_HEADER_LEN as nat },
        )
    } else {
        (
            next,
            StepView::Block {
                reply: blocked_reply(),
                read: FRAME_HEADER_LEN as nat,
                word: named_word(statement, s.decision),
            },
        )
    }
}

/// How many bytes a session waits for; none where it waits for something else.
pub open spec fn awaited(s: SessionView) -> Option<nat> {
    match s.phase {
        Phase::Header => Some(1),
        Phase::StartupLength => Some(4),
        Phase::StartupPayload => Some(s.wanted),
        Phase::FrameHeader => Some(FRAME_HEADER_LEN as nat),
        Phase::Statement => Some(s.wanted),
        _ => None,
    }
}

/// The bytes that a session waited for.
pub open spec fn on_received(
    s: SessionView,
    bytes: Seq<u8>,
    cfg: ProxyConfig,
    now: TimeOfDay,
) -> (SessionView, StepView) {
    if awaited(s) != Some(bytes.len()) {
        closing(s)
    } else {
        match s.phase {
            Phase::Header => on_header_byte(s, bytes, cfg),
            Phase::StartupLength => on_startup_length(s, bytes, cfg),
            Phase::StartupPayload => on_startup_payload(s, bytes, cfg, now),
            Phase::FrameHeader => on_frame_header(s, bytes),
            _ => on_statement(s, bytes),
        }
    }
}

/// What a session does on an event. One that it does not wait for closes it.
pub open spec fn next(s: SessionView, event: EventView, cfg: ProxyConfig, now: TimeOfDay) -> (
    SessionView,
    StepView,
) {
    match (s.phase, event) {
        (Phase::Accepting, EventView::Accepted(peer)) => on_accepted(s, peer, cfg),
        (_, EventView::Received(bytes)) => on_received(s, bytes, cfg, now),
        (Phase::TlsHandshake, EventView::TlsEstablished) => (
            SessionView { phase: Phase::StartupLength, secure: true, ..s },
            StepView::Read(4),
        ),
        (Phase::Connecting, EventView::UpstreamConnected) => on_upstream_connected(s),
        (Phase::Connecting, EventView::UpstreamUnreachable) => refusing(
            s,
            "PG-Prism could not reach the upstream PostgreSQL server"@,
            "08006"@,
        ),
        (Phase::PassingThrough, EventView::PassedThrough) => (
            SessionView { phase: Phase::FrameHeader, ..s },
            StepView::Read(FRAME_HEADER_LEN as nat),
        ),
        _ => closing(s),
    }
}

/// What the bytes that a session acts on are known to stand for: a header line, a
/// user, a database and application names that are valid UTF-8 are read as the
/// texts that they encode, and blocked commands in ASCII have their ASCII
/// upper-case form.
pub open spec fn reads_exactly(
    s: SessionView,
    event: EventView,
    cfg: ProxyConfig,
    now: TimeOfDay,
) -> bool {
    &&& match event {
        EventView::Received(bytes) => awaited(s) == Some(bytes.len()) ==> bytes_read_exactly(
            s,
            bytes,
            cfg,
            now,
        ),
        _ => true,
    }
    &&& s.phase == Phase::Connecting && event is UpstreamConnected && protocol::wire_number(
        s.payload,
    ) != protocol::CANCEL_REQUEST ==> protocol::names_decode(
        protocol::startup_parameters(s.payload),
    )
}

/// The same of the bytes that a session waited for.
pub open spec fn bytes_read_exactly(
    s: SessionView,
    bytes: Seq<u8>,
    cfg: ProxyConfig,
    now: TimeOfDay,
) -> bool {
    &&& s.phase == Phase::Header && bytes[0] == 0x0a ==> text::decodes_exactly(s.header + bytes)
    &&& s.phase == Phase::StartupPayload && is_startup_message(bytes) ==> {
        let params = protocol::startup_parameters(bytes);
        let (user, db) = protocol::startup_identity(bytes);
        &&& protocol::parameter_decodes(params, vstd::utf8::encode_utf8("user"@))
        &&& protocol::parameter_decodes(params, vstd::utf8::encode_utf8("database"@))
        &&& guardian::upper_as_ascii(
            guardian::applicable_commands(cfg.guardian.rules@, s.client_ip, user, db, now),
        )
    }
}

/// What holds of every session: a startup payload has at least its code, the
/// address of a client whose startup message was not denied is one, so that no
/// NUL is in it, and the header of a message that is being inspected is complete.
pub open spec fn is_valid(s: SessionView) -> bool {
    &&& s.phase == Phase::StartupPayload ==> s.wanted >= 4
    &&& s.phase == Phase::Connecting ==> s.payload.len() >= 4
    &&& s.phase == Phase::Connecting && is_startup_message(s.payload) ==> !s.client_ip.contains(
        '\0',
    )
    &&& s.phase == Phase::Statement ==> s.frame.len() == FRAME_HEADER_LEN
}

// ---- carrying them out --------------------------------------------------

fn refusal(message: &str, code: &str) -> (step: Step)
    ensures
        step@ == (StepView::Refuse {
            reply: protocol::error_response(message@, code@),
            reason: message@,
        }),
{
    Step::Refuse {
        reply: protocol::make_error_response(message, code),
        reason: message.to_owned(),
    }
}

impl Session {
    /// A session before anything has happened.
    pub fn new() -> (session: Self)
        ensures
            session@ == fresh(),
            is_valid(session@),
    {
        let session: Session = Session {
            phase: Phase::Accepting,
            header: Vec::new(),
            client_ip: String::new(),
            secure: false,
            wanted: 0,
            payload: Vec::new(),
            context: None,
            rule: None,
            frame: Vec::new(),
        };
        assert(session@ =~= fresh());
        session
    }

    /// What the session waits for.
    pub fn phase(&self) -> (phase: Phase)
        ensures
            phase == self@.phase,
    {
        self.phase
    }

    /// The client's address, as the PROXY header gives it; empty until it has
    /// come.
    pub fn client_ip(&self) -> (ip: &str)
        ensures
            ip@ == self@.client_ip,
    {
        self.client_ip.as_str()
    }

    /// What was decided of the connection, if anything was.
    pub fn context(&self) -> (context: Option<&ConnectionContext>)
        ensures
            match context {
                Some(c) => self@.decision == Some(c@),
                None => self@.decision is None,
            },
    {
        match &self.context {
            Some(context) => Some(context),
            None => None,
        }
    }

    /// The name of the rule that decided of the connection, if one did.
    pub fn rule(&self) -> (rule: Option<&str>)
        ensures
            match rule {
                Some(name) => self@.rule == Some(name@),
                None => self@.rule is None,
            },
    {
        match &self.rule {
            Some(name) => Some(name.as_str()),
            None => None,
        }
    }

    /// The payload of the startup message; empty until it has come.
    pub fn payload(&self) -> (payload: &[u8])
        ensures
            payload@ == self@.payload,
    {
        self.payload.as_slice()
    }

    fn close(&mut self) -> (step: Step)
        ensures
            (final(self)@, step@) == closing(old(self)@),
    {
        self.phase = Phase::Closed;
        Step::Close
    }

    fn decline(&mut self) -> (step: Step)
        ensures
            (final(self)@, step@) == declining(old(self)@),
    {
        self.phase = Phase::StartupLength;
        let step: Step = Step::Reply { reply: vec![DECLINE], read: 4 };
        assert(step@ =~= (StepView::Reply { reply: seq![DECLINE], read: 4 }));
        step
    }

    fn accepted(&mut self, peer: IpAddress, cfg: &ProxyConfig) -> (step: Step)
        ensures
            (final(self)@, step@) == on_accepted(old(self)@, peer, *cfg),
    {
        if cfg.trusted.is_trusted(peer) {
            self.phase = Phase::Header;
            Step::Read(1)
        } else {
            self.close()
        }
    }

    fn header_byte(&mut self, byte: &Vec<u8>, cfg: &ProxyConfig) -> (step: Step)
        ensures
            (final(self)@, step@) == on_header_byte(old(self)@, byte@, *cfg),
            byte@.len() == 1 && byte@[0] == 0x0a ==> text::decodes_exactly(
                old(self)@.header + byte@,
            ),
    {
        text::push_bytes(&mut self.header, byte.as_slice());
        match proxy::read_proxy_v1_header(
            self.header.as_slice(),
            cfg.limits.max_proxy_header_len,
        ) {
            HeaderProgress::More => Step::Read(1),
            HeaderProgress::Complete(ip) => {
                self.client_ip = ip;
                self.phase = Phase::StartupLength;
                Step::Read(4)
            },
            HeaderProgress::Failed(HandshakeError::Protocol(why)) => {
                self.phase = Phase::Closed;
                refusal(why.as_str(), "08P01")
            },
        }
    }

    fn startup_length(&mut self, word: &Vec<u8>, cfg: &ProxyConfig) -> (step: Step)
        requires
            word@.len() == 4,
        ensures
            (final(self)@, step@) == on_startup_length(old(self)@, word@, *cfg),
    {
        match proxy::checked_startup_len(
            protocol::read_wire_number(word.as_slice()),
            &cfg.limits,
        ) {
            Ok(n) => {
                self.phase = Phase::StartupPayload;
                self.wanted = n;
                Step::Read(n)
            },
            Err(HandshakeError::Protocol(why)) => {
                self.phase = Phase::Closed;
                refusal(why.as_str(), "08P01")
            },
        }
    }

    fn startup_payload(&mut self, payload: Vec<u8>, cfg: &ProxyConfig, now: TimeOfDay) -> (step:
        Step)
        requires
            payload@.len() >= 4,
            now.well_formed(),
        ensures
            (final(self)@, step@) == on_startup_payload(old(self)@, payload@, *cfg, now),
            step is Connect && is_startup_message(payload@) ==> !old(self)@.client_ip.contains(
                '\0',
            ),
            old(self)@.phase == Phase::StartupPayload && old(self)@.wanted == payload@.len()
                ==> reads_exactly(old(self)@, EventView::Received(payload@), *cfg, now),
    {
        let code: u32 = protocol::read_wire_number(payload.as_slice());
        if !self.secure && code == protocol::SSL_REQUEST {
            if cfg.tls_available {
                self.phase = Phase::TlsHandshake;
                let step: Step = Step::StartTls(vec![ACCEPT]);
                assert(step@ =~= StepView::StartTls(seq![ACCEPT]));
                step
            } else {
                self.decline()
            }
        } else if !self.secure && code == protocol::GSSENC_REQUEST {
            self.decline()
        } else if code / 65536 == 3 {
            let (user, db) = protocol::extract_user_db(payload.as_slice());
            let found: ConnectionMatch = cfg.guardian.match_connection_at(
                self.client_ip.as_str(),
                user.as_str(),
                db.as_str(),
                now,
            );
            let action: Action = found.context.action;
            self.payload = payload;
            self.context = Some(found.context);
            self.rule = found.rule;
            match action {
                Action::DENY => {
                    self.phase = Phase::Closed;
                    let message: String = text::joined(
                        "Connection denied by PG-Prism Guardian for IP: ",
                        self.client_ip.as_str(),
                    );
                    refusal(message.as_str(), "28000")
                },
                _ => {
                    self.phase = Phase::Connecting;
                    Step::Connect
                },
            }
        } else {
            self.phase = Phase::Connecting;
            self.payload = payload;
            Step::Connect
        }
    }

    fn upstream_connected(&mut self) -> (step: Step)
        requires
            old(self)@.payload.len() >= 4,
        ensures
            (final(self)@, step@) == on_upstream_connected(old(self)@),
            protocol::wire_number(old(self)@.payload) != protocol::CANCEL_REQUEST
                && !old(self)@.client_ip.contains('\0') ==> attributes(old(self)@, step@),
            protocol::wire_number(old(self)@.payload) != protocol::CANCEL_REQUEST
                ==> protocol::names_decode(protocol::startup_parameters(old(self)@.payload)),
    {
        let code: u32 = protocol::read_wire_number(self.payload.as_slice());
        let packet: Vec<u8> = if code == protocol::CANCEL_REQUEST {
            protocol::make_startup_packet(self.payload.as_slice())
        } else {
            let sent: Vec<u8> = protocol::inject_ip_startup(
                self.payload.as_slice(),
                self.client_ip.as_str(),
            );
            protocol::make_startup_packet(sent.as_slice())
        };
        assert(packet@.skip(4) == forwarded_payload(self.payload@, self.client_ip@));
        self.phase = Phase::FrameHeader;
        Step::Forward { packet, read: FRAME_HEADER_LEN }
    }

    fn frame_header(&mut self, header: Vec<u8>) -> (step: Step)
        requires
            header@.len() == FRAME_HEADER_LEN,
        ensures
            (final(self)@, step@) == on_frame_header(old(self)@, header@),
    {
        let declared: u32 = protocol::read_wire_number(
            vstd::slice::slice_subrange(header.as_slice(), 1, 5),
        );
        assert(header@.skip(1) == header@.subrange(1, 5));
        let len: usize = if declared < 4 {
            0
        } else {
            (declared - 4) as usize
        };
        let kind: u8 = header[0];
        if (kind == protocol::QUERY || kind == protocol::PARSE) && len < INSPECTION_LIMIT {
            self.phase = Phase::Statement;
            self.frame = header;
            self.wanted = len;
            Step::Read(len)
        } else {
            self.phase = Phase::PassingThrough;
            Step::PassThrough { header, len }
        }
    }

    fn statement(&mut self, statement: &Vec<u8>) -> (step: Step)
        ensures
            (final(self)@, step@) == on_statement(old(self)@, statement@),
    {
        let permitted: bool = match &self.context {
            Some(context) => Guardian::check_query(statement.as_slice(), context),
            None => true,
        };
        let word: Option<BlockedWord> = match &self.context {
            Some(context) => if permitted {
                None
            } else {
                Guardian::find_blocked_word(statement.as_slice(), context)
            },
            None => None,
        };
        self.phase = Phase::FrameHeader;
        if permitted {
            let mut packet: Vec<u8> = vstd::slice::slice_to_vec(self.frame.as_slice());
            text::push_bytes(&mut packet, statement.as_slice());
            Step::Forward { packet, read: FRAME_HEADER_LEN }
        } else {
            let mut reply: Vec<u8> = protocol::make_error_response(
                "Query blocked by PG-Prism Guardian",
                "42501",
            );
            let ready: Vec<u8> = vec![protocol::READY_FOR_QUERY, 0, 0, 0, 5, IDLE];
            text::push_bytes(&mut reply, ready.as_slice());
            assert(reply@ == blocked_reply());
            Step::Block { reply, read: FRAME_HEADER_LEN, word }
        }
    }

    fn received(&mut self, bytes: Vec<u8>, cfg: &ProxyConfig, now: TimeOfDay) -> (step: Step)
        requires
            is_valid(old(self)@),
            now.well_formed(),
        ensures
            (final(self)@, step@) == on_received(old(self)@, bytes@, *cfg, now),
            reads_exactly(old(self)@, EventView::Received(bytes@), *cfg, now),
            is_valid(final(self)@),
    {
        let n: usize = bytes.len();
        match self.phase {
            Phase::Header => if n == 1 {
                self.header_byte(&bytes, cfg)
            } else {
                self.close()
            },
            Phase::StartupLength => if n == 4 {
                self.startup_length(&bytes, cfg)
            } else {
                self.close()
            },
            Phase::StartupPayload => if n == self.wanted {
                self.startup_payload(bytes, cfg, now)
            } else {
                self.close()
            },
            Phase::FrameHeader => if n == FRAME_HEADER_LEN {
                self.frame_header(bytes)
            } else {
                self.close()
            },
            Phase::Statement => if n == self.wanted {
                self.statement(&bytes)
            } else {
                self.close()
            },
            _ => self.close(),
        }
    }

    /// What to do on an event, at a time of day.
    pub fn step_at(&mut self, event: Event, cfg: &ProxyConfig, now: TimeOfDay) -> (step: Step)
        requires
            is_valid(old(self)@),
            now.well_formed(),
        ensures
            (final(self)@, step@) == next(old(self)@, event@, *cfg, now),
            reads_exactly(old(self)@, event@, *cfg, now),
            is_valid(final(self)@),
            old(self)@.phase == Phase::Connecting && is_startup_message(old(self)@.payload)
                && event is UpstreamConnected ==> attributes(old(self)@, step@),
    {
        match event {
            Event::Accepted(peer) => match self.phase {
                Phase::Accepting => self.accepted(peer, cfg),
                _ => self.close(),
            },
            Event::Received(bytes) => self.received(bytes, cfg, now),
            Event::TlsEstablished => match self.phase {
                Phase::TlsHandshake => {
                    self.phase = Phase::StartupLength;
                    self.secure = true;
                    Step::Read(4)
                },
                _ => self.close(),
            },
            Event::UpstreamConnected => match self.phase {
                Phase::Connecting => self.upstream_connected(),
                _ => self.close(),
            },
            Event::UpstreamUnreachable => match self.phase {
                Phase::Connecting => {
                    self.phase = Phase::Closed;
                    refusal("PG-Prism could not reach the upstream PostgreSQL server", "08006")
                },
                _ => self.close(),
            },
            Event::PassedThrough => match self.phase {
                Phase::PassingThrough => {
                    self.phase = Phase::FrameHeader;
                    Step::Read(FRAME_HEADER_LEN)
                },
                _ => self.close(),
            },
            Event::Ended => self.close(),
        }
    }

    /// What to do on an event that happened now.
    pub fn step(&mut self, event: Event, cfg: &ProxyConfig) -> (step: Step)
        requires
            is_valid(old(self)@),
        ensures
            exists|now: TimeOfDay|
                #![trigger now.well_formed()]
                now.well_formed() && (final(self)@, step@) == next(
                    old(self)@,
                    event@,
                    *cfg,
                    now,
                ) && reads_exactly(old(self)@, event@, *cfg, now) && (old(self)@.phase
                    == Phase::StartupPayload ==> clock::is_clock_reading(now)),
            is_valid(final(self)@),
            old(self)@.phase == Phase::Connecting && is_startup_message(old(self)@.payload)
                && event is UpstreamConnected ==> attributes(old(self)@, step@),
    {
        let now: TimeOfDay = match self.phase {
            Phase::StartupPayload => clock::time_of_day(),
            _ => TimeOfDay { hour: 0, minute: 0 },
        };
        assert(now.well_formed());
        self.step_at(event, cfg, now)
    }
}

// ---- what a session promises --------------------------------------------

/// The state of a session after events, each with the time of day at which it
/// happened.
pub open spec fn state_after(
    s: SessionView,
    history: Seq<(EventView, TimeOfDay)>,
    cfg: ProxyConfig,
) -> SessionView
    decreases history.len(),
{
    if history.len() == 0 {
        s
    } else {
        let before = state_after(s, history.drop_last(), cfg);
        next(before, history.last().0, cfg, history.last().1).0
    }
}

/// What is done on the last of these events.
pub open spec fn last_step(
    s: SessionView,
    history: Seq<(EventView, TimeOfDay)>,
    cfg: ProxyConfig,
) -> StepView
    recommends
        history.len() > 0,
{
    let before = state_after(s, history.drop_last(), cfg);
    next(before, history.last().0, cfg, history.last().1).1
}

/// Whether a step makes PostgreSQL hear of the connection.
pub open spec fn reaches_the_server(step: StepView) -> bool {
    step is Connect || step is Forward || step is PassThrough
}

/// Whether the client is past the startup phase.
pub open spec fn is_established(s: SessionView) -> bool {
    ||| s.phase == Phase::Connecting
    ||| s.phase == Phase::FrameHeader
    ||| s.phase == Phase::Statement
    ||| s.phase == Phase::PassingThrough
}

/// Whether nothing forbids the connection: a startup message was put to Guardian
/// and not denied; anything else that asks for a connection has no user that a
/// rule could speak of.
pub open spec fn is_admitted(s: SessionView, cfg: ProxyConfig) -> bool {
    &&& s.payload.len() >= 4
    &&& if is_startup_message(s.payload) {
        &&& s.decision matches Some(d) && d.action != Action::DENY
        &&& exists|now: TimeOfDay|
            s.decision == Some(#[trigger] startup_decision(s.client_ip, s.payload, cfg, now))
    } else {
        s.decision is None
    }
}

/// What holds of every session from its beginning on.
spec fn holds_throughout(s: SessionView, history: Seq<(EventView, TimeOfDay)>, cfg: ProxyConfig) -> bool {
    &&& s.phase == Phase::StartupPayload ==> s.wanted >= 4
    &&& s.phase != Phase::Accepting && s.phase != Phase::Closed ==> begins_trusted(history, cfg)
    &&& is_established(s) ==> is_admitted(s, cfg)
    &&& !is_established(s) && s.phase != Phase::Closed ==> s.decision is None
    &&& s.phase == Phase::Accepting ==> s.header.len() == 0
    &&& s.phase == Phase::Header ==> s.header.len() < cfg.limits.max_proxy_header_len
        || s.header.len() == 0
    &&& s.header.len() <= cfg.limits.max_proxy_header_len || s.header.len() <= 1
}

/// Whether the first thing that happened is that a trusted peer connected.
pub open spec fn begins_trusted(history: Seq<(EventView, TimeOfDay)>, cfg: ProxyConfig) -> bool {
    &&& history.len() > 0
    &&& history[0].0 matches EventView::Accepted(peer) && trust::trusts(
        cfg.trusted.networks(),
        peer,
    )
}

proof fn it_holds_throughout(history: Seq<(EventView, TimeOfDay)>, cfg: ProxyConfig)
    ensures
        holds_throughout(state_after(fresh(), history, cfg), history, cfg),
        history.len() == 0 ==> state_after(fresh(), history, cfg).phase == Phase::Accepting,
        history.len() > 0 ==> state_after(fresh(), history, cfg).phase != Phase::Accepting,
    decreases history.len(),
{
    if history.len() > 0 {
        let front = history.drop_last();
        let (event, now) = history.last();
        it_holds_throughout(front, cfg);
        let before = state_after(fresh(), front, cfg);
        let after = state_after(fresh(), history, cfg);
        if front.len() > 0 {
            assert(front[0] == history[0]);
        } else {
            assert(history[0] == history.last());
        }
        if let EventView::Received(bytes) = event {
            if before.phase == Phase::StartupPayload && awaited(before) == Some(bytes.len())
                && is_startup_message(bytes) {
                let decision = startup_decision(before.client_ip, bytes, cfg, now);
                if after.phase == Phase::Connecting {
                    assert(after.decision == Some(
                        startup_decision(after.client_ip, after.payload, cfg, now),
                    ));
                }
            }
        }
        if is_established(before) && is_established(after) {
            assert(after.payload == before.payload);
            assert(after.decision == before.decision);
            assert(after.client_ip == before.client_ip);
        }
    }
}

/// A closed session stays closed and does nothing.
pub proof fn closed_sessions_stay_closed(
    s: SessionView,
    event: EventView,
    cfg: ProxyConfig,
    now: TimeOfDay,
)
    requires
        s.phase == Phase::Closed,
    ensures
        next(s, event, cfg, now) == (s, StepView::Close),
{
}

/// A peer outside the allowlist gets nothing: its connection is closed and,
/// whatever comes after, not a byte is read from it or sent to it, and
/// PostgreSQL never hears of it.
pub proof fn untrusted_peers_get_nothing(
    peer: IpAddress,
    history: Seq<(EventView, TimeOfDay)>,
    cfg: ProxyConfig,
)
    requires
        history.len() > 0,
        history[0].0 == EventView::Accepted(peer),
        !trust::trusts(cfg.trusted.networks(), peer),
    ensures
        last_step(fresh(), history, cfg) == StepView::Close,
{
    untrusted_peers_stay_out(history, cfg);
}

/// Nothing is done before a peer has been accepted.
pub proof fn nothing_is_done_for_nobody(
    history: Seq<(EventView, TimeOfDay)>,
    cfg: ProxyConfig,
)
    requires
        history.len() > 0,
        !(history[0].0 is Accepted),
    ensures
        last_step(fresh(), history, cfg) == StepView::Close,
{
    untrusted_peers_stay_out(history, cfg);
}

proof fn untrusted_peers_stay_out(history: Seq<(EventView, TimeOfDay)>, cfg: ProxyConfig)
    requires
        history.len() > 0,
        !begins_trusted(history, cfg),
    ensures
        last_step(fresh(), history, cfg) == StepView::Close,
        state_after(fresh(), history, cfg).phase == Phase::Closed,
    decreases history.len(),
{
    let front = history.drop_last();
    if front.len() > 0 {
        assert(front[0] == history[0]);
        untrusted_peers_stay_out(front, cfg);
    } else {
        assert(history[0] == history.last());
        assert(state_after(fresh(), front, cfg) == fresh());
    }
}

/// Only a trusted peer's connection reaches PostgreSQL.
pub proof fn only_trusted_peers_reach_the_server(
    history: Seq<(EventView, TimeOfDay)>,
    cfg: ProxyConfig,
)
    requires
        history.len() > 0,
        reaches_the_server(last_step(fresh(), history, cfg)),
    ensures
        begins_trusted(history, cfg),
{
    if !begins_trusted(history, cfg) {
        untrusted_peers_stay_out(history, cfg);
    }
}

/// A connection that Guardian denies never reaches PostgreSQL: whatever does has
/// a startup payload that was put to Guardian and not denied, or that is no
/// startup message.
pub proof fn denied_connections_never_reach_the_server(
    history: Seq<(EventView, TimeOfDay)>,
    cfg: ProxyConfig,
)
    requires
        history.len() > 0,
        reaches_the_server(last_step(fresh(), history, cfg)),
    ensures
        is_admitted(state_after(fresh(), history, cfg), cfg),
{
    it_holds_throughout(history, cfg);
    it_holds_throughout(history.drop_last(), cfg);
}

/// A startup message that Guardian denies is answered with an error that names
/// the client's address, and the connection is closed.
pub proof fn a_denied_startup_is_answered(
    s: SessionView,
    payload: Seq<u8>,
    cfg: ProxyConfig,
    now: TimeOfDay,
)
    requires
        s.phase == Phase::StartupPayload,
        payload.len() == s.wanted,
        is_startup_message(payload),
        startup_decision(s.client_ip, payload, cfg, now).action == Action::DENY,
    ensures
        next(s, EventView::Received(payload), cfg, now) == (
            SessionView {
                phase: Phase::Closed,
                payload,
                decision: Some(startup_decision(s.client_ip, payload, cfg, now)),
                rule: startup_rule(s.client_ip, payload, cfg, now),
                ..s
            },
            StepView::Refuse {
                reply: protocol::error_response(
                    "Connection denied by PG-Prism Guardian for IP: "@ + s.client_ip,
                    "28000"@,
                ),
                reason: "Connection denied by PG-Prism Guardian for IP: "@ + s.client_ip,
            },
        ),
{
    assert(protocol::wire_number(payload) != protocol::SSL_REQUEST);
    assert(protocol::wire_number(payload) != protocol::GSSENC_REQUEST);
}

/// A CancelRequest is forwarded byte for byte, whatever the rules say.
pub proof fn cancel_requests_are_forwarded_verbatim(
    s: SessionView,
    payload: Seq<u8>,
    cfg: ProxyConfig,
    now: TimeOfDay,
    later: TimeOfDay,
)
    requires
        s.phase == Phase::StartupPayload,
        payload.len() == s.wanted,
        protocol::wire_number(payload) == protocol::CANCEL_REQUEST,
    ensures
        ({
            let (connecting, step) = next(s, EventView::Received(payload), cfg, now);
            &&& step == StepView::Connect
            &&& next(connecting, EventView::UpstreamConnected, cfg, later).1 == (
            StepView::Forward {
                packet: protocol::startup_packet(payload),
                read: FRAME_HEADER_LEN as nat,
            })
        }),
{
}

/// A message of an established client goes to PostgreSQL byte for byte, or it is
/// a statement that Guardian blocks, is answered with an error, and leaves the
/// connection open; nothing else becomes of it.
pub proof fn messages_are_forwarded_unchanged_or_blocked(
    s: SessionView,
    header: Seq<u8>,
    body: Seq<u8>,
    cfg: ProxyConfig,
    now: TimeOfDay,
    later: TimeOfDay,
)
    requires
        s.phase == Phase::FrameHeader,
        header.len() == FRAME_HEADER_LEN,
        body.len() == body_length(header),
    ensures
        ({
            let (reading, step) = next(s, EventView::Received(header), cfg, now);
            if is_inspected(header) {
                let (done, answer) = next(reading, EventView::Received(body), cfg, later);
                &&& step == StepView::Read(body.len())
                &&& answer == if may_send(body, s.decision) {
                    StepView::Forward { packet: header + body, read: FRAME_HEADER_LEN as nat }
                } else {
                    StepView::Block {
                        reply: blocked_reply(),
                        read: FRAME_HEADER_LEN as nat,
                        word: named_word(body, s.decision),
                    }
                }
                &&& done.phase == Phase::FrameHeader
                &&& done.decision == s.decision
            } else {
                let (done, answer) = next(reading, EventView::PassedThrough, cfg, later);
                &&& step == (StepView::PassThrough { header, len: body.len() })
                &&& answer == StepView::Read(FRAME_HEADER_LEN as nat)
                &&& done.phase == Phase::FrameHeader
                &&& done.decision == s.decision
            }
        }),
{
}

/// A message at or beyond the inspection limit, or of any other kind than Query
/// and Parse, is forwarded without being looked at, whatever was decided of the
/// connection.
pub proof fn long_messages_are_not_inspected(
    s: SessionView,
    header: Seq<u8>,
    cfg: ProxyConfig,
    now: TimeOfDay,
)
    requires
        s.phase == Phase::FrameHeader,
        header.len() == FRAME_HEADER_LEN,
        body_length(header) >= INSPECTION_LIMIT || (header[0] != protocol::QUERY && header[0]
            != protocol::PARSE),
    ensures
        next(s, EventView::Received(header), cfg, now).1 == (StepView::PassThrough {
            header,
            len: body_length(header),
        }),
{
}

/// A connection that is allowed may send any statement.
pub proof fn allowed_connections_send_anything(statement: Seq<u8>, decision: Decision)
    requires
        decision.action == Action::ALLOW,
    ensures
        may_send(statement, Some(decision)),
{
}

/// A connection that is denied may send nothing.
pub proof fn denied_connections_send_nothing(statement: Seq<u8>, decision: Decision)
    requires
        decision.action == Action::DENY,
    ensures
        !may_send(statement, Some(decision)),
{
}

/// Where a connection is inspected, a statement is blocked exactly where a word can
/// be named for it.
pub proof fn blocked_statements_are_explained(statement: Seq<u8>, decision: Decision)
    requires
        decision.action == Action::INSPECT,
    ensures
        may_send(statement, Some(decision)) <==> named_word(statement, Some(decision)) is None,
{
    guardian::a_blocked_statement_has_an_offending_word(statement, decision);
}

/// A request for encryption that is declined leaves the client where it was, free
/// to send its startup message in plain text.
pub proof fn a_declined_request_changes_nothing(
    s: SessionView,
    payload: Seq<u8>,
    cfg: ProxyConfig,
    now: TimeOfDay,
)
    requires
        s.phase == Phase::StartupPayload,
        !s.secure,
        payload.len() == s.wanted,
        protocol::wire_number(payload) == protocol::GSSENC_REQUEST || (protocol::wire_number(
            payload,
        ) == protocol::SSL_REQUEST && !cfg.tls_available),
    ensures
        next(s, EventView::Received(payload), cfg, now) == (
            SessionView { phase: Phase::StartupLength, ..s },
            StepView::Reply { reply: seq![DECLINE], read: 4 },
        ),
{
}

/// Inside TLS nothing is negotiated any more.
pub proof fn tls_is_negotiated_once(
    s: SessionView,
    event: EventView,
    cfg: ProxyConfig,
    now: TimeOfDay,
)
    requires
        s.secure,
        !is_established(s),
    ensures
        !(next(s, event, cfg, now).1 is StartTls),
        !(next(s, event, cfg, now).1 is Reply),
{
}

/// The PROXY header never grows past its limit.
pub proof fn the_header_is_bounded(
    history: Seq<(EventView, TimeOfDay)>,
    cfg: ProxyConfig,
)
    requires
        cfg.limits.max_proxy_header_len >= 1,
    ensures
        state_after(fresh(), history, cfg).header.len() <= cfg.limits.max_proxy_header_len,
{
    it_holds_throughout(history, cfg);
}

/// How many bytes a step asks the client for.
pub open spec fn asked_for(step: StepView) -> nat {
    match step {
        StepView::Read(n) => n,
        StepView::Reply { read, .. } => read,
        StepView::Block { read, .. } => read,
        StepView::Forward { read, .. } => read,
        _ => 0,
    }
}

/// No client makes the proxy wait for, and so set aside memory for, more than a
/// startup packet within its limit or a statement that is inspected.
pub proof fn reads_are_bounded(
    s: SessionView,
    event: EventView,
    cfg: ProxyConfig,
    now: TimeOfDay,
)
    ensures
        ({
            let n = asked_for(next(s, event, cfg, now).1);
            n <= FRAME_HEADER_LEN || n + 4 <= cfg.limits.max_startup_len || n < INSPECTION_LIMIT
        }),
{
}

} // verus!
