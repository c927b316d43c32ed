//! What a connection is handled by: the configuration, the PROXY header and the
//! bounds on startup packets.

use crate::guardian::Guardian;
use crate::limits;
use crate::limits::Limits;
use crate::text;
use crate::trust::TrustedProxies;
use vstd::prelude::*;
use vstd::string::*;

verus! {

/// Everything that decides what becomes of a connection.
pub struct ProxyConfig {
    pub pg_addr: String,
    pub guardian: Guardian,
    /// Whether TLS can be terminated.
    pub tls_available: bool,
    pub trusted: TrustedProxies,
    pub limits: Limits,
}

/// What went wrong before the connection was established.
#[derive(Debug)]
pub enum HandshakeError {
    /// The client broke the protocol. It gets an ErrorResponse.
    Protocol(String),
}

impl HandshakeError {
    /// What the client did wrong.
    pub open spec fn text(self) -> Seq<char> {
        match self {
            HandshakeError::Protocol(message) => message@,
        }
    }
}

// ---- the PROXY header ---------------------------------------------------

/// Whether `s` begins with `prefix`.
pub open spec fn begins_with(s: Seq<char>, prefix: Seq<char>) -> bool {
    s.len() >= prefix.len() && s.take(prefix.len() as int) == prefix
}

/// The client's address in the line of a PROXY v1 header, or what is wrong with
/// the line.
pub open spec fn proxied_client(line: Seq<char>) -> Result<Seq<char>, Seq<char>> {
    let words = text::split_on(text::trimmed(line), ' ');
    if !begins_with(line, "PROXY"@) {
        Err("connection did not begin with a PROXY protocol v1 header"@)
    } else if words.len() > 2 && words[2].len() > 0 {
        Ok(words[2])
    } else {
        Err("malformed PROXY header: "@ + text::quoted(text::trimmed(line)))
    }
}

/// What came of the bytes of a PROXY header that have been read so far.
pub enum HeaderProgress {
    /// The line has not ended yet.
    More,
    /// The line has ended and names the client's address.
    Complete(String),
    /// The bytes are no PROXY v1 header.
    Failed(HandshakeError),
}

/// What came of a PROXY header's bytes: nothing yet while the line goes on, the
/// client's address or an error once it has ended, and an error if it does not
/// end within `max_len` bytes.
pub open spec fn header_progress(header: Seq<u8>, max_len: nat) -> Option<
    Result<Seq<char>, Seq<char>>,
> {
    if header.len() > 0 && header.last() == 0x0a {
        Some(proxied_client(text::lossy_text(header)))
    } else if header.len() >= max_len && header.len() > 0 {
        Some(
            Err(
                "PROXY header exceeded "@ + text::decimal(max_len)
                    + " bytes without a line terminator"@,
            ),
        )
    } else {
        None
    }
}

/// Reads the client's address out of the line of a PROXY v1 header.
pub fn proxied_client_address(line: &str) -> (r: Result<String, HandshakeError>)
    ensures
        match r {
            Ok(ip) => proxied_client(line@) == Ok::<Seq<char>, Seq<char>>(ip@),
            Err(e) => proxied_client(line@) == Err::<Seq<char>, Seq<char>>(e.text()),
        },
{
    let chars: Vec<char> = text::chars_of(line);
    if !(chars.len() >= 5 && chars[0] == 'P' && chars[1] == 'R' && chars[2] == 'O' && chars[3]
        == 'X' && chars[4] == 'Y') {
        proof {
            reveal_strlit("PROXY");
            if begins_with(line@, "PROXY"@) {
                let head = line@.take(5);
                assert(head[0] == line@[0] && head[1] == line@[1] && head[2] == line@[2] && head[3]
                    == line@[3] && head[4] == line@[4]);
            }
        }
        return Err(
            HandshakeError::Protocol(
                "connection did not begin with a PROXY protocol v1 header".to_owned(),
            ),
        );
    }
    proof {
        reveal_strlit("PROXY");
        assert(line@.take(5) == "PROXY"@);
    }
    let trimmed: &[char] = text::trim(chars.as_slice());
    let words: Vec<&[char]> = text::split_chars(trimmed, ' ');
    let ghost pieces = text::pieces(words@);
    if words.len() > 2 && words[2].len() > 0 {
        assert(pieces[2] == words@[2]@);
        Ok(text::string_of(words[2]))
    } else {
        proof {
            if words@.len() > 2 {
                assert(pieces[2] == words@[2]@);
            }
        }
        let shown: String = text::string_of(trimmed);
        Err(
            HandshakeError::Protocol(
                text::joined("malformed PROXY header: ", text::quote(shown.as_str()).as_str()),
            ),
        )
    }
}

/// Reads a PROXY v1 header out of the bytes that have come so far, of which only
/// the last may end the line, refusing to grow past `max_len`.
pub fn read_proxy_v1_header(header: &[u8], max_len: usize) -> (r: HeaderProgress)
    ensures
        match r {
            HeaderProgress::More => header_progress(header@, max_len as nat) is None,
            HeaderProgress::Complete(ip) => header_progress(header@, max_len as nat) == Some(
                Ok::<Seq<char>, Seq<char>>(ip@),
            ),
            HeaderProgress::Failed(e) => header_progress(header@, max_len as nat) == Some(
                Err::<Seq<char>, Seq<char>>(e.text()),
            ),
        },
        header@.len() > 0 && header@.last() == 0x0a ==> text::decodes_exactly(header@),
{
    if header.len() == 0 {
        return HeaderProgress::More;
    }
    if header[header.len() - 1] == 0x0a {
        let line: String = text::text_of_bytes(header);
        match proxied_client_address(line.as_str()) {
            Ok(ip) => HeaderProgress::Complete(ip),
            Err(e) => HeaderProgress::Failed(e),
        }
    } else if header.len() >= max_len {
        let mut s: String = "PROXY header exceeded ".to_owned();
        text::push_decimal(&mut s, max_len as u64);
        s.append(" bytes without a line terminator");
        HeaderProgress::Failed(HandshakeError::Protocol(s))
    } else {
        HeaderProgress::More
    }
}

/// A header names its client: of a line made of `PROXY`, a family, an address and
/// whatever follows, the address is read back, whichever family it is of.
pub proof fn a_header_names_its_client(family: Seq<char>, ip: Seq<char>, rest: Seq<char>)
    requires
        !family.contains(' '),
        ip.len() > 0,
        forall|i: int| 0 <= i < ip.len() ==> !text::is_space(#[trigger] ip[i]),
    ensures
        proxied_client("PROXY"@ + seq![' '] + family + seq![' '] + ip + seq![' '] + rest) == Ok::<
            Seq<char>,
            Seq<char>,
        >(ip),
{
    reveal_strlit("PROXY");
    let a = "PROXY"@;
    let b = a + seq![' '];
    let c = b + family;
    let d = c + seq![' '];
    let head = d + ip;
    let line = head + seq![' '] + rest;
    assert(line.take(5) == a);
    assert(line[0] == 'P');
    assert(text::trimmed_start(line) == line);
    let n = head.len() as int;
    assert(line[n - 1] == ip[ip.len() - 1]);
    text::trimmed_end_keeps(line, n);
    let shown = text::trimmed_end(line);
    let empty = Seq::<char>::empty();
    // The words of the line up to the address.
    assert forall|i: int| 0 <= i < ip.len() implies ip[i] != ' ' by {
        assert(!text::is_space(ip[i]));
    }
    assert(!a.contains(' '));
    text::split_on_append(empty, a, ' ');
    assert(empty + a == a);
    let words_a = text::split_on(a, ' ');
    assert(words_a == seq![a]);
    assert(b.drop_last() == a);
    assert(text::split_on(b, ' ') == seq![a, empty]);
    text::split_on_append(b, family, ' ');
    assert(empty + family == family);
    assert(text::split_on(c, ' ') == seq![a, family]);
    assert(d.drop_last() == c);
    assert(text::split_on(d, ' ') == seq![a, family, empty]);
    text::split_on_append(d, ip, ' ');
    assert(empty + ip == ip);
    assert(text::split_on(head, ' ') == seq![a, family, ip]);
    // What is left of the rest comes behind.
    if shown.len() == n {
        assert(shown == head);
    } else {
        assert(shown == head.push(' ') + shown.skip(n + 1));
        text::split_on_prefix(head, shown.skip(n + 1), ' ');
        let words = text::split_on(shown, ' ');
        assert(words[2] == words.take(3)[2]);
    }
}

// ---- startup lengths ----------------------------------------------------

/// How many bytes of payload follow a startup-phase length word, or what is
/// wrong with the word.
pub open spec fn startup_length(msg_len: nat, max: nat) -> Result<nat, Seq<char>> {
    if msg_len < limits::MIN_STARTUP_PACKET_LENGTH {
        Err(
            "startup packet length "@ + text::decimal(msg_len) + " is below the "@ + text::decimal(
                limits::MIN_STARTUP_PACKET_LENGTH as nat,
            ) + "-byte minimum"@,
        )
    } else if msg_len > max {
        Err(
            "startup packet length "@ + text::decimal(msg_len) + " exceeds the "@ + text::decimal(
                max,
            ) + "-byte limit"@,
        )
    } else {
        Ok((msg_len - 4) as nat)
    }
}

/// Validates a startup-phase length prefix and returns the payload size.
pub fn checked_startup_len(msg_len: u32, limits: &Limits) -> (r: Result<usize, HandshakeError>)
    ensures
        match r {
            Ok(n) => startup_length(msg_len as nat, limits.max_startup_len as nat) == Ok::<
                nat,
                Seq<char>,
            >(n as nat),
            Err(e) => startup_length(msg_len as nat, limits.max_startup_len as nat) == Err::<
                nat,
                Seq<char>,
            >(e.text()),
        },
{
    let len: usize = msg_len as usize;
    if len < limits::MIN_STARTUP_PACKET_LENGTH {
        let mut s: String = "startup packet length ".to_owned();
        text::push_decimal(&mut s, msg_len as u64);
        s.append(" is below the ");
        text::push_decimal(&mut s, limits::MIN_STARTUP_PACKET_LENGTH as u64);
        s.append("-byte minimum");
        Err(HandshakeError::Protocol(s))
    } else if len > limits.max_startup_len {
        let mut s: String = "startup packet length ".to_owned();
        text::push_decimal(&mut s, msg_len as u64);
        s.append(" exceeds the ");
        text::push_decimal(&mut s, limits.max_startup_len as u64);
        s.append("-byte limit");
        Err(HandshakeError::Protocol(s))
    } else {
        Ok(len - 4)
    }
}

/// What a length word may ask for is bounded on both sides: a payload has at
/// least its four code bytes and, with its length word, is within the limit.
pub proof fn startup_lengths_are_bounded(msg_len: nat, max: nat)
    ensures
        startup_length(msg_len, max) is Ok <==> limits::MIN_STARTUP_PACKET_LENGTH <= msg_len <= max,
        startup_length(msg_len, max) matches Ok(n) ==> 4 <= n && n + 4 <= max,
{
}

} // verus!
