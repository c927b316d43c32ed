//! PostgreSQL frontend/backend protocol helpers.
//!
//! Everything in this module is a function over bytes and text.

use crate::text;
use vstd::prelude::*;
use vstd::slice::*;
use vstd::string::*;
use vstd::utf8::*;

verus! {

// Startup-phase protocol codes, a big-endian number in the first four payload
// bytes.
pub const SSL_REQUEST: u32 = 80877103;

pub const GSSENC_REQUEST: u32 = 80877104;

pub const CANCEL_REQUEST: u32 = 80877102;

pub const STARTUP_MESSAGE: u32 = 196608;

/// PostgreSQL's NAMEDATALEN limit for `application_name`, in the characters
/// that the server stores.
pub const NAMEDATALEN_LIMIT: usize = 63;

// Message types, the byte that opens a message after the startup phase.
/// `E`: ErrorResponse.
pub const ERROR_RESPONSE: u8 = 0x45;

/// `P`: Parse.
pub const PARSE: u8 = 0x50;

/// `Q`: Query.
pub const QUERY: u8 = 0x51;

/// `Z`: ReadyForQuery.
pub const READY_FOR_QUERY: u8 = 0x5a;

// Field tags of an ErrorResponse.
/// `S`: severity, in the server's language.
pub const FIELD_SEVERITY: u8 = 0x53;

/// `V`: severity, never translated.
pub const FIELD_SEVERITY_PLAIN: u8 = 0x56;

/// `C`: SQLSTATE.
pub const FIELD_CODE: u8 = 0x43;

/// `M`: message.
pub const FIELD_MESSAGE: u8 = 0x4d;

// ---- numbers on the wire ------------------------------------------------

/// The four big-endian bytes of a number; higher bits are dropped.
pub open spec fn be32(n: nat) -> Seq<u8> {
    seq![
        (n / 16777216 % 256) as u8,
        (n / 65536 % 256) as u8,
        (n / 256 % 256) as u8,
        (n % 256) as u8,
    ]
}

/// The number that the first four bytes stand for, big-endian.
pub open spec fn wire_number(b: Seq<u8>) -> nat {
    (b[0] * 16777216 + b[1] * 65536 + b[2] * 256 + b[3]) as nat
}

/// Reading back a number that was written gives the number.
pub proof fn wire_number_reads_back(n: nat)
    requires
        n <= u32::MAX,
    ensures
        wire_number(be32(n)) == n,
{
}

/// Reads the number in the first four bytes.
pub fn read_wire_number(b: &[u8]) -> (n: u32)
    requires
        b@.len() >= 4,
    ensures
        n == wire_number(b@),
{
    (b[0] as u32) * 16777216 + (b[1] as u32) * 65536 + (b[2] as u32) * 256 + (b[3] as u32)
}

/// Appends the length word of a message whose body has `len` bytes. The word
/// counts its own four bytes.
fn push_length(out: &mut Vec<u8>, len: usize)
    ensures
        final(out)@ == old(out)@ + be32((len + 4) as nat),
{
    let ghost before = out@;
    let n: u128 = len as u128 + 4;
    out.push((n / 16777216 % 256) as u8);
    out.push((n / 65536 % 256) as u8);
    out.push((n / 256 % 256) as u8);
    out.push((n % 256) as u8);
    assert(out@ == before + be32((len + 4) as nat));
}

/// A startup-phase packet: the length word, then the payload.
pub open spec fn startup_packet(payload: Seq<u8>) -> Seq<u8> {
    be32((payload.len() + 4) as nat) + payload
}

/// Puts the length word in front of a startup-phase payload.
pub fn make_startup_packet(payload: &[u8]) -> (packet: Vec<u8>)
    ensures
        packet@ == startup_packet(payload@),
{
    let mut packet: Vec<u8> = Vec::new();
    push_length(&mut packet, payload.len());
    text::push_bytes(&mut packet, payload);
    assert(packet@ == startup_packet(payload@));
    packet
}

// ---- ErrorResponse ------------------------------------------------------

/// One field of an ErrorResponse: a tag byte and a NUL-terminated text.
pub open spec fn error_field(tag: u8, value: Seq<char>) -> Seq<u8> {
    seq![tag] + encode_utf8(value) + seq![0u8]
}

/// The fields of an ErrorResponse, and the NUL that ends them.
pub open spec fn error_body(message: Seq<char>, code: Seq<char>) -> Seq<u8> {
    error_field(FIELD_SEVERITY, "ERROR"@) + error_field(FIELD_SEVERITY_PLAIN, "ERROR"@)
        + error_field(FIELD_CODE, code) + error_field(FIELD_MESSAGE, message) + seq![0u8]
}

/// An ErrorResponse: the type byte `E`, the length word, and the fields
/// severity (`S` and `V`), SQLSTATE (`C`) and message (`M`).
pub open spec fn error_response(message: Seq<char>, code: Seq<char>) -> Seq<u8> {
    let body = error_body(message, code);
    seq![ERROR_RESPONSE] + be32((body.len() + 4) as nat) + body
}

fn push_error_field(out: &mut Vec<u8>, tag: u8, value: &str)
    ensures
        final(out)@ == old(out)@ + error_field(tag, value@),
{
    let ghost before = out@;
    out.push(tag);
    text::push_bytes(out, value.as_bytes());
    out.push(0);
    assert(out@ == before + error_field(tag, value@));
}

/// Builds an ErrorResponse packet.
pub fn make_error_response(message: &str, code: &str) -> (packet: Vec<u8>)
    ensures
        packet@ == error_response(message@, code@),
{
    let mut body: Vec<u8> = Vec::new();
    push_error_field(&mut body, FIELD_SEVERITY, "ERROR");
    push_error_field(&mut body, FIELD_SEVERITY_PLAIN, "ERROR");
    push_error_field(&mut body, FIELD_CODE, code);
    push_error_field(&mut body, FIELD_MESSAGE, message);
    body.push(0);
    assert(body@ == error_body(message@, code@));
    let mut packet: Vec<u8> = Vec::new();
    packet.push(ERROR_RESPONSE);
    push_length(&mut packet, body.len());
    text::push_bytes(&mut packet, body.as_slice());
    assert(packet@ == error_response(message@, code@));
    packet
}

/// An ErrorResponse is framed correctly: after the type byte stands a length
/// word that counts every byte from itself to the end of the packet, as long as
/// that count fits in the word.
pub proof fn error_response_is_framed(message: Seq<char>, code: Seq<char>)
    requires
        error_body(message, code).len() + 4 <= u32::MAX,
    ensures
        error_response(message, code)[0] == ERROR_RESPONSE,
        wire_number(error_response(message, code).skip(1)) == error_response(message, code).len()
            - 1,
{
    let body = error_body(message, code);
    let packet = error_response(message, code);
    assert(packet.skip(1) == be32((body.len() + 4) as nat) + body);
    wire_number_reads_back((body.len() + 4) as nat);
}

// ---- application names --------------------------------------------------

/// How many characters the server stores for one byte of an application name:
/// printable ASCII is kept, any other byte becomes an escape such as `\xc3`.
pub open spec fn stored_byte(b: u8) -> nat {
    if 32 <= b <= 126 {
        1
    } else {
        4
    }
}

/// How many characters the server stores for a byte string.
pub open spec fn stored_bytes(s: Seq<u8>) -> nat
    decreases s.len(),
{
    if s.len() == 0 {
        0
    } else {
        stored_bytes(s.drop_last()) + stored_byte(s.last())
    }
}

/// How many characters the server stores for a name.
pub open spec fn stored_len(s: Seq<char>) -> nat {
    stored_bytes(encode_utf8(s))
}

/// The longest beginning of `s` that the server stores in `budget` characters.
pub open spec fn fitting(s: Seq<char>, budget: nat) -> Seq<char>
    decreases s.len(),
{
    if s.len() == 0 || stored_len(s) <= budget {
        s
    } else {
        fitting(s.drop_last(), budget)
    }
}

/// What is appended to a name to say where the connection comes from.
pub open spec fn address_suffix(ip: Seq<char>) -> Seq<char> {
    " - "@ + ip
}

/// The application name of a client at `ip` that calls itself `name`. The name
/// gives way to the address where there is no room for both.
pub open spec fn application_name(name: Seq<char>, ip: Seq<char>) -> Seq<char> {
    let suffix = address_suffix(ip);
    if stored_len(name) + stored_len(suffix) <= NAMEDATALEN_LIMIT {
        name + suffix
    } else if stored_len(suffix) >= NAMEDATALEN_LIMIT {
        fitting(suffix, NAMEDATALEN_LIMIT as nat)
    } else {
        fitting(name, (NAMEDATALEN_LIMIT - stored_len(suffix)) as nat) + suffix
    }
}

proof fn stored_bytes_concat(a: Seq<u8>, b: Seq<u8>)
    ensures
        stored_bytes(a + b) == stored_bytes(a) + stored_bytes(b),
    decreases b.len(),
{
    if b.len() == 0 {
        assert(a + b == a);
    } else {
        assert((a + b).drop_last() == a + b.drop_last());
        stored_bytes_concat(a, b.drop_last());
    }
}

proof fn stored_bytes_covers(s: Seq<u8>)
    ensures
        s.len() <= stored_bytes(s),
    decreases s.len(),
{
    if s.len() > 0 {
        stored_bytes_covers(s.drop_last());
    }
}

proof fn stored_bytes_of_escapes(s: Seq<u8>)
    requires
        forall|i: int| 0 <= i < s.len() ==> #[trigger] s[i] >= 0x80,
    ensures
        stored_bytes(s) == 4 * s.len(),
    decreases s.len(),
{
    if s.len() > 0 {
        stored_bytes_of_escapes(s.drop_last());
    }
}

pub(crate) proof fn stored_len_concat(a: Seq<char>, b: Seq<char>)
    ensures
        stored_len(a + b) == stored_len(a) + stored_len(b),
{
    text::encode_concat(a, b);
    stored_bytes_concat(encode_utf8(a), encode_utf8(b));
}

proof fn stored_len_push(s: Seq<char>, c: char)
    ensures
        stored_len(s.push(c)) == stored_len(s) + stored_bytes(encode_scalar(c as u32)),
{
    text::encode_push(s, c);
    stored_bytes_concat(encode_utf8(s), encode_scalar(c as u32));
}

proof fn stored_len_of_prefix(s: Seq<char>, i: int)
    requires
        0 <= i <= s.len(),
    ensures
        stored_len(s.take(i)) <= stored_len(s),
{
    assert(s.take(i) + s.skip(i) == s);
    stored_len_concat(s.take(i), s.skip(i));
}

/// A beginning that fits, and that would not with one character more, is the
/// longest that fits.
proof fn fitting_is(s: Seq<char>, budget: nat, n: int)
    requires
        0 <= n <= s.len(),
        stored_len(s.take(n)) <= budget,
        n < s.len() ==> stored_len(s.take(n + 1)) > budget,
    ensures
        fitting(s, budget) == s.take(n),
    decreases s.len(),
{
    if n == s.len() {
        assert(s.take(n) == s);
    } else {
        stored_len_of_prefix(s, n + 1);
        let t = s.drop_last();
        assert(t.take(n) == s.take(n));
        if n < t.len() {
            assert(t.take(n + 1) == s.take(n + 1));
        }
        fitting_is(t, budget, n);
    }
}

/// How many characters the server stores for one character of a name.
fn stored_char(c: char) -> (n: usize)
    ensures
        n == stored_bytes(encode_scalar(c as u32)),
        1 <= n <= 16,
{
    let code: u32 = c as u32;
    proof {
        text::encode_scalar_bytes(c);
        let bytes = encode_scalar(code);
        if code < 0x80 {
            assert(bytes.drop_last() == Seq::<u8>::empty());
            assert(stored_bytes(bytes.drop_last()) == 0);
        } else {
            stored_bytes_of_escapes(bytes);
        }
    }
    if 32 <= code && code <= 126 {
        1
    } else if code < 0x80 {
        4
    } else if code < 0x800 {
        8
    } else if code < 0x10000 {
        12
    } else {
        16
    }
}

/// How many of the first characters of `s` the server stores in `budget`
/// characters, and how many it stores for them.
fn fitting_count(s: &[char], budget: usize) -> (r: (usize, usize))
    ensures
        r.0 <= s@.len(),
        r.1 == stored_len(s@.take(r.0 as int)),
        r.1 <= budget,
        r.0 < s@.len() ==> stored_len(s@.take(r.0 + 1)) > budget,
{
    let mut used: usize = 0;
    let mut i: usize = 0;
    assert(s@.take(0) == Seq::<char>::empty());
    while i < s.len()
        invariant
            i <= s@.len(),
            used == stored_len(s@.take(i as int)),
            used <= budget,
        decreases s@.len() - i,
    {
        let c: char = s[i];
        let cost: usize = stored_char(c);
        proof {
            assert(s@.take(i + 1) == s@.take(i as int).push(c));
            stored_len_push(s@.take(i as int), c);
        }
        if cost > budget - used {
            return (i, used);
        }
        used = used + cost;
        i = i + 1;
    }
    (i, used)
}

/// Truncates to what the server stores in at most `max` characters, never
/// splitting a character.
pub fn truncate_on_char_boundary(s: &str, max: usize) -> (t: String)
    ensures
        t@ == fitting(s@, max as nat),
{
    let chars: Vec<char> = text::chars_of(s);
    let (n, _used) = fitting_count(chars.as_slice(), max);
    proof {
        fitting_is(s@, max as nat, n as int);
    }
    text::string_of(slice_subrange(chars.as_slice(), 0, n))
}

/// How many characters the server stores for `s`, unless they are more than
/// `max`.
fn stored_at_most(s: &str, max: usize) -> (n: Option<usize>)
    ensures
        match n {
            Some(v) => v == stored_len(s@) && v <= max,
            None => stored_len(s@) > max,
        },
{
    let chars: Vec<char> = text::chars_of(s);
    let (n, used) = fitting_count(chars.as_slice(), max);
    if n == chars.len() {
        assert(s@.take(n as int) == s@);
        Some(used)
    } else {
        proof {
            stored_len_of_prefix(s@, n + 1);
        }
        None
    }
}

/// Appends the client's address to the name that it gave itself. The result
/// never takes more than `NAMEDATALEN_LIMIT` characters in the server, and the
/// address is kept whole wherever it fits.
pub fn format_application_name(original_name: &str, app_ip: &str) -> (name: String)
    ensures
        name@ == application_name(original_name@, app_ip@),
{
    let suffix: String = text::joined(" - ", app_ip);
    match stored_at_most(suffix.as_str(), NAMEDATALEN_LIMIT) {
        None => truncate_on_char_boundary(suffix.as_str(), NAMEDATALEN_LIMIT),
        Some(used) => {
            let available: usize = NAMEDATALEN_LIMIT - used;
            match stored_at_most(original_name, available) {
                Some(_) => text::joined(original_name, suffix.as_str()),
                None => {
                    if available == 0 {
                        truncate_on_char_boundary(suffix.as_str(), NAMEDATALEN_LIMIT)
                    } else {
                        let truncated: String = truncate_on_char_boundary(original_name, available);
                        text::joined(truncated.as_str(), suffix.as_str())
                    }
                },
            }
        },
    }
}

proof fn fitting_fits(s: Seq<char>, budget: nat)
    ensures
        stored_len(fitting(s, budget)) <= budget,
        fitting(s, budget).len() <= s.len(),
        fitting(s, budget) == s.take(fitting(s, budget).len() as int),
        stored_len(s) <= budget ==> fitting(s, budget) == s,
    decreases s.len(),
{
    if s.len() == 0 {
        assert(encode_utf8(s) == Seq::<u8>::empty());
    } else if stored_len(s) > budget {
        fitting_fits(s.drop_last(), budget);
        let n = fitting(s, budget).len() as int;
        assert(s.drop_last().take(n) == s.take(n));
    }
}

/// The longest fitting beginning is maximal: with one character more it would
/// not fit.
pub proof fn fitting_is_maximal(s: Seq<char>, budget: nat)
    ensures
        stored_len(fitting(s, budget)) <= budget,
        fitting(s, budget).len() <= s.len(),
        fitting(s, budget) == s.take(fitting(s, budget).len() as int),
        forall|n: int|
            fitting(s, budget).len() < n <= s.len() ==> stored_len(#[trigger] s.take(n)) > budget,
    decreases s.len(),
{
    fitting_fits(s, budget);
    if s.len() > 0 && stored_len(s) > budget {
        fitting_is_maximal(s.drop_last(), budget);
        assert forall|n: int| fitting(s, budget).len() < n <= s.len() implies stored_len(
            #[trigger] s.take(n),
        ) > budget by {
            if n == s.len() {
                assert(s.take(n) == s);
            } else {
                assert(s.drop_last().take(n) == s.take(n));
            }
        }
    }
}

/// An application name never exceeds the limit, counted in the characters that
/// the server stores or in bytes.
pub proof fn application_name_is_bounded(name: Seq<char>, ip: Seq<char>)
    ensures
        stored_len(application_name(name, ip)) <= NAMEDATALEN_LIMIT,
        encode_utf8(application_name(name, ip)).len() <= NAMEDATALEN_LIMIT,
{
    let suffix = address_suffix(ip);
    let limit = NAMEDATALEN_LIMIT as nat;
    stored_len_concat(name, suffix);
    fitting_fits(suffix, limit);
    if stored_len(suffix) < limit {
        let budget = (limit - stored_len(suffix)) as nat;
        fitting_fits(name, budget);
        stored_len_concat(fitting(name, budget), suffix);
    }
    stored_bytes_covers(encode_utf8(application_name(name, ip)));
}

/// The address survives truncation: wherever the suffix that names it fits at
/// all, the application name is a beginning of the client's own name and then
/// the whole suffix.
pub proof fn application_name_keeps_the_address(name: Seq<char>, ip: Seq<char>)
    requires
        stored_len(address_suffix(ip)) <= NAMEDATALEN_LIMIT,
    ensures
        exists|n: int|
            0 <= n <= name.len() && application_name(name, ip) == #[trigger] name.take(n)
                + address_suffix(ip),
{
    let suffix = address_suffix(ip);
    let limit = NAMEDATALEN_LIMIT as nat;
    assert(name.take(name.len() as int) == name);
    if stored_len(name) + stored_len(suffix) <= limit {
        assert(application_name(name, ip) == name.take(name.len() as int) + suffix);
    } else if stored_len(suffix) >= limit {
        fitting_fits(suffix, limit);
        assert(name.take(0) + suffix == suffix);
        assert(application_name(name, ip) == name.take(0) + suffix);
    } else {
        let budget = (limit - stored_len(suffix)) as nat;
        fitting_fits(name, budget);
        let n = fitting(name, budget).len() as int;
        assert(application_name(name, ip) == name.take(n) + suffix);
    }
}

/// A name that leaves room for the address is kept whole.
pub proof fn application_name_keeps_short_names(name: Seq<char>, ip: Seq<char>)
    requires
        stored_len(name) + stored_len(address_suffix(ip)) <= NAMEDATALEN_LIMIT,
    ensures
        application_name(name, ip) == name + address_suffix(ip),
{
}

/// The suffix for an address of up to sixty printable characters fits, which
/// every address literal has to spare.
pub proof fn printable_addresses_fit(ip: Seq<char>)
    requires
        ip.len() <= 60,
        forall|i: int| 0 <= i < ip.len() ==> ' ' <= #[trigger] ip[i] <= '~',
    ensures
        stored_len(address_suffix(ip)) <= NAMEDATALEN_LIMIT,
{
    reveal_strlit(" - ");
    let suffix = address_suffix(ip);
    assert forall|i: int| 0 <= i < suffix.len() implies ' ' <= #[trigger] suffix[i] <= '~' by {
        if i >= 3 {
            assert(suffix[i] == ip[i - 3]);
        }
    }
    printable_text_is_stored_as_it_is(suffix);
}

proof fn printable_text_is_stored_as_it_is(s: Seq<char>)
    requires
        forall|i: int| 0 <= i < s.len() ==> ' ' <= #[trigger] s[i] <= '~',
    ensures
        stored_len(s) == s.len(),
    decreases s.len(),
{
    if s.len() > 0 {
        let front = s.drop_last();
        let c = s.last();
        assert(s == front.push(c));
        assert(s[s.len() - 1] == c);
        assert forall|i: int| 0 <= i < front.len() implies ' ' <= #[trigger] front[i] <= '~' by {
            assert(front[i] == s[i]);
        }
        printable_text_is_stored_as_it_is(front);
        stored_len_push(front, c);
        printable_character_is_stored_as_it_is(c);
    }
}

proof fn printable_character_is_stored_as_it_is(c: char)
    requires
        ' ' <= c <= '~',
    ensures
        stored_bytes(encode_scalar(c as u32)) == 1,
{
    text::encode_scalar_bytes(c);
    let bytes = encode_scalar(c as u32);
    assert(bytes.drop_last() == Seq::<u8>::empty());
    assert(stored_bytes(bytes.drop_last()) == 0);
}

// ---- startup parameters -------------------------------------------------

/// The part of a startup payload that holds its parameters: what follows the
/// four version bytes, without the NUL that closes the list.
pub open spec fn parameter_section(payload: Seq<u8>) -> Seq<u8> {
    let rest = payload.skip(4);
    if rest.len() > 0 && rest.last() == 0 {
        rest.drop_last()
    } else {
        rest
    }
}

/// Consecutive items taken two by two; an odd item at the end is left out.
pub open spec fn paired(items: Seq<Seq<u8>>) -> Seq<(Seq<u8>, Seq<u8>)> {
    Seq::new(items.len() / 2, |i: int| (items[2 * i], items[2 * i + 1]))
}

/// The parameters of a startup payload, names with values, in order.
pub open spec fn startup_parameters(payload: Seq<u8>) -> Seq<(Seq<u8>, Seq<u8>)> {
    if payload.len() < 4 {
        Seq::empty()
    } else {
        paired(text::split_on(parameter_section(payload), 0u8))
    }
}

/// Parameters as they stand on the wire: each name and each value followed by a
/// NUL.
pub open spec fn parameter_bytes(params: Seq<(Seq<u8>, Seq<u8>)>) -> Seq<u8>
    decreases params.len(),
{
    if params.len() == 0 {
        Seq::empty()
    } else {
        parameter_bytes(params.drop_last()) + params.last().0 + seq![0u8] + params.last().1
            + seq![0u8]
    }
}

/// The name of the parameter that holds the application name.
pub open spec fn application_name_key() -> Seq<u8> {
    encode_utf8("application_name"@)
}

/// Whether some parameter has the given name.
pub open spec fn has_parameter(params: Seq<(Seq<u8>, Seq<u8>)>, key: Seq<u8>) -> bool {
    exists|i: int| 0 <= i < params.len() && (#[trigger] params[i]).0 == key
}

/// The value that the last parameter of the given name has.
pub open spec fn parameter(params: Seq<(Seq<u8>, Seq<u8>)>, key: Seq<u8>) -> Option<Seq<u8>>
    decreases params.len(),
{
    if params.len() == 0 {
        None
    } else if params.last().0 == key {
        Some(params.last().1)
    } else {
        parameter(params.drop_last(), key)
    }
}

/// One parameter of a client at `ip`, as it is forwarded.
pub open spec fn attributed(param: (Seq<u8>, Seq<u8>), ip: Seq<char>) -> (Seq<u8>, Seq<u8>) {
    if param.0 == application_name_key() {
        (param.0, encode_utf8(application_name(text::lossy_text(param.1), ip)))
    } else {
        param
    }
}

/// The parameters of a client at `ip` as they are forwarded: those without a
/// name are dropped, and application names carry the address.
pub open spec fn attributed_all(
    params: Seq<(Seq<u8>, Seq<u8>)>,
    ip: Seq<char>,
) -> Seq<(Seq<u8>, Seq<u8>)>
    decreases params.len(),
{
    if params.len() == 0 {
        Seq::empty()
    } else {
        let front = attributed_all(params.drop_last(), ip);
        if params.last().0.len() == 0 {
            front
        } else {
            front.push(attributed(params.last(), ip))
        }
    }
}

/// The parameter that is added for a client at `ip` that gave no application
/// name.
pub open spec fn default_name(ip: Seq<char>) -> (Seq<u8>, Seq<u8>) {
    (application_name_key(), encode_utf8(application_name(Seq::empty(), ip)))
}

/// The parameters that are forwarded for a client at `ip`.
pub open spec fn forwarded_parameters(
    params: Seq<(Seq<u8>, Seq<u8>)>,
    ip: Seq<char>,
) -> Seq<(Seq<u8>, Seq<u8>)> {
    let named = attributed_all(params, ip);
    if has_parameter(params, application_name_key()) {
        named
    } else {
        named.push(default_name(ip))
    }
}

/// A startup payload of a client at `ip` as it is forwarded. The version bytes
/// are kept; what is too short to hold them is no startup payload and is
/// forwarded untouched.
pub open spec fn injected(payload: Seq<u8>, ip: Seq<char>) -> Seq<u8> {
    if payload.len() < 4 {
        payload
    } else {
        payload.take(4) + parameter_bytes(forwarded_parameters(startup_parameters(payload), ip))
            + seq![0u8]
    }
}

/// The user and the database that a startup payload asks for. The database is
/// the user's own where none is named.
pub open spec fn startup_identity(payload: Seq<u8>) -> (Seq<char>, Seq<char>) {
    let params = startup_parameters(payload);
    let user = parameter_text(params, encode_utf8("user"@));
    let db = parameter_text(params, encode_utf8("database"@));
    if db.len() == 0 {
        (user, user)
    } else {
        (user, db)
    }
}

/// The value of a parameter as text, empty where there is no such parameter.
pub open spec fn parameter_text(params: Seq<(Seq<u8>, Seq<u8>)>, key: Seq<u8>) -> Seq<char> {
    match parameter(params, key) {
        Some(value) => text::lossy_text(value),
        None => Seq::empty(),
    }
}

/// Whether the value of a parameter, where it is valid UTF-8, is read as the text
/// that it encodes.
pub open spec fn parameter_decodes(params: Seq<(Seq<u8>, Seq<u8>)>, key: Seq<u8>) -> bool {
    parameter(params, key) matches Some(value) ==> text::decodes_exactly(value)
}

/// The pieces of a startup payload's parameter section.
fn parameter_pieces<'a>(payload: &'a [u8]) -> (parts: Vec<&'a [u8]>)
    requires
        payload@.len() >= 4,
    ensures
        paired(text::pieces(parts@)) == startup_parameters(payload@),
{
    let mut end: usize = payload.len();
    if end > 4 && payload[end - 1] == 0 {
        end = end - 1;
    }
    assert(payload@.subrange(4, end as int) == parameter_section(payload@));
    text::split_bytes(slice_subrange(payload, 4, end), 0)
}

/// Rewrites a startup payload so that the application name says where the
/// client connects from.
pub fn inject_ip_startup(payload: &[u8], ip: &str) -> (out: Vec<u8>)
    ensures
        out@ == injected(payload@, ip@),
        payload@.len() >= 4 && !ip@.contains('\0') ==> startup_parameters(out@)
            == forwarded_parameters(startup_parameters(payload@), ip@),
        !ip@.contains('\0') ==> startup_identity(out@) == startup_identity(payload@),
        names_decode(startup_parameters(payload@)),
{
    if payload.len() < 4 {
        return slice_to_vec(payload);
    }
    let mut out: Vec<u8> = Vec::new();
    text::push_bytes(&mut out, slice_subrange(payload, 0, 4));
    let parts: Vec<&[u8]> = parameter_pieces(payload);
    let ghost params = startup_parameters(payload@);
    let mut found: bool = false;
    let mut i: usize = 0;
    assert(params.len() == parts@.len() / 2);
    assert(params.take(0) == Seq::<(Seq<u8>, Seq<u8>)>::empty());
    while i < parts.len() / 2
        invariant
            i <= parts@.len() / 2,
            payload@.len() >= 4,
            params == paired(text::pieces(parts@)),
            params == startup_parameters(payload@),
            out@ == payload@.take(4) + parameter_bytes(attributed_all(params.take(i as int), ip@)),
            found == has_parameter(params.take(i as int), application_name_key()),
            names_decode(params.take(i as int)),
        decreases parts@.len() / 2 - i,
    {
        let key: &[u8] = parts[2 * i];
        let value: &[u8] = parts[2 * i + 1];
        let ghost done = params.take(i as int);
        let ghost front = attributed_all(done, ip@);
        assert(params[i as int] == (key@, value@));
        assert(params.take(i + 1).drop_last() == done);
        assert(params.take(i + 1) == done.push((key@, value@)));
        if key.len() > 0 {
            text::push_bytes(&mut out, key);
            out.push(0);
            if text::same_bytes(key, "application_name".as_bytes()) {
                let own_name: String = text::text_of_bytes(value);
                proof {
                    startup_parameters_are_free(payload@);
                    assert(!own_name@.contains('\0'));
                }
                let name: String = format_application_name(own_name.as_str(), ip);
                text::push_bytes(&mut out, name.as_str().as_bytes());
                found = true;
                assert(params.take(i + 1)[i as int].0 == application_name_key());
            } else {
                text::push_bytes(&mut out, value);
            }
            out.push(0);
            assert(front.push(attributed((key@, value@), ip@)).drop_last() == front);
        }
        proof {
            application_name_key_is_no_other();
            has_parameter_push(done, (key@, value@), application_name_key());
        }
        i = i + 1;
    }
    assert(params.take(params.len() as int) == params);
    if !found {
        let name: String = format_application_name("", ip);
        text::push_bytes(&mut out, "application_name".as_bytes());
        out.push(0);
        text::push_bytes(&mut out, name.as_str().as_bytes());
        out.push(0);
        proof {
            reveal_strlit("");
            assert(""@ == Seq::<char>::empty());
            let named = attributed_all(params, ip@);
            assert(named.push(default_name(ip@)).drop_last() == named);
        }
    }
    out.push(0);
    assert(out@ == injected(payload@, ip@));
    proof {
        if !ip@.contains('\0') {
            injected_reads_back(payload@, ip@);
        }
    }
    out
}

proof fn has_parameter_push(
    params: Seq<(Seq<u8>, Seq<u8>)>,
    param: (Seq<u8>, Seq<u8>),
    key: Seq<u8>,
)
    ensures
        has_parameter(params.push(param), key) == (has_parameter(params, key) || param.0 == key),
{
    let all = params.push(param);
    if has_parameter(params, key) {
        let i = choose|i: int| 0 <= i < params.len() && (#[trigger] params[i]).0 == key;
        assert(all[i].0 == key);
    }
    if param.0 == key {
        assert(all[params.len() as int].0 == key);
    }
    if has_parameter(all, key) && param.0 != key {
        let i = choose|i: int| 0 <= i < all.len() && (#[trigger] all[i]).0 == key;
        assert(params[i].0 == key);
    }
}

/// The application name's parameter is not nameless, and is neither the user's
/// nor the database's.
pub(crate) proof fn application_name_key_is_no_other()
    ensures
        application_name_key().len() > 0,
        application_name_key() != encode_utf8("user"@),
        application_name_key() != encode_utf8("database"@),
        encode_utf8("user"@) != encode_utf8("database"@),
        encode_utf8("user"@).len() > 0,
        encode_utf8("database"@).len() > 0,
{
    reveal_strlit("application_name");
    reveal_strlit("user");
    reveal_strlit("database");
    is_ascii_chars_encode_utf8("application_name"@);
    is_ascii_chars_encode_utf8("user"@);
    is_ascii_chars_encode_utf8("database"@);
}

/// Reads the user and the database out of a startup payload.
pub fn extract_user_db(payload: &[u8]) -> (r: (String, String))
    ensures
        (r.0@, r.1@) == startup_identity(payload@),
        parameter_decodes(startup_parameters(payload@), encode_utf8("user"@)),
        parameter_decodes(startup_parameters(payload@), encode_utf8("database"@)),
{
    let mut user: String = String::new();
    let mut db: String = String::new();
    let ghost params = startup_parameters(payload@);
    let ghost user_key = encode_utf8("user"@);
    let ghost db_key = encode_utf8("database"@);
    if payload.len() < 4 {
        return (user, db);
    }
    proof {
        application_name_key_is_no_other();
    }
    let parts: Vec<&[u8]> = parameter_pieces(payload);
    let mut i: usize = 0;
    assert(params.take(0) == Seq::<(Seq<u8>, Seq<u8>)>::empty());
    while i < parts.len() / 2
        invariant
            i <= parts@.len() / 2,
            params == paired(text::pieces(parts@)),
            user_key == encode_utf8("user"@),
            db_key == encode_utf8("database"@),
            user_key != db_key,
            user@ == parameter_text(params.take(i as int), user_key),
            db@ == parameter_text(params.take(i as int), db_key),
            parameter_decodes(params.take(i as int), user_key),
            parameter_decodes(params.take(i as int), db_key),
        decreases parts@.len() / 2 - i,
    {
        let key: &[u8] = parts[2 * i];
        let value: &[u8] = parts[2 * i + 1];
        assert(params[i as int] == (key@, value@));
        assert(params.take(i + 1).drop_last() == params.take(i as int));
        assert(params.take(i + 1).last() == (key@, value@));
        if text::same_bytes(key, "user".as_bytes()) {
            user = text::text_of_bytes(value);
        } else if text::same_bytes(key, "database".as_bytes()) {
            db = text::text_of_bytes(value);
        }
        i = i + 1;
    }
    assert(params.take(params.len() as int) == params);
    if db.as_str().is_empty() {
        db = user.clone();
    }
    (user, db)
}

// ---- what an injected payload reads as ----------------------------------

/// Whether neither names nor values hold a zero byte.
pub open spec fn free_of_nul(params: Seq<(Seq<u8>, Seq<u8>)>) -> bool {
    forall|i: int|
        0 <= i < params.len() ==> !(#[trigger] params[i]).0.contains(0u8) && !params[i].1.contains(
            0u8,
        )
}

/// Whether every application name, where it is valid UTF-8, is read as the text
/// that it encodes, and none is read as a text with a NUL character.
pub open spec fn names_decode(params: Seq<(Seq<u8>, Seq<u8>)>) -> bool {
    forall|i: int|
        0 <= i < params.len() && (#[trigger] params[i]).0 == application_name_key()
            ==> text::decodes_exactly(params[i].1) && !text::lossy_text(params[i].1).contains('\0')
}

/// The parameters of a startup payload hold no zero byte: zero bytes are what
/// separates them.
pub proof fn startup_parameters_are_free(payload: Seq<u8>)
    ensures
        free_of_nul(startup_parameters(payload)),
{
    if payload.len() >= 4 {
        let params = startup_parameters(payload);
        let items = text::split_on(parameter_section(payload), 0u8);
        text::split_on_pieces_are_free(parameter_section(payload), 0u8);
        assert forall|i: int| 0 <= i < params.len() implies !(#[trigger] params[i]).0.contains(0u8)
            && !params[i].1.contains(0u8) by {
            assert(params[i].0 == items[2 * i]);
            assert(params[i].1 == items[2 * i + 1]);
        }
    }
}

/// Parameters that were written out split into the same names and values, with
/// an empty piece behind the last NUL.
proof fn parameter_bytes_split(params: Seq<(Seq<u8>, Seq<u8>)>)
    requires
        free_of_nul(params),
    ensures
        ({
            let items = text::split_on(parameter_bytes(params), 0u8);
            &&& items.len() == 2 * params.len() + 1
            &&& items.last() == Seq::<u8>::empty()
            &&& forall|i: int|
                0 <= i < params.len() ==> items[2 * i] == (#[trigger] params[i]).0 && items[2 * i
                    + 1] == params[i].1
        }),
    decreases params.len(),
{
    if params.len() > 0 {
        let front = params.drop_last();
        let (key, value) = params.last();
        assert(!params[params.len() - 1].0.contains(0u8));
        assert forall|i: int| 0 <= i < front.len() implies !(#[trigger] front[i]).0.contains(0u8)
            && !front[i].1.contains(0u8) by {
            assert(front[i] == params[i]);
        }
        parameter_bytes_split(front);
        let b0 = parameter_bytes(front);
        let i0 = text::split_on(b0, 0u8);
        let b1 = b0 + key;
        text::split_on_append(b0, key, 0u8);
        let i1 = i0.drop_last().push(key);
        assert(Seq::<u8>::empty() + key == key);
        assert(text::split_on(b1, 0u8) == i1);
        let b2 = b1 + seq![0u8];
        assert(b2.drop_last() == b1);
        let i2 = i1.push(Seq::<u8>::empty());
        assert(text::split_on(b2, 0u8) == i2);
        let b3 = b2 + value;
        text::split_on_append(b2, value, 0u8);
        assert(Seq::<u8>::empty() + value == value);
        let i3 = i1.push(value);
        assert(i2.drop_last() == i1);
        assert(text::split_on(b3, 0u8) == i3);
        let b4 = b3 + seq![0u8];
        assert(b4.drop_last() == b3);
        assert(text::split_on(b4, 0u8) == i3.push(Seq::<u8>::empty()));
        assert(b4 == parameter_bytes(params));
        let items = text::split_on(b4, 0u8);
        assert forall|i: int| 0 <= i < params.len() implies items[2 * i] == (#[trigger] params[i]).0
            && items[2 * i + 1] == params[i].1 by {
            if i < front.len() {
                assert(front[i] == params[i]);
                assert(items[2 * i] == i0[2 * i]);
                assert(items[2 * i + 1] == i0[2 * i + 1]);
            }
        }
    }
}

/// A payload made of four version bytes, written-out parameters and a closing
/// NUL reads back as those parameters.
pub proof fn written_parameters_read_back(version: Seq<u8>, params: Seq<(Seq<u8>, Seq<u8>)>)
    requires
        version.len() == 4,
        free_of_nul(params),
    ensures
        startup_parameters(version + parameter_bytes(params) + seq![0u8]) == params,
{
    let payload = version + parameter_bytes(params) + seq![0u8];
    assert(payload.skip(4) == parameter_bytes(params) + seq![0u8]);
    assert(parameter_section(payload) == parameter_bytes(params));
    parameter_bytes_split(params);
    assert(startup_parameters(payload) == params);
}

proof fn application_name_without_nul(name: Seq<char>, ip: Seq<char>)
    requires
        !name.contains('\0'),
        !ip.contains('\0'),
    ensures
        !application_name(name, ip).contains('\0'),
{
    reveal_strlit(" - ");
    let suffix = address_suffix(ip);
    assert forall|i: int| 0 <= i < suffix.len() implies suffix[i] != '\0' by {
        if i >= 3 {
            assert(ip.contains(ip[i - 3]));
        }
    }
    let limit = NAMEDATALEN_LIMIT as nat;
    fitting_fits(suffix, limit);
    if stored_len(suffix) < limit {
        fitting_fits(name, (limit - stored_len(suffix)) as nat);
    }
    let full = application_name(name, ip);
    assert forall|i: int| 0 <= i < full.len() implies full[i] != '\0' by {
        if stored_len(name) + stored_len(suffix) > limit && stored_len(suffix) >= limit {
            assert(full[i] == suffix[i]);
        } else {
            let kept = full.len() - suffix.len();
            if i < kept {
                assert(full[i] == name[i]);
                assert(name.contains(name[i]));
            } else {
                assert(full[i] == suffix[i - kept]);
            }
        }
    }
}

proof fn attributed_all_is_free(params: Seq<(Seq<u8>, Seq<u8>)>, ip: Seq<char>)
    requires
        free_of_nul(params),
        names_decode(params),
        !ip.contains('\0'),
    ensures
        free_of_nul(attributed_all(params, ip)),
    decreases params.len(),
{
    if params.len() > 0 {
        let front = params.drop_last();
        let param = params.last();
        assert(params[params.len() - 1] == param);
        assert forall|i: int| 0 <= i < front.len() implies front[i] == #[trigger] params[i] by {}
        attributed_all_is_free(front, ip);
        if param.0 == application_name_key() {
            application_name_without_nul(text::lossy_text(param.1), ip);
            text::encode_without_nul(application_name(text::lossy_text(param.1), ip));
        }
        let before = attributed_all(front, ip);
        let all = attributed_all(params, ip);
        assert forall|i: int| 0 <= i < all.len() implies !(#[trigger] all[i]).0.contains(0u8)
            && !all[i].1.contains(0u8) by {
            if i < before.len() {
                assert(all[i] == before[i]);
            } else {
                assert(all[i] == attributed(param, ip));
            }
        }
    }
}

proof fn attributed_all_keeps_parameter(
    params: Seq<(Seq<u8>, Seq<u8>)>,
    ip: Seq<char>,
    key: Seq<u8>,
)
    requires
        key.len() > 0,
        key != application_name_key(),
    ensures
        parameter(attributed_all(params, ip), key) == parameter(params, key),
    decreases params.len(),
{
    if params.len() > 0 {
        let front = attributed_all(params.drop_last(), ip);
        attributed_all_keeps_parameter(params.drop_last(), ip, key);
        if params.last().0.len() > 0 {
            let all = front.push(attributed(params.last(), ip));
            assert(all.drop_last() == front);
            assert(all.last() == attributed(params.last(), ip));
        }
    }
}

/// A startup message that names no database asks for the one that is named like
/// its user.
pub proof fn the_database_defaults_to_the_user(payload: Seq<u8>)
    requires
        parameter(startup_parameters(payload), encode_utf8("database"@)) is None,
    ensures
        startup_identity(payload).1 == startup_identity(payload).0,
{
}

/// Forwarding leaves the value of every other parameter as it was.
pub proof fn forwarding_keeps_other_parameters(
    params: Seq<(Seq<u8>, Seq<u8>)>,
    ip: Seq<char>,
    key: Seq<u8>,
)
    requires
        key.len() > 0,
        key != application_name_key(),
    ensures
        parameter(forwarded_parameters(params, ip), key) == parameter(params, key),
{
    attributed_all_keeps_parameter(params, ip, key);
    let named = attributed_all(params, ip);
    assert(named.push(default_name(ip)).drop_last() == named);
}

/// Every parameter that is not an application name is forwarded as it came, and
/// in the order in which it came, unless it has no name.
pub proof fn forwarding_keeps_the_rest_in_order(
    params: Seq<(Seq<u8>, Seq<u8>)>,
    ip: Seq<char>,
)
    ensures
        without_application_names(forwarded_parameters(params, ip)) == without_application_names(
            params,
        ),
{
    attributed_all_keeps_the_rest(params, ip);
    let named = attributed_all(params, ip);
    assert(named.push(default_name(ip)).drop_last() == named);
}

/// The parameters with a name other than that of the application name.
pub open spec fn without_application_names(params: Seq<(Seq<u8>, Seq<u8>)>) -> Seq<
    (Seq<u8>, Seq<u8>),
>
    decreases params.len(),
{
    if params.len() == 0 {
        Seq::empty()
    } else {
        let front = without_application_names(params.drop_last());
        if params.last().0.len() == 0 || params.last().0 == application_name_key() {
            front
        } else {
            front.push(params.last())
        }
    }
}

proof fn attributed_all_keeps_the_rest(params: Seq<(Seq<u8>, Seq<u8>)>, ip: Seq<char>)
    ensures
        without_application_names(attributed_all(params, ip)) == without_application_names(params),
    decreases params.len(),
{
    if params.len() > 0 {
        let front = attributed_all(params.drop_last(), ip);
        attributed_all_keeps_the_rest(params.drop_last(), ip);
        if params.last().0.len() > 0 {
            assert(front.push(attributed(params.last(), ip)).drop_last() == front);
        }
    }
}

/// Every forwarded startup says where its client connects from: it has an
/// application name, and each one that it has is the client's own, or an empty
/// one, with the address.
pub proof fn every_startup_is_attributed(params: Seq<(Seq<u8>, Seq<u8>)>, ip: Seq<char>)
    ensures
        has_parameter(forwarded_parameters(params, ip), application_name_key()),
        forall|i: int|
            0 <= i < forwarded_parameters(params, ip).len() && (
            #[trigger] forwarded_parameters(params, ip)[i]).0 == application_name_key()
                ==> is_attribution(forwarded_parameters(params, ip)[i].1, ip),
{
    let named = attributed_all(params, ip);
    attributed_all_names(params, ip);
    if !has_parameter(params, application_name_key()) {
        has_parameter_push(named, default_name(ip), application_name_key());
        assert(default_name(ip).1 == encode_utf8(application_name(Seq::empty(), ip)));
    }
}

/// Whether a value is the application name of a client at `ip`.
pub open spec fn is_attribution(value: Seq<u8>, ip: Seq<char>) -> bool {
    exists|name: Seq<char>| value == #[trigger] encode_utf8(application_name(name, ip))
}

proof fn attributed_all_names(params: Seq<(Seq<u8>, Seq<u8>)>, ip: Seq<char>)
    ensures
        has_parameter(params, application_name_key()) ==> has_parameter(
            attributed_all(params, ip),
            application_name_key(),
        ),
        forall|i: int|
            0 <= i < attributed_all(params, ip).len() && (#[trigger] attributed_all(
                params,
                ip,
            )[i]).0 == application_name_key() ==> is_attribution(
                attributed_all(params, ip)[i].1,
                ip,
            ),
    decreases params.len(),
{
    if params.len() > 0 {
        let front = params.drop_last();
        let param = params.last();
        attributed_all_names(front, ip);
        application_name_key_is_no_other();
        assert(params == front.push(param));
        has_parameter_push(front, param, application_name_key());
        let before = attributed_all(front, ip);
        has_parameter_push(before, attributed(param, ip), application_name_key());
        if param.0 == application_name_key() {
            let name = text::lossy_text(param.1);
            assert(attributed(param, ip).1 == encode_utf8(application_name(name, ip)));
        }
    }
}

/// What is forwarded reads back as the forwarded parameters, and asks for the
/// same user and database.
proof fn injected_reads_back(payload: Seq<u8>, ip: Seq<char>)
    requires
        payload.len() >= 4,
        !ip.contains('\0'),
        names_decode(startup_parameters(payload)),
    ensures
        startup_parameters(injected(payload, ip)) == forwarded_parameters(
            startup_parameters(payload),
            ip,
        ),
        startup_identity(injected(payload, ip)) == startup_identity(payload),
{
    let params = startup_parameters(payload);
    startup_parameters_are_free(payload);
    attributed_all_is_free(params, ip);
    application_name_key_is_no_other();
    let named = attributed_all(params, ip);
    let sent = forwarded_parameters(params, ip);
    if !has_parameter(params, application_name_key()) {
        application_name_without_nul(Seq::empty(), ip);
        text::encode_without_nul(application_name(Seq::empty(), ip));
        application_name_key_without_nul();
        assert forall|i: int| 0 <= i < sent.len() implies !(#[trigger] sent[i]).0.contains(0u8)
            && !sent[i].1.contains(0u8) by {
            if i < named.len() {
                assert(sent[i] == named[i]);
            }
        }
    }
    written_parameters_read_back(payload.take(4), sent);
    forwarding_keeps_other_parameters(params, ip, encode_utf8("user"@));
    forwarding_keeps_other_parameters(params, ip, encode_utf8("database"@));
}

proof fn application_name_key_without_nul()
    ensures
        !application_name_key().contains(0u8),
{
    reveal_strlit("application_name");
    text::encode_without_nul("application_name"@);
}

} // verus!
