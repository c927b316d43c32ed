//! Laws on the wire format: numbers, errors, application names and startup messages.

use crate::protocol;
use crate::text;
use vstd::prelude::*;
use vstd::string::*;
use vstd::utf8::*;

verus! {

// ---- numbers and errors -------------------------------------------------

/// A number on the wire has its most significant byte first.
pub proof fn wire_numbers_are_big_endian(a: u8, b: u8, c: u8, d: u8, rest: Seq<u8>)
    ensures
        protocol::wire_number(seq![a, b, c, d] + rest) == a * 0x100_0000 + b * 0x1_0000 + c * 0x100
            + d,
        protocol::be32((a * 0x100_0000 + b * 0x1_0000 + c * 0x100 + d) as nat) == seq![a, b, c, d],
{
    digits_to_the_base_256(a, b, c, d);
    assert(protocol::wire_number(seq![a, b, c, d] + rest) == protocol::wire_number(
        seq![a, b, c, d],
    ));
}

proof fn digits_to_the_base_256(a: u8, b: u8, c: u8, d: u8)
    ensures
        ({
            let n = (a * 0x100_0000 + b * 0x1_0000 + c * 0x100 + d) as nat;
            &&& n / 16777216 % 256 == a
            &&& n / 65536 % 256 == b
            &&& n / 256 % 256 == c
            &&& n % 256 == d
        }),
{
    let n = (a * 0x100_0000 + b * 0x1_0000 + c * 0x100 + d) as nat;
    let upper = (a * 0x100 + b) as nat;
    let low = (c * 0x100 + d) as nat;
    assert(low < 65536 && upper < 65536);
    assert(n == upper * 65536 + low);
    assert(n / 65536 == upper);
    assert(n / 256 == upper * 256 + c);
    assert(n / 16777216 == a);
    assert(upper % 256 == b);
}

/// A startup packet is its payload behind a length word that counts itself too.
pub proof fn a_startup_packet_is_framed(payload: Seq<u8>)
    ensures
        protocol::startup_packet(payload).len() == payload.len() + 4,
        protocol::startup_packet(payload).skip(4) == payload,
        protocol::startup_packet(payload).take(4) == protocol::be32((payload.len() + 4) as nat),
        payload.len() + 4 <= u32::MAX ==> protocol::wire_number(protocol::startup_packet(payload))
            == payload.len() + 4,
{
}

/// An error is the byte `E`, the length word, and then the fields `S` and `V` with
/// the text `ERROR`, `C` with the code and `M` with the message, each ended by a NUL,
/// and one NUL more.
pub proof fn an_error_has_its_four_fields(message: Seq<char>, code: Seq<char>)
    ensures
        ({
            let fields = seq![0x53u8] + encode_utf8("ERROR"@) + seq![0u8] + seq![0x56u8]
                + encode_utf8("ERROR"@) + seq![0u8] + seq![0x43u8] + encode_utf8(code) + seq![0u8]
                + seq![0x4du8] + encode_utf8(message) + seq![0u8] + seq![0u8];
            let packet = protocol::error_response(message, code);
            &&& packet == seq![0x45u8] + protocol::be32((fields.len() + 4) as nat) + fields
            &&& fields.len() + 4 <= u32::MAX ==> protocol::wire_number(packet.skip(1))
                == packet.len() - 1
        }),
{
    let fields = seq![0x53u8] + encode_utf8("ERROR"@) + seq![0u8] + seq![0x56u8] + encode_utf8(
        "ERROR"@,
    ) + seq![0u8] + seq![0x43u8] + encode_utf8(code) + seq![0u8] + seq![0x4du8] + encode_utf8(
        message,
    ) + seq![0u8] + seq![0u8];
    assert(protocol::error_body(message, code) == fields);
    if fields.len() + 4 <= u32::MAX {
        protocol::error_response_is_framed(message, code);
    }
}

// ---- application names --------------------------------------------------

/// The server stores one character for a byte of printable ASCII and four for any
/// other byte.
pub proof fn bytes_beyond_ascii_are_stored_as_escapes(s: Seq<u8>, b: u8)
    ensures
        protocol::stored_bytes(Seq::<u8>::empty()) == 0,
        protocol::stored_bytes(s.push(b)) == protocol::stored_bytes(s) + if 32 <= b <= 126 {
            1nat
        } else {
            4nat
        },
{
    assert(s.push(b).drop_last() == s);
}

/// A name that leaves room for the address is kept whole: it is followed by ` - ` and
/// the address, and the server stores all of it.
pub proof fn a_name_with_room_is_followed_by_the_address(name: Seq<char>, ip: Seq<char>)
    requires
        protocol::stored_bytes(encode_utf8(name + " - "@ + ip)) <= 63,
    ensures
        protocol::application_name(name, ip) == name + " - "@ + ip,
{
    assert(name + " - "@ + ip == name + (" - "@ + ip));
    protocol::stored_len_concat(name, " - "@ + ip);
}

/// Where the address fits but the whole name does not, the name is cut and the
/// address kept: the result is stored whole, and with one character more of the name
/// it would not be.
pub proof fn a_long_name_gives_way_to_the_address(name: Seq<char>, ip: Seq<char>)
    requires
        protocol::stored_bytes(encode_utf8(" - "@ + ip)) <= 63,
    ensures
        exists|n: int|
            0 <= n <= name.len() && protocol::application_name(name, ip) == #[trigger] name.take(n)
                + " - "@ + ip && protocol::stored_bytes(
                encode_utf8(name.take(n) + " - "@ + ip),
            ) <= 63 && (n < name.len() ==> protocol::stored_bytes(
                encode_utf8(name.take(n + 1) + " - "@ + ip),
            ) > 63),
{
    let suffix = " - "@ + ip;
    let limit = 63nat;
    assert(name.take(name.len() as int) == name);
    assert(name.take(0) == Seq::<char>::empty());
    protocol::stored_len_concat(name, suffix);
    assert forall|k: int| 0 <= k <= name.len() implies name.take(k) + " - "@ + ip == #[trigger] name.take(
        k,
    ) + suffix && protocol::stored_len(name.take(k) + suffix) == protocol::stored_len(name.take(k))
        + protocol::stored_len(suffix) by {
        protocol::stored_len_concat(name.take(k), suffix);
    }
    if protocol::stored_len(name) + protocol::stored_len(suffix) <= limit {
        let n = name.len() as int;
        assert(protocol::application_name(name, ip) == name.take(n) + " - "@ + ip);
    } else if protocol::stored_len(suffix) >= limit {
        assert(name.take(0) + suffix == suffix);
        assert(protocol::application_name(name, ip) == suffix);
        assert(name.take(0) + " - "@ + ip == suffix);
        if name.len() > 0 {
            let first = name.take(1);
            assert(first == Seq::<char>::empty().push(name[0]));
            one_character_is_stored(first);
            assert(name.take(0int + 1) + " - "@ + ip == first + suffix);
        }
    } else {
        let budget = (limit - protocol::stored_len(suffix)) as nat;
        protocol::fitting_is_maximal(name, budget);
        let n = protocol::fitting(name, budget).len() as int;
        assert(protocol::application_name(name, ip) == name.take(n) + " - "@ + ip);
        if n < name.len() {
            assert(protocol::stored_len(name.take(n + 1)) > budget);
        }
    }
}

proof fn one_character_is_stored(s: Seq<char>)
    requires
        s.len() == 1,
    ensures
        protocol::stored_len(s) > 0,
{
    let bytes = encode_utf8(s);
    if bytes.len() == 0 {
        encode_utf8_decode_utf8(s);
        encode_utf8_decode_utf8(Seq::<char>::empty());
        assert(encode_utf8(Seq::<char>::empty()) == Seq::<u8>::empty());
        assert(bytes == Seq::<u8>::empty());
    }
}

/// An address too long to be stored whole is cut: as much of ` - ` and the address
/// stays as the server stores.
pub proof fn a_long_address_is_cut(name: Seq<char>, ip: Seq<char>)
    requires
        protocol::stored_bytes(encode_utf8(" - "@ + ip)) > 63,
    ensures
        exists|n: int|
            0 <= n < (" - "@ + ip).len() && protocol::application_name(name, ip) == (" - "@
                + ip).take(n) && protocol::stored_bytes(
                encode_utf8(#[trigger] (" - "@ + ip).take(n)),
            ) <= 63 && protocol::stored_bytes(encode_utf8((" - "@ + ip).take(n + 1))) > 63,
{
    let suffix = " - "@ + ip;
    protocol::fitting_is_maximal(suffix, 63);
    let n = protocol::fitting(suffix, 63).len() as int;
    assert(suffix.take(suffix.len() as int) == suffix);
    assert(n < suffix.len());
    assert(protocol::stored_len(suffix.take(n + 1)) > 63);
    assert(protocol::application_name(name, ip) == suffix.take(n));
}

/// Cutting a text to what the server stores in a number of characters keeps a
/// beginning of it, and with one character more that would not fit.
pub proof fn a_text_is_cut_where_it_no_longer_fits(s: Seq<char>, budget: nat)
    ensures
        exists|n: int|
            0 <= n <= s.len() && protocol::fitting(s, budget) == #[trigger] s.take(n)
                && protocol::stored_bytes(encode_utf8(s.take(n))) <= budget && (n < s.len()
                ==> protocol::stored_bytes(encode_utf8(s.take(n + 1))) > budget),
{
    protocol::fitting_is_maximal(s, budget);
    let n = protocol::fitting(s, budget).len() as int;
    assert(protocol::fitting(s, budget) == s.take(n));
    if n < s.len() {
        assert(protocol::stored_len(s.take(n + 1)) > budget);
    }
}

// ---- startup parameters -------------------------------------------------

/// Parameters are written out one behind the other, each name and each value ended by
/// a NUL.
pub proof fn parameters_are_written_in_order(
    params: Seq<(Seq<u8>, Seq<u8>)>,
    key: Seq<u8>,
    value: Seq<u8>,
)
    ensures
        protocol::parameter_bytes(Seq::empty()) == Seq::<u8>::empty(),
        protocol::parameter_bytes(params.push((key, value))) == protocol::parameter_bytes(params)
            + key + seq![0u8] + value + seq![0u8],
{
    assert(params.push((key, value)).drop_last() == params);
}

/// The parameters of a startup message are the texts between the NULs behind its
/// version, taken two by two: a name and a value. The NUL that closes the message
/// begins no further text.
pub proof fn parameters_stand_between_nuls(version: Seq<u8>, section: Seq<u8>, i: int)
    requires
        version.len() == 4,
        0 <= i,
    ensures
        ({
            let items = text::split_on(section, 0u8);
            let params = protocol::startup_parameters(version + section + seq![0u8]);
            &&& params.len() == items.len() / 2
            &&& 2 * i + 1 < items.len() ==> params[i] == (items[2 * i], items[2 * i + 1])
            &&& section.len() == 0 || section.last() != 0 ==> protocol::startup_parameters(
                version + section,
            ) == params
        }),
{
    let closed = version + section + seq![0u8];
    assert(closed.skip(4) == section + seq![0u8]);
    assert(closed.skip(4).drop_last() == section);
    assert((version + section).skip(4) == section);
}

/// A startup message with a parameter behind the others has one parameter more, and
/// one with nothing behind its version has none.
pub proof fn a_written_parameter_is_read(
    version: Seq<u8>,
    params: Seq<(Seq<u8>, Seq<u8>)>,
    key: Seq<u8>,
    value: Seq<u8>,
)
    requires
        version.len() == 4,
        protocol::startup_parameters(version + protocol::parameter_bytes(params) + seq![0u8])
            == params,
        !key.contains(0u8),
        !value.contains(0u8),
    ensures
        protocol::startup_parameters(
            version + protocol::parameter_bytes(params) + key + seq![0u8] + value + seq![0u8]
                + seq![0u8],
        ) == params.push((key, value)),
        protocol::startup_parameters(version + seq![0u8]) == Seq::<(Seq<u8>, Seq<u8>)>::empty(),
{
    let written = protocol::parameter_bytes(params);
    let before = version + written + seq![0u8];
    protocol::startup_parameters_are_free(before);
    let all = params.push((key, value));
    assert forall|i: int| 0 <= i < all.len() implies !(#[trigger] all[i]).0.contains(0u8)
        && !all[i].1.contains(0u8) by {
        if i < params.len() {
            assert(all[i] == params[i]);
        }
    }
    parameters_are_written_in_order(params, key, value);
    protocol::written_parameters_read_back(version, all);
    assert(version + protocol::parameter_bytes(all) + seq![0u8] == version + written + key
        + seq![0u8] + value + seq![0u8] + seq![0u8]);
    let none = Seq::<(Seq<u8>, Seq<u8>)>::empty();
    protocol::written_parameters_read_back(version, none);
    assert(version + protocol::parameter_bytes(none) + seq![0u8] == version + seq![0u8]);
}

/// What is too short for a version has no parameters.
pub proof fn a_short_payload_has_no_parameters(payload: Seq<u8>, ip: Seq<char>)
    requires
        payload.len() < 4,
    ensures
        protocol::startup_parameters(payload).len() == 0,
        protocol::injected(payload, ip) == payload,
{
}

/// Of several parameters of one name the last counts.
pub proof fn the_last_parameter_of_a_name_counts(
    params: Seq<(Seq<u8>, Seq<u8>)>,
    param: (Seq<u8>, Seq<u8>),
    key: Seq<u8>,
)
    ensures
        protocol::parameter(Seq::empty(), key) is None,
        param.0 == key ==> protocol::parameter(params.push(param), key) == Some(param.1),
        param.0 != key ==> protocol::parameter(params.push(param), key) == protocol::parameter(
            params,
            key,
        ),
{
    assert(params.push(param).drop_last() == params);
}

/// A startup message asks for the user that its parameter `user` names and for the
/// database that its parameter `database` names.
pub proof fn a_startup_names_its_user_and_database(
    payload: Seq<u8>,
    user: Seq<u8>,
    database: Seq<u8>,
)
    requires
        protocol::parameter(protocol::startup_parameters(payload), encode_utf8("user"@)) == Some(
            user,
        ),
        protocol::parameter(protocol::startup_parameters(payload), encode_utf8("database"@))
            == Some(database),
        valid_utf8(user),
        valid_utf8(database),
        text::decodes_exactly(user),
        text::decodes_exactly(database),
    ensures
        protocol::startup_identity(payload).0 == decode_utf8(user),
        database.len() > 0 ==> protocol::startup_identity(payload).1 == decode_utf8(database),
        database.len() == 0 ==> protocol::startup_identity(payload).1 == decode_utf8(user),
{
    decode_utf8_encode_utf8(database);
    if decode_utf8(database).len() == 0 {
        assert(decode_utf8(database) == Seq::<char>::empty());
        assert(encode_utf8(decode_utf8(database)).len() == 0);
    }
    if database.len() == 0 {
        assert(database == Seq::<u8>::empty());
        assert(decode_utf8(database).len() == 0);
    }
}

/// A startup message that names no database asks for the one that is named like its
/// user, and one that names no user for the empty user.
pub proof fn a_startup_without_a_name_asks_for_the_default(payload: Seq<u8>)
    ensures
        protocol::parameter(protocol::startup_parameters(payload), encode_utf8("user"@)) is None
            ==> protocol::startup_identity(payload).0 == Seq::<char>::empty(),
        protocol::parameter(protocol::startup_parameters(payload), encode_utf8("database"@)) is None
            ==> protocol::startup_identity(payload).1 == protocol::startup_identity(payload).0,
{
}

/// Where the application names of a startup message are known to decode, each that is
/// valid UTF-8 is read as the text that it encodes, and none as a text with a NUL.
pub proof fn application_names_decode(params: Seq<(Seq<u8>, Seq<u8>)>, i: int)
    requires
        protocol::names_decode(params),
        0 <= i < params.len(),
        params[i].0 == encode_utf8("application_name"@),
    ensures
        valid_utf8(params[i].1) ==> text::lossy_text(params[i].1) == decode_utf8(params[i].1),
        !text::lossy_text(params[i].1).contains('\0'),
{
}

// ---- forwarding ---------------------------------------------------------

/// Each parameter that has a name is forwarded, in its place among those that have
/// one. An application name is forwarded with the client's whole name and address;
/// any other parameter is forwarded as it came.
pub proof fn each_named_parameter_is_forwarded_in_its_place(
    params: Seq<(Seq<u8>, Seq<u8>)>,
    named: spec_fn((Seq<u8>, Seq<u8>)) -> bool,
    ip: Seq<char>,
    i: int,
)
    requires
        forall|p: (Seq<u8>, Seq<u8>)| #[trigger] named(p) <==> p.0.len() > 0,
        0 <= i < params.len(),
        params[i].0.len() > 0,
    ensures
        ({
            let sent = protocol::forwarded_parameters(params, ip);
            let n = params.take(i).filter(named).len() as int;
            let value = params[i].1;
            &&& n < sent.len()
            &&& sent[n].0 == params[i].0
            &&& params[i].0 != encode_utf8("application_name"@) ==> sent[n].1 == value
            &&& params[i].0 == encode_utf8("application_name"@) ==> sent[n].1 == encode_utf8(
                protocol::application_name(text::lossy_text(value), ip),
            )
            &&& params[i].0 == encode_utf8("application_name"@) && valid_utf8(value)
                && text::decodes_exactly(value) ==> sent[n].1 == encode_utf8(
                protocol::application_name(decode_utf8(value), ip),
            )
        }),
{
    named_parameters_keep_their_place(params, named, ip, i);
}

proof fn named_parameters_keep_their_place(
    params: Seq<(Seq<u8>, Seq<u8>)>,
    named: spec_fn((Seq<u8>, Seq<u8>)) -> bool,
    ip: Seq<char>,
    i: int,
)
    requires
        forall|p: (Seq<u8>, Seq<u8>)| #[trigger] named(p) <==> p.0.len() > 0,
        0 <= i < params.len(),
        params[i].0.len() > 0,
    ensures
        params.take(i).filter(named).len() < protocol::attributed_all(params, ip).len(),
        protocol::attributed_all(params, ip)[params.take(i).filter(named).len() as int]
            == protocol::attributed(params[i], ip),
    decreases params.len(),
{
    let front = params.drop_last();
    named_parameters_are_counted(front, named, ip);
    assert(named(params.last()) <==> params.last().0.len() > 0);
    if i == params.len() - 1 {
        assert(params.take(i) == front);
    } else {
        assert(front.take(i) == params.take(i));
        named_parameters_keep_their_place(front, named, ip, i);
    }
}

proof fn named_parameters_are_counted(
    params: Seq<(Seq<u8>, Seq<u8>)>,
    named: spec_fn((Seq<u8>, Seq<u8>)) -> bool,
    ip: Seq<char>,
)
    requires
        forall|p: (Seq<u8>, Seq<u8>)| #[trigger] named(p) <==> p.0.len() > 0,
    ensures
        protocol::attributed_all(params, ip).len() == params.filter(named).len(),
    decreases params.len(),
{
    reveal(Seq::filter);
    if params.len() > 0 {
        named_parameters_are_counted(params.drop_last(), named, ip);
        assert(named(params.last()) <==> params.last().0.len() > 0);
    }
}

/// Nothing else is forwarded, but for one application name behind the others where
/// the client gave none: the address alone.
pub proof fn nothing_but_a_missing_name_is_added(
    params: Seq<(Seq<u8>, Seq<u8>)>,
    named: spec_fn((Seq<u8>, Seq<u8>)) -> bool,
    ip: Seq<char>,
)
    requires
        forall|p: (Seq<u8>, Seq<u8>)| #[trigger] named(p) <==> p.0.len() > 0,
    ensures
        ({
            let sent = protocol::forwarded_parameters(params, ip);
            let kept = params.filter(named).len();
            let has_name = exists|i: int|
                0 <= i < params.len() && (#[trigger] params[i]).0 == encode_utf8(
                    "application_name"@,
                );
            &&& has_name ==> sent.len() == kept
            &&& !has_name ==> sent.len() == kept + 1 && sent.last() == (
                encode_utf8("application_name"@),
                encode_utf8(protocol::application_name(Seq::empty(), ip)),
            )
        }),
{
    named_parameters_are_counted(params, named, ip);
}

/// A client's application name with room for the address behind it is forwarded byte
/// for byte, followed by ` - ` and the address.
pub proof fn a_name_with_room_is_forwarded_whole(
    params: Seq<(Seq<u8>, Seq<u8>)>,
    named: spec_fn((Seq<u8>, Seq<u8>)) -> bool,
    ip: Seq<char>,
    i: int,
)
    requires
        forall|p: (Seq<u8>, Seq<u8>)| #[trigger] named(p) <==> p.0.len() > 0,
        0 <= i < params.len(),
        params[i].0 == encode_utf8("application_name"@),
        valid_utf8(params[i].1),
        text::decodes_exactly(params[i].1),
        protocol::stored_bytes(params[i].1 + encode_utf8(" - "@ + ip)) <= 63,
    ensures
        params.take(i).filter(named).len() < protocol::forwarded_parameters(params, ip).len(),
        protocol::forwarded_parameters(params, ip)[params.take(i).filter(named).len() as int] == (
            params[i].0,
            params[i].1 + encode_utf8(" - "@ + ip),
        ),
{
    let value = params[i].1;
    let name = decode_utf8(value);
    protocol::application_name_key_is_no_other();
    named_parameters_keep_their_place(params, named, ip, i);
    decode_utf8_encode_utf8(value);
    text::encode_concat(name, " - "@ + ip);
    assert(name + " - "@ + ip == name + (" - "@ + ip));
    a_name_with_room_is_followed_by_the_address(name, ip);
}

/// A startup message is forwarded with its own version, the forwarded parameters, and
/// a closing NUL.
pub proof fn a_startup_is_forwarded_with_its_version(
    version: Seq<u8>,
    rest: Seq<u8>,
    ip: Seq<char>,
)
    requires
        version.len() == 4,
    ensures
        protocol::injected(version + rest, ip) == version + protocol::parameter_bytes(
            protocol::forwarded_parameters(protocol::startup_parameters(version + rest), ip),
        ) + seq![0u8],
{
    assert((version + rest).take(4) == version);
}

} // verus!
