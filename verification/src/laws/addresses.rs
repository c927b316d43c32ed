//! Laws on addresses, networks, the allowlist and the rejection log.

use crate::laws::texts;
use crate::net;
use crate::net::{IpAddress, IpNet};
use crate::settings::Setting;
use crate::text;
use crate::trust;
use crate::trust::{LogState, TrustError};
use vstd::arithmetic::power2::pow2;
use vstd::prelude::*;
use vstd::string::*;

verus! {

/// An IPv4 peer is trusted exactly where an IPv4 network on the list has the
/// peer's leading bits, as many of them as the network is long.
pub proof fn an_ipv4_peer_is_trusted_by_its_leading_bits(networks: Seq<IpNet>, p: u32)
    ensures
        trust::trusts(networks, IpAddress::V4(p)) <==> exists|i: int|
            0 <= i < networks.len() && ((#[trigger] networks[i]).first matches IpAddress::V4(n)
                && n as nat / pow2((32 - networks[i].length) as nat) == p as nat / pow2(
                (32 - networks[i].length) as nat,
            )),
{
    let peer = IpAddress::V4(p);
    assert forall|i: int| 0 <= i < networks.len() implies ((#[trigger] networks[i]).covers(peer)
        <==> (networks[i].first matches IpAddress::V4(n) && n as nat / pow2(
        (32 - networks[i].length) as nat,
    ) == p as nat / pow2((32 - networks[i].length) as nat))) by {}
}

/// An IPv6 peer is trusted exactly where an IPv6 network on the list has the
/// peer's leading bits, as many of them as the network is long, or where the peer's
/// address is an IPv4 address mapped into IPv6 and an IPv4 network has the leading
/// bits of that.
pub proof fn an_ipv6_peer_is_trusted_by_its_leading_bits(networks: Seq<IpNet>, p: u128)
    ensures
        trust::trusts(networks, IpAddress::V6(p)) <==> exists|i: int|
            0 <= i < networks.len() && match (#[trigger] networks[i]).first {
                IpAddress::V6(n) => n as nat / pow2((128 - networks[i].length) as nat) == p as nat
                    / pow2((128 - networks[i].length) as nat),
                IpAddress::V4(n) => p as nat / 0x1_0000_0000 == 0xffff && n as nat / pow2(
                    (32 - networks[i].length) as nat,
                ) == p as nat % 0x1_0000_0000 / pow2((32 - networks[i].length) as nat),
            },
{
    let peer = IpAddress::V6(p);
    assert forall|i: int| 0 <= i < networks.len() implies (((#[trigger] networks[i]).covers(peer)
        || networks[i].covers(net::normalised(peer))) <==> match networks[i].first {
        IpAddress::V6(n) => n as nat / pow2((128 - networks[i].length) as nat) == p as nat / pow2(
            (128 - networks[i].length) as nat,
        ),
        IpAddress::V4(n) => p as nat / 0x1_0000_0000 == 0xffff && n as nat / pow2(
            (32 - networks[i].length) as nat,
        ) == p as nat % 0x1_0000_0000 / pow2((32 - networks[i].length) as nat),
    }) by {}
}

/// An IPv4 network covers the IPv4 addresses that share its leading bits, and an
/// IPv6 network the IPv6 addresses that do; neither covers anything else.
pub proof fn a_network_covers_what_shares_its_leading_bits(net: IpNet, a: u32, b: u128)
    ensures
        net.covers(IpAddress::V4(a)) <==> (net.first matches IpAddress::V4(n) && n as nat / pow2(
            (32 - net.length) as nat,
        ) == a as nat / pow2((32 - net.length) as nat)),
        net.covers(IpAddress::V6(b)) <==> (net.first matches IpAddress::V6(n) && n as nat / pow2(
            (128 - net.length) as nat,
        ) == b as nat / pow2((128 - net.length) as nat)),
{
}

/// Only an IPv6 address whose upper 96 bits are `::ffff` stands for an IPv4 address,
/// and it stands for its lower 32 bits.
pub proof fn only_mapped_addresses_are_normalised(a: u32, b: u128)
    ensures
        net::normalised(IpAddress::V4(a)) == IpAddress::V4(a),
        b as nat / 0x1_0000_0000 == 0xffff ==> net::normalised(IpAddress::V6(b)) == IpAddress::V4(
            (b as nat % 0x1_0000_0000) as u32,
        ),
        b as nat / 0x1_0000_0000 != 0xffff ==> net::normalised(IpAddress::V6(b)) == IpAddress::V6(
            b,
        ),
{
}

/// An address literal alone is a network of that one address; it is an address.
pub proof fn an_address_alone_is_a_network(s: Seq<char>)
    requires
        !s.contains('/'),
    ensures
        net::address_of(s) == net::address_literal(s),
        net::network_of(s) == match net::address_literal(s) {
            Some(IpAddress::V4(n)) => Some(IpNet { first: IpAddress::V4(n), length: 32 }),
            Some(IpAddress::V6(n)) => Some(IpNet { first: IpAddress::V6(n), length: 128 }),
            None => None,
        },
{
}

/// A text with a `/` is no address. It is a network where an address literal stands
/// in front of its last `/` and a number behind it, the number is no more than the
/// address has bits, and the address has only zeros behind that many of its bits.
pub proof fn a_block_is_an_address_and_a_length(front: Seq<char>, back: Seq<char>)
    requires
        !back.contains('/'),
    ensures
        net::address_of(front + seq!['/'] + back) is None,
        net::network_of(front + seq!['/'] + back) == match (
            net::address_literal(front),
            text::whole_number(back, 255),
        ) {
            (Some(IpAddress::V4(a)), Some(n)) => if n <= 32 && a as nat % pow2((32 - n) as nat)
                == 0 {
                Some(IpNet { first: IpAddress::V4(a), length: n as u8 })
            } else {
                None
            },
            (Some(IpAddress::V6(a)), Some(n)) => if n <= 128 && a as nat % pow2((128 - n) as nat)
                == 0 {
                Some(IpNet { first: IpAddress::V6(a), length: n as u8 })
            } else {
                None
            },
            _ => None,
        },
{
    let s = front + seq!['/'] + back;
    assert(s[front.len() as int] == '/');
    last_slash_stands_in_front_of(front, back);
    assert(s.take(front.len() as int) == front);
    assert(s.skip(front.len() as int + 1) == back);
    if let Some(n) = text::whole_number(back, 255) {
        assert(n <= 255);
        assert(n as u8 as nat == n);
    }
}

proof fn last_slash_stands_in_front_of(front: Seq<char>, back: Seq<char>)
    requires
        !back.contains('/'),
    ensures
        net::last_slash(front + seq!['/'] + back) == front.len(),
    decreases back.len(),
{
    let s = front + seq!['/'] + back;
    if back.len() > 0 {
        assert(back.contains(back.last()));
        assert(s.drop_last() == front + seq!['/'] + back.drop_last());
        let rest = back.drop_last();
        assert forall|i: int| 0 <= i < rest.len() implies rest[i] != '/' by {
            assert(back.contains(back[i]));
        }
        last_slash_stands_in_front_of(front, rest);
    }
}

/// A list without a comma has one entry at most: its text, without the white space
/// around it.
pub proof fn a_list_without_commas_is_one_entry(piece: Seq<char>)
    requires
        !piece.contains(','),
    ensures
        trust::entries_of(piece) == if text::trimmed(piece).len() == 0 {
            Seq::empty()
        } else {
            seq![text::trimmed(piece)]
        },
{
    texts::what_holds_no_separator_is_one_piece(piece, ',');
    assert(seq![piece].drop_last() == Seq::<Seq<char>>::empty());
    reveal_with_fuel(trust::entries_among, 2);
}

/// Each comma ends an entry: behind the last one stands another, its text without
/// the white space around it, unless nothing is left of it.
pub proof fn a_comma_ends_an_entry(front: Seq<char>, piece: Seq<char>)
    requires
        !piece.contains(','),
    ensures
        trust::entries_of(front.push(',') + piece) == if text::trimmed(piece).len() == 0 {
            trust::entries_of(front)
        } else {
            trust::entries_of(front).push(text::trimmed(piece))
        },
{
    texts::a_separator_ends_a_piece(front, ',', piece);
    let parts = text::split_on(front, ',');
    assert(parts.push(piece).drop_last() == parts);
}

/// The networks of a list are those of its entries, one for each, in order. A list
/// is in order exactly where each of its entries is a network, and the entry that is
/// complained of is no network and has only networks in front of it.
pub proof fn an_allowlist_is_read_entry_by_entry(
    entries: Seq<Seq<char>>,
    i: int,
    bad: Seq<char>,
)
    requires
        0 <= i < entries.len(),
    ensures
        trust::networks_of(entries).len() == entries.len(),
        net::network_of(entries[i]) matches Some(n) ==> trust::networks_of(entries)[i] == n,
        trust::all_networks(entries) <==> forall|k: int|
            0 <= k < entries.len() ==> net::network_of(#[trigger] entries[k]) is Some,
        trust::is_first_bad(entries, bad) <==> exists|k: int|
            0 <= k < entries.len() && #[trigger] entries[k] == bad && net::network_of(bad) is None
                && forall|j: int|
                0 <= j < k ==> net::network_of(#[trigger] entries[j]) is Some,
{
    assert forall|k: int| 0 <= k < entries.len() implies (trust::all_networks(entries.take(k))
        <==> forall|j: int|
        0 <= j < k ==> net::network_of(#[trigger] entries[j]) is Some) by {
        assert forall|j: int| 0 <= j < k implies entries.take(k)[j] == #[trigger] entries[j] by {}
        if trust::all_networks(entries.take(k)) {
            assert forall|j: int| 0 <= j < k implies net::network_of(
                #[trigger] entries[j],
            ) is Some by {
                assert(entries.take(k)[j] == entries[j]);
            }
        }
    }
}

/// Without a setting the local machine alone is trusted.
pub proof fn loopback_is_trusted_by_default(list: &str, shown: &str)
    ensures
        trust::list_of(Setting::Absent) == "127.0.0.0/8,::1/128"@,
        trust::list_of(Setting::Text(list)) == list@,
        trust::list_of(Setting::NotText(shown)) == shown@,
{
}

/// What is said of an allowlist that cannot be read.
pub proof fn a_bad_allowlist_is_explained(entry: String)
    ensures
        TrustError::Empty.message_text() == "TRUSTED_PROXIES"@
            + " is set but empty. An empty allowlist trusts nothing and would reject every connection. To trust every peer, which disables spoofing protection entirely, set "@
            + "TRUSTED_PROXIES"@ + "=0.0.0.0/0,::/0"@,
        (TrustError::BadEntry { entry }).message_text() == "TRUSTED_PROXIES"@
            + " contains an entry that is not an IP address or CIDR block: "@ + text::quoted(
            entry@,
        ),
{
}

/// An event is let through where none was before it, where the last that was lies at
/// least an interval back, and always where there is no interval to keep. The caller
/// learns how many were swallowed, and the count starts again. Any other event is
/// swallowed and counted, and nothing else changes.
pub proof fn an_event_is_let_through_or_counted(state: LogState, now: nat)
    requires
        state.suppressed < u64::MAX,
    ensures
        ({
            let (after, told) = trust::log_event(state, now);
            let due = match state.last {
                None => true,
                Some(last) => now >= last + state.interval || state.interval == 0,
            };
            &&& after.interval == state.interval
            &&& due ==> told == Some(state.suppressed) && after.suppressed == 0 && after.last
                == Some(now)
            &&& !due ==> told is None && after.suppressed == state.suppressed + 1 && after.last
                == state.last
        }),
{
}

/// The count of swallowed events wraps around.
pub proof fn the_count_wraps_around(state: LogState, last: nat, now: nat)
    requires
        state.suppressed == u64::MAX,
        state.last == Some(last),
        now < last + state.interval,
        state.interval > 0,
    ensures
        trust::log_event(state, now).1 is None,
        trust::log_event(state, now).0.suppressed == 0,
        trust::log_event(state, now).0.last == Some(last),
        trust::log_event(state, now).0.interval == state.interval,
{
}

} // verus!
