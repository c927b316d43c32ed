//! Laws on text: white space, splitting, order, numbers, letter case, decoding.

use crate::text;
use vstd::prelude::*;
use vstd::utf8::*;

verus! {

/// White space is what Unicode calls so.
pub proof fn white_space_is_unicodes(c: char)
    ensures
        text::is_space(c) <==> {
            ||| c == '\t'
            ||| c == '\n'
            ||| c == '\u{b}'
            ||| c == '\u{c}'
            ||| c == '\r'
            ||| c == ' '
            ||| c == '\u{85}'
            ||| c == '\u{a0}'
            ||| c == '\u{1680}'
            ||| '\u{2000}' <= c <= '\u{200a}'
            ||| c == '\u{2028}'
            ||| c == '\u{2029}'
            ||| c == '\u{202f}'
            ||| c == '\u{205f}'
            ||| c == '\u{3000}'
        },
{
}

/// Trimming takes away white space at either end and nothing else, and leaves none
/// there.
pub proof fn trimming_takes_white_space_off_both_ends(s: Seq<char>)
    ensures
        exists|a: int, b: int|
            0 <= a <= b <= s.len() && text::trimmed(s) == #[trigger] s.subrange(a, b) && (forall|
                i: int,
            |
                0 <= i < a || b <= i < s.len() ==> text::is_space(#[trigger] s[i])) && (a < b
                ==> !text::is_space(s[a]) && !text::is_space(s[b - 1])),
{
    let a = start_of_text(s);
    let rest = s.skip(a);
    let n = end_of_text(rest);
    let b = a + n;
    assert(rest.take(n) == s.subrange(a, b));
    assert forall|i: int| 0 <= i < a || b <= i < s.len() implies text::is_space(
        #[trigger] s[i],
    ) by {
        if b <= i {
            assert(rest[i - a] == s[i]);
        }
    }
    if a < b {
        assert(rest[n - 1] == s[b - 1]);
    }
    assert(text::trimmed(s) == s.subrange(a, b));
}

proof fn start_of_text(s: Seq<char>) -> (a: int)
    ensures
        0 <= a <= s.len(),
        text::trimmed_start(s) == s.skip(a),
        forall|i: int| 0 <= i < a ==> text::is_space(#[trigger] s[i]),
        a < s.len() ==> !text::is_space(s[a]),
    decreases s.len(),
{
    if s.len() > 0 && text::is_space(s[0]) {
        let rest = s.drop_first();
        let a = start_of_text(rest);
        assert(rest.skip(a) == s.skip(a + 1));
        assert forall|i: int| 0 <= i < a + 1 implies text::is_space(#[trigger] s[i]) by {
            if i > 0 {
                assert(rest[i - 1] == s[i]);
            }
        }
        a + 1
    } else {
        assert(s.skip(0) == s);
        0
    }
}

proof fn end_of_text(s: Seq<char>) -> (b: int)
    ensures
        0 <= b <= s.len(),
        text::trimmed_end(s) == s.take(b),
        forall|i: int| b <= i < s.len() ==> text::is_space(#[trigger] s[i]),
        0 < b ==> !text::is_space(s[b - 1]),
    decreases s.len(),
{
    if s.len() > 0 && text::is_space(s.last()) {
        let front = s.drop_last();
        let b = end_of_text(front);
        assert(front.take(b) == s.take(b));
        assert forall|i: int| b <= i < s.len() implies text::is_space(#[trigger] s[i]) by {
            if i < front.len() {
                assert(front[i] == s[i]);
            }
        }
        b
    } else {
        assert(s.take(s.len() as int) == s);
        s.len() as int
    }
}

/// Text with white space around it trims to itself.
pub proof fn trimming_undoes_padding(before: Seq<char>, s: Seq<char>, behind: Seq<char>)
    requires
        forall|i: int| 0 <= i < before.len() ==> text::is_space(#[trigger] before[i]),
        forall|i: int| 0 <= i < behind.len() ==> text::is_space(#[trigger] behind[i]),
        s.len() > 0 ==> !text::is_space(s[0]) && !text::is_space(s.last()),
    ensures
        text::trimmed(before + s + behind) == s,
{
    let all = before + s + behind;
    let a = start_of_text(all);
    let rest = all.skip(a);
    let n = end_of_text(rest);
    let from = before.len() as int;
    let to = from + s.len();
    assert forall|i: int| 0 <= i < all.len() && !(from <= i < to) implies text::is_space(
        #[trigger] all[i],
    ) by {
        if i < from {
            assert(all[i] == before[i]);
        } else {
            assert(all[i] == behind[i - to]);
        }
    }
    if s.len() > 0 {
        assert(all[from] == s[0]);
        assert(all[to - 1] == s.last());
        assert(a == from);
        assert(rest[s.len() - 1] == s.last());
        if n < s.len() {
            assert(text::is_space(rest[s.len() - 1]));
        }
        if n > s.len() {
            assert(rest[n - 1] == all[a + n - 1]);
        }
        assert(rest.take(n) == s);
    } else {
        if a < all.len() {
            assert(text::is_space(all[a]));
        }
        assert(rest.take(n) == s);
    }
}

/// A sequence without the separator is one piece.
pub proof fn what_holds_no_separator_is_one_piece<T>(s: Seq<T>, sep: T)
    requires
        !s.contains(sep),
    ensures
        text::split_on(s, sep) == seq![s],
{
    let none = Seq::<T>::empty();
    text::split_on_append(none, s, sep);
    assert(none + s == s);
    assert(seq![none].drop_last() == Seq::<Seq<T>>::empty());
}

/// Each separator ends a piece: what stands in front of the last separator is split
/// on its own, and what stands behind it is the last piece.
pub proof fn a_separator_ends_a_piece<T>(front: Seq<T>, sep: T, piece: Seq<T>)
    requires
        !piece.contains(sep),
    ensures
        text::split_on(front.push(sep) + piece, sep) == text::split_on(front, sep).push(piece),
{
    let cut = front.push(sep);
    assert(cut.drop_last() == front);
    text::split_on_append(cut, piece, sep);
    let parts = text::split_on(front, sep);
    assert(parts.push(Seq::empty()).drop_last() == parts);
    assert(Seq::<T>::empty() + piece == piece);
}

/// Pieces are seen as sequences, one for one.
pub proof fn pieces_are_seen_one_for_one<T>(parts: Seq<&[T]>, i: int)
    ensures
        text::pieces(parts).len() == parts.len(),
        0 <= i < parts.len() ==> text::pieces(parts)[i] == parts[i]@,
{
}

/// Cutting at the first separator gives back what stands in front of it and what
/// stands behind it.
pub proof fn a_text_is_cut_at_the_first_separator(
    front: Seq<char>,
    sep: char,
    back: Seq<char>,
)
    requires
        !front.contains(sep),
    ensures
        text::first_at(front.push(sep) + back, sep) == front.len(),
        text::split_once(front.push(sep) + back, sep) == Some((front, back)),
        text::split_once(front, sep) is None,
{
    let s = front.push(sep) + back;
    first_separator(front, sep, back);
    assert(s[front.len() as int] == sep);
    assert(s.take(front.len() as int) == front);
    assert(s.skip(front.len() as int + 1) == back);
}

proof fn first_separator(front: Seq<char>, sep: char, back: Seq<char>)
    requires
        !front.contains(sep),
    ensures
        text::first_at(front.push(sep) + back, sep) == front.len(),
    decreases front.len(),
{
    let s = front.push(sep) + back;
    if front.len() > 0 {
        assert(front.contains(front[0]));
        let rest = front.drop_first();
        assert forall|i: int| 0 <= i < rest.len() implies rest[i] != sep by {
            assert(front.contains(front[i + 1]));
        }
        assert(s.drop_first() == rest.push(sep) + back);
        first_separator(rest, sep, back);
    }
}

/// Texts are ordered by the first character in which they differ; a text comes
/// after its own beginnings.
pub proof fn texts_are_ordered_by_their_first_difference(
    common: Seq<char>,
    a: Seq<char>,
    b: Seq<char>,
)
    ensures
        text::text_le(common, common + b),
        a.len() > 0 ==> !text::text_le(common + a, common),
        a.len() > 0 && b.len() > 0 && a[0] != b[0] ==> (text::text_le(common + a, common + b)
            <==> (a[0] as u32) < (b[0] as u32)),
    decreases common.len(),
{
    if common.len() > 0 {
        let rest = common.drop_first();
        texts_are_ordered_by_their_first_difference(rest, a, b);
        assert((common + a).drop_first() == rest + a);
        assert((common + b).drop_first() == rest + b);
    } else {
        assert(common + a == a && common + b == b);
    }
}

/// Digits are read in decimal, the most significant first.
pub proof fn numbers_are_read_in_decimal(s: Seq<char>, c: char)
    requires
        '0' <= c <= '9',
    ensures
        text::number(Seq::<char>::empty()) == 0,
        text::number(s.push(c)) == 10 * text::number(s) + (c as nat - '0' as nat),
{
    assert(s.push(c).drop_last() == s);
}

/// A number written out is made of digits, begins with no superfluous zero, and
/// reads back as itself.
pub proof fn written_numbers_read_back(n: nat)
    ensures
        text::number(text::decimal(n)) == n,
        text::decimal(n).len() > 0,
        forall|i: int|
            0 <= i < text::decimal(n).len() ==> '0' <= #[trigger] text::decimal(n)[i] <= '9',
        text::decimal(n).len() > 1 ==> text::decimal(n)[0] != '0',
    decreases n,
{
    let s = text::decimal(n);
    if n < 10 {
        assert(s == seq![text::digit(n)]);
        assert(s.drop_last() == Seq::<char>::empty());
        reveal_with_fuel(text::number, 2);
    } else {
        let front = text::decimal(n / 10);
        written_numbers_read_back(n / 10);
        let c = text::digit(n % 10);
        assert('0' <= c <= '9' && c as nat - '0' as nat == n % 10);
        numbers_are_read_in_decimal(front, c);
        assert(s == front.push(c));
        if front.len() == 1 {
            if n / 10 >= 10 {
                written_numbers_read_back(n / 10 / 10);
            }
        }
    }
}

/// A number is read from digits, with or without a `+` in front of them, as long as
/// it is no more than the greatest that is asked for.
pub proof fn digits_are_a_number(digits: Seq<char>, max: nat)
    requires
        digits.len() > 0,
        forall|i: int| 0 <= i < digits.len() ==> '0' <= #[trigger] digits[i] <= '9',
    ensures
        text::whole_number(digits, max) == if text::number(digits) <= max {
            Some(text::number(digits))
        } else {
            None
        },
        text::whole_number(seq!['+'] + digits, max) == text::whole_number(digits, max),
{
    assert('0' <= digits[0] <= '9');
    assert((seq!['+'] + digits).drop_first() == digits);
}

/// Nothing else is read as a number: no empty text, no sign alone, no character but
/// a digit behind an optional `+`.
pub proof fn nothing_but_digits_is_a_number(s: Seq<char>, max: nat, i: int)
    requires
        s.len() == 0 || s == seq!['+'] || (0 <= i < s.len() && !('0' <= s[i] <= '9') && !(i == 0
            && s[0] == '+')),
    ensures
        text::whole_number(s, max) is None,
{
    if s.len() > 0 && s != seq!['+'] {
        if s[0] == '+' {
            assert(s.drop_first()[i - 1] == s[i]);
        }
        assert(!text::is_digit(s[i]));
    } else if s.len() > 0 {
        assert(s.drop_first().len() == 0);
    }
}

/// Letter case is put aside byte by byte, for the ASCII letters alone.
pub proof fn only_ascii_letters_are_folded(s: Seq<u8>, i: int)
    requires
        0 <= i < s.len(),
    ensures
        text::folded(s).len() == s.len(),
        0x41 <= s[i] <= 0x5a ==> text::folded(s)[i] == s[i] + 32,
        !(0x41 <= s[i] <= 0x5a) ==> text::folded(s)[i] == s[i],
{
    folded_range(s[i]);
}

proof fn folded_range(b: u8)
    ensures
        0x41 <= b <= 0x5a ==> text::folded_byte(b) == b + 32,
{
}

/// The upper-case form of an ASCII letter is the capital, and the lower-case form
/// the small letter; every other character stays.
pub proof fn only_ascii_letters_have_a_case(c: char)
    ensures
        'a' <= c <= 'z' ==> text::ascii_upper(c) as u32 == c as u32 - 32,
        !('a' <= c <= 'z') ==> text::ascii_upper(c) == c,
        'A' <= c <= 'Z' ==> text::ascii_lower(c) as u32 == c as u32 + 32,
        !('A' <= c <= 'Z') ==> text::ascii_lower(c) == c,
{
}

/// Bytes that are known to decode exactly, and are valid UTF-8, are read as the text
/// that they encode.
pub proof fn valid_bytes_are_read_as_they_are(bytes: Seq<u8>)
    requires
        valid_utf8(bytes),
    ensures
        text::decodes_exactly(bytes) <==> text::lossy_text(bytes) == decode_utf8(bytes),
{
}

} // verus!
