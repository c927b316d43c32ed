//! Characters, strings and byte strings.
//!
//! The rest of the crate states its contracts over `Seq<char>` and `Seq<u8>`.
//! This module holds the operations on them that several modules share.

use vstd::prelude::*;
use vstd::slice::*;
use vstd::string::*;
use vstd::utf8::*;

verus! {

/// `String::push`: appends one character to the end of the string.
pub assume_specification[ String::push ](s: &mut String, c: char)
    ensures
        final(s)@ == old(s)@.push(c),
;

/// The characters of a string, as a vector.
pub fn chars_of(s: &str) -> (chars: Vec<char>)
    ensures
        chars@ == s@,
{
    let mut chars: Vec<char> = Vec::new();
    for c in it: s.chars()
        invariant
            chars@ == s@.take(it.index() as int),
            it.seq() == s@,
    {
        chars.push(c);
    }
    chars
}

/// The string made of the given characters.
pub fn string_of(chars: &[char]) -> (s: String)
    ensures
        s@ == chars@,
{
    let mut s: String = String::new();
    let mut i: usize = 0;
    while i < chars.len()
        invariant
            i <= chars@.len(),
            s@ == chars@.take(i as int),
        decreases chars@.len() - i,
    {
        s.push(chars[i]);
        i = i + 1;
    }
    assert(chars@.take(chars@.len() as int) == chars@);
    s
}

/// `a` followed by `b`, as a new string.
pub fn joined(a: &str, b: &str) -> (s: String)
    ensures
        s@ == a@ + b@,
{
    let mut s: String = a.to_owned();
    s.append(b);
    s
}

// ---- whitespace ---------------------------------------------------------

/// Unicode's `White_Space` property.
pub open spec fn is_space(c: char) -> bool {
    let n = c as u32;
    ||| 0x09 <= n <= 0x0d
    ||| n == 0x20
    ||| n == 0x85
    ||| n == 0xa0
    ||| n == 0x1680
    ||| 0x2000 <= n <= 0x200a
    ||| n == 0x2028
    ||| n == 0x2029
    ||| n == 0x202f
    ||| n == 0x205f
    ||| n == 0x3000
}

/// `s` without the white space it begins with.
pub open spec fn trimmed_start(s: Seq<char>) -> Seq<char>
    decreases s.len(),
{
    if s.len() > 0 && is_space(s[0]) {
        trimmed_start(s.drop_first())
    } else {
        s
    }
}

/// `s` without the white space it ends with.
pub open spec fn trimmed_end(s: Seq<char>) -> Seq<char>
    decreases s.len(),
{
    if s.len() > 0 && is_space(s.last()) {
        trimmed_end(s.drop_last())
    } else {
        s
    }
}

/// `s` without the white space at either end.
pub open spec fn trimmed(s: Seq<char>) -> Seq<char> {
    trimmed_end(trimmed_start(s))
}

/// Whether `c` is white space.
pub fn space(c: char) -> (b: bool)
    ensures
        b == is_space(c),
{
    let n: u32 = c as u32;
    (0x09 <= n && n <= 0x0d) || n == 0x20 || n == 0x85 || n == 0xa0 || n == 0x1680 || (0x2000 <= n
        && n <= 0x200a) || n == 0x2028 || n == 0x2029 || n == 0x202f || n == 0x205f || n == 0x3000
}

/// The characters of `s` without the white space at either end.
pub fn trim<'a>(s: &'a [char]) -> (t: &'a [char])
    ensures
        t@ == trimmed(s@),
{
    let mut from: usize = 0;
    assert(s@.skip(0) == s@);
    while from < s.len() && space(s[from])
        invariant
            from <= s@.len(),
            trimmed_start(s@.skip(from as int)) == trimmed_start(s@),
        decreases s@.len() - from,
    {
        assert(s@.skip(from as int).drop_first() == s@.skip(from + 1));
        from = from + 1;
    }
    let ghost rest = s@.skip(from as int);
    assert(trimmed_start(s@) == rest);
    let mut to: usize = s.len();
    assert(s@.subrange(from as int, to as int) == rest);
    while from < to && space(s[to - 1])
        invariant
            from <= to <= s@.len(),
            rest == s@.skip(from as int),
            trimmed_end(s@.subrange(from as int, to as int)) == trimmed_end(rest),
        decreases to - from,
    {
        assert(s@.subrange(from as int, to as int).drop_last() == s@.subrange(
            from as int,
            to - 1,
        ));
        to = to - 1;
    }
    slice_subrange(s, from, to)
}

/// White space at the end is all that trimming the end takes away.
pub proof fn trimmed_end_keeps(s: Seq<char>, n: int)
    requires
        0 < n <= s.len(),
        !is_space(s[n - 1]),
    ensures
        n <= trimmed_end(s).len() <= s.len(),
        trimmed_end(s) == s.take(trimmed_end(s).len() as int),
    decreases s.len(),
{
    if is_space(s.last()) {
        trimmed_end_keeps(s.drop_last(), n);
        let kept = trimmed_end(s).len() as int;
        assert(s.drop_last().take(kept) == s.take(kept));
    } else {
        assert(s.take(s.len() as int) == s);
    }
}

// ---- splitting ----------------------------------------------------------

/// The pieces of `s` between occurrences of `sep`, in order. A sequence with no
/// `sep` is one piece; there is always at least one.
pub open spec fn split_on<T>(s: Seq<T>, sep: T) -> Seq<Seq<T>>
    decreases s.len(),
{
    if s.len() == 0 {
        seq![s]
    } else {
        let front = split_on(s.drop_last(), sep);
        if s.last() == sep {
            front.push(Seq::empty())
        } else {
            front.drop_last().push(front.last().push(s.last()))
        }
    }
}

/// The pieces seen as sequences.
pub open spec fn pieces<T>(v: Seq<&[T]>) -> Seq<Seq<T>> {
    Seq::new(v.len(), |i: int| v[i]@)
}

/// Splitting always yields at least one piece.
pub proof fn split_on_nonempty<T>(s: Seq<T>, sep: T)
    ensures
        split_on(s, sep).len() > 0,
    decreases s.len(),
{
    if s.len() > 0 {
        split_on_nonempty(s.drop_last(), sep);
    }
}

/// The step by which both splitting loops grow the split of a prefix.
proof fn split_on_step<T>(s: Seq<T>, sep: T, from: int, i: int, done: Seq<Seq<T>>)
    requires
        0 <= from <= i < s.len(),
        split_on(s.take(i), sep) == done.push(s.subrange(from, i)),
    ensures
        s[i] == sep ==> split_on(s.take(i + 1), sep) == done.push(s.subrange(from, i)).push(
            s.subrange(i + 1, i + 1),
        ),
        s[i] != sep ==> split_on(s.take(i + 1), sep) == done.push(s.subrange(from, i + 1)),
{
    let t = s.take(i + 1);
    assert(t.drop_last() == s.take(i));
    assert(t.last() == s[i]);
    assert(s.subrange(i + 1, i + 1) == Seq::<T>::empty());
    assert(s.subrange(from, i).push(s[i]) == s.subrange(from, i + 1));
    assert(done.push(s.subrange(from, i)).drop_last() == done);
}

/// No piece holds the separator.
pub proof fn split_on_pieces_are_free<T>(s: Seq<T>, sep: T)
    ensures
        forall|i: int|
            0 <= i < split_on(s, sep).len() ==> !(#[trigger] split_on(s, sep)[i]).contains(sep),
    decreases s.len(),
{
    if s.len() > 0 {
        let front = split_on(s.drop_last(), sep);
        split_on_nonempty(s.drop_last(), sep);
        split_on_pieces_are_free(s.drop_last(), sep);
        let all = split_on(s, sep);
        assert forall|i: int| 0 <= i < all.len() implies !(#[trigger] all[i]).contains(sep) by {
            if i < front.len() {
                assert(!front[i].contains(sep));
                if i == front.len() - 1 && s.last() != sep {
                    let old_piece = front[i];
                    assert(all[i] == old_piece.push(s.last()));
                    assert forall|k: int| 0 <= k < all[i].len() implies all[i][k] != sep by {
                        if k < old_piece.len() {
                            assert(old_piece.contains(old_piece[k]));
                        }
                    }
                }
            }
        }
    }
}

/// Text without the separator extends the last piece.
pub proof fn split_on_append<T>(s: Seq<T>, more: Seq<T>, sep: T)
    requires
        !more.contains(sep),
    ensures
        split_on(s + more, sep) == split_on(s, sep).drop_last().push(
            split_on(s, sep).last() + more,
        ),
    decreases more.len(),
{
    split_on_nonempty(s, sep);
    let parts = split_on(s, sep);
    if more.len() == 0 {
        assert(s + more == s);
        assert(parts.last() + more == parts.last());
        assert(parts.drop_last().push(parts.last()) == parts);
    } else {
        let front = more.drop_last();
        assert(more.contains(more.last()));
        assert forall|i: int| 0 <= i < front.len() implies front[i] != sep by {
            assert(more.contains(more[i]));
        }
        split_on_append(s, front, sep);
        assert((s + more).drop_last() == s + front);
        assert((s + more).last() == more.last());
        assert((parts.last() + front).push(more.last()) == parts.last() + more);
        assert(parts.drop_last().push(parts.last() + front).drop_last() == parts.drop_last());
    }
}

/// Whatever stands behind a separator, the pieces in front of it stay.
pub proof fn split_on_prefix<T>(s: Seq<T>, more: Seq<T>, sep: T)
    ensures
        split_on(s.push(sep) + more, sep).len() > split_on(s, sep).len(),
        split_on(s.push(sep) + more, sep).take(split_on(s, sep).len() as int) == split_on(s, sep),
    decreases more.len(),
{
    let all = s.push(sep) + more;
    let n = split_on(s, sep).len() as int;
    if more.len() == 0 {
        assert(all == s.push(sep));
        assert(all.drop_last() == s);
        assert(split_on(all, sep) == split_on(s, sep).push(Seq::empty()));
    } else {
        assert(all.drop_last() == s.push(sep) + more.drop_last());
        split_on_prefix(s, more.drop_last(), sep);
        let front = split_on(all.drop_last(), sep);
        assert(split_on(all, sep).take(n) == front.take(n));
    }
}

/// The pieces of `s` between occurrences of the character `sep`.
pub fn split_chars<'a>(s: &'a [char], sep: char) -> (parts: Vec<&'a [char]>)
    ensures
        pieces(parts@) == split_on(s@, sep),
{
    let mut parts: Vec<&'a [char]> = Vec::new();
    let mut from: usize = 0;
    let mut i: usize = 0;
    assert(pieces(parts@).push(s@.subrange(0, 0)) == split_on(s@.take(0), sep));
    while i < s.len()
        invariant
            from <= i <= s@.len(),
            split_on(s@.take(i as int), sep) == pieces(parts@).push(
                s@.subrange(from as int, i as int),
            ),
        decreases s@.len() - i,
    {
        proof {
            split_on_step(s@, sep, from as int, i as int, pieces(parts@));
        }
        if s[i] == sep {
            let ghost before = pieces(parts@);
            parts.push(slice_subrange(s, from, i));
            assert(pieces(parts@) == before.push(s@.subrange(from as int, i as int)));
            from = i + 1;
        }
        i = i + 1;
    }
    assert(s@.take(s@.len() as int) == s@);
    let ghost before = pieces(parts@);
    parts.push(slice_subrange(s, from, s.len()));
    assert(pieces(parts@) == before.push(s@.subrange(from as int, s@.len() as int)));
    parts
}

/// The pieces of `s` between occurrences of the byte `sep`.
pub fn split_bytes<'a>(s: &'a [u8], sep: u8) -> (parts: Vec<&'a [u8]>)
    ensures
        pieces(parts@) == split_on(s@, sep),
{
    let mut parts: Vec<&'a [u8]> = Vec::new();
    let mut from: usize = 0;
    let mut i: usize = 0;
    assert(pieces(parts@).push(s@.subrange(0, 0)) == split_on(s@.take(0), sep));
    while i < s.len()
        invariant
            from <= i <= s@.len(),
            split_on(s@.take(i as int), sep) == pieces(parts@).push(
                s@.subrange(from as int, i as int),
            ),
        decreases s@.len() - i,
    {
        proof {
            split_on_step(s@, sep, from as int, i as int, pieces(parts@));
        }
        if s[i] == sep {
            let ghost before = pieces(parts@);
            parts.push(slice_subrange(s, from, i));
            assert(pieces(parts@) == before.push(s@.subrange(from as int, i as int)));
            from = i + 1;
        }
        i = i + 1;
    }
    assert(s@.take(s@.len() as int) == s@);
    let ghost before = pieces(parts@);
    parts.push(slice_subrange(s, from, s.len()));
    assert(pieces(parts@) == before.push(s@.subrange(from as int, s@.len() as int)));
    parts
}

/// Where `sep` first stands in `s`; the length of `s` where it does not.
pub open spec fn first_at(s: Seq<char>, sep: char) -> int
    decreases s.len(),
{
    if s.len() == 0 || s[0] == sep {
        0
    } else {
        1 + first_at(s.drop_first(), sep)
    }
}

/// What stands in front of the first `sep` and what stands behind it.
pub open spec fn split_once(s: Seq<char>, sep: char) -> Option<(Seq<char>, Seq<char>)> {
    if s.contains(sep) {
        Some((s.take(first_at(s, sep)), s.skip(first_at(s, sep) + 1)))
    } else {
        None
    }
}

proof fn first_at_is(s: Seq<char>, sep: char, i: int)
    requires
        0 <= i < s.len(),
        s[i] == sep,
        forall|j: int| 0 <= j < i ==> s[j] != sep,
    ensures
        first_at(s, sep) == i,
    decreases s.len(),
{
    if i > 0 {
        assert(s[0] != sep);
        let rest = s.drop_first();
        assert forall|j: int| 0 <= j < i - 1 implies rest[j] != sep by {
            assert(rest[j] == s[j + 1]);
        }
        first_at_is(rest, sep, i - 1);
    }
}

/// Where `sep` first stands in `s`.
pub fn find_char(s: &[char], sep: char) -> (at: Option<usize>)
    ensures
        match at {
            Some(i) => s@.contains(sep) && i == first_at(s@, sep) && i < s@.len(),
            None => !s@.contains(sep),
        },
{
    let mut i: usize = 0;
    while i < s.len()
        invariant
            i <= s@.len(),
            forall|j: int| 0 <= j < i ==> s@[j] != sep,
        decreases s@.len() - i,
    {
        if s[i] == sep {
            proof {
                first_at_is(s@, sep, i as int);
                assert(s@.contains(s@[i as int]));
            }
            return Some(i);
        }
        i = i + 1;
    }
    None
}

// ---- order --------------------------------------------------------------

/// Lexicographic order by code point.
pub open spec fn text_le(a: Seq<char>, b: Seq<char>) -> bool
    decreases a.len(),
{
    if a.len() == 0 {
        true
    } else if b.len() == 0 {
        false
    } else if a[0] == b[0] {
        text_le(a.drop_first(), b.drop_first())
    } else {
        (a[0] as u32) < (b[0] as u32)
    }
}

/// Whether `a` comes before `b` or equals it.
pub fn text_at_most(a: &[char], b: &[char]) -> (r: bool)
    ensures
        r == text_le(a@, b@),
{
    let mut i: usize = 0;
    assert(a@.skip(0) == a@);
    assert(b@.skip(0) == b@);
    while i < a.len() && i < b.len() && a[i] == b[i]
        invariant
            i <= a@.len(),
            i <= b@.len(),
            text_le(a@.skip(i as int), b@.skip(i as int)) == text_le(a@, b@),
        decreases a@.len() - i,
    {
        assert(a@.skip(i as int).drop_first() == a@.skip(i + 1));
        assert(b@.skip(i as int).drop_first() == b@.skip(i + 1));
        i = i + 1;
    }
    if i == a.len() {
        true
    } else if i == b.len() {
        false
    } else {
        (a[i] as u32) < (b[i] as u32)
    }
}

// ---- numbers ------------------------------------------------------------

/// Whether `c` is one of `0` to `9`.
pub open spec fn is_digit(c: char) -> bool {
    '0' <= c <= '9'
}

/// The decimal digit for a number below ten.
pub open spec fn digit(n: nat) -> char {
    (n + 48) as char
}

/// A number in decimal, without leading zeros.
pub open spec fn decimal(n: nat) -> Seq<char>
    decreases n,
{
    if n < 10 {
        seq![digit(n)]
    } else {
        decimal(n / 10).push(digit(n % 10))
    }
}

/// The number that a sequence of decimal digits stands for.
pub open spec fn number(s: Seq<char>) -> nat
    decreases s.len(),
{
    if s.len() == 0 {
        0
    } else {
        10 * number(s.drop_last()) + (s.last() as nat - 48) as nat
    }
}

/// A whole number no greater than `max`, written as an optional `+` and then at
/// least one decimal digit, and nothing else.
pub open spec fn whole_number(s: Seq<char>, max: nat) -> Option<nat> {
    let digits = unsigned_part(s);
    if digits.len() > 0 && all_digits(digits) && number(digits) <= max {
        Some(number(digits))
    } else {
        None
    }
}

/// `s` without a leading `+`.
pub open spec fn unsigned_part(s: Seq<char>) -> Seq<char> {
    if s.len() > 0 && s[0] == '+' {
        s.drop_first()
    } else {
        s
    }
}

/// Whether every character is a decimal digit.
pub open spec fn all_digits(s: Seq<char>) -> bool {
    forall|i: int| 0 <= i < s.len() ==> is_digit(#[trigger] s[i])
}

/// Appends a number in decimal.
pub fn push_decimal(s: &mut String, n: u64)
    ensures
        final(s)@ == old(s)@ + decimal(n as nat),
    decreases n,
{
    let ghost before = s@;
    if n >= 10 {
        push_decimal(s, n / 10);
    }
    let d: u8 = (n % 10) as u8;
    s.push((d + 48) as char);
    assert(s@ == before + decimal(n as nat));
}

/// A prefix of a run of digits stands for no more than the whole run.
proof fn number_of_prefix(s: Seq<char>, i: int)
    requires
        0 <= i <= s.len(),
    ensures
        number(s.take(i)) <= number(s),
    decreases s.len(),
{
    if i == s.len() {
        assert(s.take(i) == s);
    } else {
        assert(s.drop_last().take(i) == s.take(i));
        number_of_prefix(s.drop_last(), i);
    }
}

/// Reads a whole number that fits in 64 bits.
pub fn parse_whole_number(s: &[char]) -> (n: Option<u64>)
    ensures
        match n {
            Some(v) => whole_number(s@, u64::MAX as nat) == Some(v as nat),
            None => whole_number(s@, u64::MAX as nat) is None,
        },
{
    let from: usize = if s.len() > 0 && s[0] == '+' {
        1
    } else {
        0
    };
    let ghost digits = s@.skip(from as int);
    assert(digits == unsigned_part(s@));
    if from == s.len() {
        return None;
    }
    let mut i: usize = from;
    while i < s.len()
        invariant
            from <= i <= s@.len(),
            digits == s@.skip(from as int),
            digits == unsigned_part(s@),
            forall|j: int| 0 <= j < i - from ==> is_digit(#[trigger] digits[j]),
        decreases s@.len() - i,
    {
        if !(s[i] >= '0' && s[i] <= '9') {
            assert(!is_digit(digits[i - from]));
            return None;
        }
        i = i + 1;
    }
    let mut value: u64 = 0;
    i = from;
    assert(number(digits.take(0)) == 0);
    while i < s.len()
        invariant
            from <= i <= s@.len(),
            digits == s@.skip(from as int),
            digits == unsigned_part(s@),
            digits.len() > 0,
            all_digits(digits),
            value == number(digits.take(i - from)),
        decreases s@.len() - i,
    {
        assert(is_digit(digits[i - from]));
        let d: u64 = (s[i] as u32 - 48) as u64;
        proof {
            assert(digits.take(i - from + 1).drop_last() == digits.take(i - from));
            number_of_prefix(digits, i - from + 1);
        }
        match value.checked_mul(10) {
            None => {
                return None;
            },
            Some(tens) => match tens.checked_add(d) {
                None => {
                    return None;
                },
                Some(sum) => {
                    value = sum;
                },
            },
        }
        i = i + 1;
    }
    assert(digits.take(digits.len() as int) == digits);
    Some(value)
}

// ---- bytes and UTF-8 ----------------------------------------------------

/// Whether two byte strings are the same.
pub fn same_bytes(a: &[u8], b: &[u8]) -> (r: bool)
    ensures
        r == (a@ == b@),
{
    if a.len() != b.len() {
        return false;
    }
    let mut i: usize = 0;
    while i < a.len()
        invariant
            i <= a@.len(),
            a@.len() == b@.len(),
            forall|j: int| 0 <= j < i ==> a@[j] == b@[j],
        decreases a@.len() - i,
    {
        if a[i] != b[i] {
            return false;
        }
        i = i + 1;
    }
    assert(a@ == b@);
    true
}

/// Appends a byte string.
pub fn push_bytes(out: &mut Vec<u8>, bytes: &[u8])
    ensures
        final(out)@ == old(out)@ + bytes@,
{
    let ghost before = out@;
    out.extend_from_slice(bytes);
    assert(out@ == before + bytes@);
}

/// The text that a byte string decodes to, with U+FFFD in place of what is not
/// valid UTF-8.
pub uninterp spec fn lossy_text(bytes: Seq<u8>) -> Seq<char>;

/// Whether a byte string that is valid UTF-8 has the text that it encodes.
pub open spec fn decodes_exactly(bytes: Seq<u8>) -> bool {
    valid_utf8(bytes) ==> lossy_text(bytes) == decode_utf8(bytes)
}

/// `String::from_utf8_lossy`: decodes UTF-8 and puts U+FFFD in place of every
/// invalid part. The text is a function of the bytes alone; valid UTF-8 decodes
/// exactly, and a NUL character comes out only where a zero byte went in.
#[verifier::external_body]
pub(crate) fn text_of_bytes(bytes: &[u8]) -> (s: String)
    ensures
        s@ == lossy_text(bytes@),
        valid_utf8(bytes@) ==> s@ == decode_utf8(bytes@),
        !bytes@.contains(0u8) ==> !s@.contains('\0'),
{
    String::from_utf8_lossy(bytes).into_owned()
}

/// Encoding one more character appends its bytes.
pub proof fn encode_push(s: Seq<char>, c: char)
    ensures
        encode_utf8(s.push(c)) == encode_utf8(s) + encode_scalar(c as u32),
    decreases s.len(),
{
    if s.len() == 0 {
        let t = s.push(c);
        assert(t.drop_first() == Seq::<char>::empty());
        assert(encode_utf8(t) == encode_scalar(c as u32) + encode_utf8(t.drop_first()));
        assert(encode_utf8(t.drop_first()) == Seq::<u8>::empty());
        assert(encode_utf8(s) == Seq::<u8>::empty());
    } else {
        assert(s.push(c).drop_first() == s.drop_first().push(c));
        encode_push(s.drop_first(), c);
        assert(encode_utf8(s.push(c)) == encode_scalar(s[0] as u32) + (encode_utf8(s.drop_first())
            + encode_scalar(c as u32)));
    }
}

/// Encoding a concatenation concatenates the encodings.
pub proof fn encode_concat(a: Seq<char>, b: Seq<char>)
    ensures
        encode_utf8(a + b) == encode_utf8(a) + encode_utf8(b),
    decreases b.len(),
{
    if b.len() == 0 {
        assert(a + b == a);
        assert(encode_utf8(b) == Seq::<u8>::empty());
    } else {
        let c = b.last();
        assert(b == b.drop_last().push(c));
        assert(a + b == (a + b.drop_last()).push(c));
        encode_concat(a, b.drop_last());
        encode_push(a + b.drop_last(), c);
        encode_push(b.drop_last(), c);
    }
}

/// How long the encoding of a character is, and that it is either the character
/// itself or made of bytes outside ASCII.
pub proof fn encode_scalar_bytes(c: char)
    ensures
        (c as u32) < 0x80 ==> encode_scalar(c as u32) == seq![c as u8],
        (c as u32) >= 0x80 ==> forall|i: int|
            0 <= i < encode_scalar(c as u32).len() ==> #[trigger] encode_scalar(c as u32)[i]
                >= 0x80,
        encode_scalar(c as u32).len() == (if (c as u32) < 0x80 {
            1nat
        } else if (c as u32) < 0x800 {
            2
        } else if (c as u32) < 0x10000 {
            3
        } else {
            4
        }),
{
    let n = c as u32;
    char_is_scalar(c);
    if n < 0x80 {
        assert((n & 0x7f) as u8 == n as u8) by (bit_vector)
            requires
                n < 0x80,
        ;
    }
    assert(forall|b: u8| (#[trigger] (0x80u8 | b)) >= 0x80u8) by (bit_vector);
    assert(forall|b: u8| (#[trigger] (0xc0u8 | b)) >= 0x80u8) by (bit_vector);
    assert(forall|b: u8| (#[trigger] (0xe0u8 | b)) >= 0x80u8) by (bit_vector);
    assert(forall|b: u8| (#[trigger] (0xf0u8 | b)) >= 0x80u8) by (bit_vector);
}

/// No byte of a character's encoding is zero, unless the character is NUL.
proof fn encode_scalar_without_nul(c: char)
    requires
        c != '\0',
    ensures
        forall|i: int|
            0 <= i < encode_scalar(c as u32).len() ==> #[trigger] encode_scalar(c as u32)[i] != 0,
{
    encode_scalar_bytes(c);
}

/// A text without NUL characters has no zero byte in its encoding.
pub proof fn encode_without_nul(s: Seq<char>)
    requires
        !s.contains('\0'),
    ensures
        !encode_utf8(s).contains(0u8),
    decreases s.len(),
{
    if s.len() > 0 {
        let c = s.last();
        let rest = s.drop_last();
        assert(s == rest.push(c));
        assert(s[s.len() - 1] == c);
        assert forall|i: int| 0 <= i < rest.len() implies rest[i] != '\0' by {
            assert(s[i] == rest[i]);
        }
        encode_without_nul(rest);
        encode_push(rest, c);
        assert(s.contains(c));
        encode_scalar_without_nul(c);
        let bytes = encode_utf8(s);
        assert forall|i: int| 0 <= i < bytes.len() implies bytes[i] != 0 by {
            let front = encode_utf8(rest);
            if i < front.len() {
                assert(front[i] == bytes[i]);
                assert(front.contains(front[i]));
            } else {
                assert(bytes[i] == encode_scalar(c as u32)[i - front.len()]);
            }
        }
    }
}

// ---- letter case --------------------------------------------------------

/// The lower-case form of an ASCII byte; any other byte is unchanged.
pub open spec fn folded_byte(b: u8) -> u8 {
    if 65 <= b <= 90 {
        (b + 32) as u8
    } else {
        b
    }
}

/// A byte string with its ASCII letters in lower case.
pub open spec fn folded(s: Seq<u8>) -> Seq<u8> {
    Seq::new(s.len(), |i: int| folded_byte(s[i]))
}

/// A copy of a byte string with its ASCII letters in lower case.
pub fn fold(s: &[u8]) -> (out: Vec<u8>)
    ensures
        out@ == folded(s@),
{
    let mut out: Vec<u8> = Vec::new();
    let mut i: usize = 0;
    while i < s.len()
        invariant
            i <= s@.len(),
            out@ == folded(s@).take(i as int),
        decreases s@.len() - i,
    {
        let b: u8 = s[i];
        if 65 <= b && b <= 90 {
            out.push(b + 32);
        } else {
            out.push(b);
        }
        i = i + 1;
    }
    assert(folded(s@).take(s@.len() as int) == folded(s@));
    out
}

/// The upper-case form of an ASCII letter; any other character is unchanged.
pub open spec fn ascii_upper(c: char) -> char {
    if 'a' <= c <= 'z' {
        (c as u32 - 32) as char
    } else {
        c
    }
}

/// The lower-case form of an ASCII letter; any other character is unchanged.
pub open spec fn ascii_lower(c: char) -> char {
    if 'A' <= c <= 'Z' {
        (c as u32 + 32) as char
    } else {
        c
    }
}

/// The upper-case form of a text.
pub uninterp spec fn uppercase(s: Seq<char>) -> Seq<char>;

/// The lower-case form of a text.
pub uninterp spec fn lowercase(s: Seq<char>) -> Seq<char>;

/// `str::to_uppercase`: Unicode's upper-case form. It is a function of the text
/// alone; on ASCII text it changes the letters `a` to `z` and nothing else.
#[verifier::external_body]
pub(crate) fn to_uppercase(s: &str) -> (r: String)
    ensures
        r@ == uppercase(s@),
        is_ascii_chars(s@) ==> r@ == s@.map_values(|c: char| ascii_upper(c)),
{
    s.to_uppercase()
}

/// `str::to_lowercase`: Unicode's lower-case form. It is a function of the text
/// alone; on ASCII text it changes the letters `A` to `Z` and nothing else.
#[verifier::external_body]
pub(crate) fn to_lowercase(s: &str) -> (r: String)
    ensures
        r@ == lowercase(s@),
        is_ascii_chars(s@) ==> r@ == s@.map_values(|c: char| ascii_lower(c)),
{
    s.to_lowercase()
}

/// A text in double quotes, with what does not print escaped.
pub uninterp spec fn quoted(s: Seq<char>) -> Seq<char>;

/// The `{:?}` form of a string (`<str as std::fmt::Debug>`): the text in double
/// quotes with escapes. It is a function of the text alone.
#[verifier::external_body]
pub(crate) fn quote(s: &str) -> (r: String)
    ensures
        r@ == quoted(s@),
{
    format!("{:?}", s)
}

} // verus!
