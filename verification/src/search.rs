//! Finding whole words in the bytes of a statement.

use crate::text;
use vstd::prelude::*;
use vstd::slice::*;

verus! {

/// Whether `needle` stands in `haystack` at position `i`.
pub open spec fn occurs_at(haystack: Seq<u8>, needle: Seq<u8>, i: int) -> bool {
    &&& 0 <= i <= haystack.len() - needle.len()
    &&& haystack.subrange(i, i + needle.len()) == needle
}

/// `memchr::memmem::find`: where a byte string first occurs in another, if it
/// does.
#[verifier::external_body]
fn find_bytes(haystack: &[u8], needle: &[u8]) -> (at: Option<usize>)
    ensures
        match at {
            Some(i) => occurs_at(haystack@, needle@, i as int) && forall|j: int|
                0 <= j < i ==> !#[trigger] occurs_at(haystack@, needle@, j),
            None => forall|j: int| !#[trigger] occurs_at(haystack@, needle@, j),
        },
{
    memchr::memmem::find(haystack, needle)
}

/// Whether a byte can be part of an SQL identifier: an ASCII letter or digit,
/// `_`, `$`, or a byte outside ASCII.
pub open spec fn is_identifier_byte(b: u8) -> bool {
    ||| 48 <= b <= 57
    ||| 65 <= b <= 90
    ||| 97 <= b <= 122
    ||| b == 0x5f
    ||| b == 0x24
    ||| b >= 0x80
}

/// Whether a byte can begin an SQL identifier: a letter, `_` or a byte outside
/// ASCII. A digit and `$` cannot.
pub open spec fn starts_identifier(b: u8) -> bool {
    ||| 65 <= b <= 90
    ||| 97 <= b <= 122
    ||| b == 0x5f
    ||| b >= 0x80
}

/// Whether nothing but identifier bytes stands between two positions.
pub open spec fn connected(s: Seq<u8>, i: int, j: int) -> bool {
    forall|k: int| i < k < j || j < k < i ==> is_identifier_byte(#[trigger] s[k])
}

/// Whether the byte at `i` is a `$` that may quote: another `$` stands beside it, or
/// is joined to it by identifier bytes, as in `$$` and `$tag$`.
pub open spec fn is_dollar_quote(s: Seq<u8>, i: int) -> bool {
    &&& s[i] == 0x24
    &&& exists|j: int| 0 <= j < s.len() && j != i && #[trigger] s[j] == 0x24 && connected(s, i, j)
}

/// Whether the byte at `i` can be part of an identifier where it stands. What may
/// be a dollar quote is not: what it encloses is a text of its own.
pub open spec fn is_word_byte(s: Seq<u8>, i: int) -> bool {
    is_identifier_byte(s[i]) && !is_dollar_quote(s, i)
}

/// Where the run of such bytes that ends at `i` begins.
pub open spec fn run_start(s: Seq<u8>, i: int) -> int
    decreases i,
{
    if i > 0 && is_word_byte(s, i - 1) {
        run_start(s, i - 1)
    } else {
        i
    }
}

/// Whether the position in front of the byte at `i` lies inside an identifier: the
/// bytes on both sides can be part of one, and the run that they belong to begins
/// as one does.
pub open spec fn splits_identifier(s: Seq<u8>, i: int) -> bool {
    &&& 0 < i < s.len()
    &&& is_word_byte(s, i - 1)
    &&& is_word_byte(s, i)
    &&& starts_identifier(s[run_start(s, i - 1)])
}

/// Whether `word` stands in `s` at position `i`, in whatever letter case, and
/// neither begins nor ends inside an identifier.
pub open spec fn word_at(s: Seq<u8>, word: Seq<u8>, i: int) -> bool {
    &&& occurs_at(text::folded(s), text::folded(word), i)
    &&& !splits_identifier(s, i)
    &&& !splits_identifier(s, i + word.len())
}

/// Whether `word` stands anywhere in `s` as a whole word, in whatever letter case.
pub open spec fn mentions(s: Seq<u8>, word: Seq<u8>) -> bool {
    exists|i: int| word_at(s, word, i)
}

fn identifier_byte(b: u8) -> (r: bool)
    ensures
        r == is_identifier_byte(b),
{
    (48 <= b && b <= 57) || (65 <= b && b <= 90) || (97 <= b && b <= 122) || b == 0x5f || b == 0x24
        || b >= 0x80
}

/// Whether the byte at `i` is a `$` that may quote.
fn dollar_quote(s: &[u8], i: usize) -> (r: bool)
    requires
        i < s@.len(),
    ensures
        r == is_dollar_quote(s@, i as int),
{
    if s[i] != 0x24 {
        return false;
    }
    let mut from: usize = i;
    while from > 0 && identifier_byte(s[from - 1])
        invariant
            from <= i < s@.len(),
            s@[i as int] == 0x24,
            forall|k: int| from <= k < i ==> is_identifier_byte(#[trigger] s@[k]) && s@[k] != 0x24,
        decreases from,
    {
        from = from - 1;
        if s[from] == 0x24 {
            assert(connected(s@, i as int, from as int));
            return true;
        }
    }
    let mut to: usize = i + 1;
    while to < s.len() && identifier_byte(s[to])
        invariant
            i < to <= s@.len(),
            s@[i as int] == 0x24,
            forall|k: int| i < k < to ==> is_identifier_byte(#[trigger] s@[k]) && s@[k] != 0x24,
        decreases s@.len() - to,
    {
        if s[to] == 0x24 {
            assert(connected(s@, i as int, to as int));
            return true;
        }
        to = to + 1;
    }
    assert forall|j: int| 0 <= j < s@.len() && j != i && #[trigger] s@[j] == 0x24 implies !connected(
        s@,
        i as int,
        j,
    ) by {
        if j < i {
            assert(!is_identifier_byte(s@[from - 1]));
        } else {
            assert(!is_identifier_byte(s@[to as int]));
        }
    }
    false
}

fn word_byte(s: &[u8], i: usize) -> (r: bool)
    requires
        i < s@.len(),
    ensures
        r == is_word_byte(s@, i as int),
{
    identifier_byte(s[i]) && !dollar_quote(s, i)
}

fn inside_identifier(s: &[u8], i: usize) -> (r: bool)
    ensures
        r == splits_identifier(s@, i as int),
{
    if i == 0 || i >= s.len() || !word_byte(s, i) || !word_byte(s, i - 1) {
        return false;
    }
    let mut from: usize = i - 1;
    while from > 0 && word_byte(s, from - 1)
        invariant
            from < s@.len(),
            run_start(s@, from as int) == run_start(s@, i - 1),
        decreases from,
    {
        from = from - 1;
    }
    let first: u8 = s[from];
    (65 <= first && first <= 90) || (97 <= first && first <= 122) || first == 0x5f || first >= 0x80
}

/// Whether `needle` stands anywhere in `haystack` as a whole word, with ASCII
/// letters matched in either case.
pub fn contains_ignore_case_ascii(haystack: &[u8], needle: &[u8]) -> (r: bool)
    ensures
        r == mentions(haystack@, needle@),
{
    let folded: Vec<u8> = text::fold(haystack);
    let word: Vec<u8> = text::fold(needle);
    let mut from: usize = 0;
    loop
        invariant
            folded@ == text::folded(haystack@),
            word@ == text::folded(needle@),
            from <= folded@.len(),
            forall|j: int| 0 <= j < from ==> !#[trigger] word_at(haystack@, needle@, j),
        decreases folded@.len() - from,
    {
        let ghost rest = folded@.skip(from as int);
        let found: Option<usize> = find_bytes(
            slice_subrange(folded.as_slice(), from, folded.len()),
            word.as_slice(),
        );
        assert(folded@.subrange(from as int, folded@.len() as int) == rest);
        match found {
            None => {
                assert forall|j: int| !word_at(haystack@, needle@, j) by {
                    if j >= from {
                        occurs_in_rest(folded@, word@, from as int, j);
                    }
                }
                return false;
            },
            Some(k) => {
                let at: usize = from + k;
                proof {
                    occurs_in_rest(folded@, word@, from as int, at as int);
                }
                if !inside_identifier(haystack, at) && !inside_identifier(
                    haystack,
                    at + needle.len(),
                ) {
                    assert(word_at(haystack@, needle@, at as int));
                    return true;
                }
                assert forall|j: int| 0 <= j <= at implies !#[trigger] word_at(
                    haystack@,
                    needle@,
                    j,
                ) by {
                    if from <= j < at {
                        occurs_in_rest(folded@, word@, from as int, j);
                        assert(!occurs_at(rest, word@, j - from));
                    }
                }
                if at == folded.len() {
                    assert forall|j: int| !word_at(haystack@, needle@, j) by {}
                    return false;
                }
                from = at + 1;
            },
        }
    }
}

/// An occurrence in what is left behind `from` is one in the whole.
proof fn occurs_in_rest(s: Seq<u8>, word: Seq<u8>, from: int, i: int)
    requires
        0 <= from <= s.len(),
        from <= i,
    ensures
        occurs_at(s.skip(from), word, i - from) == occurs_at(s, word, i),
{
    if i <= s.len() - word.len() {
        assert(s.skip(from).subrange(i - from, i - from + word.len()) == s.subrange(
            i,
            i + word.len(),
        ));
    }
}

proof fn folding_keeps_byte_kinds(a: u8, b: u8)
    requires
        text::folded_byte(a) == text::folded_byte(b),
    ensures
        is_identifier_byte(a) == is_identifier_byte(b),
        starts_identifier(a) == starts_identifier(b),
        a == 0x24 <==> b == 0x24,
{
}

/// Whether two byte strings have the same kinds of bytes in the same places.
spec fn same_kinds(a: Seq<u8>, b: Seq<u8>) -> bool {
    &&& a.len() == b.len()
    &&& forall|i: int|
        0 <= i < a.len() ==> is_identifier_byte(#[trigger] a[i]) == is_identifier_byte(b[i])
            && starts_identifier(a[i]) == starts_identifier(b[i]) && (a[i] == 0x24 <==> b[i]
            == 0x24)
}

proof fn same_kinds_quote(a: Seq<u8>, b: Seq<u8>, i: int)
    requires
        same_kinds(a, b),
        0 <= i < a.len(),
        is_dollar_quote(a, i),
    ensures
        is_dollar_quote(b, i),
{
    let j = choose|j: int|
        0 <= j < a.len() && j != i && #[trigger] a[j] == 0x24 && connected(a, i, j);
    assert(a[i] == 0x24 && a[j] == 0x24);
    assert(b[j] == 0x24);
    assert forall|k: int| i < k < j || j < k < i implies is_identifier_byte(#[trigger] b[k]) by {
        assert(is_identifier_byte(a[k]));
    }
}

proof fn same_kinds_word_byte(a: Seq<u8>, b: Seq<u8>, i: int)
    requires
        same_kinds(a, b),
        0 <= i < a.len(),
    ensures
        is_word_byte(a, i) == is_word_byte(b, i),
{
    assert(is_identifier_byte(a[i]) == is_identifier_byte(b[i]));
    assert forall|k: int| 0 <= k < b.len() implies is_identifier_byte(#[trigger] b[k])
        == is_identifier_byte(a[k]) && starts_identifier(b[k]) == starts_identifier(a[k]) && (b[k]
        == 0x24 <==> a[k] == 0x24) by {
        assert(is_identifier_byte(a[k]) == is_identifier_byte(b[k]));
    }
    if is_dollar_quote(a, i) {
        same_kinds_quote(a, b, i);
    }
    if is_dollar_quote(b, i) {
        same_kinds_quote(b, a, i);
    }
}

proof fn same_kinds_run(a: Seq<u8>, b: Seq<u8>, i: int)
    requires
        same_kinds(a, b),
        0 <= i < a.len(),
    ensures
        run_start(a, i) == run_start(b, i),
        0 <= run_start(a, i) <= i,
    decreases i,
{
    if i > 0 {
        same_kinds_word_byte(a, b, i - 1);
        same_kinds_run(a, b, i - 1);
    }
}

/// Lower-casing makes no difference to where identifiers begin and end.
proof fn folding_keeps_identifiers(a: Seq<u8>, b: Seq<u8>)
    requires
        text::folded(a) == text::folded(b),
    ensures
        a.len() == b.len(),
        forall|i: int| splits_identifier(a, i) == splits_identifier(b, i),
{
    assert(text::folded(a).len() == a.len() && text::folded(b).len() == b.len());
    assert forall|i: int| 0 <= i < a.len() implies is_identifier_byte(#[trigger] a[i])
        == is_identifier_byte(b[i]) && starts_identifier(a[i]) == starts_identifier(b[i]) && (a[i]
        == 0x24 <==> b[i] == 0x24) by {
        assert(text::folded(a)[i] == text::folded_byte(a[i]));
        assert(text::folded(b)[i] == text::folded_byte(b[i]));
        folding_keeps_byte_kinds(a[i], b[i]);
    }
    assert forall|i: int| splits_identifier(a, i) == splits_identifier(b, i) by {
        if 0 < i < a.len() {
            same_kinds_word_byte(a, b, i - 1);
            same_kinds_word_byte(a, b, i);
            same_kinds_run(a, b, i - 1);
            let first = run_start(a, i - 1);
            assert(starts_identifier(a[first]) == starts_identifier(b[first]));
        }
    }
}

/// A word that is found is found whatever the letter case on either side.
pub proof fn mentions_ignores_case(s: Seq<u8>, t: Seq<u8>, word: Seq<u8>, same_word: Seq<u8>)
    requires
        text::folded(s) == text::folded(t),
        text::folded(word) == text::folded(same_word),
        mentions(s, word),
    ensures
        mentions(t, same_word),
{
    let i = choose|i: int| word_at(s, word, i);
    folding_keeps_identifiers(s, t);
    folding_keeps_identifiers(word, same_word);
    assert(word_at(t, same_word, i));
}

/// A word that stands on its own is found, in whatever letter case it is written
/// and whatever surrounds it, a comment or a string too.
pub proof fn a_word_on_its_own_is_found(
    before: Seq<u8>,
    written: Seq<u8>,
    behind: Seq<u8>,
    word: Seq<u8>,
)
    requires
        text::folded(written) == text::folded(word),
        before.len() > 0 ==> !is_identifier_byte(before.last()),
        behind.len() > 0 ==> !is_identifier_byte(behind[0]),
    ensures
        mentions(before + written + behind, word),
{
    let s = before + written + behind;
    let i = before.len() as int;
    assert(text::folded(written).len() == written.len());
    assert(text::folded(word).len() == word.len());
    let at = text::folded(s).subrange(i, i + word.len());
    assert(at == text::folded(word)) by {
        assert forall|j: int| 0 <= j < word.len() implies at[j] == text::folded(word)[j] by {
            assert(s[i + j] == written[j]);
            assert(text::folded(written)[j] == text::folded(word)[j]);
        }
    }
    if 0 < i < s.len() {
        assert(s[i - 1] == before.last());
    }
    if 0 < i + word.len() < s.len() {
        assert(s[i + word.len()] == behind[0]);
    }
    assert(word_at(s, word, i));
}

/// A word that occurs only as part of longer identifiers is not found.
pub proof fn a_part_of_an_identifier_is_not_found(s: Seq<u8>, word: Seq<u8>)
    requires
        forall|i: int|
            #[trigger] occurs_at(text::folded(s), text::folded(word), i) ==> splits_identifier(s, i)
                || splits_identifier(s, i + word.len()),
    ensures
        !mentions(s, word),
{
}

/// Only an identifier hides a word: a position that lies inside one has in front of
/// it a byte that can begin an identifier, and from there on nothing but bytes that
/// can go on with it. Digits alone, as in `1UNION`, hide nothing.
pub proof fn only_identifiers_hide_words(s: Seq<u8>, i: int)
    requires
        splits_identifier(s, i),
    ensures
        exists|k: int|
            0 <= k < i && starts_identifier(#[trigger] s[k]) && forall|j: int|
                k <= j <= i ==> #[trigger] is_word_byte(s, j),
{
    run_is_made_of_word_bytes(s, i - 1);
    let k = run_start(s, i - 1);
    assert(starts_identifier(s[k]));
    assert forall|j: int| k <= j <= i implies #[trigger] is_word_byte(s, j) by {}
}

proof fn run_is_made_of_word_bytes(s: Seq<u8>, i: int)
    requires
        0 <= i,
        is_word_byte(s, i),
    ensures
        0 <= run_start(s, i) <= i,
        forall|j: int| run_start(s, i) <= j <= i ==> #[trigger] is_word_byte(s, j),
    decreases i,
{
    if i > 0 && is_word_byte(s, i - 1) {
        run_is_made_of_word_bytes(s, i - 1);
    }
}

/// Dollar quotes hide nothing: no word begins or ends inside an identifier where it
/// stands directly behind, or directly in front of, either dollar of `$$` or
/// `$tag$`.
pub proof fn dollar_quotes_hide_no_word(s: Seq<u8>, i: int, j: int)
    requires
        0 <= i < j < s.len(),
        s[i] == 0x24,
        s[j] == 0x24,
        connected(s, i, j),
    ensures
        !splits_identifier(s, i),
        !splits_identifier(s, i + 1),
        !splits_identifier(s, j),
        !splits_identifier(s, j + 1),
{
    assert(is_dollar_quote(s, i)) by {
        assert(s[j] == 0x24);
    }
    assert(connected(s, j, i));
    assert(is_dollar_quote(s, j)) by {
        assert(s[i] == 0x24);
    }
}

} // verus!
