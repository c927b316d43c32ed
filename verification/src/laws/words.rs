//! Laws on finding words in statements.

use crate::search;
use crate::text;
use vstd::prelude::*;

verus! {

/// A word is found where its letters stand, in whatever case, and neither its
/// beginning nor its end lies inside an identifier.
pub proof fn a_word_is_found_where_its_letters_stand(s: Seq<u8>, word: Seq<u8>)
    ensures
        search::mentions(s, word) <==> exists|i: int|
            0 <= i <= s.len() - word.len() && !#[trigger] search::splits_identifier(s, i)
                && !search::splits_identifier(s, i + word.len()) && forall|j: int|
                0 <= j < word.len() ==> {
                    ||| s[i + j] == #[trigger] word[j]
                    ||| 0x41 <= s[i + j] <= 0x5a && word[j] == s[i + j] + 32
                    ||| 0x41 <= word[j] <= 0x5a && s[i + j] == word[j] + 32
                },
{
    assert forall|i: int| 0 <= i <= s.len() - word.len() implies (#[trigger] search::occurs_at(
        text::folded(s),
        text::folded(word),
        i,
    ) <==> forall|j: int|
        0 <= j < word.len() ==> {
            ||| s[i + j] == #[trigger] word[j]
            ||| 0x41 <= s[i + j] <= 0x5a && word[j] == s[i + j] + 32
            ||| 0x41 <= word[j] <= 0x5a && s[i + j] == word[j] + 32
        }) by {
        same_letters(s, word, i);
    }
    if search::mentions(s, word) {
        let i = choose|i: int| search::word_at(s, word, i);
        assert(search::occurs_at(text::folded(s), text::folded(word), i));
        assert(!search::splits_identifier(s, i));
    }
    if exists|i: int|
        0 <= i <= s.len() - word.len() && !#[trigger] search::splits_identifier(s, i)
            && !search::splits_identifier(s, i + word.len()) && forall|j: int|
            0 <= j < word.len() ==> {
                ||| s[i + j] == #[trigger] word[j]
                ||| 0x41 <= s[i + j] <= 0x5a && word[j] == s[i + j] + 32
                ||| 0x41 <= word[j] <= 0x5a && s[i + j] == word[j] + 32
            } {
        let i = choose|i: int|
            0 <= i <= s.len() - word.len() && !#[trigger] search::splits_identifier(s, i)
                && !search::splits_identifier(s, i + word.len()) && forall|j: int|
                0 <= j < word.len() ==> {
                    ||| s[i + j] == #[trigger] word[j]
                    ||| 0x41 <= s[i + j] <= 0x5a && word[j] == s[i + j] + 32
                    ||| 0x41 <= word[j] <= 0x5a && s[i + j] == word[j] + 32
                };
        assert(search::occurs_at(text::folded(s), text::folded(word), i));
        assert(search::word_at(s, word, i));
    }
}

proof fn same_letters(s: Seq<u8>, word: Seq<u8>, i: int)
    requires
        0 <= i <= s.len() - word.len(),
    ensures
        search::occurs_at(text::folded(s), text::folded(word), i) <==> forall|j: int|
            0 <= j < word.len() ==> {
                ||| s[i + j] == #[trigger] word[j]
                ||| 0x41 <= s[i + j] <= 0x5a && word[j] == s[i + j] + 32
                ||| 0x41 <= word[j] <= 0x5a && s[i + j] == word[j] + 32
            },
{
    let a = text::folded(s).subrange(i, i + word.len());
    let b = text::folded(word);
    assert forall|j: int| 0 <= j < word.len() implies (a[j] == b[j] <==> {
        ||| s[i + j] == #[trigger] word[j]
        ||| 0x41 <= s[i + j] <= 0x5a && word[j] == s[i + j] + 32
        ||| 0x41 <= word[j] <= 0x5a && s[i + j] == word[j] + 32
    }) by {
        same_letter(s[i + j], word[j]);
    }
    if search::occurs_at(text::folded(s), text::folded(word), i) {
        assert forall|j: int| 0 <= j < word.len() implies {
            ||| s[i + j] == #[trigger] word[j]
            ||| 0x41 <= s[i + j] <= 0x5a && word[j] == s[i + j] + 32
            ||| 0x41 <= word[j] <= 0x5a && s[i + j] == word[j] + 32
        } by {
            assert(a[j] == b[j]);
        }
    }
    if forall|j: int|
        0 <= j < word.len() ==> {
            ||| s[i + j] == #[trigger] word[j]
            ||| 0x41 <= s[i + j] <= 0x5a && word[j] == s[i + j] + 32
            ||| 0x41 <= word[j] <= 0x5a && s[i + j] == word[j] + 32
        } {
        assert forall|j: int| 0 <= j < word.len() implies a[j] == b[j] by {
            assert(word[j] == word[j]);
        }
        assert(a == b);
    }
}

proof fn same_letter(a: u8, b: u8)
    ensures
        text::folded_byte(a) == text::folded_byte(b) <==> {
            ||| a == b
            ||| 0x41 <= a <= 0x5a && b == a + 32
            ||| 0x41 <= b <= 0x5a && a == b + 32
        },
{
}

/// A word that stands on its own is found, in whatever letter case: no ASCII letter
/// or digit, `_`, `$` or byte beyond ASCII stands in front of it or behind it.
pub proof fn a_word_between_other_bytes_is_found(
    before: Seq<u8>,
    written: Seq<u8>,
    behind: Seq<u8>,
    word: Seq<u8>,
)
    requires
        written.len() == word.len(),
        forall|j: int|
            0 <= j < word.len() ==> {
                ||| #[trigger] written[j] == word[j]
                ||| 0x41 <= written[j] <= 0x5a && word[j] == written[j] + 32
                ||| 0x41 <= word[j] <= 0x5a && written[j] == word[j] + 32
            },
        before.len() > 0 ==> !{
            let b = before.last();
            ||| 0x30 <= b <= 0x39
            ||| 0x41 <= b <= 0x5a
            ||| 0x61 <= b <= 0x7a
            ||| b == 0x5f
            ||| b == 0x24
            ||| b >= 0x80
        },
        behind.len() > 0 ==> !{
            let b = behind[0];
            ||| 0x30 <= b <= 0x39
            ||| 0x41 <= b <= 0x5a
            ||| 0x61 <= b <= 0x7a
            ||| b == 0x5f
            ||| b == 0x24
            ||| b >= 0x80
        },
    ensures
        search::mentions(before + written + behind, word),
{
    assert forall|j: int| 0 <= j < word.len() implies text::folded(written)[j] == text::folded(
        word,
    )[j] by {
        same_letter(written[j], word[j]);
    }
    assert(text::folded(written) == text::folded(word));
    search::a_word_on_its_own_is_found(before, written, behind, word);
}

/// Inside an identifier no word begins or ends. An identifier begins with a letter,
/// `_` or a byte beyond ASCII and goes on with letters, digits, `_`, `$` and bytes
/// beyond ASCII, none of which is a `$` that may quote; such a `$`, or a byte of another
/// sort, or nothing, stands in front of it. A `$` may quote where another one is joined
/// to it by bytes of an identifier.
pub proof fn identifiers_hide_words(s: Seq<u8>, k: int, i: int)
    requires
        0 <= k < i < s.len(),
        0x41 <= s[k] <= 0x5a || 0x61 <= s[k] <= 0x7a || s[k] == 0x5f || s[k] >= 0x80,
        k > 0 ==> s[k - 1] == 0x24 && (exists|m: int|
            0 <= m < s.len() && m != k - 1 && #[trigger] s[m] == 0x24 && forall|t: int|
                k - 1 < t < m || m < t < k - 1 ==> {
                    ||| 0x30 <= #[trigger] s[t] <= 0x39
                    ||| 0x41 <= s[t] <= 0x5a
                    ||| 0x61 <= s[t] <= 0x7a
                    ||| s[t] == 0x5f
                    ||| s[t] == 0x24
                    ||| s[t] >= 0x80
                }) || !{
            ||| 0x30 <= s[k - 1] <= 0x39
            ||| 0x41 <= s[k - 1] <= 0x5a
            ||| 0x61 <= s[k - 1] <= 0x7a
            ||| s[k - 1] == 0x5f
            ||| s[k - 1] == 0x24
            ||| s[k - 1] >= 0x80
        },
        forall|j: int|
            k <= j <= i ==> {
                ||| 0x30 <= #[trigger] s[j] <= 0x39
                ||| 0x41 <= s[j] <= 0x5a
                ||| 0x61 <= s[j] <= 0x7a
                ||| s[j] == 0x5f
                ||| s[j] == 0x24
                ||| s[j] >= 0x80
            },
        forall|j: int|
            k <= j <= i && #[trigger] s[j] == 0x24 ==> !exists|m: int|
                0 <= m < s.len() && m != j && #[trigger] s[m] == 0x24 && forall|t: int|
                    j < t < m || m < t < j ==> {
                        ||| 0x30 <= #[trigger] s[t] <= 0x39
                        ||| 0x41 <= s[t] <= 0x5a
                        ||| 0x61 <= s[t] <= 0x7a
                        ||| s[t] == 0x5f
                        ||| s[t] == 0x24
                        ||| s[t] >= 0x80
                    },
    ensures
        search::splits_identifier(s, i),
{
    assert forall|j: int| 0 <= j < s.len() && s[j] == 0x24 implies (
    #[trigger] search::is_dollar_quote(s, j) <==> exists|m: int|
        0 <= m < s.len() && m != j && #[trigger] s[m] == 0x24 && forall|t: int|
            j < t < m || m < t < j ==> {
                ||| 0x30 <= #[trigger] s[t] <= 0x39
                ||| 0x41 <= s[t] <= 0x5a
                ||| 0x61 <= s[t] <= 0x7a
                ||| s[t] == 0x5f
                ||| s[t] == 0x24
                ||| s[t] >= 0x80
            }) by {
        quotes_are_joined(s, j);
    }
    assert forall|j: int| k <= j <= i implies #[trigger] search::is_word_byte(s, j) by {
        assert(search::is_identifier_byte(s[j]));
        if search::is_dollar_quote(s, j) {
            assert(s[j] == 0x24);
        }
    }
    if k > 0 {
        if s[k - 1] == 0x24 {
            assert(search::is_dollar_quote(s, k - 1));
        } else {
            assert(!search::is_identifier_byte(s[k - 1]));
        }
    }
    assert(search::is_word_byte(s, i - 1));
    the_run_begins_there(s, k, i - 1);
}

proof fn quotes_are_joined(s: Seq<u8>, j: int)
    requires
        0 <= j < s.len(),
        s[j] == 0x24,
    ensures
        search::is_dollar_quote(s, j) <==> exists|m: int|
            0 <= m < s.len() && m != j && #[trigger] s[m] == 0x24 && forall|t: int|
                j < t < m || m < t < j ==> {
                    ||| 0x30 <= #[trigger] s[t] <= 0x39
                    ||| 0x41 <= s[t] <= 0x5a
                    ||| 0x61 <= s[t] <= 0x7a
                    ||| s[t] == 0x5f
                    ||| s[t] == 0x24
                    ||| s[t] >= 0x80
                },
{
    assert forall|m: int| #![trigger s[m]] search::connected(s, j, m) <==> forall|t: int|
        j < t < m || m < t < j ==> {
            ||| 0x30 <= #[trigger] s[t] <= 0x39
            ||| 0x41 <= s[t] <= 0x5a
            ||| 0x61 <= s[t] <= 0x7a
            ||| s[t] == 0x5f
            ||| s[t] == 0x24
            ||| s[t] >= 0x80
        } by {
        if search::connected(s, j, m) {
            assert forall|t: int| j < t < m || m < t < j implies {
                ||| 0x30 <= #[trigger] s[t] <= 0x39
                ||| 0x41 <= s[t] <= 0x5a
                ||| 0x61 <= s[t] <= 0x7a
                ||| s[t] == 0x5f
                ||| s[t] == 0x24
                ||| s[t] >= 0x80
            } by {
                assert(search::is_identifier_byte(s[t]));
            }
        }
    }
    if search::is_dollar_quote(s, j) {
        let m = choose|m: int|
            0 <= m < s.len() && m != j && #[trigger] s[m] == 0x24 && search::connected(s, j, m);
        assert(s[m] == 0x24);
    }
}

proof fn the_run_begins_there(s: Seq<u8>, k: int, n: int)
    requires
        0 <= k <= n,
        k > 0 ==> !search::is_word_byte(s, k - 1),
        forall|j: int| k <= j <= n ==> #[trigger] search::is_word_byte(s, j),
    ensures
        search::run_start(s, n) == k,
    decreases n,
{
    if k < n {
        assert(search::is_word_byte(s, n - 1));
        the_run_begins_there(s, k, n - 1);
    }
}

/// Nothing else hides a word: a position inside an identifier has in front of it the
/// byte with which the identifier begins, and from there on nothing but bytes that go on
/// with it.
pub proof fn nothing_but_identifiers_hides_words(s: Seq<u8>, i: int)
    requires
        search::splits_identifier(s, i),
    ensures
        0 < i < s.len(),
        exists|k: int|
            0 <= k < i && {
                ||| 0x41 <= #[trigger] s[k] <= 0x5a
                ||| 0x61 <= s[k] <= 0x7a
                ||| s[k] == 0x5f
                ||| s[k] >= 0x80
            } && (
            k > 0 ==> s[k - 1] == 0x24 && (exists|m: int|
                0 <= m < s.len() && m != k - 1 && #[trigger] s[m] == 0x24 && forall|t: int|
                    k - 1 < t < m || m < t < k - 1 ==> {
                        ||| 0x30 <= #[trigger] s[t] <= 0x39
                        ||| 0x41 <= s[t] <= 0x5a
                        ||| 0x61 <= s[t] <= 0x7a
                        ||| s[t] == 0x5f
                        ||| s[t] == 0x24
                        ||| s[t] >= 0x80
                    }) || !{
                ||| 0x30 <= s[k - 1] <= 0x39
                ||| 0x41 <= s[k - 1] <= 0x5a
                ||| 0x61 <= s[k - 1] <= 0x7a
                ||| s[k - 1] == 0x5f
                ||| s[k - 1] == 0x24
                ||| s[k - 1] >= 0x80
            }) && (
            forall|j: int|
                k <= j <= i ==> {
                    ||| 0x30 <= #[trigger] s[j] <= 0x39
                    ||| 0x41 <= s[j] <= 0x5a
                    ||| 0x61 <= s[j] <= 0x7a
                    ||| s[j] == 0x5f
                    ||| s[j] == 0x24
                    ||| s[j] >= 0x80
                }) && (
            forall|j: int|
                k <= j <= i && #[trigger] s[j] == 0x24 ==> !exists|m: int|
                    0 <= m < s.len() && m != j && #[trigger] s[m] == 0x24 && forall|t: int|
                        j < t < m || m < t < j ==> {
                            ||| 0x30 <= #[trigger] s[t] <= 0x39
                            ||| 0x41 <= s[t] <= 0x5a
                            ||| 0x61 <= s[t] <= 0x7a
                            ||| s[t] == 0x5f
                            ||| s[t] == 0x24
                            ||| s[t] >= 0x80
                        }),
{
    the_run_is_whole(s, i - 1);
    let k = search::run_start(s, i - 1);
    assert(search::starts_identifier(s[k]));
    assert forall|j: int| k <= j <= i implies search::is_identifier_byte(#[trigger] s[j]) by {
        assert(search::is_word_byte(s, j));
    }
    assert forall|j: int| k <= j <= i && #[trigger] s[j] == 0x24 implies !exists|m: int|
        0 <= m < s.len() && m != j && #[trigger] s[m] == 0x24 && forall|t: int|
            j < t < m || m < t < j ==> {
                ||| 0x30 <= #[trigger] s[t] <= 0x39
                ||| 0x41 <= s[t] <= 0x5a
                ||| 0x61 <= s[t] <= 0x7a
                ||| s[t] == 0x5f
                ||| s[t] == 0x24
                ||| s[t] >= 0x80
            } by {
        assert(search::is_word_byte(s, j));
        quotes_are_joined(s, j);
    }
    if k > 0 {
        assert(!search::is_word_byte(s, k - 1));
        if s[k - 1] == 0x24 {
            quotes_are_joined(s, k - 1);
        }
    }
}

proof fn the_run_is_whole(s: Seq<u8>, n: int)
    requires
        0 <= n,
        search::is_word_byte(s, n),
    ensures
        0 <= search::run_start(s, n) <= n,
        forall|j: int| search::run_start(s, n) <= j <= n ==> #[trigger] search::is_word_byte(s, j),
        search::run_start(s, n) > 0 ==> !search::is_word_byte(s, search::run_start(s, n) - 1),
    decreases n,
{
    if n > 0 && search::is_word_byte(s, n - 1) {
        the_run_is_whole(s, n - 1);
    }
}

/// A dollar quote hides nothing: no word is hidden directly in front of, or directly
/// behind, either dollar of `$$` or `$tag$`.
pub proof fn a_dollar_quote_hides_nothing(s: Seq<u8>, i: int, j: int)
    requires
        0 <= i < j < s.len(),
        s[i] == 0x24,
        s[j] == 0x24,
        forall|k: int|
            i < k < j ==> {
                ||| 0x30 <= #[trigger] s[k] <= 0x39
                ||| 0x41 <= s[k] <= 0x5a
                ||| 0x61 <= s[k] <= 0x7a
                ||| s[k] == 0x5f
                ||| s[k] == 0x24
                ||| s[k] >= 0x80
            },
    ensures
        !search::splits_identifier(s, i),
        !search::splits_identifier(s, i + 1),
        !search::splits_identifier(s, j),
        !search::splits_identifier(s, j + 1),
{
    search::dollar_quotes_hide_no_word(s, i, j);
}

/// A byte that is no part of an identifier hides nothing on either side of it.
pub proof fn other_bytes_hide_nothing(s: Seq<u8>, i: int)
    requires
        0 <= i < s.len(),
        !{
            ||| 0x30 <= s[i] <= 0x39
            ||| 0x41 <= s[i] <= 0x5a
            ||| 0x61 <= s[i] <= 0x7a
            ||| s[i] == 0x5f
            ||| s[i] == 0x24
            ||| s[i] >= 0x80
        },
    ensures
        !search::splits_identifier(s, i),
        !search::splits_identifier(s, i + 1),
{
}

} // verus!
