//! Character-level string utilities: decimal rendering of integers,
//! lexicographic comparison, substring containment and case folding.
//!
//! The specification side works on `Seq<char>` views; the few operations
//! that need the standard library (pushing a character, comparing or
//! searching `&str`, Unicode lowercasing) are trusted wrappers whose
//! contracts state what the standard library documents.

use vstd::arithmetic::div_mod::{lemma_div_is_ordered, lemma_fundamental_div_mod};
use vstd::prelude::*;

verus! {

/// Decimal digit character for a value in `0..=9`.
pub open spec fn digit_char(v: int) -> char {
    ((v + 48) as u8) as char
}

/// The decimal digits of `n`, left-padded with zeros to at least
/// `min_len` characters.
pub open spec fn dec_pad(n: nat, min_len: nat) -> Seq<char>
    decreases n, min_len,
{
    if n < 10 && min_len <= 1 {
        seq![digit_char(n as int)]
    } else {
        dec_pad(n / 10, if min_len == 0 {
            0
        } else {
            (min_len - 1) as nat
        }).push(digit_char((n % 10) as int))
    }
}

/// The decimal digits of `n`, with no padding.
pub open spec fn dec_str(n: nat) -> Seq<char> {
    dec_pad(n, 1)
}

/// The decimal digits of `v`, with a leading minus sign when negative.
pub open spec fn int_dec(v: int) -> Seq<char> {
    if v < 0 {
        seq!['-'] + dec_str((-v) as nat)
    } else {
        dec_str(v as nat)
    }
}

/// Relies on `String::push`: appends exactly one character.
#[verifier::external_body]
pub(crate) fn push_char(s: &mut String, c: char)
    ensures
        final (s)@ == old(s)@.push(c),
{
    s.push(c);
}

/// Append the decimal digits of `n`, zero-padded to at least `min_len`
/// characters.
pub fn push_dec_pad(s: &mut String, n: u64, min_len: usize)
    ensures
        final (s)@ == old(s)@ + dec_pad(n as nat, min_len as nat),
    decreases n, min_len,
{
    if n < 10 && min_len <= 1 {
        let c = (48 + n as u8) as char;
        push_char(s, c);
        proof {
            assert(final (s)@ =~= old(s)@ + dec_pad(n as nat, min_len as nat));
        }
    } else {
        let next_len: usize = if min_len == 0 {
            0
        } else {
            min_len - 1
        };
        push_dec_pad(s, n / 10, next_len);
        let c = (48 + (n % 10) as u8) as char;
        push_char(s, c);
        proof {
            assert(final (s)@ =~= old(s)@ + dec_pad(n as nat, min_len as nat));
        }
    }
}

/// Append the decimal rendering of a signed value, with a leading minus
/// sign when it is negative.
pub fn push_int(s: &mut String, v: i64)
    ensures
        final (s)@ == old(s)@ + int_dec(v as int),
{
    if v < 0 {
        let mag = (-(v as i128)) as u64;
        push_char(s, '-');
        push_dec_pad(s, mag, 1);
        proof {
            assert(final (s)@ =~= old(s)@ + int_dec(v as int));
        }
    } else {
        push_dec_pad(s, v as u64, 1);
    }
}

/// Whether `c` is an ASCII decimal digit.
pub open spec fn is_dec_digit(c: char) -> bool {
    48 <= c as u32 <= 57
}

/// `10^n`.
pub open spec fn pow10(n: nat) -> int
    decreases n,
{
    if n == 0 {
        1
    } else {
        10 * pow10((n - 1) as nat)
    }
}

/// The concrete small powers of ten that the parsers and padders need.
pub proof fn lemma_pow10_values()
    ensures
        pow10(0) == 1,
        pow10(1) == 10,
        pow10(2) == 100,
        pow10(3) == 1000,
        pow10(4) == 10000,
{
    reveal_with_fuel(pow10, 6);
}

/// The digit character of a value in `0..=9` is a decimal digit whose code
/// point is 48 plus the value.
proof fn lemma_digit_char_value(v: int)
    requires
        0 <= v <= 9,
    ensures
        is_dec_digit(digit_char(v)),
        digit_char(v) as u32 == 48 + v,
{
}

/// Every character of a padded decimal rendering is a digit.
pub proof fn lemma_dec_pad_digits(n: nat, min_len: nat)
    ensures
        all_digits(dec_pad(n, min_len)),
    decreases n, min_len,
{
    if n < 10 && min_len <= 1 {
        lemma_digit_char_value(n as int);
    } else {
        let next: nat = if min_len == 0 {
            0
        } else {
            (min_len - 1) as nat
        };
        lemma_dec_pad_digits(n / 10, next);
        lemma_digit_char_value((n % 10) as int);
        let prefix = dec_pad(n / 10, next);
        let whole = dec_pad(n, min_len);
        assert(whole == prefix.push(digit_char((n % 10) as int)));
        assert forall|i: int| 0 <= i < whole.len() implies is_dec_digit(whole[i]) by {
            if i < prefix.len() {
                assert(whole[i] == prefix[i]);
            }
        }
    }
}

/// The padded decimal rendering of `n` has exactly `w` characters when
/// `n < 10^w`.
pub proof fn lemma_dec_pad_len(n: nat, w: nat)
    requires
        1 <= w,
        n < pow10(w),
    ensures
        dec_pad(n, w).len() == w,
    decreases n, w,
{
    if n < 10 && w <= 1 {
    } else {
        if w == 1 {
            lemma_pow10_values();
            assert(false);
        }
        assert(pow10(w) == 10 * pow10((w - 1) as nat));
        assert(n / 10 < pow10((w - 1) as nat)) by {
            lemma_div_is_ordered(n as int, 10 * pow10((w - 1) as nat) - 1, 10);
            vstd::arithmetic::div_mod::lemma_fundamental_div_mod_converse(
                10 * pow10((w - 1) as nat) - 1,
                10,
                pow10((w - 1) as nat) - 1,
                9,
            );
        }
        lemma_dec_pad_len(n / 10, (w - 1) as nat);
    }
}

/// Parsing a padded decimal rendering gives back the value.
pub proof fn lemma_dec_pad_val(n: nat, min_len: nat)
    ensures
        digits_val(dec_pad(n, min_len)) == n,
    decreases n, min_len,
{
    if n < 10 && min_len <= 1 {
        lemma_digit_char_value(n as int);
        let whole = dec_pad(n, min_len);
        assert(whole.drop_last() =~= Seq::<char>::empty());
        assert(digits_val(Seq::<char>::empty()) == 0);
        assert(digits_val(whole) == digits_val(whole.drop_last()) * 10 + (whole.last() as u32
            - 48));
    } else {
        let next: nat = if min_len == 0 {
            0
        } else {
            (min_len - 1) as nat
        };
        lemma_dec_pad_val(n / 10, next);
        lemma_digit_char_value((n % 10) as int);
        let prefix = dec_pad(n / 10, next);
        let whole = dec_pad(n, min_len);
        assert(whole == prefix.push(digit_char((n % 10) as int)));
        assert(whole.drop_last() =~= prefix);
        assert(whole.last() == digit_char((n % 10) as int));
        assert(whole.len() > 0);
        assert(digits_val(whole) == digits_val(whole.drop_last()) * 10 + (whole.last() as u32
            - 48));
        assert(digits_val(whole.drop_last()) == n / 10);
        assert(whole.last() as u32 - 48 == n % 10);
        lemma_fundamental_div_mod(n as int, 10);
        assert(n == 10 * (n / 10) + n % 10);
    }
}

/// Whether every character of `s` is an ASCII decimal digit.
pub open spec fn all_digits(s: Seq<char>) -> bool {
    forall|i: int| 0 <= i < s.len() ==> is_dec_digit(s[i])
}

/// Whether every character of `s` is ASCII (code point below 128).  For
/// such a sequence the character count equals the UTF-8 byte count.
pub open spec fn all_ascii(s: Seq<char>) -> bool {
    forall|i: int| 0 <= i < s.len() ==> (#[trigger] s[i] as u32) < 128
}

/// The number denoted by a sequence of decimal digit characters, most
/// significant first.
pub open spec fn digits_val(s: Seq<char>) -> int
    decreases s.len(),
{
    if s.len() == 0 {
        0
    } else {
        digits_val(s.drop_last()) * 10 + (s.last() as u32 - 48)
    }
}

/// Strict lexicographic order on character sequences, by code point.
pub open spec fn lex_lt(a: Seq<char>, b: Seq<char>) -> bool
    decreases a.len(),
{
    if b.len() == 0 {
        false
    } else if a.len() == 0 {
        true
    } else if a[0] == b[0] {
        lex_lt(a.skip(1), b.skip(1))
    } else {
        (a[0] as u32) < (b[0] as u32)
    }
}

/// A concatenation contains its right part as a contiguous run.
pub proof fn lemma_concat_contains_suffix(a: Seq<char>, b: Seq<char>)
    ensures
        contains_seq(a + b, b),
{
    assert((a + b).subrange(a.len() as int, a.len() as int + b.len() as int) =~= b);
}

/// A run inside the left part of a concatenation is a run of the whole.
pub proof fn lemma_concat_contains_left(a: Seq<char>, b: Seq<char>, n: Seq<char>)
    requires
        contains_seq(a, n),
    ensures
        contains_seq(a + b, n),
{
    let i = choose|i: int|
        0 <= i && i + n.len() <= a.len() && #[trigger] a.subrange(i, i + n.len()) == n;
    assert((a + b).subrange(i, i + n.len()) =~= a.subrange(i, i + n.len()));
}

/// The lexicographic order is irreflexive.
pub proof fn lemma_lex_irreflexive(a: Seq<char>)
    ensures
        !lex_lt(a, a),
    decreases a.len(),
{
    if a.len() > 0 {
        lemma_lex_irreflexive(a.skip(1));
    }
}

/// The lexicographic order is asymmetric.
pub proof fn lemma_lex_asymmetric(a: Seq<char>, b: Seq<char>)
    requires
        lex_lt(a, b),
    ensures
        !lex_lt(b, a),
    decreases a.len(),
{
    if a.len() > 0 && b.len() > 0 && a[0] == b[0] {
        lemma_lex_asymmetric(a.skip(1), b.skip(1));
    }
}

/// Comparing two concatenations whose left parts have the same length
/// reduces to comparing the left parts, or the right parts when the left
/// parts coincide.
pub proof fn lemma_lex_concat(x: Seq<char>, y: Seq<char>, u: Seq<char>, v: Seq<char>)
    requires
        x.len() == y.len(),
    ensures
        lex_lt(x + u, y + v) == if x == y {
            lex_lt(u, v)
        } else {
            lex_lt(x, y)
        },
    decreases x.len(),
{
    if x.len() == 0 {
        assert(x =~= y);
        assert(x + u =~= u);
        assert(y + v =~= v);
    } else {
        assert((x + u)[0] == x[0]);
        assert((y + v)[0] == y[0]);
        assert((x + u).len() > 0 && (y + v).len() > 0);
        if x[0] == y[0] {
            assert((x + u).skip(1) =~= x.skip(1) + u);
            assert((y + v).skip(1) =~= y.skip(1) + v);
            lemma_lex_concat(x.skip(1), y.skip(1), u, v);
            if x.skip(1) == y.skip(1) {
                assert forall|i: int| 0 <= i < x.len() implies x[i] == y[i] by {
                    if i >= 1 {
                        assert(x.skip(1)[i - 1] == x[i]);
                        assert(y.skip(1)[i - 1] == y[i]);
                    }
                }
                assert(x =~= y);
            } else {
                assert(x != y) by {
                    if x == y {
                        assert(x.skip(1) =~= y.skip(1));
                    }
                }
            }
        } else {
            assert(x != y) by {
                if x == y {
                    assert(x[0] == y[0]);
                }
            }
        }
    }
}

/// For values below `10^w`, the lexicographic order of the `w`-wide
/// zero-padded decimal renderings is the numeric order.
pub proof fn lemma_dec_pad_order(a: nat, b: nat, w: nat)
    requires
        1 <= w,
        a < pow10(w),
        b < pow10(w),
    ensures
        lex_lt(dec_pad(a, w), dec_pad(b, w)) == (a < b),
    decreases w,
{
    lemma_digit_char_value((a % 10) as int);
    lemma_digit_char_value((b % 10) as int);
    lemma_fundamental_div_mod(a as int, 10);
    lemma_fundamental_div_mod(b as int, 10);
    if w == 1 {
        lemma_pow10_values();
        let sa = dec_pad(a, 1);
        let sb = dec_pad(b, 1);
        assert(sa == seq![digit_char(a as int)]);
        assert(sb == seq![digit_char(b as int)]);
        lemma_digit_char_value(a as int);
        lemma_digit_char_value(b as int);
        if sa[0] == sb[0] {
            assert(sa[0] as u32 == sb[0] as u32);
            assert(a == b);
            lemma_lex_irreflexive(sa);
        }
    } else {
        let wp = (w - 1) as nat;
        assert(pow10(w) == 10 * pow10(wp));
        assert(a / 10 < pow10(wp) && b / 10 < pow10(wp)) by {
            lemma_div_is_ordered(a as int, 10 * pow10(wp) - 1, 10);
            lemma_div_is_ordered(b as int, 10 * pow10(wp) - 1, 10);
            vstd::arithmetic::div_mod::lemma_fundamental_div_mod_converse(
                10 * pow10(wp) - 1,
                10,
                pow10(wp) - 1,
                9,
            );
        }
        let xa = dec_pad(a / 10, wp);
        let xb = dec_pad(b / 10, wp);
        let da = digit_char((a % 10) as int);
        let db = digit_char((b % 10) as int);
        lemma_dec_pad_len(a / 10, wp);
        lemma_dec_pad_len(b / 10, wp);
        assert(dec_pad(a, w) == xa.push(da));
        assert(dec_pad(b, w) == xb.push(db));
        assert(xa.push(da) =~= xa + seq![da]);
        assert(xb.push(db) =~= xb + seq![db]);
        lemma_lex_concat(xa, xb, seq![da], seq![db]);
        if xa == xb {
            lemma_dec_pad_val(a / 10, wp);
            lemma_dec_pad_val(b / 10, wp);
            assert(a / 10 == b / 10);
            // the last digits decide
            if da == db {
                assert(da as u32 == db as u32);
                assert(a == b);
                lemma_lex_irreflexive(seq![da]);
            } else {
                assert(lex_lt(seq![da], seq![db]) == ((da as u32) < (db as u32)));
            }
        } else {
            lemma_dec_pad_order(a / 10, b / 10, wp);
            assert(a / 10 != b / 10) by {
                lemma_dec_pad_val(a / 10, wp);
                lemma_dec_pad_val(b / 10, wp);
            }
            if a / 10 < b / 10 {
                assert(a < b);
            } else {
                assert(b / 10 < a / 10);
                assert(b < a);
            }
        }
    }
}

/// Relies on `str`'s `PartialOrd`: Rust compares strings by their UTF-8
/// bytes, and UTF-8 preserves code-point order, so the comparison is the
/// lexicographic order on the characters.
#[verifier::external_body]
pub(crate) fn str_lt(a: &str, b: &str) -> (r: bool)
    ensures
        r == lex_lt(a@, b@),
{
    a < b
}

/// Relies on `str`'s `PartialEq`: two strings are equal exactly when
/// their characters are.
#[verifier::external_body]
pub(crate) fn str_eq(a: &str, b: &str) -> (r: bool)
    ensures
        r == (a@ == b@),
{
    a == b
}

/// Whether `needle` occurs as a contiguous run of characters in `hay`.
pub open spec fn contains_seq(hay: Seq<char>, needle: Seq<char>) -> bool {
    exists|i: int|
        0 <= i && i + needle.len() <= hay.len() && #[trigger] hay.subrange(i, i + needle.len())
            == needle
}

/// Relies on `str::contains` with a `&str` pattern: it reports whether the
/// needle's bytes occur as a substring of the hay's bytes, which for UTF-8
/// happens exactly when the needle's characters occur as a contiguous run
/// of the hay's characters.
#[verifier::external_body]
pub(crate) fn str_contains(hay: &str, needle: &str) -> (r: bool)
    ensures
        r == contains_seq(hay@, needle@),
{
    hay.contains(needle)
}

/// The character sequence `str::to_lowercase` produces: a function of the
/// input characters alone.
pub uninterp spec fn lower_of(s: Seq<char>) -> Seq<char>;

/// Relies on `str::to_lowercase`: the result depends on the characters of
/// the input alone.
#[verifier::external_body]
pub(crate) fn to_lowercase(s: &str) -> (r: String)
    ensures
        r@ == lower_of(s@),
{
    s.to_lowercase()
}

} // verus!
