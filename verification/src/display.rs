//! Human-facing rendering helpers: shortened identifiers, relative-age
//! strings computed from `YYYY-MM-DD HH:MM:SS` timestamps, and byte-count
//! labels.

use crate::civil::{civil_fields_in_range, civil_to_epoch, epoch_of_civil, MAX_CIVIL_EPOCH};
use crate::text::{
    all_ascii, all_digits, dec_str, digits_val, int_dec, is_dec_digit, lemma_pow10_values, pow10,
    push_char, push_dec_pad,
};
use vstd::arithmetic::div_mod::{lemma_div_is_ordered, lemma_fundamental_div_mod};
use vstd::prelude::*;
use vstd::string::{StrSliceExecFns, StringExecFns};

verus! {

/// Concrete values of `10^k` for the small exponents the parser needs.
proof fn lemma_pow10_small(k: nat)
    requires
        k <= 4,
    ensures
        1 <= pow10(k) <= 10000,
{
    lemma_pow10_values();
    assert(k == 0 || k == 1 || k == 2 || k == 3 || k == 4);
}

/// A run of decimal digits denotes a value below `10^len`.
proof fn lemma_digits_val_bound(s: Seq<char>)
    requires
        all_digits(s),
    ensures
        0 <= digits_val(s) < pow10(s.len()),
    decreases s.len(),
{
    if s.len() > 0 {
        assert(all_digits(s.drop_last()));
        lemma_digits_val_bound(s.drop_last());
        assert(is_dec_digit(s.last()));
    }
}

/// `max(a - b, 0)`.
pub open spec fn sat_sub(a: int, b: int) -> int {
    if a >= b {
        a - b
    } else {
        0
    }
}

/// The first 8 characters of an identifier; a shorter identifier whole.
pub open spec fn short_view(s: Seq<char>) -> Seq<char> {
    if s.len() <= 8 {
        s
    } else {
        s.subrange(0, 8)
    }
}

/// Returns the first 8 characters of a UUID-like identifier (in the style
/// of shortened container or commit ids); an identifier of at most 8
/// characters is returned whole.
pub fn short_id(id: &str) -> (r: &str)
    ensures
        r@ == short_view(id@),
{
    let n = id.unicode_len();
    if n <= 8 {
        id
    } else {
        id.substring_char(0, 8)
    }
}

/// Parse the decimal digit run `s[start..end]` (at most four characters)
/// into its value; `None` when any character in the range is not a digit.
fn parse_field(s: &str, start: usize, end: usize) -> (r: Option<u64>)
    requires
        start <= end,
        end <= s@.len(),
        end - start <= 4,
    ensures
        ({
            let sub = s@.subrange(start as int, end as int);
            if all_digits(sub) {
                r matches Some(v) && v as int == digits_val(sub)
            } else {
                r is None
            }
        }),
{
    let ghost sub = s@.subrange(start as int, end as int);
    let mut i = start;
    let mut acc: u64 = 0;
    while i < end
        invariant
            start <= i <= end,
            end <= s@.len(),
            end - start <= 4,
            sub == s@.subrange(start as int, end as int),
            all_digits(s@.subrange(start as int, i as int)),
            acc as int == digits_val(s@.subrange(start as int, i as int)),
            (acc as int) < pow10((i - start) as nat),
        decreases end - i,
    {
        let c = s.get_char(i);
        let cv = c as u32;
        if cv < 48 || cv > 57 {
            proof {
                assert(sub[i - start] == s@[i as int]);
                assert(!all_digits(sub));
            }
            return None;
        }
        proof {
            let prefix = s@.subrange(start as int, i as int);
            let next = s@.subrange(start as int, i as int + 1);
            assert(next.drop_last() =~= prefix);
            assert(next.last() == s@[i as int]);
            assert(pow10(((i + 1) - start) as nat) == 10 * pow10((i - start) as nat));
            lemma_pow10_small((i - start) as nat);
        }
        acc = acc * 10 + (cv - 48) as u64;
        i = i + 1;
    }
    proof {
        assert(sub =~= s@.subrange(start as int, i as int));
    }
    Some(acc)
}

/// Whether `v` is 19 ASCII characters with decimal digits in every digit
/// position of the `YYYY-MM-DD HH:MM:SS` pattern.  Since the characters
/// are ASCII, 19 characters are exactly 19 bytes; a multi-byte character
/// anywhere is rejected.  The five separator positions may hold any ASCII
/// character, mirroring the permissiveness of a field-wise parse.
pub open spec fn datetime_shape_ok(v: Seq<char>) -> bool {
    &&& v.len() == 19
    &&& all_ascii(v)
    &&& all_digits(v.subrange(0, 4))
    &&& all_digits(v.subrange(5, 7))
    &&& all_digits(v.subrange(8, 10))
    &&& all_digits(v.subrange(11, 13))
    &&& all_digits(v.subrange(14, 16))
    &&& all_digits(v.subrange(17, 19))
}

/// The six numeric fields of a well-shaped timestamp string.
pub open spec fn datetime_fields(v: Seq<char>) -> (int, int, int, int, int, int) {
    (
        digits_val(v.subrange(0, 4)),
        digits_val(v.subrange(5, 7)),
        digits_val(v.subrange(8, 10)),
        digits_val(v.subrange(11, 13)),
        digits_val(v.subrange(14, 16)),
        digits_val(v.subrange(17, 19)),
    )
}

/// Whether a timestamp string parses to an epoch-second count: the shape
/// is right, the fields pass the syntactic range check, and the instant
/// does not lie before 1970.
pub open spec fn datetime_parse_ok(v: Seq<char>) -> bool {
    let f = datetime_fields(v);
    &&& datetime_shape_ok(v)
    &&& civil_fields_in_range(f.0, f.1, f.2, f.3, f.4, f.5)
    &&& !(f.0 == 0 && f.1 <= 2)
    &&& epoch_of_civil(f.0, f.1, f.2, f.3, f.4, f.5) >= 0
}

/// The epoch-second count denoted by a timestamp string that parses.
pub open spec fn datetime_epoch(v: Seq<char>) -> int {
    let f = datetime_fields(v);
    epoch_of_civil(f.0, f.1, f.2, f.3, f.4, f.5)
}

/// With a four-digit year, the epoch formula stays far below `u64::MAX`.
proof fn lemma_epoch_of_civil_fits(y: int, m: int, d: int, hh: int, mm: int, ss: int)
    requires
        civil_fields_in_range(y, m, d, hh, mm, ss),
        0 <= y <= 9999,
        y >= 1 || m >= 3,
    ensures
        epoch_of_civil(y, m, d, hh, mm, ss) <= MAX_CIVIL_EPOCH + 86400 * 4,
{
    let yy = if m <= 2 { y - 1 } else { y };
    let mp = if m <= 2 { m + 9 } else { m - 3 };
    let era = yy / 400;
    let yoe = yy % 400;
    assert(yy >= 0);
    lemma_fundamental_div_mod(yy, 400);
    vstd::arithmetic::div_mod::lemma_div_pos_is_pos(yy, 400);
    assert(era <= 24) by {
        lemma_div_is_ordered(yy, 9999, 400);
    }
    assert(0 <= yoe < 400);
    assert(yoe / 4 <= 99) by {
        lemma_div_is_ordered(yoe, 399, 4);
    }
    assert(0 <= mp <= 11);
    assert((153 * mp + 2) / 5 <= 337) by {
        lemma_div_is_ordered(153 * mp + 2, 1685, 5);
    }
    assert((153 * mp + 2) / 5 >= 0) by {
        lemma_div_is_ordered(0, 153 * mp + 2, 5);
    }
    assert(365 * yoe <= 365 * 399);
    assert(era * 146097 <= 24 * 146097);
    assert(era * 146097 >= 0);
}

/// Convert a `YYYY-MM-DD HH:MM:SS` UTC timestamp string to seconds since
/// the UNIX epoch.  Returns `None` when the string is not 19 ASCII
/// characters (that is, 19 bytes) long, a digit position holds a
/// non-digit, a field is out of range, or the instant lies before 1970.
pub fn parse_datetime_to_epoch(s: &str) -> (r: Option<u64>)
    ensures
        ({
            if datetime_parse_ok(s@) {
                r matches Some(e) && e as int == datetime_epoch(s@)
            } else {
                r is None
            }
        }),
{
    let n = s.unicode_len();
    if n != 19 {
        return None;
    }
    let mut i: usize = 0;
    while i < 19
        invariant
            i <= 19,
            s@.len() == 19,
            forall|j: int| 0 <= j < i ==> (#[trigger] s@[j] as u32) < 128,
        decreases 19 - i,
    {
        let c = s.get_char(i);
        if c as u32 >= 128 {
            proof {
                assert(!all_ascii(s@));
            }
            return None;
        }
        i = i + 1;
    }
    proof {
        assert(all_ascii(s@));
    }
    let year = match parse_field(s, 0, 4) {
        Some(v) => v,
        None => {
            return None;
        },
    };
    let month = match parse_field(s, 5, 7) {
        Some(v) => v,
        None => {
            return None;
        },
    };
    let day = match parse_field(s, 8, 10) {
        Some(v) => v,
        None => {
            return None;
        },
    };
    let hour = match parse_field(s, 11, 13) {
        Some(v) => v,
        None => {
            return None;
        },
    };
    let minute = match parse_field(s, 14, 16) {
        Some(v) => v,
        None => {
            return None;
        },
    };
    let second = match parse_field(s, 17, 19) {
        Some(v) => v,
        None => {
            return None;
        },
    };
    proof {
        lemma_digits_val_bound(s@.subrange(0, 4));
        lemma_pow10_small(4);
        if civil_fields_in_range(year as int, month as int, day as int, hour as int, minute as int,
            second as int) && !(year == 0 && month <= 2) {
            lemma_epoch_of_civil_fits(year as int, month as int, day as int, hour as int,
                minute as int, second as int);
        }
    }
    civil_to_epoch(year, month, day, hour, minute, second)
}

/// The relative-age label for an elapsed second count: seconds below one
/// minute, whole minutes below one hour, whole hours below one day, whole
/// days from there on.  A boundary value belongs to the coarser bucket.
pub open spec fn age_label(secs: nat) -> Seq<char> {
    if secs < 60 {
        dec_str(secs) + "s ago"@
    } else if secs < 3600 {
        dec_str(secs / 60) + "m ago"@
    } else if secs < 86400 {
        dec_str(secs / 3600) + "h ago"@
    } else {
        dec_str(secs / 86400) + "d ago"@
    }
}

/// Format an elapsed duration in seconds as a coarse `"N unit ago"`
/// string.
pub fn format_duration_ago(secs: u64) -> (r: String)
    ensures
        r@ == age_label(secs as nat),
{
    let mut out = String::new();
    if secs < 60 {
        push_dec_pad(&mut out, secs, 1);
        out.append("s ago");
    } else if secs < 3600 {
        push_dec_pad(&mut out, secs / 60, 1);
        out.append("m ago");
    } else if secs < 86400 {
        push_dec_pad(&mut out, secs / 3600, 1);
        out.append("h ago");
    } else {
        push_dec_pad(&mut out, secs / 86400, 1);
        out.append("d ago");
    }
    proof {
        assert(out@ =~= age_label(secs as nat));
    }
    out
}

/// The relative-age rendering of a timestamp string at time `now`: the
/// age label when the string parses, the string itself when it does not.
pub open spec fn relative_age_view(v: Seq<char>, now: int) -> Seq<char> {
    if datetime_parse_ok(v) {
        age_label(sat_sub(now, datetime_epoch(v)) as nat)
    } else {
        v
    }
}

/// Parse a `YYYY-MM-DD HH:MM:SS` timestamp and render how long before
/// `now` it lies, as a coarse `"N unit ago"` string.  A string that does
/// not parse is returned unchanged, so that a cosmetic age display never
/// blocks other output.
pub fn relative_age(datetime: &str, now: u64) -> (r: String)
    ensures
        r@ == relative_age_view(datetime@, now as int),
{
    let epoch = match parse_datetime_to_epoch(datetime) {
        Some(e) => e,
        None => {
            return datetime.to_owned();
        },
    };
    let diff = if now >= epoch {
        now - epoch
    } else {
        0
    };
    format_duration_ago(diff)
}

/// One binary gigabyte and one binary megabyte, in bytes.
pub const BYTES_PER_GB: u64 = 1_073_741_824;

pub const BYTES_PER_MB: u64 = 1_048_576;

/// The label for a byte count: whole binary gigabytes as `"NGB"`, whole
/// binary megabytes as `"NMB"`, anything else (including negative counts)
/// as the plain decimal value.
pub open spec fn bytes_label(b: int) -> Seq<char> {
    if b < 0 {
        int_dec(b)
    } else if b >= BYTES_PER_GB && b % (BYTES_PER_GB as int) == 0 {
        dec_str((b / (BYTES_PER_GB as int)) as nat) + "GB"@
    } else if b >= BYTES_PER_MB && b % (BYTES_PER_MB as int) == 0 {
        dec_str((b / (BYTES_PER_MB as int)) as nat) + "MB"@
    } else {
        dec_str(b as nat)
    }
}

/// Format a byte count with whole-gigabyte and whole-megabyte shortcuts.
pub fn format_bytes(bytes: i64) -> (r: String)
    ensures
        r@ == bytes_label(bytes as int),
{
    let mut out = String::new();
    if bytes < 0 {
        let mag = (-(bytes as i128)) as u64;
        push_char(&mut out, '-');
        push_dec_pad(&mut out, mag, 1);
        proof {
            assert(out@ =~= bytes_label(bytes as int));
        }
        return out;
    }
    let b = bytes as u64;
    if b >= BYTES_PER_GB && b % BYTES_PER_GB == 0 {
        push_dec_pad(&mut out, b / BYTES_PER_GB, 1);
        out.append("GB");
    } else if b >= BYTES_PER_MB && b % BYTES_PER_MB == 0 {
        push_dec_pad(&mut out, b / BYTES_PER_MB, 1);
        out.append("MB");
    } else {
        push_dec_pad(&mut out, b, 1);
    }
    proof {
        assert(out@ =~= bytes_label(bytes as int));
    }
    out
}

} // verus!
