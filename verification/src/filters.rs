//! Filter criteria for bulk session and image commands: a record of
//! optional criteria is applied as a conjunction to a collection, and a
//! derived idle-duration criterion is resolved once per application into an
//! absolute timestamp threshold.

use crate::civil::{
    civil_of_epoch, epoch_to_datetime, lemma_civil_of_epoch_in_range, lemma_civil_of_epoch_monotone,
    lemma_epoch_round_trip, MAX_CIVIL_EPOCH,
};
use crate::display::{datetime_epoch, datetime_fields, datetime_parse_ok, datetime_shape_ok, sat_sub};
use crate::models::{Image, Session};
use crate::text::{
    all_ascii, contains_seq, dec_pad, is_dec_digit, lemma_concat_contains_suffix,
    lemma_dec_pad_digits, lemma_dec_pad_len, lemma_dec_pad_order, lemma_dec_pad_val,
    lemma_lex_asymmetric, lemma_lex_concat, lemma_lex_irreflexive, lemma_pow10_values, lex_lt,
    lower_of, pow10, push_char, push_dec_pad, str_contains, str_eq, str_lt, to_lowercase,
};
use vstd::prelude::*;
use vstd::string::{StrSliceExecFns, StringExecFns};

verus! {

/// Whether `c` is one of the duration unit letters.
pub open spec fn is_duration_unit(c: char) -> bool {
    c == 'd' || c == 'h' || c == 'm'
}

/// Seconds denoted by one duration unit letter.
pub open spec fn unit_secs(c: char) -> int {
    if c == 'd' {
        86400
    } else if c == 'h' {
        3600
    } else {
        60
    }
}

/// One left-to-right scan over a duration string: `cur` is the value of
/// the pending digit run (if one is open) and `total` the seconds
/// accumulated so far.  `None` marks a scan that fails: an unexpected
/// character, a unit with no digits before it, a value that leaves `u64`
/// range, or digits left over at the end.
pub open spec fn duration_scan(s: Seq<char>, cur: Option<int>, total: int) -> Option<int>
    decreases s.len(),
{
    if s.len() == 0 {
        if cur is Some {
            None
        } else {
            Some(total)
        }
    } else if is_dec_digit(s[0]) {
        let prev = match cur {
            Some(p) => p,
            None => 0,
        };
        duration_scan(s.skip(1), Some(prev * 10 + (s[0] as u32 - 48)), total)
    } else if is_duration_unit(s[0]) {
        match cur {
            None => None,
            Some(n) => {
                if n > u64::MAX as int || total + n * unit_secs(s[0]) > u64::MAX as int {
                    None
                } else {
                    duration_scan(s.skip(1), None, total + n * unit_secs(s[0]))
                }
            },
        }
    } else {
        None
    }
}

/// The seconds denoted by a compound duration string such as `1d12h30m`,
/// or `None` when the string is rejected: besides a failing scan, a total
/// of zero seconds is rejected, since a zero idle-time lower bound is
/// meaningless.  Repeated units accumulate rather than error.
pub open spec fn parse_duration_spec(s: Seq<char>) -> Option<int> {
    match duration_scan(s, None, 0) {
        None => None,
        Some(t) => if t == 0 {
            None
        } else {
            Some(t)
        },
    }
}

/// Build an error message from a fixed prefix and the offending input:
/// the input appears verbatim in the message.
fn duration_err(prefix: &str, s: &str) -> (r: String)
    ensures
        r@ == prefix@ + s@,
        contains_seq(r@, s@),
{
    let mut m = String::from_str(prefix);
    m.append(s);
    proof {
        lemma_concat_contains_suffix(prefix@, s@);
    }
    m
}

/// Parse a human-friendly duration string into total seconds.
///
/// Supports combinations like `30m`, `2h`, `1d`, `1h30m`, `1d12h`; repeats
/// of a unit are additive.  The error message names the offending input.
pub fn parse_duration(s: &str) -> (r: Result<u64, String>)
    ensures
        match parse_duration_spec(s@) {
            Some(t) => r matches Ok(v) && v as int == t,
            None => (r matches Err(m) && contains_seq(m@, s@)),
        },
{
    let n = s.unicode_len();
    let mut i: usize = 0;
    let mut total: u64 = 0;
    let mut started = false;
    let mut over = false;
    let mut val: u64 = 0;
    let ghost mut gcur: Option<int> = None;
    proof {
        assert(s@.skip(0) =~= s@);
    }
    while i < n
        invariant
            i <= n,
            n == s@.len(),
            started <==> gcur is Some,
            started && !over ==> (gcur matches Some(g) && g == val as int),
            started && over ==> (gcur matches Some(g) && g > u64::MAX as int),
            started ==> (gcur matches Some(g) && g >= 0),
            duration_scan(s@.skip(i as int), gcur, total as int) == duration_scan(s@, None, 0),
        decreases n - i,
    {
        let c = s.get_char(i);
        let cv = c as u32;
        proof {
            assert(s@.skip(i as int)[0] == s@[i as int]);
            assert(s@.skip(i as int).skip(1) =~= s@.skip(i as int + 1));
        }
        if 48 <= cv && cv <= 57 {
            let d = (cv - 48) as u64;
            proof {
                let prev: int = match gcur {
                    Some(g) => g,
                    None => 0,
                };
                gcur = Some(prev * 10 + (cv - 48));
            }
            if !started {
                started = true;
                over = false;
                val = d;
            } else if !over {
                match val.checked_mul(10) {
                    Some(v10) => match v10.checked_add(d) {
                        Some(v2) => {
                            val = v2;
                        },
                        None => {
                            over = true;
                        },
                    },
                    None => {
                        over = true;
                    },
                }
            }
        } else if c == 'd' || c == 'h' || c == 'm' {
            if !started || over {
                return Err(duration_err("invalid number in duration: ", s));
            }
            let mult: u64 = if c == 'd' {
                86400
            } else if c == 'h' {
                3600
            } else {
                60
            };
            match val.checked_mul(mult) {
                None => {
                    return Err(duration_err("duration overflow in ", s));
                },
                Some(add) => match total.checked_add(add) {
                    None => {
                        return Err(duration_err("duration overflow in ", s));
                    },
                    Some(t2) => {
                        total = t2;
                        started = false;
                        over = false;
                        val = 0;
                        proof {
                            gcur = None;
                        }
                    },
                },
            }
        } else {
            return Err(duration_err("unexpected character in duration ", s));
        }
        i = i + 1;
    }
    proof {
        assert(s@.skip(i as int) =~= Seq::<char>::empty());
    }
    if started {
        return Err(duration_err("trailing digits without unit in duration ", s));
    }
    if total == 0 {
        return Err(duration_err("duration must be greater than zero: ", s));
    }
    Ok(total)
}

/// The canonical zero-padded `YYYY-MM-DD HH:MM:SS` rendering of a civil
/// tuple.  The fixed-width zero padding makes the lexicographic order of
/// these strings coincide with chronological order.
pub open spec fn civil_label(y: int, m: int, d: int, hh: int, mm: int, ss: int) -> Seq<char> {
    dec_pad(y as nat, 4) + seq!['-'] + dec_pad(m as nat, 2) + seq!['-'] + dec_pad(d as nat, 2)
        + seq![' '] + dec_pad(hh as nat, 2) + seq![':'] + dec_pad(mm as nat, 2) + seq![':']
        + dec_pad(ss as nat, 2)
}

/// The canonical zero-padded label of an instant.
pub open spec fn epoch_label(e: int) -> Seq<char> {
    let c = civil_of_epoch(e);
    civil_label(c.0, c.1, c.2, c.3, c.4, c.5)
}

/// The timestamp string `secs` seconds before `now` (saturating at the
/// epoch), in the canonical zero-padded form.
pub open spec fn utc_minus_label(now: int, secs: int) -> Seq<char> {
    epoch_label(sat_sub(now, secs))
}

/// Return the UTC time `secs` seconds before `now`, formatted as
/// `YYYY-MM-DD HH:MM:SS`.
pub fn format_utc_minus(now: u64, secs: u64) -> (r: String)
    ensures
        r@ == utc_minus_label(now as int, secs as int),
{
    let target = if now >= secs {
        now - secs
    } else {
        0
    };
    let (y, mo, d, hh, mi, ss) = epoch_to_datetime(target);
    let mut out = String::new();
    push_dec_pad(&mut out, y, 4);
    push_char(&mut out, '-');
    push_dec_pad(&mut out, mo, 2);
    push_char(&mut out, '-');
    push_dec_pad(&mut out, d, 2);
    push_char(&mut out, ' ');
    push_dec_pad(&mut out, hh, 2);
    push_char(&mut out, ':');
    push_dec_pad(&mut out, mi, 2);
    push_char(&mut out, ':');
    push_dec_pad(&mut out, ss, 2);
    proof {
        assert(out@ =~= utc_minus_label(now as int, secs as int));
    }
    out
}

/// The view of an optional string.
pub open spec fn opt_view(o: Option<String>) -> Option<Seq<char>> {
    match o {
        Some(s) => Some(s@),
        None => None,
    }
}

/// Shared filter options for bulk session commands.
#[derive(Clone, Debug)]
pub struct SessionFilters {
    /// Filter by session status (case-insensitive).
    pub status: Option<String>,
    /// Filter by image ID (exact match).
    pub image: Option<String>,
    /// Filter by user ID (exact match).
    pub user: Option<String>,
    /// Filter by hostname (exact match).
    pub host: Option<String>,
    /// Only sessions created before this datetime (`YYYY-MM-DD HH:MM:SS`).
    pub created_before: Option<String>,
    /// Only sessions created after this datetime (`YYYY-MM-DD HH:MM:SS`).
    pub created_after: Option<String>,
    /// Only sessions whose keepalive date lies before this datetime.
    pub idle_since: Option<String>,
    /// Only sessions idle for at least this duration (e.g. `30m`, `1h30m`).
    pub idle_for: Option<String>,
}

impl Default for SessionFilters {
    /// The all-unset criteria record.
    fn default() -> (r: Self)
        ensures
            r.spec_is_empty(),
    {
        SessionFilters {
            status: None,
            image: None,
            user: None,
            host: None,
            created_before: None,
            created_after: None,
            idle_since: None,
            idle_for: None,
        }
    }
}

/// Whether a session satisfies the conjunction of all set criteria, with
/// `thr` the resolved idle-duration threshold (if one is set).  A missing
/// record field never satisfies an active criterion.
pub open spec fn session_matches(f: SessionFilters, s: Session, thr: Option<Seq<char>>) -> bool {
    &&& (f.status matches Some(q) ==> (s.operational_status matches Some(v) && lower_of(v@)
        == lower_of(q@)))
    &&& (f.image matches Some(q) ==> (s.image_id matches Some(v) && v@ == q@))
    &&& (f.user matches Some(q) ==> (s.user_id matches Some(v) && v@ == q@))
    &&& (f.host matches Some(q) ==> (s.hostname matches Some(v) && v@ == q@))
    &&& (f.created_before matches Some(q) ==> (s.created_date matches Some(v) && lex_lt(v@, q@)))
    &&& (f.created_after matches Some(q) ==> (s.created_date matches Some(v) && lex_lt(q@, v@)))
    &&& (f.idle_since matches Some(q) ==> (s.keepalive_date matches Some(v) && lex_lt(v@, q@)))
    &&& (thr matches Some(t) ==> (s.keepalive_date matches Some(v) && lex_lt(v@, t)))
}

/// The resolved idle-duration threshold of a criteria record: `None` when
/// the duration string is rejected, `Some(None)` when no idle-duration
/// criterion is set, and `Some(Some(t))` for the threshold timestamp `t`.
pub open spec fn idle_threshold(f: SessionFilters, now: int) -> Option<Option<Seq<char>>> {
    match f.idle_for {
        None => Some(None),
        Some(d) => match parse_duration_spec(d@) {
            None => None,
            Some(secs) => Some(Some(utc_minus_label(now, secs))),
        },
    }
}

impl SessionFilters {
    /// Whether no criterion is set.
    pub open spec fn spec_is_empty(self) -> bool {
        &&& self.status is None
        &&& self.image is None
        &&& self.user is None
        &&& self.host is None
        &&& self.created_before is None
        &&& self.created_after is None
        &&& self.idle_since is None
        &&& self.idle_for is None
    }

    /// Returns true when no filters are set.
    pub fn is_empty(&self) -> (r: bool)
        ensures
            r == self.spec_is_empty(),
    {
        self.status.is_none() && self.image.is_none() && self.user.is_none()
            && self.host.is_none() && self.created_before.is_none()
            && self.created_after.is_none() && self.idle_since.is_none()
            && self.idle_for.is_none()
    }

    /// Validate filter inputs before making any service calls: an
    /// idle-duration string that does not parse is rejected here.
    pub fn validate(&self) -> (r: Result<(), String>)
        ensures
            match self.idle_for {
                Some(d) => if parse_duration_spec(d@) is Some {
                    r is Ok
                } else {
                    r is Err
                },
                None => r is Ok,
            },
    {
        if let Some(dur) = &self.idle_for {
            match parse_duration(dur.as_str()) {
                Ok(_) => Ok(()),
                Err(e) => Err(e),
            }
        } else {
            Ok(())
        }
    }

    /// Whether a session satisfies every set criterion, against a resolved
    /// idle threshold.
    fn matches_session(&self, s: &Session, thr: &Option<String>) -> (r: bool)
        ensures
            r == session_matches(*self, *s, opt_view(*thr)),
    {
        if let Some(q) = &self.status {
            match &s.operational_status {
                Some(v) => {
                    let vl = to_lowercase(v.as_str());
                    let ql = to_lowercase(q.as_str());
                    if !str_eq(vl.as_str(), ql.as_str()) {
                        return false;
                    }
                },
                None => {
                    return false;
                },
            }
        }
        if let Some(q) = &self.image {
            match &s.image_id {
                Some(v) => {
                    if !str_eq(v.as_str(), q.as_str()) {
                        return false;
                    }
                },
                None => {
                    return false;
                },
            }
        }
        if let Some(q) = &self.user {
            match &s.user_id {
                Some(v) => {
                    if !str_eq(v.as_str(), q.as_str()) {
                        return false;
                    }
                },
                None => {
                    return false;
                },
            }
        }
        if let Some(q) = &self.host {
            match &s.hostname {
                Some(v) => {
                    if !str_eq(v.as_str(), q.as_str()) {
                        return false;
                    }
                },
                None => {
                    return false;
                },
            }
        }
        if let Some(q) = &self.created_before {
            match &s.created_date {
                Some(v) => {
                    if !str_lt(v.as_str(), q.as_str()) {
                        return false;
                    }
                },
                None => {
                    return false;
                },
            }
        }
        if let Some(q) = &self.created_after {
            match &s.created_date {
                Some(v) => {
                    if !str_lt(q.as_str(), v.as_str()) {
                        return false;
                    }
                },
                None => {
                    return false;
                },
            }
        }
        if let Some(q) = &self.idle_since {
            match &s.keepalive_date {
                Some(v) => {
                    if !str_lt(v.as_str(), q.as_str()) {
                        return false;
                    }
                },
                None => {
                    return false;
                },
            }
        }
        if let Some(t) = thr {
            match &s.keepalive_date {
                Some(v) => {
                    if !str_lt(v.as_str(), t.as_str()) {
                        return false;
                    }
                },
                None => {
                    return false;
                },
            }
        }
        true
    }

    /// Apply all filters to a list of sessions, removing non-matching
    /// entries.  The idle-duration criterion, if set, is resolved exactly
    /// once into an absolute threshold timestamp `now - duration`; a
    /// duration string that does not parse leaves the list untouched and
    /// reports the error.
    pub fn apply(&self, sessions: &mut Vec<Session>, now: u64) -> (r: Result<(), String>)
        ensures
            match idle_threshold(*self, now as int) {
                None => {
                    &&& final (sessions)@ == old(sessions)@
                    &&& (r matches Err(m) && (self.idle_for matches Some(d) && contains_seq(
                        m@,
                        d@,
                    )))
                },
                Some(thr) => r is Ok && final (sessions)@ == old(sessions)@.filter(
                    |s: Session| session_matches(*self, s, thr),
                ),
            },
    {
        let thr: Option<String> = match &self.idle_for {
            None => None,
            Some(dur) => match parse_duration(dur.as_str()) {
                Ok(secs) => Some(format_utc_minus(now, secs)),
                Err(e) => {
                    return Err(e);
                },
            },
        };
        let mut rest: Vec<Session> = Vec::new();
        core::mem::swap(sessions, &mut rest);
        let ghost orig = rest@;
        let mut kept: Vec<Session> = Vec::new();
        proof {
            reveal(Seq::filter);
            assert(rest@ =~= orig.skip(0));
            assert(orig.take(0).filter(|s: Session| session_matches(*self, s, opt_view(thr)))
                =~= Seq::<Session>::empty());
        }
        while rest.len() > 0
            invariant
                rest@.len() <= orig.len(),
                rest@ == orig.skip(orig.len() - rest@.len()),
                kept@ == orig.take(orig.len() - rest@.len()).filter(
                    |s: Session| session_matches(*self, s, opt_view(thr)),
                ),
            decreases rest@.len(),
        {
            let ghost k = orig.len() - rest@.len();
            let item = rest.remove(0);
            proof {
                assert(item == orig[k as int]);
                assert(rest@ =~= orig.skip(k as int + 1));
            }
            let keep = self.matches_session(&item, &thr);
            proof {
                reveal(Seq::filter);
                let pred = |s: Session| session_matches(*self, s, opt_view(thr));
                let t1 = orig.take(k as int + 1);
                assert(t1.drop_last() =~= orig.take(k as int));
                assert(t1.last() == orig[k as int]);
                assert(t1.filter(pred) == if pred(orig[k as int]) {
                    orig.take(k as int).filter(pred).push(orig[k as int])
                } else {
                    orig.take(k as int).filter(pred)
                });
            }
            if keep {
                kept.push(item);
            }
        }
        proof {
            assert(orig.take(orig.len() as int) =~= orig);
        }
        *sessions = kept;
        Ok(())
    }
}

/// Shared filter options for image list commands.
#[derive(Clone, Debug)]
pub struct ImageFilters {
    /// Only show enabled images.
    pub enabled: bool,
    /// Only show disabled images.
    pub disabled: bool,
    /// Filter by friendly name (case-insensitive substring match).
    pub name: Option<String>,
    /// Filter by image type / source (case-insensitive equality).
    pub image_type: Option<String>,
}

impl Default for ImageFilters {
    /// The all-unset criteria record.
    fn default() -> (r: Self)
        ensures
            r.spec_is_empty(),
    {
        ImageFilters { enabled: false, disabled: false, name: None, image_type: None }
    }
}

/// Whether an image satisfies the conjunction of all set criteria.  A
/// missing record field never satisfies an active criterion; an unset
/// tri-state `enabled` field matches neither the enabled nor the disabled
/// toggle.
pub open spec fn image_matches(f: ImageFilters, img: Image) -> bool {
    &&& (f.enabled ==> img.enabled == Some(true))
    &&& (f.disabled ==> img.enabled == Some(false))
    &&& (f.name matches Some(q) ==> (img.friendly_name matches Some(v) && contains_seq(
        lower_of(v@),
        lower_of(q@),
    )))
    &&& (f.image_type matches Some(q) ==> (img.image_src matches Some(v) && lower_of(v@)
        == lower_of(q@)))
}

impl ImageFilters {
    /// Whether no criterion is set.
    pub open spec fn spec_is_empty(self) -> bool {
        &&& !self.enabled
        &&& !self.disabled
        &&& self.name is None
        &&& self.image_type is None
    }

    /// Returns true when no filters are set.
    pub fn is_empty(&self) -> (r: bool)
        ensures
            r == self.spec_is_empty(),
    {
        !self.enabled && !self.disabled && self.name.is_none() && self.image_type.is_none()
    }

    /// Whether an image satisfies every set criterion.
    pub fn matches_image(&self, img: &Image) -> (r: bool)
        ensures
            r == image_matches(*self, *img),
    {
        if self.enabled {
            match &img.enabled {
                Some(b) => {
                    if !*b {
                        return false;
                    }
                },
                None => {
                    return false;
                },
            }
        }
        if self.disabled {
            match &img.enabled {
                Some(b) => {
                    if *b {
                        return false;
                    }
                },
                None => {
                    return false;
                },
            }
        }
        if let Some(q) = &self.name {
            match &img.friendly_name {
                Some(v) => {
                    let vl = to_lowercase(v.as_str());
                    let ql = to_lowercase(q.as_str());
                    if !str_contains(vl.as_str(), ql.as_str()) {
                        return false;
                    }
                },
                None => {
                    return false;
                },
            }
        }
        if let Some(q) = &self.image_type {
            match &img.image_src {
                Some(v) => {
                    let vl = to_lowercase(v.as_str());
                    let ql = to_lowercase(q.as_str());
                    if !str_eq(vl.as_str(), ql.as_str()) {
                        return false;
                    }
                },
                None => {
                    return false;
                },
            }
        }
        true
    }

    /// Apply all filters to a list of images, removing non-matching
    /// entries.
    pub fn apply(&self, images: &mut Vec<Image>)
        ensures
            final (images)@ == old(images)@.filter(|img: Image| image_matches(*self, img)),
    {
        let mut rest: Vec<Image> = Vec::new();
        core::mem::swap(images, &mut rest);
        let ghost orig = rest@;
        let mut kept: Vec<Image> = Vec::new();
        proof {
            reveal(Seq::filter);
            assert(rest@ =~= orig.skip(0));
            assert(orig.take(0).filter(|img: Image| image_matches(*self, img))
                =~= Seq::<Image>::empty());
        }
        while rest.len() > 0
            invariant
                rest@.len() <= orig.len(),
                rest@ == orig.skip(orig.len() - rest@.len()),
                kept@ == orig.take(orig.len() - rest@.len()).filter(
                    |img: Image| image_matches(*self, img),
                ),
            decreases rest@.len(),
        {
            let ghost k = orig.len() - rest@.len();
            let item = rest.remove(0);
            proof {
                assert(item == orig[k as int]);
                assert(rest@ =~= orig.skip(k as int + 1));
            }
            let keep = self.matches_image(&item);
            proof {
                reveal(Seq::filter);
                let pred = |img: Image| image_matches(*self, img);
                let t1 = orig.take(k as int + 1);
                assert(t1.drop_last() =~= orig.take(k as int));
                assert(t1.last() == orig[k as int]);
                assert(t1.filter(pred) == if pred(orig[k as int]) {
                    orig.take(k as int).filter(pred).push(orig[k as int])
                } else {
                    orig.take(k as int).filter(pred)
                });
            }
            if keep {
                kept.push(item);
            }
        }
        proof {
            assert(orig.take(orig.len() as int) =~= orig);
        }
        *images = kept;
    }
}

/// The resolved idle threshold is itself a well-formed canonical
/// timestamp: it parses back to exactly `now - secs` (saturating at the
/// epoch), as long as that instant stays within year 9999.  This is what
/// makes the lexicographic comparison against record timestamps
/// meaningful.
pub proof fn lemma_threshold_label_parses(now: int, secs: int)
    requires
        0 <= now,
        0 <= secs,
        sat_sub(now, secs) <= MAX_CIVIL_EPOCH as int,
    ensures
        datetime_parse_ok(utc_minus_label(now, secs)),
        datetime_epoch(utc_minus_label(now, secs)) == sat_sub(now, secs),
{
    let e = sat_sub(now, secs);
    lemma_civil_of_epoch_in_range(e as u64);
    lemma_epoch_round_trip(e as u64);
    lemma_pow10_values();
    let c = civil_of_epoch(e);
    let v = utc_minus_label(now, secs);
    let year_s = dec_pad(c.0 as nat, 4);
    let month_s = dec_pad(c.1 as nat, 2);
    let day_s = dec_pad(c.2 as nat, 2);
    let hour_s = dec_pad(c.3 as nat, 2);
    let min_s = dec_pad(c.4 as nat, 2);
    let sec_s = dec_pad(c.5 as nat, 2);
    lemma_dec_pad_len(c.0 as nat, 4);
    lemma_dec_pad_len(c.1 as nat, 2);
    lemma_dec_pad_len(c.2 as nat, 2);
    lemma_dec_pad_len(c.3 as nat, 2);
    lemma_dec_pad_len(c.4 as nat, 2);
    lemma_dec_pad_len(c.5 as nat, 2);
    lemma_dec_pad_digits(c.0 as nat, 4);
    lemma_dec_pad_digits(c.1 as nat, 2);
    lemma_dec_pad_digits(c.2 as nat, 2);
    lemma_dec_pad_digits(c.3 as nat, 2);
    lemma_dec_pad_digits(c.4 as nat, 2);
    lemma_dec_pad_digits(c.5 as nat, 2);
    lemma_dec_pad_val(c.0 as nat, 4);
    lemma_dec_pad_val(c.1 as nat, 2);
    lemma_dec_pad_val(c.2 as nat, 2);
    lemma_dec_pad_val(c.3 as nat, 2);
    lemma_dec_pad_val(c.4 as nat, 2);
    lemma_dec_pad_val(c.5 as nat, 2);
    assert(v == year_s + seq!['-'] + month_s + seq!['-'] + day_s + seq![' '] + hour_s + seq![':']
        + min_s + seq![':'] + sec_s);
    assert(v.len() == 19);
    assert(v.subrange(0, 4) =~= year_s);
    assert(v.subrange(5, 7) =~= month_s);
    assert(v.subrange(8, 10) =~= day_s);
    assert(v.subrange(11, 13) =~= hour_s);
    assert(v.subrange(14, 16) =~= min_s);
    assert(v.subrange(17, 19) =~= sec_s);
    assert forall|i: int| 0 <= i < v.len() implies (#[trigger] v[i] as u32) < 128 by {
        if i < 4 {
            assert(v[i] == year_s[i]);
            assert(is_dec_digit(year_s[i]));
        } else if i == 4 {
            assert(v[i] == '-');
        } else if i < 7 {
            assert(v[i] == month_s[i - 5]);
            assert(is_dec_digit(month_s[i - 5]));
        } else if i == 7 {
            assert(v[i] == '-');
        } else if i < 10 {
            assert(v[i] == day_s[i - 8]);
            assert(is_dec_digit(day_s[i - 8]));
        } else if i == 10 {
            assert(v[i] == ' ');
        } else if i < 13 {
            assert(v[i] == hour_s[i - 11]);
            assert(is_dec_digit(hour_s[i - 11]));
        } else if i == 13 {
            assert(v[i] == ':');
        } else if i < 16 {
            assert(v[i] == min_s[i - 14]);
            assert(is_dec_digit(min_s[i - 14]));
        } else if i == 16 {
            assert(v[i] == ':');
        } else {
            assert(v[i] == sec_s[i - 17]);
            assert(is_dec_digit(sec_s[i - 17]));
        }
    }
    assert(all_ascii(v));
    assert(datetime_shape_ok(v));
    assert(datetime_fields(v) == (c.0, c.1, c.2, c.3, c.4, c.5));
    assert(datetime_epoch(v) == e);
}

/// One field step of a label comparison: with both fields rendered at the
/// same fixed width, the comparison is decided by the field values, or
/// passed on to the tails when they coincide.
proof fn lemma_field_step(f1: int, f2: int, w: nat, t1: Seq<char>, t2: Seq<char>)
    requires
        1 <= w,
        0 <= f1 < pow10(w),
        0 <= f2 < pow10(w),
    ensures
        lex_lt(dec_pad(f1 as nat, w) + t1, dec_pad(f2 as nat, w) + t2) == if f1 == f2 {
            lex_lt(t1, t2)
        } else {
            f1 < f2
        },
{
    lemma_dec_pad_len(f1 as nat, w);
    lemma_dec_pad_len(f2 as nat, w);
    lemma_lex_concat(dec_pad(f1 as nat, w), dec_pad(f2 as nat, w), t1, t2);
    if f1 != f2 {
        assert(dec_pad(f1 as nat, w) != dec_pad(f2 as nat, w)) by {
            lemma_dec_pad_val(f1 as nat, w);
            lemma_dec_pad_val(f2 as nat, w);
        }
        lemma_dec_pad_order(f1 as nat, f2 as nat, w);
    }
}

/// A shared separator character passes a label comparison on to the
/// tails.
proof fn lemma_sep_step(c: char, t1: Seq<char>, t2: Seq<char>)
    ensures
        lex_lt(seq![c] + t1, seq![c] + t2) == lex_lt(t1, t2),
{
    lemma_lex_concat(seq![c], seq![c], t1, t2);
}

/// The label of an earlier instant is lexicographically smaller.
proof fn lemma_label_lt(e1: u64, e2: u64)
    requires
        e1 < e2,
        e2 <= MAX_CIVIL_EPOCH,
    ensures
        lex_lt(epoch_label(e1 as int), epoch_label(e2 as int)),
{
    lemma_civil_of_epoch_in_range(e1);
    lemma_civil_of_epoch_in_range(e2);
    lemma_civil_of_epoch_monotone(e1 as int, e2 as int);
    lemma_pow10_values();
    let c1 = civil_of_epoch(e1 as int);
    let c2 = civil_of_epoch(e2 as int);
    let y1 = dec_pad(c1.0 as nat, 4);
    let mo1 = dec_pad(c1.1 as nat, 2);
    let dd1 = dec_pad(c1.2 as nat, 2);
    let hh1 = dec_pad(c1.3 as nat, 2);
    let mi1 = dec_pad(c1.4 as nat, 2);
    let ss1 = dec_pad(c1.5 as nat, 2);
    let y2 = dec_pad(c2.0 as nat, 4);
    let mo2 = dec_pad(c2.1 as nat, 2);
    let dd2 = dec_pad(c2.2 as nat, 2);
    let hh2 = dec_pad(c2.3 as nat, 2);
    let mi2 = dec_pad(c2.4 as nat, 2);
    let ss2 = dec_pad(c2.5 as nat, 2);
    let t5a = seq![':'] + ss1;
    let t4a = seq![':'] + (mi1 + t5a);
    let t3a = seq![' '] + (hh1 + t4a);
    let t2a = seq!['-'] + (dd1 + t3a);
    let t1a = seq!['-'] + (mo1 + t2a);
    let t5b = seq![':'] + ss2;
    let t4b = seq![':'] + (mi2 + t5b);
    let t3b = seq![' '] + (hh2 + t4b);
    let t2b = seq!['-'] + (dd2 + t3b);
    let t1b = seq!['-'] + (mo2 + t2b);
    assert(epoch_label(e1 as int) =~= y1 + t1a);
    assert(epoch_label(e2 as int) =~= y2 + t1b);
    lemma_field_step(c1.0, c2.0, 4, t1a, t1b);
    if c1.0 == c2.0 {
        lemma_sep_step('-', mo1 + t2a, mo2 + t2b);
        lemma_field_step(c1.1, c2.1, 2, t2a, t2b);
        if c1.1 == c2.1 {
            lemma_sep_step('-', dd1 + t3a, dd2 + t3b);
            lemma_field_step(c1.2, c2.2, 2, t3a, t3b);
            if c1.2 == c2.2 {
                lemma_sep_step(' ', hh1 + t4a, hh2 + t4b);
                lemma_field_step(c1.3, c2.3, 2, t4a, t4b);
                if c1.3 == c2.3 {
                    lemma_sep_step(':', mi1 + t5a, mi2 + t5b);
                    lemma_field_step(c1.4, c2.4, 2, t5a, t5b);
                    if c1.4 == c2.4 {
                        lemma_sep_step(':', ss1, ss2);
                        lemma_dec_pad_order(c1.5 as nat, c2.5 as nat, 2);
                    }
                }
            }
        }
    }
}

/// The canonical zero-padded labels of two instants within year 9999
/// compare lexicographically exactly as the instants compare
/// chronologically: the fixed-width format is what makes the filter's
/// string comparisons against timestamp thresholds sound.
pub proof fn lemma_epoch_label_chronological(e1: u64, e2: u64)
    requires
        e1 <= MAX_CIVIL_EPOCH,
        e2 <= MAX_CIVIL_EPOCH,
    ensures
        lex_lt(epoch_label(e1 as int), epoch_label(e2 as int)) == (e1 < e2),
{
    if e1 < e2 {
        lemma_label_lt(e1, e2);
    } else if e2 < e1 {
        lemma_label_lt(e2, e1);
        lemma_lex_asymmetric(epoch_label(e2 as int), epoch_label(e1 as int));
    } else {
        lemma_lex_irreflexive(epoch_label(e1 as int));
    }
}

/// The idle-duration cutoff is chronologically exact: a record whose
/// keepalive date is the canonical label of instant `k` compares below
/// the resolved threshold `now - secs` exactly when `k` lies before that
/// instant.
pub proof fn lemma_idle_cutoff_exact(k: u64, now: u64, secs: u64)
    requires
        k <= MAX_CIVIL_EPOCH,
        now <= MAX_CIVIL_EPOCH,
    ensures
        lex_lt(epoch_label(k as int), utc_minus_label(now as int, secs as int)) == ((k as int)
            < sat_sub(now as int, secs as int)),
{
    let cutoff = sat_sub(now as int, secs as int);
    lemma_epoch_label_chronological(k, cutoff as u64);
}

/// With all criteria unset, every session matches: filtering is the
/// identity on the records.
pub proof fn lemma_empty_criteria_identity(f: SessionFilters, now: int, records: Seq<Session>)
    requires
        f.spec_is_empty(),
    ensures
        idle_threshold(f, now) == Some(None::<Seq<char>>),
        records.filter(|s: Session| session_matches(f, s, None)) == records,
    decreases records.len(),
{
    let pred = |s: Session| session_matches(f, s, None);
    reveal(Seq::filter);
    if records.len() == 0 {
        assert(records.filter(pred) =~= records);
    } else {
        lemma_empty_criteria_identity(f, now, records.drop_last());
        assert(records.filter(pred) == records.drop_last().filter(pred).push(records.last()));
        assert(records.drop_last().push(records.last()) =~= records);
    }
}

/// With all criteria unset, every image matches: filtering is the
/// identity on the records.
pub proof fn lemma_empty_image_criteria_identity(f: ImageFilters, records: Seq<Image>)
    requires
        f.spec_is_empty(),
    ensures
        records.filter(|img: Image| image_matches(f, img)) == records,
    decreases records.len(),
{
    let pred = |img: Image| image_matches(f, img);
    reveal(Seq::filter);
    if records.len() == 0 {
        assert(records.filter(pred) =~= records);
    } else {
        lemma_empty_image_criteria_identity(f, records.drop_last());
        assert(records.filter(pred) == records.drop_last().filter(pred).push(records.last()));
        assert(records.drop_last().push(records.last()) =~= records);
    }
}

} // verus!
