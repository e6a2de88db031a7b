//! The decisions of `wowctl stale`: how old an addon's release is, and
//! which addons have gone without an update for too long.

use vstd::prelude::*;
use vstd::string::StringExecFns;
use crate::addon::{flag, InstalledAddon};
use crate::registry::{lemma_keys_are_slugs, lists_exactly, slugs_unique, Registry};
use crate::text::{
    dec_digits, decimal, digit_char, lemma_lex_basic, lemma_lex_trans, lemma_utf8_concat, lex_lt, str_lt,
    utf8_bytes, views,
};

verus! {

broadcast use vstd::string::group_string_axioms;

pub open spec fn is_digit_byte(b: u8) -> bool {
    48 <= b <= 57
}

/// The number the decimal digit bytes `b` write.
pub open spec fn bytes_value(b: Seq<u8>) -> int
    decreases b.len(),
{
    if b.len() == 0 {
        0
    } else {
        bytes_value(b.drop_last()) * 10 + (b.last() - 48)
    }
}

pub open spec fn all_digit_bytes(b: Seq<u8>) -> bool {
    forall|i: int| 0 <= i < b.len() ==> is_digit_byte(#[trigger] b[i])
}

/// What `u32::from_str` gives for a short field: an optional `+`, then
/// one or more digits.
pub open spec fn parse_unsigned(b: Seq<u8>) -> Option<int> {
    let d = if b.len() > 0 && b[0] == 43 {
        b.drop_first()
    } else {
        b
    };
    if d.len() > 0 && all_digit_bytes(d) {
        Some(bytes_value(d))
    } else {
        None
    }
}

/// What `i32::from_str` gives for a short field: an optional sign, then
/// one or more digits.
pub open spec fn parse_signed(b: Seq<u8>) -> Option<int> {
    if b.len() > 0 && b[0] == 45 {
        let d = b.drop_first();
        if d.len() > 0 && all_digit_bytes(d) {
            Some(-bytes_value(d))
        } else {
            None
        }
    } else {
        parse_unsigned(b)
    }
}

/// `YYYY-MM-DD` dashes in place.
pub open spec fn date_dashes(b: Seq<u8>) -> bool {
    b.len() >= 10 && b[4] == 45 && b[7] == 45
}

/// The date a text starts with: `YYYY-MM-DD` with a month from 1 to 12
/// and a day from 1 to 31 (fields read as `i32` and `u32` read them).
pub open spec fn date_prefix(s: Seq<char>) -> Option<(int, int, int)> {
    let b = utf8_bytes(s);
    if !date_dashes(b) {
        None
    } else {
        match (parse_signed(b.subrange(0, 4)), parse_unsigned(b.subrange(5, 7)), parse_unsigned(b.subrange(8, 10))) {
            (Some(y), Some(m), Some(d)) => if 1 <= m <= 12 && 1 <= d <= 31 {
                Some((y, m, d))
            } else {
                None
            },
            _ => None,
        }
    }
}

proof fn lemma_bytes_value_bound(b: Seq<u8>)
    requires
        all_digit_bytes(b),
    ensures
        0 <= bytes_value(b),
        b.len() <= 1 ==> bytes_value(b) <= 9,
        b.len() <= 2 ==> bytes_value(b) <= 99,
        b.len() <= 3 ==> bytes_value(b) <= 999,
        b.len() <= 4 ==> bytes_value(b) <= 9999,
    decreases b.len(),
{
    if b.len() > 0 {
        let t = b.drop_last();
        assert(all_digit_bytes(t)) by {
            assert forall|i: int| 0 <= i < t.len() implies is_digit_byte(#[trigger] t[i]) by {
                assert(t[i] == b[i]);
            }
        }
        lemma_bytes_value_bound(t);
        assert(is_digit_byte(b[b.len() - 1]));
    }
}

pub open spec fn opt_int(o: Option<i32>) -> Option<int> {
    match o {
        Some(x) => Some(x as int),
        None => None,
    }
}

pub open spec fn opt_date(o: Option<(i32, u32, u32)>) -> Option<(int, int, int)> {
    match o {
        Some(t) => Some((t.0 as int, t.1 as int, t.2 as int)),
        None => None,
    }
}

/// Reads `b[lo..hi]` (at most four bytes) as an optionally signed number.
fn parse_field(b: &[u8], lo: usize, hi: usize, signed: bool) -> (r: Option<i32>)
    requires
        lo <= hi <= b.len(),
        hi - lo <= 4,
    ensures
        signed ==> opt_int(r) == parse_signed(b@.subrange(lo as int, hi as int)),
        !signed ==> opt_int(r) == parse_unsigned(b@.subrange(lo as int, hi as int)),
{
    let ghost f = b@.subrange(lo as int, hi as int);
    let mut i = lo;
    let mut negative = false;
    if signed && i < hi && b[i] == 45u8 {
        negative = true;
        i += 1;
    } else if i < hi && b[i] == 43u8 {
        i += 1;
    }
    let ghost d = b@.subrange(i as int, hi as int);
    assert(i > lo ==> d =~= f.drop_first());
    assert(i == lo ==> d =~= f);
    assert(signed ==> parse_signed(f) == (if d.len() > 0 && all_digit_bytes(d) {
        Some(if negative {
            -bytes_value(d)
        } else {
            bytes_value(d)
        })
    } else {
        None::<int>
    }));
    assert(!signed ==> parse_unsigned(f) == (if d.len() > 0 && all_digit_bytes(d) {
        Some(bytes_value(d))
    } else {
        None::<int>
    }));
    if i == hi {
        return None;
    }
    let start = i;
    let mut acc: i32 = 0;
    while i < hi
        invariant
            start <= i <= hi <= b.len(),
            hi - start <= 4,
            d == b@.subrange(start as int, hi as int),
            all_digit_bytes(b@.subrange(start as int, i as int)),
            acc as int == bytes_value(b@.subrange(start as int, i as int)),
            0 <= acc <= 9999,
            i - start <= 4,
            f == b@.subrange(lo as int, hi as int),
            negative ==> signed,
            signed ==> parse_signed(f) == (if d.len() > 0 && all_digit_bytes(d) {
                Some(if negative {
                    -bytes_value(d)
                } else {
                    bytes_value(d)
                })
            } else {
                None::<int>
            }),
            !signed ==> parse_unsigned(f) == (if d.len() > 0 && all_digit_bytes(d) {
                Some(bytes_value(d))
            } else {
                None::<int>
            }),
            d.len() > 0,
        decreases hi - i,
    {
        let c = b[i];
        let ghost pre = b@.subrange(start as int, i as int);
        let ghost cur = b@.subrange(start as int, i + 1);
        assert(cur.drop_last() =~= pre);
        if !(48u8 <= c && c <= 57u8) {
            assert(!all_digit_bytes(d)) by {
                assert(d[i - start] == c);
            }
            return None;
        }
        assert(all_digit_bytes(cur)) by {
            assert forall|k: int| 0 <= k < cur.len() implies is_digit_byte(#[trigger] cur[k]) by {
                if k < pre.len() {
                    assert(cur[k] == pre[k]);
                }
            }
        }
        proof {
            lemma_bytes_value_bound(cur);
        }
        acc = acc * 10 + (c - 48u8) as i32;
        i += 1;
    }
    assert(b@.subrange(start as int, i as int) =~= d);
    if negative {
        Some(-acc)
    } else {
        Some(acc)
    }
}

/// Parses a `YYYY-MM-DD` date from the start of a string (ISO 8601 or
/// date-only). Returns `(year, month, day)` or `None` if the format is
/// invalid.
pub fn parse_date_prefix(s: &str) -> (r: Option<(i32, u32, u32)>)
    ensures
        opt_date(r) == date_prefix(s@),
{
    let b = s.as_bytes();
    assert(b@ == utf8_bytes(s@));
    if b.len() < 10 {
        return None;
    }
    if b[4] != 45u8 || b[7] != 45u8 {
        return None;
    }
    let year = match parse_field(b, 0, 4, true) {
        Some(y) => y,
        None => return None,
    };
    let month = match parse_field(b, 5, 7, false) {
        Some(m) => m,
        None => return None,
    };
    let day = match parse_field(b, 8, 10, false) {
        Some(d) => d,
        None => return None,
    };
    if !(1 <= month && month <= 12) || !(1 <= day && day <= 31) {
        return None;
    }
    Some((year, month as u32, day as u32))
}

/// Whole calendar months from `earlier` to `later`, one fewer when the
/// later day of the month comes before the earlier one, and never below 0.
pub open spec fn months_spec(earlier: (i32, u32, u32), later: (i32, u32, u32)) -> int {
    let total = (later.0 - earlier.0) * 12 + ((later.1 as i32) - (earlier.1 as i32)) + (if later.2 < earlier.2 {
        -1int
    } else {
        0int
    });
    if total < 0 {
        0
    } else {
        total
    }
}

/// Dates in calendar order: year, then month, then day.
pub open spec fn date_le(a: (i32, u32, u32), b: (i32, u32, u32)) -> bool {
    a.0 < b.0 || (a.0 == b.0 && (a.1 < b.1 || (a.1 == b.1 && a.2 <= b.2)))
}

/// The age in months never shrinks as the later date moves on, and is
/// exactly the whole number of months between two dates on the same day
/// of the month (0 from a date to itself).
pub proof fn law_months_grow_with_time(earlier: (i32, u32, u32), later1: (i32, u32, u32), later2: (i32, u32, u32))
    requires
        1 <= earlier.1 <= 12,
        1 <= later1.1 <= 12,
        1 <= later2.1 <= 12,
        date_le(later1, later2),
    ensures
        months_spec(earlier, later1) <= months_spec(earlier, later2),
        later1.2 == earlier.2 && date_le(earlier, later1) ==> months_spec(earlier, later1) == (later1.0 - earlier.0)
            * 12 + (later1.1 - earlier.1),
        months_spec(earlier, earlier) == 0,
{
    assert((later2.0 - earlier.0) * 12 == (later1.0 - earlier.0) * 12 + (later2.0 - later1.0) * 12) by (nonlinear_arith);
    if later1.0 < later2.0 {
        assert((later2.0 - later1.0) * 12 >= 12) by (nonlinear_arith)
            requires
                later1.0 < later2.0,
        ;
    }
    if later1.2 == earlier.2 && date_le(earlier, later1) {
        if earlier.0 < later1.0 {
            assert((later1.0 - earlier.0) * 12 >= 12) by (nonlinear_arith)
                requires
                    earlier.0 < later1.0,
            ;
        }
    }
}

/// The arithmetic of `months_between` stays within `i32`.
pub open spec fn months_in_range(earlier: (i32, u32, u32), later: (i32, u32, u32)) -> bool {
    let yd = later.0 - earlier.0;
    let md = (later.1 as i32) - (earlier.1 as i32);
    &&& i32::MIN <= yd <= i32::MAX
    &&& i32::MIN <= yd * 12 <= i32::MAX
    &&& i32::MIN <= md <= i32::MAX
    &&& i32::MIN <= yd * 12 + md <= i32::MAX
    &&& i32::MIN <= yd * 12 + md - 1
}

/// Returns the number of months between two dates (calendar months).
pub fn months_between(earlier: (i32, u32, u32), later: (i32, u32, u32)) -> (r: u32)
    requires
        months_in_range(earlier, later),
    ensures
        r as int == months_spec(earlier, later),
{
    let year_diff: i32 = later.0 - earlier.0;
    let month_diff: i32 = later.1 as i32 - earlier.1 as i32;
    let day_adjust: i32 = if later.2 < earlier.2 {
        -1
    } else {
        0
    };
    let total: i32 = year_diff * 12 + month_diff + day_adjust;
    if total < 0 {
        0
    } else {
        total as u32
    }
}

/// Human-readable age from a month count.
pub open spec fn age_text(months: u32) -> Seq<char> {
    if months < 1 {
        "< 1 month"@
    } else if months == 1 {
        "1 month"@
    } else if months < 24 {
        dec_digits(months as nat) + " months"@
    } else if months % 12 == 0 {
        dec_digits((months / 12) as nat) + " years"@
    } else {
        dec_digits((months / 12) as nat) + " years, "@ + dec_digits((months % 12) as nat) + " months"@
    }
}

/// Human-readable age string from a month count.
pub fn format_age(months: u32) -> (r: String)
    ensures
        r@ == age_text(months),
{
    proof {
        reveal_strlit("< 1 month");
        reveal_strlit("1 month");
    }
    if months < 1 {
        String::from_str("< 1 month")
    } else if months == 1 {
        String::from_str("1 month")
    } else if months < 24 {
        let mut r = decimal(months as u64);
        r.append(" months");
        r
    } else {
        let years = months / 12;
        let rem = months % 12;
        let mut r = decimal(years as u64);
        if rem == 0 {
            r.append(" years");
        } else {
            r.append(" years, ");
            r.append(decimal(rem as u64).as_str());
            r.append(" months");
        }
        r
    }
}

/// How an addon's release date classes it on the date `now`.
#[derive(PartialEq, Eq, Structural)]
pub enum Dating {
    /// Ignored: left out of the report.
    Skip,
    /// No release date, or one that does not read as a date.
    Unknown,
    /// Released this many months ago.
    Months(int),
}

pub open spec fn as_date(t: (int, int, int)) -> (i32, u32, u32) {
    (t.0 as i32, t.1 as u32, t.2 as u32)
}

pub open spec fn dating(a: InstalledAddon, now: (i32, u32, u32)) -> Dating {
    if flag(a.ignored) {
        Dating::Skip
    } else {
        match a.released_at {
            None => Dating::Unknown,
            Some(d) => match date_prefix(d@) {
                None => Dating::Unknown,
                Some(t) => Dating::Months(months_spec(as_date(t), now)),
            },
        }
    }
}

/// Released at least `threshold` months before `now`.
pub open spec fn is_stale(a: InstalledAddon, now: (i32, u32, u32), threshold: u32) -> bool {
    dating(a, now) matches Dating::Months(n) && n >= threshold
}

/// A stale addon stays in the report unless it is a dependency that an
/// addon which is not stale still requires: a requirer that is stale, or no
/// longer in the registry, does not hold it back.
pub open spec fn reported(reg: Registry, a: InstalledAddon, now: (i32, u32, u32), threshold: u32) -> bool {
    ||| !a.is_dependency
    ||| a.required_by@.len() == 0
    ||| forall|i: int| 0 <= i < a.required_by@.len() ==> #[trigger] reg@.contains_key(a.required_by@[i]@) ==> is_stale(
        reg@[a.required_by@[i]@],
        now,
        threshold,
    )
}

/// Report order: oldest first, then by slug.
pub open spec fn comes_before(a: (InstalledAddon, u32), b: (InstalledAddon, u32)) -> bool {
    a.1 > b.1 || (a.1 == b.1 && lex_lt(a.0.slug@, b.0.slug@))
}

/// A date `now` that the month arithmetic can compare release dates with:
/// a valid month and a year in range.
pub open spec fn now_readable(now: (i32, u32, u32)) -> bool {
    &&& 1 <= now.1 <= 12
    &&& -100000000 <= now.0 <= 100000000
}

/// Whether `find_stale_addons` can compare release dates with `now`.
pub fn now_valid(now: (i32, u32, u32)) -> (r: bool)
    ensures
        r == now_readable(now),
{
    1 <= now.1 && now.1 <= 12 && -100000000 <= now.0 && now.0 <= 100000000
}

proof fn lemma_date_in_range(t: (int, int, int), now: (i32, u32, u32))
    requires
        -9999 <= t.0 <= 9999,
        1 <= t.1 <= 12,
        1 <= t.2 <= 31,
        1 <= now.1 <= 12,
        -100000000 <= now.0 <= 100000000,
    ensures
        months_in_range(as_date(t), now),
{
}

proof fn lemma_date_prefix_range(s: Seq<char>)
    ensures
        date_prefix(s) matches Some(t) ==> -9999 <= t.0 <= 9999 && 1 <= t.1 <= 12 && 1 <= t.2 <= 31,
{
    let b = utf8_bytes(s);
    if date_dashes(b) {
        let y = b.subrange(0, 4);
        if y.len() > 0 && y[0] == 45 && y.drop_first().len() > 0 && all_digit_bytes(y.drop_first()) {
            lemma_bytes_value_bound(y.drop_first());
        } else {
            let d = if y.len() > 0 && y[0] == 43 {
                y.drop_first()
            } else {
                y
            };
            if d.len() > 0 && all_digit_bytes(d) {
                lemma_bytes_value_bound(d);
            }
        }
    }
}

/// The text `YYYY-MM-DD` of a year, month and day, each field zero-padded.
pub open spec fn ymd_text(y: nat, m: nat, d: nat) -> Seq<char> {
    seq![
        digit_char(y / 1000),
        digit_char(y / 100 % 10),
        digit_char(y / 10 % 10),
        digit_char(y % 10),
        '-',
        digit_char(m / 10),
        digit_char(m % 10),
        '-',
        digit_char(d / 10),
        digit_char(d % 10),
    ]
}

proof fn lemma_value_of_two(s: Seq<u8>)
    requires
        s.len() == 2,
    ensures
        bytes_value(s) == (s[0] - 48) * 10 + (s[1] - 48),
{
    assert(s.drop_last().drop_last() =~= Seq::<u8>::empty());
    reveal_with_fuel(bytes_value, 3);
}

proof fn lemma_value_of_four(s: Seq<u8>)
    requires
        s.len() == 4,
    ensures
        bytes_value(s) == (s[0] - 48) * 1000 + (s[1] - 48) * 100 + (s[2] - 48) * 10 + (s[3] - 48),
{
    let s3 = s.drop_last();
    let s2 = s3.drop_last();
    lemma_value_of_two(s2);
    assert(bytes_value(s3) == bytes_value(s2) * 10 + (s[2] - 48));
    assert(bytes_value(s) == bytes_value(s3) * 10 + (s[3] - 48));
}

/// Every text that starts with a date `YYYY-MM-DD` whose month is 1 to 12
/// and whose day is 1 to 31 reads as exactly that year, month and day,
/// whatever follows the date.
pub proof fn law_date_prefix_reads_written_date(y: nat, m: nat, d: nat, rest: Seq<char>)
    requires
        y <= 9999,
        1 <= m <= 12,
        1 <= d <= 31,
    ensures
        date_prefix(ymd_text(y, m, d) + rest) == Some((y as int, m as int, d as int)),
{
    let t = ymd_text(y, m, d);
    lemma_utf8_concat(t, rest);
    assert(vstd::utf8::is_ascii_chars(t));
    vstd::utf8::is_ascii_chars_encode_utf8(t);
    let bt = utf8_bytes(t);
    let b = utf8_bytes(t + rest);
    assert(b == bt + utf8_bytes(rest));
    assert forall|i: int| 0 <= i < 10 implies b[i] == #[trigger] t[i] as u8 by {
        assert(b[i] == bt[i]);
    }
    assert(b[0] == 48 + y / 1000);
    assert(b[1] == 48 + y / 100 % 10);
    assert(b[2] == 48 + y / 10 % 10);
    assert(b[3] == 48 + y % 10);
    assert(b[4] == 45);
    assert(b[5] == 48 + m / 10);
    assert(b[6] == 48 + m % 10);
    assert(b[7] == 45);
    assert(b[8] == 48 + d / 10);
    assert(b[9] == 48 + d % 10);
    let ys = b.subrange(0, 4);
    let ms = b.subrange(5, 7);
    let ds = b.subrange(8, 10);
    assert(all_digit_bytes(ys));
    assert(all_digit_bytes(ms));
    assert(all_digit_bytes(ds));
    lemma_value_of_four(ys);
    lemma_value_of_two(ms);
    lemma_value_of_two(ds);
    assert(y / 1000 * 1000 + y / 100 % 10 * 100 + y / 10 % 10 * 10 + y % 10 == y) by (nonlinear_arith)
        requires
            y <= 9999,
    ;
    assert(m / 10 * 10 + m % 10 == m);
    assert(d / 10 * 10 + d % 10 == d);
    assert(parse_signed(ys) == Some(y as int));
    assert(parse_unsigned(ms) == Some(m as int));
    assert(parse_unsigned(ds) == Some(d as int));
}

/// The addon's date class, computed.
fn dating_of(a: &InstalledAddon, now: (i32, u32, u32)) -> (r: Option<Option<u32>>)
    requires
        1 <= now.1 <= 12,
        -100000000 <= now.0 <= 100000000,
    ensures
        r is None <==> dating(*a, now) == Dating::Skip,
        r == Some(None::<u32>) <==> dating(*a, now) == Dating::Unknown,
        r matches Some(Some(n)) ==> dating(*a, now) == Dating::Months(n as int),
{
    if a.is_ignored() {
        return None;
    }
    match &a.released_at {
        Some(d) => match parse_date_prefix(d.as_str()) {
            Some(date) => {
                proof {
                    lemma_date_prefix_range(d@);
                    let t = date_prefix(d@)->0;
                    lemma_date_in_range(t, now);
                    assert(as_date(t) == date);
                }
                Some(Some(months_between(date, now)))
            },
            None => Some(None),
        },
        None => Some(None),
    }
}

pub open spec fn pair_slugs(v: Seq<(InstalledAddon, u32)>) -> Seq<InstalledAddon> {
    v.map_values(|p: (InstalledAddon, u32)| p.0)
}

/// Partition addons into (stale, unknown_date) buckets, on the date `now`.
/// Ignored addons are excluded entirely. Dependencies that are still
/// required by a non-stale addon are excluded from the stale bucket; a
/// requirer that is no longer installed does not hold one back. The
/// stale bucket is sorted oldest first, ties broken by slug.
#[verifier::rlimit(60)]
#[verifier::spinoff_prover]
pub fn find_stale_addons(registry: &Registry, threshold_months: u32, now: (i32, u32, u32)) -> (r: (
    Vec<(InstalledAddon, u32)>,
    Vec<InstalledAddon>,
))
    requires
        registry.wf(),
        now_readable(now),
    ensures
        forall|i: int| 0 <= i < r.0@.len() ==> #[trigger] registry@.contains_key(r.0@[i].0.slug@)
            && r.0@[i].0.model() =~= registry@[r.0@[i].0.slug@].model() && dating(registry@[r.0@[i].0.slug@], now)
            == Dating::Months(r.0@[i].1 as int) && r.0@[i].1 >= threshold_months && reported(
            *registry,
            registry@[r.0@[i].0.slug@],
            now,
            threshold_months,
        ),
        forall|k: Seq<char>| #[trigger]
            registry@.contains_key(k) && is_stale(registry@[k], now, threshold_months) && reported(
                *registry,
                registry@[k],
                now,
                threshold_months,
            ) ==> exists|i: int| 0 <= i < r.0@.len() && r.0@[i].0.slug@ == k,
        report_sorted(r.0@),
        forall|i: int| 0 <= i < r.1@.len() ==> #[trigger] registry@.contains_key(r.1@[i].slug@) && r.1@[i].model()
            =~= registry@[r.1@[i].slug@].model() && dating(registry@[r.1@[i].slug@], now) == Dating::Unknown,
        forall|k: Seq<char>| #[trigger]
            registry@.contains_key(k) && dating(registry@[k], now) == Dating::Unknown ==> exists|i: int|
                0 <= i < r.1@.len() && r.1@[i].slug@ == k,
        slugs_unique(r.1@),
{
    let (cands, unknown) = classify(registry, threshold_months, now);
    let kept = filter_reported(registry, cands, threshold_months, now);
    let perm = sort_positions(&kept);
    let mut out: Vec<(InstalledAddon, u32)> = Vec::new();
    let mut l: usize = 0;
    while l < perm.len()
        invariant
            0 <= l <= perm@.len(),
            sorted_positions(kept@, perm@),
            out@.len() == l,
            forall|m: int| 0 <= m < l ==> (#[trigger] out@[m]).0.model() =~= kept@[perm@[m] as int].0.model()
                && out@[m].1 == kept@[perm@[m] as int].1,
        decreases perm@.len() - l,
    {
        let e = &kept[perm[l]];
        out.push((e.0.duplicate(), e.1));
        l += 1;
    }
    proof {
        assert forall|j: int, m: int| 0 <= j < m < out@.len() implies comes_before(out@[j], out@[m]) by {
            assert(comes_before(kept@[perm@[j] as int], kept@[perm@[m] as int]));
            assert(out@[j].0.slug@ == kept@[perm@[j] as int].0.slug@);
            assert(out@[m].0.slug@ == kept@[perm@[m] as int].0.slug@);
        }
        assert forall|i: int| 0 <= i < out@.len() implies #[trigger] registry@.contains_key(out@[i].0.slug@)
            && out@[i].0.model() =~= registry@[out@[i].0.slug@].model() && dating(registry@[out@[i].0.slug@], now)
            == Dating::Months(out@[i].1 as int) && out@[i].1 >= threshold_months && reported(
            *registry,
            registry@[out@[i].0.slug@],
            now,
            threshold_months,
        ) by {
            assert(kept_candidate(kept@[perm@[i] as int], *registry, now, threshold_months));
            assert(out@[i].0.slug@ == kept@[perm@[i] as int].0.slug@);
        }
        assert forall|k: Seq<char>| #[trigger]
            registry@.contains_key(k) && is_stale(registry@[k], now, threshold_months) && reported(
                *registry,
                registry@[k],
                now,
                threshold_months,
            ) implies exists|i: int| 0 <= i < out@.len() && out@[i].0.slug@ == k by {
            let j = choose|j: int| 0 <= j < kept@.len() && kept@[j].0.slug@ == k;
            assert(placed(perm@, j));
            let l = choose|l: int| 0 <= l < perm@.len() && #[trigger] perm@[l] == j;
            assert(out@[l].0.slug@ == k);
        }
    }
    (out, unknown)
}

/// The reported candidates, in order.
#[verifier::rlimit(60)]
fn filter_reported(registry: &Registry, cands: Vec<(InstalledAddon, u32)>, threshold_months: u32, now: (i32, u32, u32)) -> (kept: Vec<(InstalledAddon, u32)>)
    requires
        registry.wf(),
        candidates_exactly(cands@, *registry, now, threshold_months),
    ensures
        forall|j: int| 0 <= j < kept@.len() ==> kept_candidate(#[trigger] kept@[j], *registry, now, threshold_months),
        forall|k: Seq<char>| #[trigger]
            registry@.contains_key(k) && is_stale(registry@[k], now, threshold_months) && reported(
                *registry,
                registry@[k],
                now,
                threshold_months,
            ) ==> exists|j: int| 0 <= j < kept@.len() && kept@[j].0.slug@ == k,
        slugs_unique(pair_slugs(kept@)),
{
    let mut slugs: Vec<String> = Vec::new();
    let mut i: usize = 0;
    while i < cands.len()
        invariant
            0 <= i <= cands.len(),
            slugs@.len() == i,
            forall|j: int| 0 <= j < i ==> #[trigger] slugs@[j]@ == cands@[j].0.slug@,
        decreases cands.len() - i,
    {
        slugs.push(cands[i].0.slug.clone());
        i += 1;
    }
    proof {
        lemma_keys_are_slugs(*registry);
    }
    let mut kept: Vec<(InstalledAddon, u32)> = Vec::new();
    let ghost mut idx: Seq<int> = Seq::empty();
    let mut i: usize = 0;
    while i < cands.len()
        invariant
            0 <= i <= cands.len(),
            registry.wf(),
            forall|k: Seq<char>| #[trigger] registry@.contains_key(k) ==> registry@[k].slug@ == k,
            slugs@.len() == cands@.len(),
            forall|j: int| 0 <= j < cands@.len() ==> #[trigger] slugs@[j]@ == cands@[j].0.slug@,
            candidates_exactly(cands@, *registry, now, threshold_months),
            kept@.len() == idx.len(),
            forall|p: int| 0 <= p < idx.len() ==> 0 <= #[trigger] idx[p] < i && kept@[p].0.model() =~= cands@[idx[p]].0.model()
                && kept@[p].0.slug@ == cands@[idx[p]].0.slug@ && kept@[p].1 == cands@[idx[p]].1 && kept_candidate(kept@[p], *registry, now, threshold_months),
            forall|p: int, q: int| 0 <= p < q < idx.len() ==> idx[p] < idx[q],
            forall|j: int| 0 <= j < i && reported(*registry, #[trigger] cands@[j].0, now, threshold_months) ==> exists|p: int|
                0 <= p < idx.len() && idx[p] == j,
        decreases cands.len() - i,
    {
        let c = &cands[i];
        let keep = if !c.0.is_dependency || c.0.required_by.len() == 0 {
            true
        } else {
            parents_release(&c.0.required_by, &slugs, registry)
        };
        proof {
            lemma_reported_iff(cands@, slugs@, *registry, now, threshold_months, i as int);
        }
        let ghost idx0 = idx;
        if keep {
            kept.push((c.0.duplicate(), c.1));
            proof {
                idx = idx.push(i as int);
            }
        }
        proof {
            assert forall|j: int| 0 <= j < i + 1 && reported(*registry, #[trigger] cands@[j].0, now, threshold_months) implies exists|p: int|
                0 <= p < idx.len() && idx[p] == j by {
                if j < i {
                    let p = choose|p: int| 0 <= p < idx0.len() && idx0[p] == j;
                    assert(idx[p] == j);
                } else {
                    assert(idx[idx.len() - 1] == j);
                }
            }
        }
        i += 1;
    }
    proof {
        assert forall|j: int| 0 <= j < kept@.len() implies kept_candidate(#[trigger] kept@[j], *registry, now, threshold_months) by {
            assert(0 <= idx[j] < cands@.len());
        }
        assert forall|k: Seq<char>| #[trigger]
            registry@.contains_key(k) && is_stale(registry@[k], now, threshold_months) && reported(
                *registry,
                registry@[k],
                now,
                threshold_months,
            ) implies exists|j: int| 0 <= j < kept@.len() && kept@[j].0.slug@ == k by {
            let j = choose|j: int| 0 <= j < cands@.len() && cands@[j].0.slug@ == k;
            assert(cands@[j].0.model() =~= registry@[k].model());
            lemma_reported_model(*registry, cands@[j].0, registry@[k], now, threshold_months);
            let p = choose|p: int| 0 <= p < idx.len() && idx[p] == j;
            assert(kept@[p].0.slug@ == k);
        }
        assert forall|p: int, q: int| 0 <= p < pair_slugs(kept@).len() && 0 <= q < pair_slugs(kept@).len() && p != q
            implies #[trigger] pair_slugs(kept@)[p].slug@ != #[trigger] pair_slugs(kept@)[q].slug@ by {
            if p < q {
                assert(idx[p] < idx[q]);
            } else {
                assert(idx[q] < idx[p]);
            }
            assert(pair_slugs(kept@)[p] == kept@[p].0);
            assert(pair_slugs(kept@)[q] == kept@[q].0);
            assert(pair_slugs(cands@)[idx[p]] == cands@[idx[p]].0);
            assert(pair_slugs(cands@)[idx[q]] == cands@[idx[q]].0);
        }
    }
    kept
}

/// An entry of the stale report: a registry entry's copy with its age,
/// stale and reported.
pub open spec fn kept_candidate(c: (InstalledAddon, u32), reg: Registry, now: (i32, u32, u32), threshold: u32) -> bool {
    &&& reg@.contains_key(c.0.slug@)
    &&& c.0.model() =~= reg@[c.0.slug@].model()
    &&& dating(reg@[c.0.slug@], now) == Dating::Months(c.1 as int)
    &&& c.1 >= threshold
    &&& reported(reg, reg@[c.0.slug@], now, threshold)
}

/// The stale addons of the registry, each once, with their ages.
pub open spec fn candidates_exactly(v: Seq<(InstalledAddon, u32)>, reg: Registry, now: (i32, u32, u32), threshold: u32) -> bool {
    &&& forall|i: int| 0 <= i < v.len() ==> #[trigger] reg@.contains_key(v[i].0.slug@) && v[i].0.model() =~= reg@[v[i].0.slug@].model()
        && dating(reg@[v[i].0.slug@], now) == Dating::Months(v[i].1 as int) && v[i].1 >= threshold
    &&& forall|k: Seq<char>| #[trigger] reg@.contains_key(k) && is_stale(reg@[k], now, threshold) ==> exists|i: int|
        0 <= i < v.len() && v[i].0.slug@ == k
    &&& slugs_unique(pair_slugs(v))
}

/// Whether an addon is reported depends only on its content.
proof fn lemma_reported_model(reg: Registry, a: InstalledAddon, b: InstalledAddon, now: (i32, u32, u32), threshold: u32)
    requires
        a.model() =~= b.model(),
    ensures
        reported(reg, a, now, threshold) == reported(reg, b, now, threshold),
{
    assert(views(a.required_by@) =~= views(b.required_by@));
    assert(a.required_by@.len() == views(a.required_by@).len());
    assert(b.required_by@.len() == views(b.required_by@).len());
    assert forall|i: int| 0 <= i < a.required_by@.len() implies a.required_by@[i]@ == b.required_by@[i]@ by {
        assert(views(a.required_by@)[i] == a.required_by@[i]@);
        assert(views(b.required_by@)[i] == b.required_by@[i]@);
    }
}

/// The test `all_in(required_by, slugs)` decides whether a candidate is
/// reported.
proof fn lemma_reported_iff(
    cands: Seq<(InstalledAddon, u32)>,
    slugs: Seq<String>,
    reg: Registry,
    now: (i32, u32, u32),
    threshold: u32,
    i: int,
)
    requires
        0 <= i < cands.len(),
        reg.wf(),
        forall|k: Seq<char>| #[trigger] reg@.contains_key(k) ==> reg@[k].slug@ == k,
        slugs.len() == cands.len(),
        forall|j: int| 0 <= j < cands.len() ==> #[trigger] slugs[j]@ == cands[j].0.slug@,
        candidates_exactly(cands, reg, now, threshold),
    ensures
        ({
            let c = cands[i];
            let all = forall|p: int| 0 <= p < c.0.required_by@.len() ==> #[trigger] views(slugs).contains(c.0.required_by@[p]@)
                || !reg@.contains_key(c.0.required_by@[p]@);
            &&& reported(reg, c.0, now, threshold) == (!c.0.is_dependency || c.0.required_by@.len() == 0 || all)
            &&& reported(reg, c.0, now, threshold) ==> kept_candidate(c, reg, now, threshold)
        }),
{
    let c = cands[i];
    assert forall|p: int| 0 <= p < c.0.required_by@.len() implies (#[trigger] views(slugs).contains(c.0.required_by@[p]@)
        <==> (reg@.contains_key(c.0.required_by@[p]@) && is_stale(reg@[c.0.required_by@[p]@], now, threshold))) by {
        let x = c.0.required_by@[p]@;
        if views(slugs).contains(x) {
            let j = choose|j: int| 0 <= j < views(slugs).len() && views(slugs)[j] == x;
            assert(slugs[j]@ == cands[j].0.slug@);
            assert(reg@.contains_key(cands[j].0.slug@));
        }
        if reg@.contains_key(x) && is_stale(reg@[x], now, threshold) {
            let j = choose|j: int| 0 <= j < cands.len() && cands[j].0.slug@ == x;
            assert(views(slugs)[j] == x);
        }
    }
    let all = forall|p: int| 0 <= p < c.0.required_by@.len() ==> #[trigger] views(slugs).contains(c.0.required_by@[p]@)
        || !reg@.contains_key(c.0.required_by@[p]@);
    let stale_parents = forall|p: int| 0 <= p < c.0.required_by@.len() ==> #[trigger] reg@.contains_key(c.0.required_by@[p]@)
        ==> is_stale(reg@[c.0.required_by@[p]@], now, threshold);
    if all {
        assert forall|p: int| 0 <= p < c.0.required_by@.len() implies #[trigger] reg@.contains_key(c.0.required_by@[p]@)
            ==> is_stale(reg@[c.0.required_by@[p]@], now, threshold) by {
            assert(views(slugs).contains(c.0.required_by@[p]@) || !reg@.contains_key(c.0.required_by@[p]@));
        }
    }
    if stale_parents {
        assert forall|p: int| 0 <= p < c.0.required_by@.len() implies #[trigger] views(slugs).contains(c.0.required_by@[p]@)
            || !reg@.contains_key(c.0.required_by@[p]@) by {
            if reg@.contains_key(c.0.required_by@[p]@) {
                assert(is_stale(reg@[c.0.required_by@[p]@], now, threshold));
            }
        }
    }
    assert(all == stale_parents);
    assert(reported(reg, c.0, now, threshold) == (!c.0.is_dependency || c.0.required_by@.len() == 0 || stale_parents));
    assert(reg@.contains_key(c.0.slug@));
    lemma_reported_model(reg, c.0, reg@[c.0.slug@], now, threshold);
}

/// Whether every requirer in `parents` is one of the stale slugs, or is no
/// longer in the registry.
fn parents_release(parents: &Vec<String>, stale_slugs: &Vec<String>, registry: &Registry) -> (r: bool)
    requires
        registry.wf(),
    ensures
        r == forall|p: int| 0 <= p < parents@.len() ==> #[trigger] views(stale_slugs@).contains(parents@[p]@)
            || !registry@.contains_key(parents@[p]@),
{
    let mut i: usize = 0;
    while i < parents.len()
        invariant
            0 <= i <= parents.len(),
            registry.wf(),
            forall|p: int| 0 <= p < i ==> #[trigger] views(stale_slugs@).contains(parents@[p]@)
                || !registry@.contains_key(parents@[p]@),
        decreases parents.len() - i,
    {
        if !crate::text::contains_string(stale_slugs.as_slice(), &parents[i]) && registry.get(parents[i].as_str()).is_some() {
            return false;
        }
        i += 1;
    }
    true
}

fn goes_before(x: &(InstalledAddon, u32), y: &(InstalledAddon, u32)) -> (r: bool)
    ensures
        r == comes_before(*x, *y),
{
    x.1 > y.1 || (x.1 == y.1 && str_lt(x.0.slug.as_str(), y.0.slug.as_str()))
}

/// Report order is a strict order on entries of distinct slugs.
proof fn lemma_comes_before(a: (InstalledAddon, u32), b: (InstalledAddon, u32), c: (InstalledAddon, u32))
    ensures
        comes_before(a, b) && comes_before(b, c) ==> comes_before(a, c),
        a.0.slug@ != b.0.slug@ && !comes_before(a, b) ==> comes_before(b, a),
{
    lemma_lex_trans(a.0.slug@, b.0.slug@, c.0.slug@);
    lemma_lex_basic(a.0.slug@, b.0.slug@);
}

pub open spec fn report_sorted(v: Seq<(InstalledAddon, u32)>) -> bool {
    forall|j: int, l: int| 0 <= j < l < v.len() ==> comes_before(v[j], v[l])
}

/// Position `j` occurs in `perm`.
pub open spec fn placed(perm: Seq<usize>, j: int) -> bool {
    exists|l: int| 0 <= l < perm.len() && #[trigger] perm[l] == j
}

/// The positions of `v` in report order.
pub open spec fn sorted_positions(v: Seq<(InstalledAddon, u32)>, perm: Seq<usize>) -> bool {
    &&& perm.len() == v.len()
    &&& forall|l: int| 0 <= l < perm.len() ==> #[trigger] perm[l] < v.len()
    &&& forall|j: int| 0 <= j < v.len() ==> #[trigger] placed(perm, j)
    &&& forall|j: int, l: int| 0 <= j < l < perm.len() ==> comes_before(v[perm[j] as int], v[perm[l] as int])
}

/// Sorts the positions of `v` into report order (insertion sort).
#[verifier::rlimit(60)]
fn sort_positions(v: &Vec<(InstalledAddon, u32)>) -> (perm: Vec<usize>)
    requires
        slugs_unique(pair_slugs(v@)),
    ensures
        sorted_positions(v@, perm@),
{
    let mut perm: Vec<usize> = Vec::new();
    let mut i: usize = 0;
    while i < v.len()
        invariant
            0 <= i <= v.len(),
            slugs_unique(pair_slugs(v@)),
            perm@.len() == i,
            forall|l: int| 0 <= l < perm@.len() ==> #[trigger] perm@[l] < i,
            forall|j: int| 0 <= j < i ==> #[trigger] placed(perm@, j),
            forall|j: int, l: int| 0 <= j < l < perm@.len() ==> comes_before(v@[perm@[j] as int], v@[perm@[l] as int]),
        decreases v.len() - i,
    {
        let x = &v[i];
        let mut pos: usize = 0;
        while pos < perm.len() && !goes_before(x, &v[perm[pos]])
            invariant
                0 <= pos <= perm@.len(),
                i < v.len(),
                *x == v@[i as int],
                forall|l: int| 0 <= l < perm@.len() ==> #[trigger] perm@[l] < i,
                forall|l: int| 0 <= l < pos ==> !comes_before(*x, v@[#[trigger] perm@[l] as int]),
            decreases perm@.len() - pos,
        {
            pos += 1;
        }
        let ghost before = perm@;
        proof {
            assert forall|l: int| 0 <= l < pos implies comes_before(v@[#[trigger] before[l] as int], *x) by {
                let y = v@[before[l] as int];
                assert(pair_slugs(v@)[before[l] as int] == y.0);
                assert(pair_slugs(v@)[i as int] == x.0);
                lemma_comes_before(*x, y, *x);
            }
            if pos < before.len() {
                assert(comes_before(*x, v@[before[pos as int] as int]));
                assert forall|l: int| pos <= l < before.len() implies comes_before(*x, v@[#[trigger] before[l] as int]) by {
                    if l > pos {
                        lemma_comes_before(*x, v@[before[pos as int] as int], v@[before[l] as int]);
                    }
                }
            }
        }
        perm.insert(pos, i);
        proof {
            let after = perm@;
            assert(after == before.insert(pos as int, i));
            assert forall|j: int, l: int| 0 <= j < l < after.len() implies comes_before(v@[after[j] as int], v@[after[l] as int]) by {
                if l < pos {
                    assert(after[j] == before[j] && after[l] == before[l]);
                } else if l == pos {
                    assert(after[j] == before[j]);
                } else if j < pos {
                    assert(after[j] == before[j] && after[l] == before[l - 1]);
                    lemma_comes_before(v@[before[j] as int], *x, v@[before[l - 1] as int]);
                } else if j == pos {
                    assert(after[l] == before[l - 1]);
                } else {
                    assert(after[l] == before[l - 1]);
                    assert(after[j] == before[j - 1]);
                }
            }
            assert forall|l: int| 0 <= l < after.len() implies #[trigger] after[l] < i + 1 by {
                if l < pos {
                    assert(after[l] == before[l]);
                } else if l > pos {
                    assert(after[l] == before[l - 1]);
                }
            }
            assert forall|j: int| 0 <= j < i + 1 implies #[trigger] placed(after, j) by {
                if j == i {
                    assert(after[pos as int] == j);
                } else {
                    assert(placed(before, j));
                    let l0 = choose|l: int| 0 <= l < before.len() && #[trigger] before[l] == j;
                    if l0 < pos {
                        assert(after[l0] == j);
                    } else {
                        assert(after[l0 + 1] == j);
                    }
                }
            }
        }
        i += 1;
    }
    perm
}

/// The stale candidates and the addons of unknown date, each once.
#[verifier::rlimit(60)]
fn classify(registry: &Registry, threshold: u32, now: (i32, u32, u32)) -> (r: (Vec<(InstalledAddon, u32)>, Vec<InstalledAddon>))
    requires
        registry.wf(),
        now_readable(now),
    ensures
        candidates_exactly(r.0@, *registry, now, threshold),
        forall|i: int| 0 <= i < r.1@.len() ==> #[trigger] registry@.contains_key(r.1@[i].slug@) && r.1@[i].model()
            =~= registry@[r.1@[i].slug@].model() && dating(registry@[r.1@[i].slug@], now) == Dating::Unknown,
        forall|k: Seq<char>| #[trigger]
            registry@.contains_key(k) && dating(registry@[k], now) == Dating::Unknown ==> exists|i: int|
                0 <= i < r.1@.len() && r.1@[i].slug@ == k,
        slugs_unique(r.1@),
{
    let all = registry.list_all();
    let ghost rs = all@.map_values(|a: &InstalledAddon| *a);
    let mut cands: Vec<(InstalledAddon, u32)> = Vec::new();
    let mut unknown: Vec<InstalledAddon> = Vec::new();
    let ghost mut ci: Seq<int> = Seq::empty();
    let ghost mut ui: Seq<int> = Seq::empty();
    let mut i: usize = 0;
    while i < all.len()
        invariant
            0 <= i <= all.len(),
            rs == all@.map_values(|a: &InstalledAddon| *a),
            lists_exactly(rs, registry@),
            now_readable(now),
            cands@.len() == ci.len(),
            unknown@.len() == ui.len(),
            forall|p: int| 0 <= p < ci.len() ==> 0 <= #[trigger] ci[p] < i && cands@[p].0.model() =~= rs[ci[p]].model()
                && dating(rs[ci[p]], now) == Dating::Months(cands@[p].1 as int) && cands@[p].1 >= threshold,
            forall|p: int, q: int| 0 <= p < q < ci.len() ==> ci[p] < ci[q],
            forall|j: int| 0 <= j < i && is_stale(#[trigger] rs[j], now, threshold) ==> exists|p: int| 0 <= p < ci.len() && ci[p] == j,
            forall|p: int| 0 <= p < ui.len() ==> 0 <= #[trigger] ui[p] < i && unknown@[p].model() =~= rs[ui[p]].model()
                && dating(rs[ui[p]], now) == Dating::Unknown,
            forall|p: int, q: int| 0 <= p < q < ui.len() ==> ui[p] < ui[q],
            forall|j: int| 0 <= j < i && dating(#[trigger] rs[j], now) == Dating::Unknown ==> exists|p: int| 0 <= p < ui.len() && ui[p] == j,
        decreases all.len() - i,
    {
        let a: &InstalledAddon = all[i];
        assert(rs[i as int] == *a);
        assert(registry@.contains_key(rs[i as int].slug@));
        assert(registry@[a.slug@] == *a);
        let ghost ci0 = ci;
        let ghost ui0 = ui;
        match dating_of(a, now) {
            None => {},
            Some(None) => {
                unknown.push(a.duplicate());
                proof {
                    ui = ui.push(i as int);
                }
            },
            Some(Some(age)) => {
                if age >= threshold {
                    cands.push((a.duplicate(), age));
                    proof {
                        ci = ci.push(i as int);
                    }
                }
            },
        }
        proof {
            assert forall|j: int| 0 <= j < i + 1 && is_stale(#[trigger] rs[j], now, threshold) implies exists|p: int| 0 <= p < ci.len() && ci[p] == j by {
                if j < i {
                    let p = choose|p: int| 0 <= p < ci0.len() && ci0[p] == j;
                    assert(ci[p] == j);
                } else {
                    assert(ci[ci.len() - 1] == j);
                }
            }
            assert forall|j: int| 0 <= j < i + 1 && dating(#[trigger] rs[j], now) == Dating::Unknown implies exists|p: int| 0 <= p < ui.len() && ui[p] == j by {
                if j < i {
                    let p = choose|p: int| 0 <= p < ui0.len() && ui0[p] == j;
                    assert(ui[p] == j);
                } else {
                    assert(ui[ui.len() - 1] == j);
                }
            }
        }
        i += 1;
    }
    proof {
        assert forall|p: int, q: int| 0 <= p < pair_slugs(cands@).len() && 0 <= q < pair_slugs(cands@).len() && p != q
            implies #[trigger] pair_slugs(cands@)[p].slug@ != #[trigger] pair_slugs(cands@)[q].slug@ by {
            if p < q {
                assert(ci[p] < ci[q]);
            } else {
                assert(ci[q] < ci[p]);
            }
            assert(pair_slugs(cands@)[p] == cands@[p].0);
            assert(pair_slugs(cands@)[q] == cands@[q].0);
        }
        assert forall|i: int| 0 <= i < cands@.len() implies #[trigger] registry@.contains_key(cands@[i].0.slug@)
            && cands@[i].0.model() =~= registry@[cands@[i].0.slug@].model() && dating(registry@[cands@[i].0.slug@], now)
            == Dating::Months(cands@[i].1 as int) && cands@[i].1 >= threshold by {
            assert(0 <= ci[i] < rs.len());
            assert(registry@.contains_key(rs[ci[i]].slug@));
            assert(registry@[rs[ci[i]].slug@] == rs[ci[i]]);
        }
        assert forall|k: Seq<char>| #[trigger] registry@.contains_key(k) && is_stale(registry@[k], now, threshold) implies exists|i: int|
            0 <= i < cands@.len() && cands@[i].0.slug@ == k by {
            let j = choose|j: int| 0 <= j < rs.len() && rs[j].slug@ == k;
            assert(registry@[rs[j].slug@] == rs[j]);
            let p = choose|p: int| 0 <= p < ci.len() && ci[p] == j;
            assert(cands@[p].0.slug@ == k);
        }
        assert forall|i: int| 0 <= i < unknown@.len() implies #[trigger] registry@.contains_key(unknown@[i].slug@) && unknown@[i].model()
            =~= registry@[unknown@[i].slug@].model() && dating(registry@[unknown@[i].slug@], now) == Dating::Unknown by {
            assert(0 <= ui[i] < rs.len());
            assert(unknown@[i].model() =~= rs[ui[i]].model());
            assert(unknown@[i].slug@ == rs[ui[i]].slug@);
            assert(registry@.contains_key(rs[ui[i]].slug@));
            assert(registry@[rs[ui[i]].slug@] == rs[ui[i]]);
        }
        assert forall|k: Seq<char>| #[trigger]
            registry@.contains_key(k) && dating(registry@[k], now) == Dating::Unknown implies exists|i: int|
                0 <= i < unknown@.len() && unknown@[i].slug@ == k by {
            let j = choose|j: int| 0 <= j < rs.len() && rs[j].slug@ == k;
            assert(registry@[rs[j].slug@] == rs[j]);
            let p = choose|p: int| 0 <= p < ui.len() && ui[p] == j;
            assert(unknown@[p].slug@ == k);
        }
        assert forall|p: int, q: int| 0 <= p < unknown@.len() && 0 <= q < unknown@.len() && p != q
            implies #[trigger] unknown@[p].slug@ != #[trigger] unknown@[q].slug@ by {
            if p < q {
                assert(ui[p] < ui[q]);
            } else {
                assert(ui[q] < ui[p]);
            }
        }
    }
    (cands, unknown)
}

/// Gregorian leap years.
pub open spec fn is_leap(y: int) -> bool {
    (y % 4 == 0 && y % 100 != 0) || y % 400 == 0
}

pub open spec fn year_days(y: int) -> int {
    if is_leap(y) {
        366
    } else {
        365
    }
}

pub open spec fn month_days(y: int, m: int) -> int {
    if m == 2 {
        if is_leap(y) {
            29
        } else {
            28
        }
    } else if m == 4 || m == 6 || m == 9 || m == 11 {
        30
    } else {
        31
    }
}

/// Days from 1970-01-01 to the first day of year `y`.
pub open spec fn days_before_year(y: int) -> int
    decreases y - 1970,
{
    if y <= 1970 {
        0
    } else {
        days_before_year(y - 1) + year_days(y - 1)
    }
}

/// Days from the first of the year to the first day of month `m`.
pub open spec fn days_before_month(y: int, m: int) -> int
    decreases m,
{
    if m <= 1 {
        0
    } else {
        days_before_month(y, m - 1) + month_days(y, m - 1)
    }
}

/// The number of the day `(y, m, d)`, counted from 1970-01-01 as day 0.
pub open spec fn day_number(y: int, m: int, d: int) -> int {
    days_before_year(y) + days_before_month(y, m) + d - 1
}

/// A calendar date from 1970 on.
pub open spec fn valid_civil(t: (i32, u32, u32)) -> bool {
    t.0 >= 1970 && 1 <= t.1 <= 12 && 1 <= t.2 <= month_days(t.0 as int, t.1 as int)
}

fn leap(y: i32) -> (r: bool)
    ensures
        r == is_leap(y as int),
{
    (y % 4 == 0 && y % 100 != 0) || y % 400 == 0
}

proof fn lemma_months_fill_year(y: int)
    ensures
        days_before_month(y, 13) == year_days(y),
        forall|m: int| 1 <= m <= 12 ==> #[trigger] days_before_month(y, m) + month_days(y, m) == days_before_month(y, m + 1),
{
    reveal_with_fuel(days_before_month, 13);
}

/// The calendar date of day `days` (day 0 being 1970-01-01).
pub fn civil_from_days(days: u64) -> (r: (i32, u32, u32))
    requires
        days <= 2147483647,
    ensures
        valid_civil(r),
        day_number(r.0 as int, r.1 as int, r.2 as int) == days,
{
    let mut y: i32 = 1970;
    let mut rem: u64 = days;
    while rem >= year_len(y)
        invariant
            1970 <= y,
            y - 1970 <= days / 365,
            days <= 2147483647,
            days_before_year(y as int) + rem == days,
        decreases rem,
    {
        let yd: u64 = year_len(y);
        proof {
            assert(days_before_year(y + 1) == days_before_year(y as int) + year_days(y as int));
            assert(days_before_year(y as int) >= (y - 1970) * 365) by {
                lemma_days_before_year_min(y as int);
            }
        }
        rem = rem - yd;
        y = y + 1;
        proof {
            assert((y - 1970) * 365 <= days) by {
                lemma_days_before_year_min(y as int);
            }
            assert(y - 1970 <= days / 365) by (nonlinear_arith)
                requires
                    (y - 1970) * 365 <= days,
                    y >= 1970,
            ;
        }
    }
    proof {
        lemma_months_fill_year(y as int);
    }
    let mut m: u32 = 1;
    while m < 12 && rem >= month_len(y, m)
        invariant
            1 <= m <= 12,
            1970 <= y,
            days_before_year(y as int) + days_before_month(y as int, m as int) + rem == days,
            days_before_month(y as int, m as int) + rem < year_days(y as int),
            days_before_month(y as int, 13) == year_days(y as int),
            forall|k: int| 1 <= k <= 12 ==> #[trigger] days_before_month(y as int, k) + month_days(y as int, k) == days_before_month(y as int, k + 1),
        decreases 12 - m,
    {
        rem = rem - month_len(y, m);
        m = m + 1;
    }
    proof {
        if m == 12 {
            assert(days_before_month(y as int, 12) + month_days(y as int, 12) == days_before_month(y as int, 13));
        }
    }
    (y, m, (rem + 1) as u32)
}

fn year_len(y: i32) -> (r: u64)
    ensures
        r == year_days(y as int),
{
    if leap(y) {
        366
    } else {
        365
    }
}

fn month_len(y: i32, m: u32) -> (r: u64)
    ensures
        r == month_days(y as int, m as int),
{
    if m == 2 {
        if leap(y) {
            29
        } else {
            28
        }
    } else if m == 4 || m == 6 || m == 9 || m == 11 {
        30
    } else {
        31
    }
}

proof fn lemma_days_before_year_min(y: int)
    requires
        y >= 1970,
    ensures
        days_before_year(y) >= (y - 1970) * 365,
    decreases y - 1970,
{
    if y > 1970 {
        lemma_days_before_year_min(y - 1);
    }
}

/// The day (counted from 1970-01-01) that a clock reading of `nanos`
/// nanoseconds since the Unix epoch falls on.
pub open spec fn day_of_nanos(nanos: u128) -> int {
    nanos as int / 86_400_000_000_000
}

/// `r` is the UTC date of the clock reading `reading`: none for a clock
/// before 1970 or past the days an `i32` counts, else the calendar date of
/// its day.
pub open spec fn date_of_reading(reading: Option<u128>, r: Option<(i32, u32, u32)>) -> bool {
    match reading {
        None => r is None,
        Some(n) => if day_of_nanos(n) > i32::MAX {
            r is None
        } else {
            r matches Some(t) && valid_civil(t) && day_number(t.0 as int, t.1 as int, t.2 as int) == day_of_nanos(n)
        },
    }
}

/// The UTC date of a clock reading given as nanoseconds since the Unix
/// epoch (`None` for a clock set before it).
pub fn date_from_unix_nanos(reading: Option<u128>) -> (r: Option<(i32, u32, u32)>)
    ensures
        date_of_reading(reading, r),
{
    match reading {
        Some(nanos) => {
            let days = nanos / 86_400_000_000_000;
            if days > 2147483647 {
                return None;
            }
            Some(civil_from_days(days as u64))
        },
        None => None,
    }
}

/// Today's date (UTC), from the system clock; `None` when the clock reads
/// before 1970 or past the days an `i32` counts.
pub fn today() -> (r: Option<(i32, u32, u32)>)
    ensures
        r matches Some(t) ==> valid_civil(t),
        exists|reading: Option<u128>| date_of_reading(reading, r),
{
    let reading = crate::clock::now_unix_nanos();
    let r = date_from_unix_nanos(reading);
    assert(date_of_reading(reading, r));
    r
}

} // verus!
