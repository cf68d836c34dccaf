//! Parser for Windows `setupapi.dev.log` (Vista+) and `setupapi.log` (XP)
//! device-installation logs.
//!
//! A device-install section header records the moment a device's driver was
//! installed. Two header grammars are handled:
//!
//! - Vista+: description first, timestamp last inside the brackets:
//!   `[Device Install (Hardware initiated) - USB\VID_0781&PID_5583\<serial> 2023/04/15 14:23:11.456]`
//! - XP: timestamp first inside the brackets:
//!   `[2005/05/12 12:34:56 1234.5678] Device Install - USB\...`
//!
//! Lines that match neither grammar are skipped.

use vstd::prelude::*;
use vstd::arithmetic::div_mod::lemma_fundamental_div_mod_converse;
use crate::text::{
    trim, trim_end, split_char, seqs_view, pos_char_from, rpos_ws_before, pos_ws_from, ws_tokens,
    utf8_size, is_ascii_alnum, is_ascii_hexdigit, starts_with, trim_start, lines,
    opt_seq, find_char, end_without_ws, rfind_ws, find_ws, split_on, ws_tokens_exec,
    lines_exec, copy_range, char_is_alnum, char_is_hexdigit, char_utf8_len, has_prefix, chars_of,
    string_of, lemma_pos_char_from, lemma_rpos_ws_before, lemma_pos_ws_from, lemma_end_non_ws,
    trim_exec, trim_start_exec, is_ws, pos_non_ws_from, lines_from, lemma_pos_non_ws_from,
};
use crate::numbers::{parse_i64, parse_unsigned, parse_i64_exec, parse_unsigned_exec};
use crate::device::{
    Bus, Confidence, ConnectionView, DeviceConnection, MitreRef, Provenance, ProvenanceView, Stamp,
    bus_for, dma_bus, storage_bus, conn_views, consistent_record, stamped,
};

verus! {

// ---------------------------------------------------------------------------
// The proleptic Gregorian calendar
// ---------------------------------------------------------------------------

pub open spec fn is_leap(y: int) -> bool {
    y % 4 == 0 && (y % 100 != 0 || y % 400 == 0)
}

/// Days from 0001-01-01 to `y`-01-01.
pub open spec fn days_before_year(y: int) -> int {
    let p = y - 1;
    365 * p + p / 4 - p / 100 + p / 400
}

/// Days from `y`-01-01 to the first day of month `m` of year `y`.
pub open spec fn days_before_month(y: int, m: int) -> int {
    let base: int = if m <= 1 {
        0
    } else if m == 2 {
        31
    } else if m == 3 {
        59
    } else if m == 4 {
        90
    } else if m == 5 {
        120
    } else if m == 6 {
        151
    } else if m == 7 {
        181
    } else if m == 8 {
        212
    } else if m == 9 {
        243
    } else if m == 10 {
        273
    } else if m == 11 {
        304
    } else {
        334
    };
    base + if m > 2 && is_leap(y) {
        1int
    } else {
        0int
    }
}

/// Days from 1970-01-01 to `y`-`m`-`d`.
pub open spec fn unix_day(y: int, m: int, d: int) -> int {
    days_before_year(y) + days_before_month(y, m) + d - 1 - 719162
}

/// The Unix epoch seconds of a civil UTC date-time, when every field is in
/// range (year 1..=9999, month 1..=12, day 1..=31, hour 0..=23, minute
/// 0..=59, second 0..=60); `None` otherwise.
pub open spec fn civil_epoch(y: int, m: int, d: int, hh: int, mm: int, ss: int) -> Option<int> {
    if 1 <= y <= 9999 && 1 <= m <= 12 && 1 <= d <= 31 && 0 <= hh <= 23 && 0 <= mm <= 59 && 0
        <= ss <= 60 {
        Some(unix_day(y, m, d) * 86400 + hh * 3600 + mm * 60 + ss)
    } else {
        None
    }
}

/// Days in the years `1..=n` (what `days_before_year(n + 1)` counts), split
/// into 400-year eras.
proof fn lemma_era_days(n: int)
    requires
        n >= 0,
    ensures
        146097 * (n / 400) + 365 * (n % 400) + (n % 400) / 4 - (n % 400) / 100 == 365 * n + n
            / 4 - n / 100 + n / 400,
{
    let e = n / 400;
    let r = n % 400;
    lemma_fundamental_div_mod_converse(n, 400, e, r);
    assert(n == 400 * e + r) by {
        vstd::arithmetic::div_mod::lemma_fundamental_div_mod(n, 400);
    }
    assert(0 <= r < 400) by {
        vstd::arithmetic::div_mod::lemma_mod_bound(n, 400);
    }
    let q4 = r / 4;
    let r4 = r % 4;
    assert(r == 4 * q4 + r4 && 0 <= r4 < 4) by {
        vstd::arithmetic::div_mod::lemma_fundamental_div_mod(r, 4);
        vstd::arithmetic::div_mod::lemma_mod_bound(r, 4);
    }
    lemma_fundamental_div_mod_converse(n, 4, 100 * e + q4, r4);
    let q100 = r / 100;
    let r100 = r % 100;
    assert(r == 100 * q100 + r100 && 0 <= r100 < 100) by {
        vstd::arithmetic::div_mod::lemma_fundamental_div_mod(r, 100);
        vstd::arithmetic::div_mod::lemma_mod_bound(r, 100);
    }
    lemma_fundamental_div_mod_converse(n, 100, 4 * e + q100, r100);
}

/// One more year: `days_before_year(y + 1) == days_before_year(y) + 365 + leap(y)`.
proof fn lemma_year_step(y: int)
    requires
        y >= 1,
    ensures
        days_before_year(y + 1) == days_before_year(y) + 365 + if is_leap(y) {
            1int
        } else {
            0int
        },
{
    let p = y - 1;
    let q4 = p / 4;
    let r4 = p % 4;
    assert(p == 4 * q4 + r4 && 0 <= r4 < 4) by {
        vstd::arithmetic::div_mod::lemma_fundamental_div_mod(p, 4);
        vstd::arithmetic::div_mod::lemma_mod_bound(p, 4);
    }
    if r4 == 3 {
        lemma_fundamental_div_mod_converse(y, 4, q4 + 1, 0);
    } else {
        lemma_fundamental_div_mod_converse(y, 4, q4, r4 + 1);
    }
    let q100 = p / 100;
    let r100 = p % 100;
    assert(p == 100 * q100 + r100 && 0 <= r100 < 100) by {
        vstd::arithmetic::div_mod::lemma_fundamental_div_mod(p, 100);
        vstd::arithmetic::div_mod::lemma_mod_bound(p, 100);
    }
    if r100 == 99 {
        lemma_fundamental_div_mod_converse(y, 100, q100 + 1, 0);
    } else {
        lemma_fundamental_div_mod_converse(y, 100, q100, r100 + 1);
    }
    let q400 = p / 400;
    let r400 = p % 400;
    assert(p == 400 * q400 + r400 && 0 <= r400 < 400) by {
        vstd::arithmetic::div_mod::lemma_fundamental_div_mod(p, 400);
        vstd::arithmetic::div_mod::lemma_mod_bound(p, 400);
    }
    if r400 == 399 {
        lemma_fundamental_div_mod_converse(y, 400, q400 + 1, 0);
    } else {
        lemma_fundamental_div_mod_converse(y, 400, q400, r400 + 1);
    }
}

/// The day number Howard Hinnant's `days_from_civil` computes, counting
/// from 1970-01-01 with years starting in March.
pub open spec fn days_from_civil(y: int, m: int, d: int) -> int {
    let y2 = if m <= 2 {
        y - 1
    } else {
        y
    };
    let era = y2 / 400;
    let yoe = y2 - era * 400;
    let mp = (m + 9) % 12;
    let doy = (153 * mp + 2) / 5 + d - 1;
    let doe = yoe * 365 + yoe / 4 - yoe / 100 + doy;
    era * 146097 + doe - 719468
}

/// Hinnant's March-based count agrees with the calendar definition.
pub proof fn lemma_days_from_civil(y: int, m: int, d: int)
    requires
        1 <= y <= 9999,
        1 <= m <= 12,
        1 <= d <= 31,
    ensures
        days_from_civil(y, m, d) == unix_day(y, m, d),
{
    let n = if m <= 2 {
        y - 1
    } else {
        y
    };
    vstd::arithmetic::div_mod::lemma_fundamental_div_mod(n, 400);
    lemma_era_days(n);
    let doy = (153 * ((m + 9) % 12) + 2) / 5 + d - 1;
    assert(days_from_civil(y, m, d) == days_before_year(n + 1) + doy - 719468);
    if m <= 2 {
        assert(doy == (if m == 1 { 306int } else { 337int }) + d - 1);
    } else {
        lemma_year_step(y);
        assert(doy == days_before_month(y, m) - 59 - (if is_leap(y) {
            1int
        } else {
            0int
        }) + d - 1);
    }
}

/// Convert a civil UTC date-time to Unix epoch seconds (Howard Hinnant's
/// `days_from_civil`). `None` for an out-of-range field; the year is bounded
/// to `1..=9999` before any multiplication.
pub fn civil_to_epoch(y: i64, m: i64, d: i64, hh: i64, mm: i64, ss: i64) -> (r: Option<i64>)
    ensures
        match r {
            Some(v) => civil_epoch(y as int, m as int, d as int, hh as int, mm as int, ss as int)
                == Some(v as int),
            None => civil_epoch(
                y as int,
                m as int,
                d as int,
                hh as int,
                mm as int,
                ss as int,
            ) is None,
        },
{
    if !(1 <= y && y <= 9999) {
        return None;
    }
    if !(1 <= m && m <= 12) || !(1 <= d && d <= 31) {
        return None;
    }
    if !(0 <= hh && hh <= 23) || !(0 <= mm && mm <= 59) || !(0 <= ss && ss <= 60) {
        return None;
    }
    let y2 = if m <= 2 {
        y - 1
    } else {
        y
    };
    let era = if y2 >= 0 {
        y2
    } else {
        y2 - 399
    } / 400;
    let yoe = y2 - era * 400;
    let mp = (m + 9) % 12;
    let doy = (153 * mp + 2) / 5 + d - 1;
    let doe = yoe * 365 + yoe / 4 - yoe / 100 + doy;
    let days = era * 146_097 + doe - 719_468;
    proof {
        lemma_days_from_civil(y as int, m as int, d as int);
    }
    Some(days * 86_400 + hh * 3_600 + mm * 60 + ss)
}

// ---------------------------------------------------------------------------
// Timestamps
// ---------------------------------------------------------------------------

/// Three `i64` fields, when `parts` holds exactly three that parse.
pub open spec fn three_fields(parts: Seq<Seq<char>>) -> Option<(int, int, int)> {
    if parts.len() == 3 {
        match (parse_i64(parts[0]), parse_i64(parts[1]), parse_i64(parts[2])) {
            (Some(a), Some(b), Some(c)) => Some((a, b, c)),
            _ => None,
        }
    } else {
        None
    }
}

/// `YYYY/MM/DD HH:MM:SS[.fff]` (trimmed; split at the first space; the
/// fraction after the first `.` dropped) as Unix epoch seconds.
pub open spec fn timestamp_epoch(s: Seq<char>) -> Option<int> {
    let t = trim(s);
    let sp = pos_char_from(t, ' ', 0);
    if sp >= t.len() {
        None
    } else {
        let date = t.take(sp);
        let rest = t.skip(sp + 1);
        let time = rest.take(pos_char_from(rest, '.', 0));
        match (three_fields(split_char(date, '/')), three_fields(split_char(time, ':'))) {
            (Some((y, m, d)), Some((hh, mm, ss))) => civil_epoch(y, m, d, hh, mm, ss),
            _ => None,
        }
    }
}

fn three_fields_exec(parts: &Vec<Vec<char>>) -> (r: Option<(i64, i64, i64)>)
    ensures
        match r {
            Some((a, b, c)) => three_fields(seqs_view(parts@)) == Some(
                (a as int, b as int, c as int),
            ),
            None => three_fields(seqs_view(parts@)) is None,
        },
{
    if parts.len() != 3 {
        return None;
    }
    let a = parse_i64_exec(parts[0].as_slice());
    let b = parse_i64_exec(parts[1].as_slice());
    let c = parse_i64_exec(parts[2].as_slice());
    match (a, b, c) {
        (Some(a), Some(b), Some(c)) => Some((a, b, c)),
        _ => None,
    }
}


fn timestamp_epoch_exec(s: &[char]) -> (r: Option<i64>)
    ensures
        match r {
            Some(v) => timestamp_epoch(s@) == Some(v as int),
            None => timestamp_epoch(s@) is None,
        },
{
    let t = trim_exec(s);
    let t = t.as_slice();
    let sp = find_char(t, ' ', 0);
    proof {
        lemma_pos_char_from(t@, ' ', 0);
    }
    if sp >= t.len() {
        return None;
    }
    let date = copy_range(t, 0, sp);
    assert(date@ == t@.take(sp as int));
    let rest = copy_range(t, sp + 1, t.len());
    assert(rest@ == t@.skip(sp + 1));
    let dot = find_char(rest.as_slice(), '.', 0);
    proof {
        lemma_pos_char_from(rest@, '.', 0);
    }
    let time = copy_range(rest.as_slice(), 0, dot);
    assert(time@ == rest@.take(dot as int));
    let dparts = split_on(date.as_slice(), '/');
    let tparts = split_on(time.as_slice(), ':');
    match (three_fields_exec(&dparts), three_fields_exec(&tparts)) {
        (Some((y, m, d)), Some((hh, mm, ss))) => civil_to_epoch(y, m, d, hh, mm, ss),
        _ => None,
    }
}

/// Parse a `YYYY/MM/DD HH:MM:SS[.mmm]` timestamp (treated as UTC) into Unix
/// epoch seconds. `None` on any malformed or out-of-range component.
pub fn parse_timestamp(s: &str) -> (r: Option<i64>)
    ensures
        match r {
            Some(v) => timestamp_epoch(s@) == Some(v as int),
            None => timestamp_epoch(s@) is None,
        },
{
    let v = chars_of(s);
    timestamp_epoch_exec(v.as_slice())
}

/// `a`, a space, then `b` (what `format!("{a} {b}")` builds).
pub open spec fn spaced(a: Seq<char>, b: Seq<char>) -> Seq<char> {
    a + seq![' '] + b
}

fn spaced_exec(a: &[char], b: &[char]) -> (r: Vec<char>)
    ensures
        r@ == spaced(a@, b@),
{
    let mut r = copy_range(a, 0, a.len());
    r.push(' ');
    let mut i: usize = 0;
    while i < b.len()
        invariant
            i <= b@.len(),
            r@ == a@ + seq![' '] + b@.take(i as int),
        decreases b@.len() - i,
    {
        r.push(b[i]);
        i = i + 1;
        assert(r@ =~= a@ + seq![' '] + b@.take(i as int));
    }
    assert(b@.take(b@.len() as int) =~= b@);
    r
}

// ---------------------------------------------------------------------------
// Section headers
// ---------------------------------------------------------------------------

/// The Vista+ form: the body ends with a `date time` pair, split off as the
/// last two whitespace-separated tokens of the right-trimmed body; yields the
/// text before them and the epoch.
pub open spec fn trailing_timestamp(body: Seq<char>) -> Option<(Seq<char>, int)> {
    let b = trim_end(body);
    let i = rpos_ws_before(b, b.len() as int);
    if i < 0 {
        None
    } else {
        let time = b.skip(i + 1);
        let rest = b.take(i);
        let j = rpos_ws_before(rest, rest.len() as int);
        if j < 0 {
            None
        } else {
            match timestamp_epoch(spaced(rest.skip(j + 1), time)) {
                Some(e) => Some((rest.take(j), e)),
                None => None,
            }
        }
    }
}

/// The XP form: the body starts with a `date time` pair (the first two
/// whitespace-separated pieces); yields the epoch.
pub open spec fn leading_timestamp(body: Seq<char>) -> Option<int> {
    let i = pos_ws_from(body, 0);
    if i >= body.len() {
        None
    } else {
        let r1 = body.skip(i + 1);
        let time = r1.take(pos_ws_from(r1, 0));
        timestamp_epoch(spaced(body.take(i), time))
    }
}

/// The enumerator of a token: the text before its first `\`.
pub open spec fn token_enumerator(t: Seq<char>) -> Seq<char> {
    t.take(pos_char_from(t, '\\', 0))
}

pub open spec fn all_alnum(s: Seq<char>) -> bool {
    forall|i: int| 0 <= i < s.len() ==> is_ascii_alnum(#[trigger] s[i])
}

/// A token shaped like a device instance id: it contains a `\` and the text
/// before the first `\` is a non-empty ASCII-alphanumeric enumerator.
pub open spec fn is_instance_token(t: Seq<char>) -> bool {
    pos_char_from(t, '\\', 0) < t.len() && token_enumerator(t).len() > 0 && all_alnum(
        token_enumerator(t),
    )
}

/// The longest (in UTF-8 bytes) instance-shaped token of `toks[k..]`, the
/// later one on a tie, starting from the candidate `best`.
pub open spec fn longest_instance(toks: Seq<Seq<char>>, k: int, best: Option<Seq<char>>) -> Option<
    Seq<char>,
>
    decreases toks.len() - k,
{
    if k < 0 || k >= toks.len() {
        best
    } else {
        let t = toks[k];
        let next = if is_instance_token(t) && match best {
            Some(b) => utf8_size(t) >= utf8_size(b),
            None => true,
        } {
            Some(t)
        } else {
            best
        };
        longest_instance(toks, k + 1, next)
    }
}

/// The device instance id inside free text: the longest whitespace-delimited
/// token that contains a `\` and starts with an alphanumeric enumerator.
pub open spec fn instance_in(text: Seq<char>) -> Option<Seq<char>> {
    longest_instance(ws_tokens(text), 0, None)
}

/// A section header `[ ... ]`: the device instance id and install epoch of a
/// device-install header, in the Vista+ grammar first, else the XP grammar.
pub open spec fn header_fields(line: Seq<char>) -> Option<(Seq<char>, int)> {
    if !(line.len() > 0 && line[0] == '[') {
        None
    } else {
        let inner = line.drop_first();
        let close = pos_char_from(inner, ']', 0);
        if close >= inner.len() {
            None
        } else {
            let body = inner.take(close);
            let vista = match trailing_timestamp(body) {
                Some((desc, e)) => match instance_in(desc) {
                    Some(inst) => Some((inst, e)),
                    None => None,
                },
                None => None,
            };
            if vista is Some {
                vista
            } else {
                match leading_timestamp(body) {
                    Some(e) => match instance_in(inner.skip(close + 1)) {
                        Some(inst) => Some((inst, e)),
                        None => None,
                    },
                    None => None,
                }
            }
        }
    }
}

/// A line with its leading whitespace and a leading `>>>` / `<<<` section
/// marker (and the whitespace after it) removed.
pub open spec fn strip_marker(line: Seq<char>) -> Seq<char> {
    let t = trim_start(line);
    if starts_with(t, ">>>"@) || starts_with(t, "<<<"@) {
        trim_start(t.skip(3))
    } else {
        t
    }
}


fn strip_marker_exec(line: &[char]) -> (r: Vec<char>)
    ensures
        r@ == strip_marker(line@),
{
    let t = trim_start_exec(line);
    let m1 = chars_of(">>>");
    let m2 = chars_of("<<<");
    if has_prefix(t.as_slice(), m1.as_slice()) || has_prefix(t.as_slice(), m2.as_slice()) {
        proof {
            vstd::string::axiom_str_literal_len(">>>");
            vstd::string::axiom_str_literal_len("<<<");
            reveal_strlit(">>>");
            reveal_strlit("<<<");
        }
        let rest = copy_range(t.as_slice(), 3, t.len());
        assert(rest@ == t@.skip(3));
        trim_start_exec(rest.as_slice())
    } else {
        t
    }
}

fn trailing_timestamp_exec(body: &[char]) -> (r: Option<(Vec<char>, i64)>)
    ensures
        match r {
            Some((d, e)) => trailing_timestamp(body@) == Some((d@, e as int)),
            None => trailing_timestamp(body@) is None,
        },
{
    let e = end_without_ws(body, body.len());
    proof {
        lemma_end_non_ws(body@, body@.len() as int);
    }
    let b = copy_range(body, 0, e);
    assert(b@ == trim_end(body@));
    let b = b.as_slice();
    match rfind_ws(b, b.len()) {
        None => None,
        Some(i) => {
            proof {
                lemma_rpos_ws_before(b@, b@.len() as int);
            }
            let time = copy_range(b, i + 1, b.len());
            assert(time@ == b@.skip(i + 1));
            let rest = copy_range(b, 0, i);
            assert(rest@ == b@.take(i as int));
            let rest = rest.as_slice();
            match rfind_ws(rest, rest.len()) {
                None => None,
                Some(j) => {
                    proof {
                        lemma_rpos_ws_before(rest@, rest@.len() as int);
                    }
                    let date = copy_range(rest, j + 1, rest.len());
                    assert(date@ == rest@.skip(j + 1));
                    let head = copy_range(rest, 0, j);
                    assert(head@ == rest@.take(j as int));
                    let ts = spaced_exec(date.as_slice(), time.as_slice());
                    match timestamp_epoch_exec(ts.as_slice()) {
                        Some(epoch) => Some((head, epoch)),
                        None => None,
                    }
                },
            }
        },
    }
}

fn leading_timestamp_exec(body: &[char]) -> (r: Option<i64>)
    ensures
        match r {
            Some(e) => leading_timestamp(body@) == Some(e as int),
            None => leading_timestamp(body@) is None,
        },
{
    let i = find_ws(body, 0);
    proof {
        lemma_pos_ws_from(body@, 0);
    }
    if i >= body.len() {
        return None;
    }
    let r1 = copy_range(body, i + 1, body.len());
    assert(r1@ == body@.skip(i + 1));
    let j = find_ws(r1.as_slice(), 0);
    proof {
        lemma_pos_ws_from(r1@, 0);
    }
    let time = copy_range(r1.as_slice(), 0, j);
    assert(time@ == r1@.take(j as int));
    let date = copy_range(body, 0, i);
    assert(date@ == body@.take(i as int));
    let ts = spaced_exec(date.as_slice(), time.as_slice());
    timestamp_epoch_exec(ts.as_slice())
}

fn is_instance_token_exec(t: &[char]) -> (b: bool)
    ensures
        b == is_instance_token(t@),
{
    let j = find_char(t, '\\', 0);
    proof {
        lemma_pos_char_from(t@, '\\', 0);
    }
    if j >= t.len() || j == 0 {
        return false;
    }
    let mut k: usize = 0;
    while k < j
        invariant
            j <= t@.len(),
            j == pos_char_from(t@, '\\', 0),
            k <= j,
            forall|q: int| 0 <= q < k ==> is_ascii_alnum(#[trigger] t@[q]),
        decreases j - k,
    {
        if !char_is_alnum(t[k]) {
            assert(!all_alnum(token_enumerator(t@))) by {
                assert(token_enumerator(t@)[k as int] == t@[k as int]);
            }
            return false;
        }
        k = k + 1;
    }
    assert(all_alnum(token_enumerator(t@))) by {
        assert forall|q: int| 0 <= q < token_enumerator(t@).len() implies is_ascii_alnum(
            #[trigger] token_enumerator(t@)[q],
        ) by {
            assert(token_enumerator(t@)[q] == t@[q]);
        }
    }
    true
}

/// `str::len` of a character sequence: its UTF-8 size in bytes.
fn utf8_size_exec(t: &[char]) -> (n: u128)
    ensures
        n == utf8_size(t@),
{
    let mut n: u128 = 0;
    let mut i: usize = 0;
    while i < t.len()
        invariant
            i <= t@.len(),
            n == utf8_size(t@.take(i as int)),
            n <= 4 * i,
        decreases t@.len() - i,
    {
        let ghost prev = t@.take(i as int);
        n = n + char_utf8_len(t[i]) as u128;
        i = i + 1;
        assert(t@.take(i as int).drop_last() == prev);
        assert(t@.take(i as int).last() == t@[i - 1]);
    }
    assert(t@.take(t@.len() as int) == t@);
    n
}

fn instance_in_exec(text: &[char]) -> (r: Option<Vec<char>>)
    ensures
        opt_seq(r) == instance_in(text@),
{
    let toks = ws_tokens_exec(text);
    let ghost tv = seqs_view(toks@);
    let mut best: Option<Vec<char>> = None;
    let mut best_size: u128 = 0;
    let mut k: usize = 0;
    while k < toks.len()
        invariant
            k <= toks@.len(),
            tv == seqs_view(toks@),
            tv == ws_tokens(text@),
            longest_instance(tv, 0, None) == longest_instance(tv, k as int, opt_seq(best)),
            match best {
                Some(b) => best_size == utf8_size(b@),
                None => true,
            },
        decreases toks@.len() - k,
    {
        let t = toks[k].as_slice();
        assert(t@ == tv[k as int]);
        if is_instance_token_exec(t) {
            let sz = utf8_size_exec(t);
            if best.is_none() || sz >= best_size {
                best = Some(copy_range(t, 0, t.len()));
                best_size = sz;
                assert(t@.subrange(0, t@.len() as int) == t@);
            }
        }
        k = k + 1;
    }
    best
}

fn header_fields_exec(line: &[char]) -> (r: Option<(Vec<char>, i64)>)
    ensures
        match r {
            Some((inst, e)) => header_fields(line@) == Some((inst@, e as int)),
            None => header_fields(line@) is None,
        },
{
    if !(line.len() > 0 && line[0] == '[') {
        return None;
    }
    let inner = copy_range(line, 1, line.len());
    assert(inner@ == line@.drop_first());
    let inner = inner.as_slice();
    let close = find_char(inner, ']', 0);
    proof {
        lemma_pos_char_from(inner@, ']', 0);
    }
    if close >= inner.len() {
        return None;
    }
    let body = copy_range(inner, 0, close);
    assert(body@ == inner@.take(close as int));
    if let Some((desc, epoch)) = trailing_timestamp_exec(body.as_slice()) {
        if let Some(inst) = instance_in_exec(desc.as_slice()) {
            return Some((inst, epoch));
        }
    }
    match leading_timestamp_exec(body.as_slice()) {
        Some(epoch) => {
            let after = copy_range(inner, close + 1, inner.len());
            assert(after@ == inner@.skip(close + 1));
            match instance_in_exec(after.as_slice()) {
                Some(inst) => Some((inst, epoch)),
                None => None,
            }
        },
        None => None,
    }
}

// ---------------------------------------------------------------------------
// Connections
// ---------------------------------------------------------------------------

/// The end of the leading run of ASCII hex digits of `s` from `i`.
pub open spec fn hex_run_end(s: Seq<char>, i: int) -> int
    decreases s.len() - i,
{
    if i < 0 || i >= s.len() {
        s.len() as int
    } else if !is_ascii_hexdigit(s[i]) {
        i
    } else {
        hex_run_end(s, i + 1)
    }
}

/// The leading hex run of `s` (it stops at the first non-hex character).
pub open spec fn hex_prefix(s: Seq<char>) -> Seq<char> {
    s.take(hex_run_end(s, 0))
}

pub proof fn lemma_hex_run_end(s: Seq<char>, i: int)
    requires
        0 <= i <= s.len(),
    ensures
        i <= hex_run_end(s, i) <= s.len(),
    decreases s.len() - i,
{
    if i < s.len() && is_ascii_hexdigit(s[i]) {
        lemma_hex_run_end(s, i + 1);
    }
}

fn hex_prefix_exec(s: &[char]) -> (r: Vec<char>)
    ensures
        r@ == hex_prefix(s@),
{
    let mut i: usize = 0;
    while i < s.len()
        invariant
            i <= s@.len(),
            hex_run_end(s@, 0) == hex_run_end(s@, i as int),
        decreases s@.len() - i,
    {
        if !char_is_hexdigit(s[i]) {
            let r = copy_range(s, 0, i);
            assert(r@ == s@.take(i as int));
            return r;
        }
        i = i + 1;
    }
    let r = copy_range(s, 0, i);
    assert(r@ == s@.take(i as int));
    r
}

/// A hex number that fits in `u16`.
pub open spec fn hex_u16(s: Seq<char>) -> Option<u16> {
    match parse_unsigned(s, 16, 0xffff) {
        Some(v) => Some(v as u16),
        None => None,
    }
}

fn hex_u16_exec(s: &[char]) -> (r: Option<u16>)
    ensures
        r == hex_u16(s@),
{
    match parse_unsigned_exec(s, 16, 0xffff) {
        Some(v) => Some(v as u16),
        None => None,
    }
}

/// `(vid, pid)` folded over the `&`-separated parts of a device id from
/// part `k`: a `VID_`/`PID_` part sets the field to the value of its leading
/// hex run (`None` when that run is empty or does not fit `u16`).
pub open spec fn vid_pid_from(parts: Seq<Seq<char>>, k: int, acc: (Option<u16>, Option<u16>)) -> (
    Option<u16>,
    Option<u16>,
)
    decreases parts.len() - k,
{
    if k < 0 || k >= parts.len() {
        acc
    } else {
        let p = parts[k];
        let next = if starts_with(p, "VID_"@) {
            (hex_u16(hex_prefix(p.skip(4))), acc.1)
        } else if starts_with(p, "PID_"@) {
            (acc.0, hex_u16(hex_prefix(p.skip(4))))
        } else {
            acc
        };
        vid_pid_from(parts, k + 1, next)
    }
}

/// `(vid, pid)` from a `VID_xxxx&PID_xxxx[&...]` device-id segment.
pub open spec fn vid_pid(device_id: Seq<char>) -> (Option<u16>, Option<u16>) {
    vid_pid_from(split_char(device_id, '&'), 0, (None, None))
}

/// Extract `(vid, pid)` from a `VID_xxxx&PID_xxxx[&...]` device-id segment.
/// Either or both are `None` for a non-USB device id.
pub fn parse_vid_pid(device_id: &[char]) -> (r: (Option<u16>, Option<u16>))
    ensures
        r == vid_pid(device_id@),
{
    let parts = split_on(device_id, '&');
    let ghost pv = seqs_view(parts@);
    let vid_tag = chars_of("VID_");
    let pid_tag = chars_of("PID_");
    proof {
        vstd::string::axiom_str_literal_len("VID_");
        vstd::string::axiom_str_literal_len("PID_");
        reveal_strlit("VID_");
        reveal_strlit("PID_");
    }
    let mut vid: Option<u16> = None;
    let mut pid: Option<u16> = None;
    let mut k: usize = 0;
    while k < parts.len()
        invariant
            k <= parts@.len(),
            pv == seqs_view(parts@),
            pv == split_char(device_id@, '&'),
            vid_tag@ == "VID_"@,
            pid_tag@ == "PID_"@,
            "VID_"@.len() == 4,
            "PID_"@.len() == 4,
            vid_pid(device_id@) == vid_pid_from(pv, k as int, (vid, pid)),
        decreases parts@.len() - k,
    {
        let p = parts[k].as_slice();
        assert(p@ == pv[k as int]);
        if has_prefix(p, vid_tag.as_slice()) {
            let hex = copy_range(p, 4, p.len());
            assert(hex@ == p@.skip(4));
            let h = hex_prefix_exec(hex.as_slice());
            vid = hex_u16_exec(h.as_slice());
        } else if has_prefix(p, pid_tag.as_slice()) {
            let hex = copy_range(p, 4, p.len());
            assert(hex@ == p@.skip(4));
            let h = hex_prefix_exec(hex.as_slice());
            pid = hex_u16_exec(h.as_slice());
        }
        k = k + 1;
    }
    (vid, pid)
}

/// The instance-id serial is OS-generated when its second character is `&`
/// (Windows synthesized it, e.g. `7&1c2c4f0a&0`).
pub open spec fn os_generated(serial: Seq<char>) -> bool {
    serial.len() > 1 && serial[1] == '&'
}

/// The MITRE techniques a bus is consistent with: T1200 for a DMA-capable
/// bus, T1052.001 for a mass-storage bus.
pub open spec fn mitre_for(b: Bus) -> Seq<Seq<char>> {
    (if dma_bus(b) {
        seq!["T1200"@]
    } else {
        Seq::<Seq<char>>::empty()
    }) + (if storage_bus(b) {
        seq!["T1052.001"@]
    } else {
        Seq::<Seq<char>>::empty()
    })
}

pub open spec fn authoritative_stamp(epoch: Option<i64>) -> Option<Stamp> {
    match epoch {
        Some(e) => Some(Stamp { value: e, confidence: Confidence::Authoritative }),
        None => None,
    }
}

/// The connection a device instance id and its install time describe.
/// `None` when the instance id has no enumerator segment.
pub open spec fn instance_connection(
    inst: Seq<char>,
    epoch: Option<i64>,
    file: Seq<char>,
    line: nat,
) -> Option<ConnectionView> {
    let segs = split_char(inst, '\\');
    let enumerator = segs[0];
    if enumerator.len() == 0 {
        None
    } else {
        let device_id = if segs.len() > 1 {
            segs[1]
        } else {
            Seq::<char>::empty()
        };
        let bus = bus_for(enumerator);
        let ids = vid_pid(device_id);
        let os_gen = segs.len() > 2 && os_generated(segs[2]);
        let serial = if segs.len() > 2 && !os_gen && segs[2].len() > 0 {
            Some(segs[2])
        } else {
            None
        };
        Some(
            ConnectionView {
                bus,
                device_class_guid: None,
                vid: ids.0,
                pid: ids.1,
                device_serial: serial,
                serial_is_os_generated: os_gen,
                friendly_name: None,
                device_instance_id: inst,
                first_install: authoritative_stamp(epoch),
                last_install: authoritative_stamp(epoch),
                last_arrival: None,
                last_removal: None,
                parent_id_prefix: None,
                volume_guid: None,
                drive_letter: None,
                volume_serial: None,
                disk_signature: None,
                dma_capable: dma_bus(bus),
                mitre: mitre_for(bus),
                source: ProvenanceView { file, line, key_path: None },
            },
        )
    }
}

fn mitre_exec(bus: Bus) -> (m: Vec<MitreRef>)
    ensures
        m@.map_values(|r: MitreRef| r.0@) == mitre_for(bus),
{
    let mut m: Vec<MitreRef> = Vec::new();
    if bus.is_dma_capable() {
        m.push(MitreRef("T1200"));
    }
    if bus.is_mass_storage() {
        m.push(MitreRef("T1052.001"));
    }
    assert(m@.map_values(|r: MitreRef| r.0@) =~= mitre_for(bus));
    m
}

/// Build a [`DeviceConnection`] from a device instance id and its install
/// time. `None` if the instance id has no enumerator segment.
fn build_connection(inst: &[char], install_epoch: Option<i64>, file: &[char], line: usize) -> (r:
    Option<DeviceConnection>)
    ensures
        match r {
            Some(c) => instance_connection(inst@, install_epoch, file@, line as nat) == Some(c@),
            None => instance_connection(inst@, install_epoch, file@, line as nat) is None,
        },
{
    let segs = split_on(inst, '\\');
    let ghost sv = seqs_view(segs@);
    assert(segs[0]@ == sv[0]);
    if segs[0].len() == 0 {
        return None;
    }
    let empty: Vec<char> = Vec::new();
    let device_id = if segs.len() > 1 {
        assert(segs[1]@ == sv[1]);
        segs[1].as_slice()
    } else {
        empty.as_slice()
    };
    let bus = Bus::from_enumerator_chars(segs[0].as_slice());
    let (vid, pid) = parse_vid_pid(device_id);
    let mut os_gen = false;
    let mut serial: Option<String> = None;
    if segs.len() > 2 {
        let sg = segs[2].as_slice();
        assert(sg@ == sv[2]);
        os_gen = sg.len() > 1 && sg[1] == '&';
        if !os_gen && sg.len() > 0 {
            serial = Some(string_of(sg));
        }
    }
    let stamp = match install_epoch {
        Some(e) => Some(Stamp::authoritative(e)),
        None => None,
    };
    let c = DeviceConnection {
        bus,
        device_class_guid: None,
        vid,
        pid,
        device_serial: serial,
        serial_is_os_generated: os_gen,
        friendly_name: None,
        device_instance_id: string_of(inst),
        first_install: stamp,
        last_install: stamp,
        last_arrival: None,
        last_removal: None,
        parent_id_prefix: None,
        volume_guid: None,
        drive_letter: None,
        volume_serial: None,
        disk_signature: None,
        dma_capable: bus.is_dma_capable(),
        mitre: mitre_exec(bus),
        source: Provenance { file: string_of(file), line, key_path: None },
    };
    Some(c)
}

// ---------------------------------------------------------------------------
// The log
// ---------------------------------------------------------------------------

/// The connection one log line (numbered `n`, 1-based) yields, if any.
pub open spec fn line_connection(line: Seq<char>, file: Seq<char>, n: nat) -> Option<
    ConnectionView,
> {
    match header_fields(strip_marker(line)) {
        Some((inst, e)) => instance_connection(inst, Some(e as i64), file, n),
        None => None,
    }
}

/// The connections of the lines `ls[k..]`, in order.
pub open spec fn connections_from(ls: Seq<Seq<char>>, file: Seq<char>, k: int) -> Seq<
    ConnectionView,
>
    decreases ls.len() - k,
{
    if k < 0 || k >= ls.len() {
        Seq::empty()
    } else {
        let rest = connections_from(ls, file, k + 1);
        match line_connection(ls[k], file, (k + 1) as nat) {
            Some(c) => seq![c] + rest,
            None => rest,
        }
    }
}

/// One connection per device-install section header of the log, in order.
pub open spec fn setupapi_connections(text: Seq<char>, file: Seq<char>) -> Seq<ConnectionView> {
    connections_from(lines(text), file, 0)
}

/// Parse a `setupapi.dev.log` / `setupapi.log` text body into one
/// [`DeviceConnection`] per device-install section header. `file` is the
/// source filename recorded in each record's [`Provenance`]. Non-matching
/// lines are skipped.
pub fn parse_setupapi(text: &str, file: &str) -> (r: Vec<DeviceConnection>)
    ensures
        conn_views(r@) == setupapi_connections(text@, file@),
{
    let t = chars_of(text);
    let f = chars_of(file);
    let ls = lines_exec(t.as_slice());
    let ghost lv = seqs_view(ls@);
    let mut out: Vec<DeviceConnection> = Vec::new();
    let mut k: usize = 0;
    while k < ls.len()
        invariant
            k <= ls@.len(),
            lv == seqs_view(ls@),
            lv == lines(text@),
            f@ == file@,
            conn_views(out@) + connections_from(lv, file@, k as int) == connections_from(
                lv,
                file@,
                0,
            ),
        decreases ls@.len() - k,
    {
        let line = ls[k].as_slice();
        assert(line@ == lv[k as int]);
        let stripped = strip_marker_exec(line);
        let ghost before = out@;
        if let Some((inst, epoch)) = header_fields_exec(stripped.as_slice()) {
            if let Some(c) = build_connection(inst.as_slice(), Some(epoch), f.as_slice(), k + 1) {
                out.push(c);
                assert(conn_views(out@) == conn_views(before).push(c@));
            }
        }
        assert(conn_views(out@) + connections_from(lv, file@, k + 1) =~= connections_from(
            lv,
            file@,
            0,
        ));
        k = k + 1;
    }
    assert(conn_views(out@) =~= setupapi_connections(text@, file@));
    out
}

// ---------------------------------------------------------------------------
// Laws
// ---------------------------------------------------------------------------

/// What a setupapi record promises beyond [`consistent_record`]: its install
/// times are authoritative (a section header states them), it names the log
/// file on a 1-based line and no registry key, and its MITRE techniques are
/// exactly those of its bus.
pub open spec fn setupapi_record(c: ConnectionView, file: Seq<char>) -> bool {
    &&& consistent_record(c)
    &&& stamped(c.first_install, Confidence::Authoritative)
    &&& stamped(c.last_install, Confidence::Authoritative)
    &&& c.last_arrival is None
    &&& c.last_removal is None
    &&& c.mitre == mitre_for(c.bus)
    &&& c.source.file == file
    &&& c.source.line >= 1
    &&& c.source.key_path is None
}

/// The third `\`-separated segment of an instance id (empty when absent).
spec fn third_segment(inst: Seq<char>) -> Seq<char> {
    let segs = split_char(inst, '\\');
    if segs.len() > 2 {
        segs[2]
    } else {
        Seq::empty()
    }
}

/// A record's serial facts as its instance id shows them: OS-generated
/// exactly when the third segment has `&` as its second character, and
/// otherwise a non-empty third segment kept as the device serial.
spec fn serial_read_off_instance(c: ConnectionView) -> bool {
    let t = third_segment(c.device_instance_id);
    &&& c.serial_is_os_generated == (t.len() > 1 && t[1] == '&')
    &&& c.device_serial == (if !c.serial_is_os_generated && t.len() > 0 {
        Some(t)
    } else {
        None
    })
}

proof fn lemma_connections_from(ls: Seq<Seq<char>>, file: Seq<char>, k: int)
    requires
        0 <= k,
    ensures
        forall|i: int|
            0 <= i < connections_from(ls, file, k).len() ==> setupapi_record(
                #[trigger] connections_from(ls, file, k)[i],
                file,
            ) && connections_from(ls, file, k)[i].source.line > k && serial_read_off_instance(
                connections_from(ls, file, k)[i],
            ),
        forall|i: int, j: int|
            0 <= i < j < connections_from(ls, file, k).len() ==> (#[trigger] connections_from(
                ls,
                file,
                k,
            )[i]).source.line < (#[trigger] connections_from(ls, file, k)[j]).source.line,
    decreases ls.len() - k,
{
    if k < ls.len() {
        lemma_connections_from(ls, file, k + 1);
        let rest = connections_from(ls, file, k + 1);
        match line_connection(ls[k], file, (k + 1) as nat) {
            Some(c) => {
                let all = connections_from(ls, file, k);
                assert(all == seq![c] + rest);
                assert forall|i: int| 0 <= i < all.len() implies setupapi_record(
                    #[trigger] all[i],
                    file,
                ) && all[i].source.line > k && serial_read_off_instance(all[i]) by {
                    if i > 0 {
                        assert(all[i] == rest[i - 1]);
                    }
                }
                assert forall|i: int, j: int| 0 <= i < j < all.len() implies (
                #[trigger] all[i]).source.line < (#[trigger] all[j]).source.line by {
                    assert(all[j] == rest[j - 1]);
                    if i > 0 {
                        assert(all[i] == rest[i - 1]);
                    }
                }
            },
            None => {},
        }
    }
}

/// Every connection parsed from a setupapi log keeps [`setupapi_record`]:
/// authoritative install times, an OS-generated serial never kept as the
/// device serial, no volume serial, DMA capability and MITRE techniques
/// exactly those of the bus, and provenance on a 1-based line of `file`.
pub proof fn law_setupapi_records(text: Seq<char>, file: Seq<char>, i: int)
    requires
        0 <= i < setupapi_connections(text, file).len(),
    ensures
        setupapi_record(setupapi_connections(text, file)[i], file),
{
    lemma_connections_from(lines(text), file, 0);
}

/// Connections come in log order: each later record stands on a later line.
pub proof fn law_setupapi_log_order(text: Seq<char>, file: Seq<char>, i: int, j: int)
    requires
        0 <= i < j < setupapi_connections(text, file).len(),
    ensures
        setupapi_connections(text, file)[i].source.line < setupapi_connections(
            text,
            file,
        )[j].source.line,
{
    lemma_connections_from(lines(text), file, 0);
}

/// A single line with no line break yields as one log.
proof fn lemma_single_line(s: Seq<char>)
    requires
        s.len() > 0,
        forall|k: int| 0 <= k < s.len() ==> s[k] != '\n',
    ensures
        lines(s) == seq![s],
{
    lemma_pos_char_from(s, '\n', 0);
    assert(s.subrange(0, s.len() as int) =~= s);
}

/// `pre + line` loses exactly `pre` to `trim_start` when `pre` is all
/// whitespace and `line` opens with a non-whitespace character.
proof fn lemma_trim_blanks(pre: Seq<char>, line: Seq<char>)
    requires
        forall|k: int| 0 <= k < pre.len() ==> is_ws(#[trigger] pre[k]),
        line.len() > 0,
        !is_ws(line[0]),
    ensures
        trim_start(pre + line) == line,
{
    let s = pre + line;
    lemma_pos_non_ws_from(s, 0);
    let p = pos_non_ws_from(s, 0);
    assert(s[pre.len() as int] == line[0]);
    if p < pre.len() {
        assert(is_ws(pre[p]));
        assert(s[p] == pre[p]);
    }
    assert(p == pre.len());
    assert(s.skip(p) =~= line);
}

/// A device-install header line marked with a leading `>>>` or `<<<` (and
/// blanks after the marker) yields exactly what the bare header line
/// yields: the marker is stripped before the header is read.
pub proof fn law_setupapi_marker(line: Seq<char>, gap: Seq<char>, file: Seq<char>)
    requires
        line.len() > 0,
        line[0] == '[',
        forall|k: int| 0 <= k < line.len() ==> line[k] != '\n',
        forall|k: int| 0 <= k < gap.len() ==> is_ws(#[trigger] gap[k]) && gap[k] != '\n',
    ensures
        setupapi_connections(">>>"@ + gap + line, file) == setupapi_connections(line, file),
        setupapi_connections("<<<"@ + gap + line, file) == setupapi_connections(line, file),
{
    reveal_strlit(">>>");
    reveal_strlit("<<<");
    lemma_single_line(line);
    assert(!is_ws(line[0]));
    lemma_trim_blanks(Seq::empty(), line);
    assert(Seq::<char>::empty() + line =~= line);
    assert(!starts_with(line, ">>>"@)) by {
        if starts_with(line, ">>>"@) {
            assert(line.take(3)[0] == line[0]);
        }
    }
    assert(!starts_with(line, "<<<"@)) by {
        if starts_with(line, "<<<"@) {
            assert(line.take(3)[0] == line[0]);
        }
    }
    assert(strip_marker(line) == line);
    lemma_trim_blanks(gap, line);
    assert forall|m: Seq<char>| m == ">>>"@ || m == "<<<"@ implies setupapi_connections(
        m + gap + line,
        file,
    ) == setupapi_connections(line, file) by {
        let s = m + gap + line;
        assert forall|k: int| 0 <= k < s.len() implies s[k] != '\n' by {
            if k < 3 {
                assert(s[k] == m[k]);
            } else if k < 3 + gap.len() {
                assert(s[k] == gap[k - 3]);
            } else {
                assert(s[k] == line[k - 3 - gap.len()]);
            }
        }
        lemma_single_line(s);
        assert(s[0] == m[0]);
        assert(!is_ws(s[0]));
        lemma_trim_blanks(Seq::empty(), s);
        assert(Seq::<char>::empty() + s =~= s);
        assert(s.take(3) =~= m);
        assert(s.skip(3) =~= gap + line);
        assert(strip_marker(s) == line);
        assert(connections_from(seq![s], file, 1) =~= Seq::<ConnectionView>::empty());
        assert(connections_from(seq![line], file, 1) =~= Seq::<ConnectionView>::empty());
    }
}

/// The serial of each parsed setupapi record is read off its instance id
/// `<enumerator>\<device>\<serial>`: it is flagged OS-generated exactly when
/// the third segment's second character is `&`; otherwise a non-empty third
/// segment is kept as the device serial, and there is none when the segment
/// is empty or absent.
pub proof fn law_setupapi_serial(text: Seq<char>, file: Seq<char>, i: int)
    requires
        0 <= i < setupapi_connections(text, file).len(),
    ensures
        ({
            let c = setupapi_connections(text, file)[i];
            let segs = split_char(c.device_instance_id, '\\');
            let t = if segs.len() > 2 {
                segs[2]
            } else {
                Seq::empty()
            };
            &&& c.serial_is_os_generated <==> (t.len() > 1 && t[1] == '&')
            &&& c.device_serial == (if !(t.len() > 1 && t[1] == '&') && t.len() > 0 {
                Some(t)
            } else {
                None
            })
        }),
{
    lemma_connections_from(lines(text), file, 0);
    assert(serial_read_off_instance(setupapi_connections(text, file)[i]));
}

} // verus!
