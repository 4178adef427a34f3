//! The event-marker parser: one text line of the shape
//! `YYYY/MM/DD HH:MM:SS.ffff <integer>` becomes one trigger record.

use vstd::prelude::*;

verus! {

use vstd::arithmetic::div_mod::lemma_fundamental_div_mod;
use vstd::arithmetic::mul::lemma_mul_inequality;
use crate::error::Error;
use crate::event_marker::EventMarker;

/// An ASCII decimal digit.
pub open spec fn is_digit_byte(b: u8) -> bool {
    0x30 <= b <= 0x39
}

/// ASCII whitespace, as a separator between the fields of a line.
pub open spec fn is_space_byte(b: u8) -> bool {
    b == 0x20 || b == 0x09 || b == 0x0a || b == 0x0b || b == 0x0c || b == 0x0d
}

pub open spec fn digit_val(b: u8) -> int {
    b - 0x30
}

/// The value of a run of decimal digits, most significant first.
pub open spec fn dec_val(s: Seq<u8>) -> int
    decreases s.len(),
{
    if s.len() == 0 {
        0
    } else {
        dec_val(s.drop_last()) * 10 + digit_val(s.last())
    }
}

pub open spec fn all_digits(s: Seq<u8>) -> bool {
    forall|i: int| 0 <= i < s.len() ==> is_digit_byte(#[trigger] s[i])
}

/// The first index at or after `i` that does not hold whitespace.
pub open spec fn space_end(s: Seq<u8>, i: int) -> int
    decreases s.len() - i,
{
    if 0 <= i < s.len() && is_space_byte(s[i]) {
        space_end(s, i + 1)
    } else {
        i
    }
}

pub open spec fn pow10(n: nat) -> int
    decreases n,
{
    if n == 0 {
        1
    } else {
        10 * pow10((n - 1) as nat)
    }
}

/// Bytes `0 .. 10` spell a date `YYYY/MM/DD`.
pub open spec fn date_shape(s: Seq<u8>) -> bool {
    &&& s.len() >= 10
    &&& is_digit_byte(s[0])
    &&& is_digit_byte(s[1])
    &&& is_digit_byte(s[2])
    &&& is_digit_byte(s[3])
    &&& s[4] == 0x2f
    &&& is_digit_byte(s[5])
    &&& is_digit_byte(s[6])
    &&& s[7] == 0x2f
    &&& is_digit_byte(s[8])
    &&& is_digit_byte(s[9])
}

/// Bytes `a .. a + 13` spell a time `HH:MM:SS.ffff`.
pub open spec fn time_shape_at(s: Seq<u8>, a: int) -> bool {
    &&& 0 <= a
    &&& a + 13 <= s.len()
    &&& is_digit_byte(s[a])
    &&& is_digit_byte(s[a + 1])
    &&& s[a + 2] == 0x3a
    &&& is_digit_byte(s[a + 3])
    &&& is_digit_byte(s[a + 4])
    &&& s[a + 5] == 0x3a
    &&& is_digit_byte(s[a + 6])
    &&& is_digit_byte(s[a + 7])
    &&& s[a + 8] == 0x2e
    &&& is_digit_byte(s[a + 9])
    &&& is_digit_byte(s[a + 10])
    &&& is_digit_byte(s[a + 11])
    &&& is_digit_byte(s[a + 12])
}

/// The whole line is a date, one or more spaces, a time, one or more
/// spaces, and a non-empty run of digits reaching the end of the line.
pub open spec fn marker_line_shape(s: Seq<u8>) -> bool {
    let a = space_end(s, 10);
    let b = space_end(s, a + 13);
    &&& date_shape(s)
    &&& a > 10
    &&& time_shape_at(s, a)
    &&& b > a + 13
    &&& b < s.len()
    &&& all_digits(s.subrange(b, s.len() as int))
}

pub open spec fn line_year(s: Seq<u8>) -> int {
    dec_val(s.subrange(0, 4))
}

pub open spec fn line_month(s: Seq<u8>) -> int {
    dec_val(s.subrange(5, 7))
}

pub open spec fn line_day(s: Seq<u8>) -> int {
    dec_val(s.subrange(8, 10))
}

pub open spec fn line_hour(s: Seq<u8>) -> int {
    let a = space_end(s, 10);
    dec_val(s.subrange(a, a + 2))
}

pub open spec fn line_minute(s: Seq<u8>) -> int {
    let a = space_end(s, 10);
    dec_val(s.subrange(a + 3, a + 5))
}

pub open spec fn line_second(s: Seq<u8>) -> int {
    let a = space_end(s, 10);
    dec_val(s.subrange(a + 6, a + 8))
}

/// The fractional part of the second, `ffff` ten-thousandths, as
/// microseconds.
pub open spec fn line_micro(s: Seq<u8>) -> int {
    let a = space_end(s, 10);
    dec_val(s.subrange(a + 9, a + 13)) * 100
}

pub open spec fn line_number(s: Seq<u8>) -> int {
    let a = space_end(s, 10);
    let b = space_end(s, a + 13);
    dec_val(s.subrange(b, s.len() as int))
}

pub open spec fn is_leap_year(y: int) -> bool {
    (y % 4 == 0 && y % 100 != 0) || y % 400 == 0
}

pub open spec fn days_in_month(y: int, m: int) -> int {
    if m == 2 {
        if is_leap_year(y) {
            29
        } else {
            28
        }
    } else if m == 4 || m == 6 || m == 9 || m == 11 {
        30
    } else {
        31
    }
}

/// A valid proleptic-Gregorian calendar date of the four-digit-year range,
/// with a valid time of day (no leap seconds).
pub open spec fn civil_ok(y: int, mo: int, d: int, h: int, mi: int, s: int) -> bool {
    &&& 0 <= y <= 9999
    &&& 1 <= mo <= 12
    &&& 1 <= d <= days_in_month(y, mo)
    &&& 0 <= h < 24
    &&& 0 <= mi < 60
    &&& 0 <= s < 60
}

/// The calendar timestamp, in microseconds since the Unix epoch, of a civil
/// date and time of day.  Computed by the calendar library; a function of
/// its arguments alone.
pub uninterp spec fn micros_of_civil(
    year: int,
    month: int,
    day: int,
    hour: int,
    minute: int,
    second: int,
    micro: int,
) -> int;

/// A line of the expected shape whose fields form a valid calendar instant
/// and whose trailing sequence number fits the record.
pub open spec fn line_ok(s: Seq<u8>) -> bool {
    &&& marker_line_shape(s)
    &&& civil_ok(
        line_year(s),
        line_month(s),
        line_day(s),
        line_hour(s),
        line_minute(s),
        line_second(s),
    )
    &&& line_number(s) <= i32::MAX
}

/// The trigger record owed for a line that satisfies `line_ok`.
pub open spec fn marker_of_line(s: Seq<u8>) -> EventMarker {
    EventMarker {
        datetime: micros_of_civil(
            line_year(s),
            line_month(s),
            line_day(s),
            line_hour(s),
            line_minute(s),
            line_second(s),
            line_micro(s),
        ) as i64,
        number: line_number(s) as i32,
    }
}

/// Relies on chrono's `NaiveDate::from_ymd_opt`,
/// `NaiveTime::from_hms_micro_opt` and `DateTime::timestamp_micros`: the
/// two constructors accept exactly the valid proleptic-Gregorian calendar
/// dates (every four-digit year is inside chrono's year range) and the
/// valid times of a day (no leap second can arise below one second of
/// fraction), and the timestamp is a pure function of the civil fields —
/// non-leap microseconds since 1970-01-01 UTC.
#[verifier::external_body]
fn civil_to_micros(
    year: u32,
    month: u32,
    day: u32,
    hour: u32,
    minute: u32,
    second: u32,
    micro: u32,
) -> (r: Option<i64>)
    requires
        year <= 9999,
        micro < 1_000_000,
    ensures
        r is Some <==> civil_ok(
            year as int,
            month as int,
            day as int,
            hour as int,
            minute as int,
            second as int,
        ),
        r matches Some(t) ==> t == micros_of_civil(
            year as int,
            month as int,
            day as int,
            hour as int,
            minute as int,
            second as int,
            micro as int,
        ),
{
    match chrono::NaiveDate::from_ymd_opt(year as i32, month, day) {
        Some(date) => match chrono::NaiveTime::from_hms_micro_opt(hour, minute, second, micro) {
            Some(time) => Some(chrono::NaiveDateTime::new(date, time).and_utc().timestamp_micros()),
            None => None,
        },
        None => None,
    }
}

proof fn lemma_dec_val_extend(s: Seq<u8>, lo: int, hi: int)
    requires
        0 <= lo <= hi < s.len(),
    ensures
        dec_val(s.subrange(lo, hi + 1)) == dec_val(s.subrange(lo, hi)) * 10 + digit_val(s[hi]),
{
    assert(s.subrange(lo, hi + 1).drop_last() =~= s.subrange(lo, hi));
    assert(s.subrange(lo, hi + 1).last() == s[hi]);
}

proof fn lemma_dec_val_nonneg(s: Seq<u8>)
    requires
        all_digits(s),
    ensures
        dec_val(s) >= 0,
    decreases s.len(),
{
    if s.len() > 0 {
        assert(all_digits(s.drop_last()));
        lemma_dec_val_nonneg(s.drop_last());
    }
}

/// Appending more digits can only grow the value.
proof fn lemma_dec_val_prefix_le(s: Seq<u8>, lo: int, mid: int, hi: int)
    requires
        0 <= lo <= mid <= hi <= s.len(),
        forall|i: int| lo <= i < hi ==> is_digit_byte(#[trigger] s[i]),
    ensures
        dec_val(s.subrange(lo, mid)) <= dec_val(s.subrange(lo, hi)),
    decreases hi - mid,
{
    if mid < hi {
        lemma_dec_val_extend(s, lo, mid);
        assert(all_digits(s.subrange(lo, mid)));
        lemma_dec_val_nonneg(s.subrange(lo, mid));
        lemma_dec_val_prefix_le(s, lo, mid + 1, hi);
    }
}

fn is_digit_exec(b: u8) -> (r: bool)
    ensures
        r == is_digit_byte(b),
{
    0x30 <= b && b <= 0x39
}

fn is_space_exec(b: u8) -> (r: bool)
    ensures
        r == is_space_byte(b),
{
    b == 0x20 || b == 0x09 || b == 0x0a || b == 0x0b || b == 0x0c || b == 0x0d
}

/// A private copy of the raw line, for the error that carries it.
fn copy_line(v: &Vec<u8>) -> (out: Vec<u8>)
    ensures
        out@ == v@,
{
    let mut out: Vec<u8> = Vec::new();
    let mut idx: usize = 0;
    while idx < v.len()
        invariant
            idx <= v@.len(),
            out@ == v@.take(idx as int),
        decreases v@.len() - idx,
    {
        out.push(v[idx]);
        proof {
            assert(out@ =~= v@.take(idx + 1));
        }
        idx = idx + 1;
    }
    proof {
        assert(v@.take(v@.len() as int) =~= v@);
    }
    out
}

/// The value of the `w` digits at `lo`, `w <= 4`.
fn parse_fixed_digits(line: &Vec<u8>, lo: usize, w: usize) -> (v: u32)
    requires
        lo + w <= line@.len(),
        w <= 4,
        forall|i: int| lo <= i < lo + w ==> is_digit_byte(#[trigger] line@[i]),
    ensures
        v == dec_val(line@.subrange(lo as int, (lo + w) as int)),
        v < 10000,
{
    proof {
        assert(pow10(0) == 1);
        assert(pow10(1) == 10);
        assert(pow10(2) == 100);
        assert(pow10(3) == 1000);
        assert(pow10(4) == 10000);
    }
    let n: usize = line.len();
    let hi: usize = lo + w;
    let mut v: u32 = 0;
    let mut idx: usize = lo;
    proof {
        assert(line@.subrange(lo as int, lo as int) =~= Seq::<u8>::empty());
    }
    while idx < hi
        invariant
            lo <= idx <= hi,
            hi == lo + w,
            hi <= line@.len(),
            w <= 4,
            forall|i: int| lo <= i < lo + w ==> is_digit_byte(#[trigger] line@[i]),
            v == dec_val(line@.subrange(lo as int, idx as int)),
            v < pow10((idx - lo) as nat),
            pow10(0) == 1 && pow10(1) == 10 && pow10(2) == 100 && pow10(3) == 1000 && pow10(4)
                == 10000,
        decreases hi - idx,
    {
        let d: u8 = line[idx];
        proof {
            lemma_dec_val_extend(line@, lo as int, idx as int);
            assert(pow10((idx - lo + 1) as nat) == 10 * pow10((idx - lo) as nat));
            let k: int = idx - lo;
            assert(k == 0 || k == 1 || k == 2 || k == 3);
        }
        v = v * 10 + ((d - 0x30) as u32);
        idx = idx + 1;
    }
    proof {
        let k: int = idx - lo;
        assert(k == 0 || k == 1 || k == 2 || k == 3 || k == 4);
    }
    v
}

/// Parses one non-empty, non-comment text line into a trigger record, or
/// fails with `InvalidEventMarker` carrying the raw line.  A line of the
/// wrong shape, an invalid date or time, and a sequence number too large
/// for the record all fail with that one kind.
pub fn parse_event_marker(line: &Vec<u8>) -> (r: Result<EventMarker, Error>)
    ensures
        line_ok(line@) ==> (r matches Ok(m) && m == marker_of_line(line@)),
        !line_ok(line@) ==> (r matches Err(e) && (e matches Error::InvalidEventMarker(raw) && raw@
            == line@)),
{
    let len: usize = line.len();
    // The date: bytes 0 .. 10.
    if len < 10 {
        return Err(Error::InvalidEventMarker(copy_line(line)));
    }
    let date_ok: bool = is_digit_exec(line[0]) && is_digit_exec(line[1]) && is_digit_exec(line[2])
        && is_digit_exec(line[3]) && line[4] == 0x2f && is_digit_exec(line[5]) && is_digit_exec(
        line[6],
    ) && line[7] == 0x2f && is_digit_exec(line[8]) && is_digit_exec(line[9]);
    if !date_ok {
        return Err(Error::InvalidEventMarker(copy_line(line)));
    }
    // The run of spaces after the date.
    let mut a: usize = 10;
    while a < len && is_space_exec(line[a])
        invariant
            10 <= a <= len,
            len == line@.len(),
            space_end(line@, 10) == space_end(line@, a as int),
        decreases len - a,
    {
        a = a + 1;
    }
    proof {
        assert(space_end(line@, a as int) == a);
    }
    if a == 10 {
        return Err(Error::InvalidEventMarker(copy_line(line)));
    }
    // The time: bytes a .. a + 13.
    if len - a < 13 {
        return Err(Error::InvalidEventMarker(copy_line(line)));
    }
    let time_ok: bool = is_digit_exec(line[a]) && is_digit_exec(line[a + 1]) && line[a + 2] == 0x3a
        && is_digit_exec(line[a + 3]) && is_digit_exec(line[a + 4]) && line[a + 5] == 0x3a
        && is_digit_exec(line[a + 6]) && is_digit_exec(line[a + 7]) && line[a + 8] == 0x2e
        && is_digit_exec(line[a + 9]) && is_digit_exec(line[a + 10]) && is_digit_exec(line[a + 11])
        && is_digit_exec(line[a + 12]);
    if !time_ok {
        return Err(Error::InvalidEventMarker(copy_line(line)));
    }
    // The run of spaces after the time.
    let mut b: usize = a + 13;
    while b < len && is_space_exec(line[b])
        invariant
            a + 13 <= b <= len,
            len == line@.len(),
            space_end(line@, a + 13) == space_end(line@, b as int),
        decreases len - b,
    {
        b = b + 1;
    }
    proof {
        assert(space_end(line@, b as int) == b);
    }
    if b == a + 13 {
        return Err(Error::InvalidEventMarker(copy_line(line)));
    }
    if b == len {
        return Err(Error::InvalidEventMarker(copy_line(line)));
    }
    // The sequence number: digits from b to the end of the line.
    let mut k: usize = b;
    while k < len && is_digit_exec(line[k])
        invariant
            b <= k <= len,
            len == line@.len(),
            forall|i: int| b <= i < k ==> is_digit_byte(#[trigger] line@[i]),
        decreases len - k,
    {
        k = k + 1;
    }
    if k < len {
        proof {
            assert(!is_digit_byte(line@.subrange(b as int, len as int)[k - b]));
            assert(!all_digits(line@.subrange(b as int, len as int)));
        }
        return Err(Error::InvalidEventMarker(copy_line(line)));
    }
    proof {
        assert forall|i: int| 0 <= i < line@.subrange(b as int, len as int).len() implies
            is_digit_byte(#[trigger] line@.subrange(b as int, len as int)[i]) by {
            assert(line@.subrange(b as int, len as int)[i] == line@[b + i]);
        }
        assert(marker_line_shape(line@));
    }
    // The line has the expected shape; now the field values.
    let year: u32 = parse_fixed_digits(line, 0, 4);
    let month: u32 = parse_fixed_digits(line, 5, 2);
    let day: u32 = parse_fixed_digits(line, 8, 2);
    let hour: u32 = parse_fixed_digits(line, a, 2);
    let minute: u32 = parse_fixed_digits(line, a + 3, 2);
    let second: u32 = parse_fixed_digits(line, a + 6, 2);
    let frac: u32 = parse_fixed_digits(line, a + 9, 4);
    let mut number: i32 = 0;
    let mut k2: usize = b;
    proof {
        assert(line@.subrange(b as int, b as int) =~= Seq::<u8>::empty());
    }
    while k2 < len
        invariant
            b <= k2 <= len,
            len == line@.len(),
            b < len,
            space_end(line@, 10) == a as int,
            space_end(line@, a + 13) == b as int,
            forall|i: int| b <= i < len ==> is_digit_byte(#[trigger] line@[i]),
            0 <= number,
            number == dec_val(line@.subrange(b as int, k2 as int)),
        decreases len - k2,
    {
        let d: u8 = line[k2];
        let dv: i32 = (d - 0x30) as i32;
        if number > (i32::MAX - dv) / 10 {
            // The full run can only be larger still: the number does not fit.
            proof {
                lemma_dec_val_extend(line@, b as int, k2 as int);
                lemma_fundamental_div_mod(i32::MAX - dv, 10);
                lemma_mul_inequality((i32::MAX - dv) / 10 + 1, number as int, 10);
                lemma_dec_val_prefix_le(line@, b as int, k2 + 1, len as int);
                assert(space_end(line@, space_end(line@, 10) + 13) == b as int);
                assert(line_number(line@) == dec_val(line@.subrange(b as int, len as int)));
            }
            return Err(Error::InvalidEventMarker(copy_line(line)));
        }
        proof {
            lemma_dec_val_extend(line@, b as int, k2 as int);
            lemma_fundamental_div_mod(i32::MAX - dv, 10);
            lemma_mul_inequality(number as int, (i32::MAX - dv) / 10, 10);
        }
        number = number * 10 + dv;
        k2 = k2 + 1;
    }
    // The calendar library decides validity and supplies the timestamp.
    match civil_to_micros(year, month, day, hour, minute, second, frac * 100) {
        Some(datetime) => Ok(EventMarker { datetime, number }),
        None => Err(Error::InvalidEventMarker(copy_line(line))),
    }
}

/// A line ignored by the trigger log reader: empty, or a comment starting
/// with `#`.
pub open spec fn skippable_line(l: Seq<u8>) -> bool {
    l.len() == 0 || l[0] == 0x23
}

/// The trigger records owed for a trigger log, reading its lines in order,
/// skipping the ignorable ones, and stopping at the first invalid line,
/// which the `Err` case carries.
pub open spec fn synchro_spec(lines: Seq<Seq<u8>>) -> Result<Seq<EventMarker>, Seq<u8>>
    decreases lines.len(),
{
    if lines.len() == 0 {
        Ok(Seq::empty())
    } else if skippable_line(lines[0]) {
        synchro_spec(lines.drop_first())
    } else if !line_ok(lines[0]) {
        Err(lines[0])
    } else {
        match synchro_spec(lines.drop_first()) {
            Ok(ms) => Ok(seq![marker_of_line(lines[0])] + ms),
            Err(e) => Err(e),
        }
    }
}

/// The parse of the whole log continues from line `idx` with `done`
/// already emitted.
spec fn synchro_continues(lv: Seq<Seq<u8>>, done: Seq<EventMarker>, idx: int) -> bool {
    match synchro_spec(lv.subrange(idx, lv.len() as int)) {
        Ok(ms) => synchro_spec(lv) == Ok::<Seq<EventMarker>, Seq<u8>>(done + ms),
        Err(bad) => synchro_spec(lv) == Err::<Seq<EventMarker>, Seq<u8>>(bad),
    }
}

/// Parses a trigger log given as its text lines: empty lines and lines
/// starting with `#` are skipped, every other line must parse as an event
/// marker, and the first line that does not stops the run with
/// `InvalidEventMarker` carrying that line.
pub fn parse_synchro(lines: &Vec<Vec<u8>>) -> (r: Result<Vec<EventMarker>, Error>)
    ensures
        r is Ok <==> synchro_spec(lines.deep_view()) is Ok,
        r matches Ok(v) ==> synchro_spec(lines.deep_view()) == Ok::<Seq<EventMarker>, Seq<u8>>(v@),
        r matches Err(e) ==> (synchro_spec(lines.deep_view()) matches Err(bad) && (e matches
            Error::InvalidEventMarker(raw) && raw@ == bad)),
{
    let ghost lv = lines.deep_view();
    let n: usize = lines.len();
    let mut out: Vec<EventMarker> = Vec::new();
    let mut idx: usize = 0;
    proof {
        assert(lv.subrange(0, lv.len() as int) =~= lv);
        if synchro_spec(lv) is Ok {
            assert(out@ + synchro_spec(lv)->Ok_0 =~= synchro_spec(lv)->Ok_0);
        }
    }
    while idx < n
        invariant
            idx <= n,
            n == lines@.len(),
            lv == lines.deep_view(),
            lv.len() == lines@.len(),
            synchro_continues(lv, out@, idx as int),
        decreases n - idx,
    {
        let line: &Vec<u8> = &lines[idx];
        let ghost suffix = lv.subrange(idx as int, lv.len() as int);
        proof {
            assert(lv[idx as int] =~= line@);
            assert(suffix[0] == lv[idx as int]);
            assert(suffix.drop_first() =~= lv.subrange(idx + 1, lv.len() as int));
        }
        if line.len() == 0 || line[0] == 0x23 {
            proof {
                assert(skippable_line(suffix[0]));
            }
        } else {
            match parse_event_marker(line) {
                Ok(marker) => {
                    proof {
                        if !line_ok(line@) {
                            assert(false);
                        }
                        assert(line_ok(suffix[0]));
                        assert(marker == marker_of_line(suffix[0]));
                    }
                    let ghost prev = out@;
                    out.push(marker);
                    proof {
                        let rest = lv.subrange(idx + 1, lv.len() as int);
                        if synchro_spec(rest) is Ok {
                            let ms = synchro_spec(rest)->Ok_0;
                            assert(synchro_spec(suffix) == Ok::<Seq<EventMarker>, Seq<u8>>(
                                seq![marker] + ms,
                            ));
                            assert(prev + (seq![marker] + ms) =~= (prev + seq![marker]) + ms);
                            assert(out@ =~= prev + seq![marker]);
                        }
                    }
                },
                Err(e) => {
                    proof {
                        assert(!line_ok(suffix[0]));
                        assert(synchro_spec(suffix) == Err::<Seq<EventMarker>, Seq<u8>>(
                            suffix[0],
                        ));
                    }
                    return Err(e);
                },
            }
        }
        idx = idx + 1;
    }
    proof {
        assert(lv.subrange(n as int, lv.len() as int) =~= Seq::<Seq<u8>>::empty());
        assert(synchro_spec(Seq::<Seq<u8>>::empty()) == Ok::<Seq<EventMarker>, Seq<u8>>(
            Seq::empty(),
        ));
        assert(out@ + Seq::<EventMarker>::empty() =~= out@);
    }
    Ok(out)
}

} // verus!
