//! Calendar time. An instant is carried through the core as microseconds
//! since the Unix epoch; fastdate turns an instant into calendar fields, and
//! the two textual renderings of those fields (the record timestamp and the
//! archive-name stamp) are built and specified here.

use vstd::prelude::*;
use crate::strutil::chars_le;
use crate::strutil::lemma_chars_le_concat;
use crate::strutil::lemma_dec2_le;
use crate::strutil::lemma_dec4_le;
use crate::strutil::lemma_dec6_le;
use crate::strutil::push_char;
use crate::strutil::push_dec2;
use crate::strutil::push_dec3;
use crate::strutil::push_dec4;
use crate::strutil::push_dec6;
use crate::strutil::spec_dec2;
use crate::strutil::spec_dec3;
use crate::strutil::spec_dec4;
use crate::strutil::spec_dec6;

verus! {

/// Calendar fields of one instant, rendered in some fixed UTC offset.
#[derive(Clone, Copy, Debug, PartialEq, Eq, Structural)]
pub struct CalDate {
    pub year: u32,
    pub mon: u8,
    pub day: u8,
    pub hour: u8,
    pub minute: u8,
    pub sec: u8,
    pub micro: u32,
}

/// The fields lie in calendar ranges.
pub open spec fn cal_wf(d: CalDate) -> bool {
    &&& d.year < 10000
    &&& 1 <= d.mon <= 12
    &&& 1 <= d.day <= 31
    &&& d.hour < 24
    &&& d.minute < 60
    &&& d.sec < 60
    &&& d.micro < 1000000
}

/// Upper bound on the instants the core handles, in microseconds since the
/// Unix epoch; it keeps every instant within calendar year 9999 in any UTC
/// offset, which is the range fastdate's converter accepts.
pub const MICROS_UPPER: u64 = 250_000_000_000_000_000;

/// The calendar fields of the instant `micros` after the Unix epoch, rendered
/// in the UTC offset `offset_sec`; a function of its two arguments alone.
pub uninterp spec fn cal_of(micros: u64, offset_sec: i32) -> CalDate;

/// Relies on fastdate's `DateTime::from_system_time`: calendar fields of an
/// epoch instant in a given UTC offset (the offset is clamped to within one
/// day). The accessors return fields in calendar ranges.
#[verifier::external_body]
pub fn calendar_of(micros: u64, offset_sec: i32) -> (d: CalDate)
    requires
        micros < MICROS_UPPER,
    ensures
        d == cal_of(micros, offset_sec),
        cal_wf(d),
{
    let t = std::time::UNIX_EPOCH + std::time::Duration::from_micros(micros);
    let dt = fastdate::DateTime::from_system_time(t, offset_sec);
    CalDate {
        year: dt.year() as u32,
        mon: dt.mon(),
        day: dt.day(),
        hour: dt.hour(),
        minute: dt.minute(),
        sec: dt.sec(),
        micro: dt.micro(),
    }
}

/// Relies on fastdate's `DateTime::now`: the current wall-clock instant in
/// microseconds since the Unix epoch; nothing is assumed about its value.
#[verifier::external_body]
pub fn now_micros() -> (r: u64) {
    u64::try_from(fastdate::DateTime::now().unix_timestamp_micros()).unwrap_or(0)
}

/// Relies on fastdate's `offset_sec`: the process-wide local-time UTC offset
/// in seconds; nothing is assumed about its value.
#[verifier::external_body]
pub fn local_offset_sec() -> (r: i32) {
    fastdate::offset_sec()
}

/// The stamp inserted into archive file names:
/// `YYYY-MM-DDThh-mm-ss.micros`, every field zero padded.
pub open spec fn spec_stamp(d: CalDate) -> Seq<char> {
    spec_dec4(d.year as int) + seq!['-'] + spec_dec2(d.mon as int) + seq!['-'] + spec_dec2(
        d.day as int,
    ) + seq!['T'] + spec_dec2(d.hour as int) + seq!['-'] + spec_dec2(d.minute as int) + seq!['-']
        + spec_dec2(d.sec as int) + seq!['.'] + spec_dec6(d.micro as int)
}

pub fn push_stamp(s: &mut String, d: CalDate)
    requires
        cal_wf(d),
    ensures
        final(s)@ == old(s)@ + spec_stamp(d),
{
    push_dec4(s, d.year);
    push_char(s, '-');
    push_dec2(s, d.mon as u32);
    push_char(s, '-');
    push_dec2(s, d.day as u32);
    push_char(s, 'T');
    push_dec2(s, d.hour as u32);
    push_char(s, '-');
    push_dec2(s, d.minute as u32);
    push_char(s, '-');
    push_dec2(s, d.sec as u32);
    push_char(s, '.');
    push_dec6(s, d.micro);
    proof {
        assert(final(s)@ =~= old(s)@ + spec_stamp(d));
    }
}

/// Calendar instants ordered field by field, the coarsest field first.
pub open spec fn spec_cal_le(a: CalDate, b: CalDate) -> bool {
    if a.year != b.year {
        a.year < b.year
    } else if a.mon != b.mon {
        a.mon < b.mon
    } else if a.day != b.day {
        a.day < b.day
    } else if a.hour != b.hour {
        a.hour < b.hour
    } else if a.minute != b.minute {
        a.minute < b.minute
    } else if a.sec != b.sec {
        a.sec < b.sec
    } else {
        a.micro <= b.micro
    }
}

/// Archive stamps sort like the instants they render: the stamp of the
/// earlier instant is lexicographically no later, and equal stamps mean
/// equal instants. This is what makes name-descending retention order
/// newest-first.
#[verifier::rlimit(100)]
pub proof fn lemma_stamp_sorts_by_instant(a: CalDate, b: CalDate)
    requires
        cal_wf(a),
        cal_wf(b),
        spec_cal_le(a, b),
    ensures
        chars_le(spec_stamp(a), spec_stamp(b)),
        (spec_stamp(a) == spec_stamp(b)) <==> (a == b),
{
    let s1 = spec_stamp(a);
    let s2 = spec_stamp(b);
    let micro1 = seq!['.'] + spec_dec6(a.micro as int);
    let micro2 = seq!['.'] + spec_dec6(b.micro as int);
    let sec1 = spec_dec2(a.sec as int) + micro1;
    let sec2 = spec_dec2(b.sec as int) + micro2;
    let psec1 = seq!['-'] + sec1;
    let psec2 = seq!['-'] + sec2;
    let min1 = spec_dec2(a.minute as int) + psec1;
    let min2 = spec_dec2(b.minute as int) + psec2;
    let pmin1 = seq!['-'] + min1;
    let pmin2 = seq!['-'] + min2;
    let hour1 = spec_dec2(a.hour as int) + pmin1;
    let hour2 = spec_dec2(b.hour as int) + pmin2;
    let phour1 = seq!['T'] + hour1;
    let phour2 = seq!['T'] + hour2;
    let day1 = spec_dec2(a.day as int) + phour1;
    let day2 = spec_dec2(b.day as int) + phour2;
    let pday1 = seq!['-'] + day1;
    let pday2 = seq!['-'] + day2;
    let mon1 = spec_dec2(a.mon as int) + pday1;
    let mon2 = spec_dec2(b.mon as int) + pday2;
    let pmon1 = seq!['-'] + mon1;
    let pmon2 = seq!['-'] + mon2;
    assert(s1 =~= spec_dec4(a.year as int) + pmon1);
    assert(s2 =~= spec_dec4(b.year as int) + pmon2);
    lemma_dec4_le(a.year as int, b.year as int);
    lemma_chars_le_concat(spec_dec4(a.year as int), pmon1, spec_dec4(b.year as int), pmon2);
    lemma_chars_le_concat(seq!['-'], mon1, seq!['-'], mon2);
    if a.year != b.year {
    } else {
        lemma_dec2_le(a.mon as int, b.mon as int);
        lemma_chars_le_concat(spec_dec2(a.mon as int), pday1, spec_dec2(b.mon as int), pday2);
        lemma_chars_le_concat(seq!['-'], day1, seq!['-'], day2);
        if a.mon != b.mon {
        } else {
            lemma_dec2_le(a.day as int, b.day as int);
            lemma_chars_le_concat(spec_dec2(a.day as int), phour1, spec_dec2(b.day as int), phour2);
            lemma_chars_le_concat(seq!['T'], hour1, seq!['T'], hour2);
            if a.day != b.day {
            } else {
                lemma_dec2_le(a.hour as int, b.hour as int);
                lemma_chars_le_concat(
                    spec_dec2(a.hour as int),
                    pmin1,
                    spec_dec2(b.hour as int),
                    pmin2,
                );
                lemma_chars_le_concat(seq!['-'], min1, seq!['-'], min2);
                if a.hour != b.hour {
                } else {
                    lemma_dec2_le(a.minute as int, b.minute as int);
                    lemma_chars_le_concat(
                        spec_dec2(a.minute as int),
                        psec1,
                        spec_dec2(b.minute as int),
                        psec2,
                    );
                    lemma_chars_le_concat(seq!['-'], sec1, seq!['-'], sec2);
                    if a.minute != b.minute {
                    } else {
                        lemma_dec2_le(a.sec as int, b.sec as int);
                        lemma_chars_le_concat(
                            spec_dec2(a.sec as int),
                            micro1,
                            spec_dec2(b.sec as int),
                            micro2,
                        );
                        lemma_chars_le_concat(
                            seq!['.'],
                            spec_dec6(a.micro as int),
                            seq!['.'],
                            spec_dec6(b.micro as int),
                        );
                        if a.sec == b.sec {
                            lemma_dec6_le(a.micro as int, b.micro as int);
                        }
                    }
                }
            }
        }
    }
}

/// The timestamp written in front of each formatted record:
/// `YYYY-MM-DD hh:mm:ss.mmm`, millisecond precision, lexicographically
/// sortable.
pub open spec fn spec_time_display(d: CalDate) -> Seq<char> {
    spec_dec4(d.year as int) + seq!['-'] + spec_dec2(d.mon as int) + seq!['-'] + spec_dec2(
        d.day as int,
    ) + seq![' '] + spec_dec2(d.hour as int) + seq![':'] + spec_dec2(d.minute as int) + seq![':']
        + spec_dec2(d.sec as int) + seq!['.'] + spec_dec3(d.micro as int / 1000)
}

pub fn push_time_display(s: &mut String, d: CalDate)
    requires
        cal_wf(d),
    ensures
        final(s)@ == old(s)@ + spec_time_display(d),
{
    push_dec4(s, d.year);
    push_char(s, '-');
    push_dec2(s, d.mon as u32);
    push_char(s, '-');
    push_dec2(s, d.day as u32);
    push_char(s, ' ');
    push_dec2(s, d.hour as u32);
    push_char(s, ':');
    push_dec2(s, d.minute as u32);
    push_char(s, ':');
    push_dec2(s, d.sec as u32);
    push_char(s, '.');
    push_dec3(s, d.micro / 1000);
    proof {
        assert(final(s)@ =~= old(s)@ + spec_time_display(d));
    }
}

} // verus!
