use vstd::prelude::*;

use crate::errors::TimeParsingError;
use crate::text::{
    chars_of, parse_usize_chars, parse_usize_spec, push_two_digits, split_on, split_ranges,
    two_digits,
};

verus! {

/// Times of day in seconds past midnight of the service day.
pub type Seconds = usize;

pub enum DayOfWeek {
    Monday,
    Tuesday,
    Wednesday,
    Thursday,
    Friday,
    Saturday,
    Sunday,
}

pub struct Date {
    pub year: i32,
    pub month: i32,
    pub day: i32,
    weekday: DayOfWeek,
}

/// GTFS counts times after midnight as part of the same service day.
#[derive(PartialEq, Eq, Structural)]
pub enum Day {
    CurrentDay,
    NextDay,
}

pub struct Time {
    pub day: Day,
    pub hour: i32,
    pub minute: i32,
    pub second: i32,
}

pub struct DateTime {
    date: Date,
    time: Time,
}

impl Time {
    /// A time of the service day; hours from 24 on belong to the next calendar day.
    pub fn new(hour: i32, minute: i32, second: i32) -> (res: Self)
        ensures
            res.hour == hour,
            res.minute == minute,
            res.second == second,
            res.day == (if hour >= 24 {
                Day::NextDay
            } else {
                Day::CurrentDay
            }),
    {
        let day: Day;
        if hour >= 24 {
            day = Day::NextDay;
        } else {
            day = Day::CurrentDay;
        }
        Self { day, hour, minute, second }
    }
}

/// How a GTFS time text reads.
pub enum GtfsTimeReading {
    /// A valid time, in seconds.
    Seconds(nat),
    /// Not three `:`-separated parts, or hours that are not a number.
    BadFormat,
    /// Minutes (the part given) that are not a number below 60.
    BadMinutes(Seq<char>),
    /// Seconds (the part given) that are not a number below 60.
    BadSeconds(Seq<char>),
}

/// `HH:MM:SS`, where each part reads as `str::parse::<usize>` reads it, minutes and
/// seconds are below 60, and hours may exceed 24.
pub open spec fn gtfs_time_reading(s: Seq<char>) -> GtfsTimeReading {
    let parts = split_on(s, ':');
    if parts.len() != 3 {
        GtfsTimeReading::BadFormat
    } else {
        match parse_usize_spec(parts[0]) {
            None => GtfsTimeReading::BadFormat,
            Some(h) => match parse_usize_spec(parts[1]) {
                Some(m) if m < 60 => match parse_usize_spec(parts[2]) {
                    Some(sec) if sec < 60 => GtfsTimeReading::Seconds(h * 3600 + m * 60 + sec),
                    _ => GtfsTimeReading::BadSeconds(parts[2]),
                },
                _ => GtfsTimeReading::BadMinutes(parts[1]),
            },
        }
    }
}

/// Takes a GTFS arrival or departure time in the format "HH:mm:ss" and returns the number
/// of seconds. It may be greater than 60 * 60 * 24 because GTFS allows after-midnight
/// times to be written like 27:15:30.
pub fn gtfs_time_to_seconds(gtfs_time: &str) -> (res: Result<Seconds, TimeParsingError>)
    requires
        gtfs_time_reading(gtfs_time@) matches GtfsTimeReading::Seconds(v) ==> v <= usize::MAX,
    ensures
        match gtfs_time_reading(gtfs_time@) {
            GtfsTimeReading::Seconds(v) => res == Ok::<Seconds, TimeParsingError>(v as usize),
            GtfsTimeReading::BadFormat => res matches Err(TimeParsingError::InvalidFormat(t))
                && t@ == gtfs_time@,
            GtfsTimeReading::BadMinutes(m) => res matches Err(
                TimeParsingError::InvalidComponent(name, part),
            ) && name@ == "minutes"@ && part@ == m,
            GtfsTimeReading::BadSeconds(x) => res matches Err(
                TimeParsingError::InvalidComponent(name, part),
            ) && name@ == "seconds"@ && part@ == x,
        },
{
    let chars = chars_of(gtfs_time);
    let components = split_ranges(&chars, ':');
    if components.len() != 3 {
        return Err(TimeParsingError::InvalidFormat(String::from_str(gtfs_time)));
    }
    let ghost parts = split_on(gtfs_time@, ':');
    let (h0, h1) = components[0];
    let (m0, m1) = components[1];
    let (s0, s1) = components[2];
    proof {
        assert(components@[0].0 == h0 && components@[0].1 == h1);
        assert(components@[1].0 == m0 && components@[1].1 == m1);
        assert(components@[2].0 == s0 && components@[2].1 == s1);
    }
    let hours = match parse_usize_chars(&chars, h0, h1) {
        Some(hour) => hour,
        None => {
            return Err(TimeParsingError::InvalidFormat(String::from_str(gtfs_time)));
        },
    };
    let minutes = match parse_usize_chars(&chars, m0, m1) {
        Some(minute) if minute < 60 => minute,
        _ => {
            return Err(
                TimeParsingError::InvalidComponent(
                    String::from_str("minutes"),
                    String::from_str(gtfs_time.substring_char(m0, m1)),
                ),
            );
        },
    };
    let seconds = match parse_usize_chars(&chars, s0, s1) {
        Some(second) if second < 60 => second,
        _ => {
            return Err(
                TimeParsingError::InvalidComponent(
                    String::from_str("seconds"),
                    String::from_str(gtfs_time.substring_char(s0, s1)),
                ),
            );
        },
    };
    proof {
        assert(hours * 3600 + minutes * 60 + seconds <= usize::MAX);
    }
    Ok(hours * 3600 + minutes * 60 + seconds)
}

/// Whether a GTFS time text, where it reads as a valid time, gives a number of seconds
/// that fits in `Seconds` (the condition `gtfs_time_to_seconds` needs).
pub open spec fn time_fits(s: Seq<char>) -> bool {
    gtfs_time_reading(s) matches GtfsTimeReading::Seconds(v) ==> v <= usize::MAX
}

/// Tells whether `gtfs_time_to_seconds` can read `gtfs_time` without overflow.
pub fn gtfs_time_fits(gtfs_time: &str) -> (res: bool)
    ensures
        res == time_fits(gtfs_time@),
{
    let chars = chars_of(gtfs_time);
    let components = split_ranges(&chars, ':');
    if components.len() != 3 {
        return true;
    }
    let (h0, h1) = components[0];
    let (m0, m1) = components[1];
    let (s0, s1) = components[2];
    proof {
        assert(components@[0].0 == h0 && components@[0].1 == h1);
        assert(components@[1].0 == m0 && components@[1].1 == m1);
        assert(components@[2].0 == s0 && components@[2].1 == s1);
    }
    let hours = match parse_usize_chars(&chars, h0, h1) {
        Some(hour) => hour,
        None => return true,
    };
    let minutes = match parse_usize_chars(&chars, m0, m1) {
        Some(minute) if minute < 60 => minute,
        _ => return true,
    };
    let seconds = match parse_usize_chars(&chars, s0, s1) {
        Some(second) if second < 60 => second,
        _ => return true,
    };
    match hours.checked_mul(3600) {
        Some(h) => h.checked_add(minutes * 60 + seconds).is_some(),
        None => false,
    }
}

/// Hours, minutes and seconds of a time, each written with at least two digits:
/// `HH:MM:SS` (hours may exceed 24).
pub open spec fn gtfs_time_text(n: nat) -> Seq<char> {
    two_digits(n / 3600) + seq![':'] + two_digits((n % 3600) / 60) + seq![':'] + two_digits(n % 60)
}

/// Writes a number of seconds as a GTFS time `HH:MM:SS`.
pub fn seconds_to_gtfs_time(num_seconds: Seconds) -> (res: String)
    ensures
        res@ == gtfs_time_text(num_seconds as nat),
{
    let hours = num_seconds / 3600;
    let minutes = (num_seconds % 3600) / 60;
    let seconds = num_seconds % 60;
    let mut out = String::new();
    push_two_digits(&mut out, hours);
    out.append(":");
    push_two_digits(&mut out, minutes);
    out.append(":");
    push_two_digits(&mut out, seconds);
    proof {
        reveal_strlit(":");
        assert(out@ =~= gtfs_time_text(num_seconds as nat));
    }
    out
}

/// Writing a number of seconds as a GTFS time and reading the text back gives the same
/// number of seconds.
pub proof fn lemma_gtfs_time_round_trip(n: usize)
    ensures
        gtfs_time_reading(gtfs_time_text(n as nat)) == GtfsTimeReading::Seconds(n as nat),
{
    let h = n as nat / 3600;
    let m = (n as nat % 3600) / 60;
    let s = n as nat % 60;
    let a = two_digits(h);
    let b = two_digits(m);
    let c = two_digits(s);
    crate::text::lemma_two_digits_read_back(h);
    crate::text::lemma_two_digits_read_back(m);
    crate::text::lemma_two_digits_read_back(s);
    assert forall|i: int| 0 <= i < a.len() implies a[i] != ':' by {
        assert(crate::text::is_ascii_digit(a[i]));
    }
    assert forall|i: int| 0 <= i < b.len() implies b[i] != ':' by {
        assert(crate::text::is_ascii_digit(b[i]));
    }
    assert forall|i: int| 0 <= i < c.len() implies c[i] != ':' by {
        assert(crate::text::is_ascii_digit(c[i]));
    }
    let e = Seq::<char>::empty();
    crate::text::lemma_split_on_append_plain(e, a, ':');
    assert(e + a =~= a);
    assert(split_on(a, ':') =~= seq![a]);
    crate::text::lemma_split_on_append_sep(a, ':');
    let t1 = a.push(':');
    crate::text::lemma_split_on_append_plain(t1, b, ':');
    assert(split_on(t1 + b, ':') =~= seq![a, b]);
    let t2 = (t1 + b).push(':');
    crate::text::lemma_split_on_append_sep(t1 + b, ':');
    crate::text::lemma_split_on_append_plain(t2, c, ':');
    assert(split_on(t2 + c, ':') =~= seq![a, b, c]);
    assert(gtfs_time_text(n as nat) =~= t2 + c);
    assert(h * 3600 + m * 60 + s == n as nat) by (nonlinear_arith)
        requires
            h == n as nat / 3600,
            m == (n as nat % 3600) / 60,
            s == n as nat % 60,
    ;
}

} // verus!
