use vstd::prelude::*;
use vstd::string::*;

verus! {

/// Division that rounds toward zero, as Rust's `/` does, for a positive
/// divisor.
pub open spec fn tdiv(a: int, b: int) -> int
    recommends
        b > 0,
{
    if a >= 0 {
        a / b
    } else {
        -((-a) / b)
    }
}

/// The remainder that goes with `tdiv`, as Rust's `%` gives it.
pub open spec fn tmod(a: int, b: int) -> int
    recommends
        b > 0,
{
    a - b * tdiv(a, b)
}

/// The character of a decimal digit.
pub open spec fn digit_char(d: int) -> char
    recommends
        0 <= d < 10,
{
    ('0' as int + d) as char
}

/// The decimal digits of a natural number, most significant first.
pub open spec fn digits(n: nat) -> Seq<char>
    decreases n,
{
    if n < 10 {
        seq![digit_char(n as int)]
    } else {
        digits(n / 10).push(digit_char((n % 10) as int))
    }
}

/// The decimal representation of an integer, with a leading `-` when it is
/// negative.
pub open spec fn decimal(n: int) -> Seq<char> {
    if n < 0 {
        seq!['-'] + digits((-n) as nat)
    } else {
        digits(n as nat)
    }
}

/// `i32::to_string` (through `Display`): the decimal representation of the
/// number, as `decimal` states it.
#[verifier::external_body]
fn i32_text(n: i32) -> (s: String)
    ensures
        s@ == decimal(n as int),
{
    n.to_string()
}

/// `usize::to_string` (through `Display`): the decimal representation of the
/// number, as `decimal` states it.
#[verifier::external_body]
fn usize_text(n: usize) -> (s: String)
    ensures
        s@ == decimal(n as int),
{
    n.to_string()
}

/// The hours, minutes and seconds of a time given in whole seconds, each
/// part as Rust's `/` and `%` compute it.
pub open spec fn clock_parts(seconds: int) -> (int, int, int) {
    let minutes = tdiv(seconds, 60);
    (tdiv(minutes, 60), tmod(minutes, 60), tmod(seconds, 60))
}

/// `"{hours} hours "` unless the hours are zero, then `"{minutes} minutes "`
/// unless they are zero, then `"{seconds} seconds"`.
pub open spec fn run_time_text_spec(seconds: int) -> Seq<char> {
    let (h, m, s) = clock_parts(seconds);
    (if h != 0 {
        decimal(h) + " hours "@
    } else {
        Seq::empty()
    }) + (if m != 0 {
        decimal(m) + " minutes "@
    } else {
        Seq::empty()
    }) + decimal(s) + " seconds"@
}

/// The run time shown under the progress bar, for a run time rounded to whole
/// seconds.
pub fn run_time_text(seconds: i32) -> (text: String)
    ensures
        text@ == run_time_text_spec(seconds as int),
{
    let minutes = seconds / 60;
    let secs = seconds % 60;
    let hours = minutes / 60;
    let minutes = minutes % 60;
    let mut text = String::new();
    if hours != 0 {
        let h = i32_text(hours);
        text.append(h.as_str());
        text.append(" hours ");
    }
    if minutes != 0 {
        let m = i32_text(minutes);
        text.append(m.as_str());
        text.append(" minutes ");
    }
    let s = i32_text(secs);
    text.append(s.as_str());
    text.append(" seconds");
    text
}

/// What a leaderboard line shows after the current progress: the best time,
/// rounded to milliseconds, or, for a player who never finished, the best
/// progress in percent.
#[derive(Debug, Clone, Copy, PartialEq, Eq, Structural)]
pub enum BestRecord {
    Time { millis: i32 },
    Progress { percent: i32 },
}

/// A best time as the leaderboard shows it: `"{hours}:"` unless the hours
/// are zero, `"{minutes}:"` unless the minutes are zero, then
/// `"{seconds}.{milliseconds}"` (the milliseconds without leading zeros).
pub open spec fn best_time_text(millis: int) -> Seq<char> {
    let (h, m, s) = clock_parts(tdiv(millis, 1000));
    (if h != 0 {
        decimal(h) + ":"@
    } else {
        Seq::empty()
    }) + (if m != 0 {
        decimal(m) + ":"@
    } else {
        Seq::empty()
    }) + decimal(s) + "."@ + decimal(tmod(millis, 1000))
}

/// The text of a leaderboard line.
pub open spec fn leaderboard_line_spec(
    place: int,
    name: Seq<char>,
    progress: int,
    best: BestRecord,
) -> Seq<char> {
    "#"@ + decimal(place) + ": "@ + name + " - "@ + decimal(progress) + "% ("@ + match best {
        BestRecord::Time { millis } => best_time_text(millis as int),
        BestRecord::Progress { percent } => decimal(percent as int) + "%"@,
    } + ")"@
}

/// The part of a leaderboard line between the brackets.
fn best_text(best: BestRecord) -> (text: String)
    ensures
        text@ == match best {
            BestRecord::Time { millis } => best_time_text(millis as int),
            BestRecord::Progress { percent } => decimal(percent as int) + "%"@,
        },
{
    match best {
        BestRecord::Time { millis } => {
            let seconds = millis / 1000;
            let ms = millis % 1000;
            let minutes = seconds / 60;
            let secs = seconds % 60;
            let hours = minutes / 60;
            let minutes = minutes % 60;
            let mut text = String::new();
            if hours != 0 {
                let h = i32_text(hours);
                text.append(h.as_str());
                text.append(":");
            }
            if minutes != 0 {
                let m = i32_text(minutes);
                text.append(m.as_str());
                text.append(":");
            }
            let s = i32_text(secs);
            text.append(s.as_str());
            text.append(".");
            let x = i32_text(ms);
            text.append(x.as_str());
            text
        },
        BestRecord::Progress { percent } => {
            let mut text = i32_text(percent);
            text.append("%");
            text
        },
    }
}

/// The leaderboard line of the player in the given place (counted from 1),
/// with its current progress in percent.
pub fn leaderboard_line(place: usize, name: &str, progress: i32, best: BestRecord) -> (text: String)
    ensures
        text@ == leaderboard_line_spec(place as int, name@, progress as int, best),
{
    let mut text = String::from_str("#");
    let p = usize_text(place);
    text.append(p.as_str());
    text.append(": ");
    text.append(name);
    text.append(" - ");
    let g = i32_text(progress);
    text.append(g.as_str());
    text.append("% (");
    let b = best_text(best);
    text.append(b.as_str());
    text.append(")");
    text
}


proof fn lemma_tmod_nonneg(a: int, b: int)
    requires
        a >= 0,
        b > 0,
    ensures
        tdiv(a, b) == a / b,
        tmod(a, b) == a % b,
{
    vstd::arithmetic::div_mod::lemma_fundamental_div_mod(a, b);
}

/// Law: a best time (in milliseconds, not negative) reads as its whole
/// hours and a colon when there are any, then its minutes within the hour
/// and a colon whenever they are not zero (whatever the hours), then its
/// seconds within the minute, a dot and its milliseconds within the second.
pub proof fn lemma_best_time_parts(millis: int)
    requires
        millis >= 0,
    ensures
        ({
            let hours = millis / 3_600_000;
            let minutes = (millis / 60_000) % 60;
            (if hours != 0 {
                decimal(hours) + ":"@
            } else {
                Seq::empty()
            }) + (if minutes != 0 {
                decimal(minutes) + ":"@
            } else {
                Seq::empty()
            }) + decimal((millis / 1000) % 60) + "."@ + decimal(millis % 1000)
        }) == best_time_text(millis),
{
    let s = millis / 1000;
    lemma_tmod_nonneg(millis, 1000);
    lemma_tmod_nonneg(s, 60);
    let m = s / 60;
    lemma_tmod_nonneg(m, 60);
    vstd::arithmetic::div_mod::lemma_div_denominator(millis, 1000, 60);
    vstd::arithmetic::div_mod::lemma_div_denominator(millis, 60_000, 60);
    assert(1000 * 60 == 60_000int);
    assert(60_000 * 60 == 3_600_000int);
}

/// Law: a run time (in whole seconds, not negative) reads as its whole hours
/// when there are any, its minutes within the hour whenever they are not
/// zero (whatever the hours), then its seconds within the minute.
pub proof fn lemma_run_time_parts(seconds: int)
    requires
        seconds >= 0,
    ensures
        ({
            let hours = seconds / 3600;
            let minutes = (seconds / 60) % 60;
            (if hours != 0 {
                decimal(hours) + " hours "@
            } else {
                Seq::empty()
            }) + (if minutes != 0 {
                decimal(minutes) + " minutes "@
            } else {
                Seq::empty()
            }) + decimal(seconds % 60) + " seconds"@
        }) == run_time_text_spec(seconds),
{
    lemma_tmod_nonneg(seconds, 60);
    let m = seconds / 60;
    lemma_tmod_nonneg(m, 60);
    vstd::arithmetic::div_mod::lemma_div_denominator(seconds, 60, 60);
    assert(60 * 60 == 3600int);
}

} // verus!
