//! Text the server writes for people: decimal numbers, log lines, and the
//! calendar/clock stamps the logger prints.

use vstd::prelude::*;
use vstd::string::{StrSliceExecFns, StringSliceAdditionalSpecFns};

verus! {

broadcast use vstd::std_specs::vec::group_vec_axioms;

/// The ASCII digits of a number, most significant first.
pub open spec fn dec_digits(n: nat) -> Seq<u8>
    decreases n,
{
    if n < 10 {
        seq![(n + 48) as u8]
    } else {
        dec_digits(n / 10) + seq![(n % 10 + 48) as u8]
    }
}

/// Decimal digits are ASCII.
pub proof fn lemma_dec_digits_ascii(n: nat)
    ensures
        forall|i: int| 0 <= i < dec_digits(n).len() ==> 48 <= #[trigger] dec_digits(n)[i] <= 57,
    decreases n,
{
    if n >= 10 {
        lemma_dec_digits_ascii(n / 10);
        assert forall|i: int| 0 <= i < dec_digits(n).len() implies 48 <= #[trigger] dec_digits(
            n,
        )[i] <= 57 by {
            if i < dec_digits(n / 10).len() {
                assert(dec_digits(n)[i] == dec_digits(n / 10)[i]);
            } else {
                assert(dec_digits(n)[i] == (n % 10 + 48) as u8);
            }
        }
    }
}

/// The characters the given ASCII bytes spell.
pub open spec fn chars_of(bs: Seq<u8>) -> Seq<char> {
    Seq::new(bs.len(), |i: int| bs[i] as char)
}

/// Relies on `String::from_utf8` of std: ASCII bytes are valid UTF-8 and
/// each byte becomes the character with its code.
#[verifier::external_body]
fn ascii_string(v: Vec<u8>) -> (r: String)
    requires
        forall|i: int| 0 <= i < v@.len() ==> #[trigger] v@[i] < 0x80,
    ensures
        r@ == chars_of(v@),
{
    String::from_utf8(v).expect("ASCII bytes are valid UTF-8")
}

/// Appends the decimal digits of `n`.
pub fn push_dec(n: u64, out: &mut Vec<u8>)
    ensures
        final(out)@ == old(out)@ + dec_digits(n as nat),
    decreases n,
{
    if n < 10 {
        out.push((n + 48) as u8);
        proof {
            assert(out@ =~= old(out)@ + dec_digits(n as nat));
        }
    } else {
        push_dec(n / 10, out);
        out.push((n % 10 + 48) as u8);
        proof {
            assert(out@ =~= old(out)@ + dec_digits(n as nat));
        }
    }
}

/// The text of a number in decimal.
pub fn u64_to_dec(n: u64) -> (r: String)
    ensures
        r@ == chars_of(dec_digits(n as nat)),
{
    let mut out: Vec<u8> = Vec::new();
    push_dec(n, &mut out);
    proof {
        lemma_dec_digits_ascii(n as nat);
    }
    ascii_string(out)
}

/// The connection-count suffix of a log line.
pub open spec fn conns_chars(current_conns: nat, max_conns: nat) -> Seq<char> {
    seq!['('] + chars_of(dec_digits(current_conns)) + seq![' ', '/', ' '] + chars_of(
        dec_digits(max_conns),
    ) + seq![')']
}

/// The `(current / max)` form the connection handler logs.
pub fn fmt_conns(current_conns: usize, max_conns: usize) -> (r: String)
    ensures
        r@ == conns_chars(current_conns as nat, max_conns as nat),
{
    let mut out: Vec<u8> = Vec::new();
    out.push(40);
    push_dec(current_conns as u64, &mut out);
    out.push(32);
    out.push(47);
    out.push(32);
    push_dec(max_conns as u64, &mut out);
    out.push(41);
    proof {
        lemma_dec_digits_ascii(current_conns as nat);
        lemma_dec_digits_ascii(max_conns as nat);
    }
    let r = ascii_string(out);
    proof {
        assert(r@ =~= conns_chars(current_conns as nat, max_conns as nat));
    }
    r
}

/// The `msg (current conns / max max)` form of a connection log line, with
/// the singular noun at exactly one connection.
pub open spec fn conns_line_chars(msg: Seq<char>, current_conns: nat, max_conns: nat) -> Seq<
    char,
> {
    msg + seq![' ', '('] + chars_of(dec_digits(current_conns)) + (if current_conns == 1 {
        seq![' ', 'c', 'o', 'n', 'n']
    } else {
        seq![' ', 'c', 'o', 'n', 'n', 's']
    }) + seq![' ', '/', ' '] + chars_of(dec_digits(max_conns)) + seq![
        ' ',
        'm',
        'a',
        'x',
        ')',
    ]
}

/// Builds the log line for the current connection count.
#[verifier::rlimit(100)]
#[verifier::spinoff_prover]
pub fn log_conns(msg: &str, current_conns: usize, max_conns: usize) -> (r: String)
    requires
        vstd::utf8::is_ascii_chars(msg@),
    ensures
        r@ == conns_line_chars(msg@, current_conns as nat, max_conns as nat),
{
    let mut out: Vec<u8> = msg.as_bytes_vec();
    proof {
        vstd::utf8::is_ascii_chars_encode_utf8(msg@);
        assert(out@ =~= chars_of(out@).map_values(|c: char| c as u8));
        assert forall|i: int| 0 <= i < out@.len() implies #[trigger] out@[i] < 0x80 by {
            assert(msg@[i] as u8 == out@[i]);
        }
        assert(chars_of(out@) =~= msg@);
    }
    out.push(32);
    out.push(40);
    push_dec(current_conns as u64, &mut out);
    if current_conns == 1 {
        out.push(32);
        out.push(99);
        out.push(111);
        out.push(110);
        out.push(110);
    } else {
        out.push(32);
        out.push(99);
        out.push(111);
        out.push(110);
        out.push(110);
        out.push(115);
    }
    out.push(32);
    out.push(47);
    out.push(32);
    push_dec(max_conns as u64, &mut out);
    out.push(32);
    out.push(109);
    out.push(97);
    out.push(120);
    out.push(41);
    proof {
        lemma_dec_digits_ascii(current_conns as nat);
        lemma_dec_digits_ascii(max_conns as nat);
    }
    let r = ascii_string(out);
    proof {
        assert(r@ =~= conns_line_chars(msg@, current_conns as nat, max_conns as nat));
    }
    r
}

/// Builds the log line used when a client has just disconnected and the
/// shared count has not yet caught up.
pub fn log_conns_minus_one(msg: &str, current_conns: usize, max_conns: usize) -> (r: String)
    requires
        vstd::utf8::is_ascii_chars(msg@),
    ensures
        r@ == conns_line_chars(msg@, current_conns as nat, max_conns as nat),
{
    log_conns(msg, current_conns, max_conns)
}

/// Which classes of log lines are written, from least to most severe.
#[derive(Debug, Clone, Copy, PartialEq, Eq, Structural)]
pub struct LogLevel {
    pub trace: bool,
    pub debug: bool,
    pub info: bool,
    pub warn: bool,
    pub error: bool,
}

impl LogLevel {
    /// The level a configured name selects; an absent or unknown name keeps
    /// the default of `INFO`.
    pub open spec fn spec_load(name: Option<Seq<char>>) -> LogLevel {
        let n = match name {
            Option::None => "INFO"@,
            Option::Some(s) => s,
        };
        if n == "TRACE"@ {
            LogLevel { trace: true, debug: true, info: true, warn: true, error: true }
        } else if n == "DEBUG"@ {
            LogLevel { trace: false, debug: true, info: true, warn: true, error: true }
        } else if n == "WARN"@ {
            LogLevel { trace: false, debug: false, info: false, warn: true, error: true }
        } else if n == "ERROR"@ {
            LogLevel { trace: false, debug: false, info: false, warn: false, error: true }
        } else if n == "FATAL"@ {
            LogLevel { trace: false, debug: false, info: false, warn: false, error: false }
        } else {
            LogLevel { trace: false, debug: false, info: true, warn: true, error: true }
        }
    }

    /// Reads the configured level name into the set of enabled classes.
    pub fn load(name: &Option<String>) -> (r: LogLevel)
        ensures
            r == LogLevel::spec_load(
                match name {
                    Option::None => Option::None,
                    Option::Some(s) => Option::Some(s@),
                },
            ),
    {
        let n: &str = match name {
            Option::None => "INFO",
            Option::Some(s) => s.as_str(),
        };
        if crate::wire::str_eq(n, "TRACE") {
            LogLevel { trace: true, debug: true, info: true, warn: true, error: true }
        } else if crate::wire::str_eq(n, "DEBUG") {
            LogLevel { trace: false, debug: true, info: true, warn: true, error: true }
        } else if crate::wire::str_eq(n, "WARN") {
            LogLevel { trace: false, debug: false, info: false, warn: true, error: true }
        } else if crate::wire::str_eq(n, "ERROR") {
            LogLevel { trace: false, debug: false, info: false, warn: false, error: true }
        } else if crate::wire::str_eq(n, "FATAL") {
            LogLevel { trace: false, debug: false, info: false, warn: false, error: false }
        } else {
            proof {
                if name is None {
                    reveal_strlit("INFO");
                    reveal_strlit("TRACE");
                    reveal_strlit("DEBUG");
                    reveal_strlit("WARN");
                    reveal_strlit("ERROR");
                    reveal_strlit("FATAL");
                    assert("INFO"@.len() == 4 && "TRACE"@.len() == 5 && "DEBUG"@.len() == 5
                        && "WARN"@.len() == 4 && "ERROR"@.len() == 5 && "FATAL"@.len() == 5);
                    assert("INFO"@[0] == 'I' && "WARN"@[0] == 'W');
                }
            }
            LogLevel { trace: false, debug: false, info: true, warn: true, error: true }
        }
    }
}

/// A calendar date and clock time, derived from a wall-clock instant the
/// same way the logger stamps its lines: years of 365 days with the leap
/// rule applied only inside the month table.
#[derive(Debug, PartialEq)]
pub struct DateTime {
    pub year: u64,
    pub month: u64,
    pub day: u64,
    pub hours: u64,
    pub minutes: u64,
    pub seconds: u64,
    pub date: String,
    pub time: String,
}

/// Whether the year is a leap year.
pub open spec fn spec_is_leap(year: int) -> bool {
    year % 4 == 0 && (year % 100 != 0 || year % 400 == 0)
}

/// The lengths of the twelve months.
pub open spec fn month_lengths(leap: bool) -> Seq<int> {
    seq![
        31int,
        if leap {
            29int
        } else {
            28int
        },
        31int,
        30int,
        31int,
        30int,
        31int,
        31int,
        30int,
        31int,
        30int,
        31int,
    ]
}

/// The month and day reached after walking `day` (one-based) through the
/// month table from month `m` on.
pub open spec fn month_split(day: int, m: int, leap: bool) -> (int, int)
    decreases 12 - m,
{
    if m >= 12 {
        (m + 1, day)
    } else if day <= month_lengths(leap)[m] {
        (m + 1, day)
    } else {
        month_split(day - month_lengths(leap)[m], m + 1, leap)
    }
}

/// Two zero-padded decimal digits.
pub open spec fn two_digit_chars(n: int) -> Seq<char> {
    seq![((n / 10 % 10 + 48) as u8) as char, ((n % 10 + 48) as u8) as char]
}

/// Four zero-padded decimal digits: the upper pair, then the lower.
pub open spec fn four_digit_chars(n: int) -> Seq<char> {
    two_digit_chars(n / 100) + two_digit_chars(n % 100)
}

/// Appends two zero-padded decimal digits.
fn push_two_digits(n: u64, out: &mut Vec<u8>)
    ensures
        final(out)@ == old(out)@ + seq![(n / 10 % 10 + 48) as u8, (n % 10 + 48) as u8],
        forall|i: int|
            old(out)@.len() <= i < final(out)@.len() ==> #[trigger] final(out)@[i] < 0x80,
{
    out.push((n / 10 % 10 + 48) as u8);
    out.push((n % 10 + 48) as u8);
    proof {
        assert(out@ =~= old(out)@ + seq![(n / 10 % 10 + 48) as u8, (n % 10 + 48) as u8]);
    }
}

/// The month and day the day-of-year falls on.
fn civil_split(day_of_year: u64, leap: bool) -> (r: (u64, u64))
    requires
        1 <= day_of_year <= 366,
    ensures
        (r.0 as int, r.1 as int) == month_split(day_of_year as int, 0, leap),
{
    let lengths: [u64; 12] = [
        31,
        if leap {
            29
        } else {
            28
        },
        31,
        30,
        31,
        30,
        31,
        31,
        30,
        31,
        30,
        31,
    ];
    let mut month: u64 = 0;
    let mut day: u64 = day_of_year;
    while month < 12 && day > lengths[month as usize]
        invariant
            month <= 12,
            1 <= day <= 366,
            lengths@ =~= month_lengths(leap).map_values(|v: int| v as u64),
            forall|i: int| 0 <= i < 12 ==> 28 <= #[trigger] month_lengths(leap)[i] <= 31,
            month_split(day_of_year as int, 0, leap) == month_split(
                day as int,
                month as int,
                leap,
            ),
        decreases 12 - month,
    {
        proof {
            assert(month_lengths(leap)[month as int] == lengths@[month as int]);
        }
        day = day - lengths[month as usize];
        month = month + 1;
    }
    proof {
        if month < 12 {
            assert(month_lengths(leap)[month as int] == lengths@[month as int]);
        }
        assert(month_split(day as int, month as int, leap) == (month as int + 1, day as int));
    }
    (month + 1, day)
}

/// The `dd/mm/yyyy` form of a date.
#[verifier::rlimit(100)]
#[verifier::spinoff_prover]
fn date_string(day: u64, month: u64, year: u64) -> (r: String)
    requires
        year < 10000,
    ensures
        r@ == two_digit_chars(day as int) + seq!['/'] + two_digit_chars(month as int) + seq![
            '/',
        ] + four_digit_chars(year as int),
{
    let mut db: Vec<u8> = Vec::new();
    push_two_digits(day, &mut db);
    db.push(47);
    push_two_digits(month, &mut db);
    db.push(47);
    push_two_digits(year / 100, &mut db);
    push_two_digits(year % 100, &mut db);
    let r = ascii_string(db);
    proof {
        assert(r@ =~= two_digit_chars(day as int) + seq!['/'] + two_digit_chars(month as int)
            + seq!['/'] + four_digit_chars(year as int));
    }
    r
}

/// The `hh:mm:ss` form of a clock time.
fn time_string(hours: u64, minutes: u64, seconds: u64) -> (r: String)
    ensures
        r@ == two_digit_chars(hours as int) + seq![':'] + two_digit_chars(minutes as int) + seq![
            ':',
        ] + two_digit_chars(seconds as int),
{
    let mut tb: Vec<u8> = Vec::new();
    push_two_digits(hours, &mut tb);
    tb.push(58);
    push_two_digits(minutes, &mut tb);
    tb.push(58);
    push_two_digits(seconds, &mut tb);
    let r = ascii_string(tb);
    proof {
        assert(r@ =~= two_digit_chars(hours as int) + seq![':'] + two_digit_chars(
            minutes as int,
        ) + seq![':'] + two_digit_chars(seconds as int));
    }
    r
}

impl DateTime {
    /// Reads a wall-clock instant, in whole seconds since the UNIX epoch,
    /// into the stamp the logger prints. The instant must name a four-digit
    /// year under this calendar.
    pub fn new(epoch_secs: u64) -> (r: DateTime)
        requires
            epoch_secs < 253_201_680_000,
        ensures
            r.seconds == epoch_secs % 60,
            r.minutes == (epoch_secs / 60) % 60,
            r.hours == (epoch_secs / 3600) % 24,
            r.year == 1970 + (epoch_secs / 86400) / 365,
            (r.month as int, r.day as int) == month_split(
                (epoch_secs / 86400) % 365 + 1,
                0,
                spec_is_leap(r.year as int),
            ),
            r.date@ == two_digit_chars(r.day as int) + seq!['/'] + two_digit_chars(
                r.month as int,
            ) + seq!['/'] + four_digit_chars(r.year as int),
            r.time@ == two_digit_chars(r.hours as int) + seq![':'] + two_digit_chars(
                r.minutes as int,
            ) + seq![':'] + two_digit_chars(r.seconds as int),
    {
        let days = epoch_secs / 86400;
        let hours = (epoch_secs / 3600) % 24;
        let minutes = (epoch_secs / 60) % 60;
        let seconds = epoch_secs % 60;
        let year = 1970 + days / 365;
        let leap = year % 4 == 0 && (year % 100 != 0 || year % 400 == 0);
        let md = civil_split(days % 365 + 1, leap);
        let date = date_string(md.1, md.0, year);
        let time = time_string(hours, minutes, seconds);
        DateTime { year, month: md.0, day: md.1, hours, minutes, seconds, date, time }
    }
}

} // verus!
