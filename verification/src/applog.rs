//! A small append-only log for the headless paths and a crash log for panics.
//! Explorer right-click runs have no console and usually no user watching, so
//! when one goes wrong on another machine this is the only trace. The log is
//! rotated at 1 MB, one generation kept. Writing it is the caller's.

use crate::calendar::{date_of, day_number, on_calendar, Date};
use crate::paths::{inside, with_extension_of, FilePath};
use crate::text::{
    begins_with, decimal, fits, lemma_padded_decides, lemma_padded_length, lemma_padded_reads,
    padded, push_decimal, push_padded, reads, text_before,
};
use vstd::arithmetic::power::pow;
use vstd::prelude::*;

verus! {

/// The size above which a log is rotated.
pub const LOG_MAX_BYTES: u64 = 1_000_000;

/// The log directory: `Kuvatin` in the user's local app-data folder. The folder
/// is the one that the shell knows, so a process launched with a stripped or
/// foreign environment block (a service, a scheduler, an installer) still logs
/// where the user looks; the variable and then the temp dir are only fallbacks.
pub fn dir(known: &Option<FilePath>, variable: &Option<FilePath>, temp: &FilePath) -> (r: FilePath)
    ensures
        r@ == inside(
            match (known, variable) {
                (Some(folder), _) => folder@,
                (None, Some(folder)) => folder@,
                (None, None) => temp@,
            },
            "Kuvatin"@,
        ),
{
    match known {
        Some(folder) => folder.join("Kuvatin"),
        None => match variable {
            Some(folder) => folder.join("Kuvatin"),
            None => temp.join("Kuvatin"),
        },
    }
}

/// The log of the runs.
pub fn log_path(dir: &FilePath) -> (r: FilePath)
    ensures
        r@ == inside(dir@, "kuvatin.log"@),
{
    dir.join("kuvatin.log")
}

/// The log of the crashes.
pub fn crash_path(dir: &FilePath) -> (r: FilePath)
    ensures
        r@ == inside(dir@, "crash.log"@),
{
    dir.join("crash.log")
}

/// Whether a log of that size is moved away before the next line.
pub fn is_large(bytes: u64) -> (r: bool)
    ensures
        r == (bytes > LOG_MAX_BYTES),
{
    bytes > LOG_MAX_BYTES
}

/// Where a log is moved to: the one generation that is kept.
pub fn rotated(path: &FilePath) -> (r: FilePath)
    ensures
        r@ == with_extension_of(path@, "log.1"@),
{
    path.with_extension("log.1")
}

// ---------------------------------------------------------------------------
// The time
// ---------------------------------------------------------------------------

/// A year, in four digits or as many as it takes.
pub open spec fn year_text(year: nat) -> Seq<char> {
    if year < 10000 {
        padded(year, 4)
    } else {
        decimal(year)
    }
}

/// A date and a time of day in seconds: `YYYY-MM-DDTHH:MM:SSZ`.
pub open spec fn moment_text(date: Date, rest: nat) -> Seq<char> {
    year_text(date.year as nat) + "-"@ + padded(date.month as nat, 2) + "-"@ + padded(
        date.day as nat,
        2,
    ) + "T"@ + padded(rest / 3600, 2) + ":"@ + padded(rest % 3600 / 60, 2) + ":"@ + padded(
        rest % 60,
        2,
    ) + "Z"@
}

/// Whether a text is the moment that is so many seconds after the beginning of
/// 1970.
pub open spec fn is_moment(text: Seq<char>, secs: u64) -> bool {
    exists|date: Date|
        {
            &&& on_calendar(date)
            &&& #[trigger] day_number(date) == secs / 86400
            &&& text == moment_text(date, (secs % 86400) as nat)
        }
}

/// `YYYY-MM-DDTHH:MM:SSZ` from the seconds since the beginning of 1970.
pub fn timestamp(secs: u64) -> (r: String)
    ensures
        is_moment(r@, secs),
{
    let date = date_of(secs / 86_400);
    let rest: u64 = secs % 86_400;
    let mut s = String::new();
    if date.year < 10_000 {
        push_padded(&mut s, date.year, 4);
    } else {
        push_decimal(&mut s, date.year);
    }
    s.append("-");
    push_padded(&mut s, date.month, 2);
    s.append("-");
    push_padded(&mut s, date.day, 2);
    s.append("T");
    push_padded(&mut s, rest / 3600, 2);
    s.append(":");
    push_padded(&mut s, rest % 3600 / 60, 2);
    s.append(":");
    push_padded(&mut s, rest % 60, 2);
    s.append("Z");
    proof {
        assert(s@ =~= moment_text(date, rest as nat));
        assert(day_number(date) == secs / 86400);
    }
    s
}

/// A moment has one text.
pub proof fn a_moment_has_one_text(a: Seq<char>, b: Seq<char>, secs: u64)
    requires
        is_moment(a, secs),
        is_moment(b, secs),
    ensures
        a == b,
{
    let x = choose|date: Date|
        {
            &&& on_calendar(date)
            &&& #[trigger] day_number(date) == secs / 86400
            &&& a == moment_text(date, (secs % 86400) as nat)
        };
    let y = choose|date: Date|
        {
            &&& on_calendar(date)
            &&& #[trigger] day_number(date) == secs / 86400
            &&& b == moment_text(date, (secs % 86400) as nat)
        };
    crate::calendar::a_day_has_one_date(x, y);
}

/// Timestamps are ISO 8601 in UTC: twenty characters up to the year 9999, a `T`
/// between the date and the time, a `Z` at the end.
pub proof fn timestamps_are_iso(text: Seq<char>, secs: u64)
    requires
        is_moment(text, secs),
        secs < 253_402_300_800,
    ensures
        text.len() == 20,
        text[4] == '-',
        text[7] == '-',
        text[10] == 'T',
        text[13] == ':',
        text[16] == ':',
        text[19] == 'Z',
{
    let date = choose|date: Date|
        {
            &&& on_calendar(date)
            &&& #[trigger] day_number(date) == secs / 86400
            &&& text == moment_text(date, (secs % 86400) as nat)
        };
    crate::calendar::lemma_four_digits(date);
    let rest = (secs % 86400) as nat;
    lemma_padded_length(date.year as nat, 4);
    lemma_padded_length(date.month as nat, 2);
    lemma_padded_length(date.day as nat, 2);
    lemma_padded_length(rest / 3600, 2);
    lemma_padded_length(rest % 3600 / 60, 2);
    lemma_padded_length(rest % 60, 2);
    reveal_strlit("-");
    reveal_strlit("T");
    reveal_strlit(":");
    reveal_strlit("Z");
}

/// What stands before the month, the day, the hour, the minute and the second.
spec fn to_month(date: Date) -> Seq<char> {
    padded(date.year as nat, 4) + "-"@
}

spec fn to_day(date: Date) -> Seq<char> {
    to_month(date) + padded(date.month as nat, 2) + "-"@
}

spec fn to_hour(date: Date) -> Seq<char> {
    to_day(date) + padded(date.day as nat, 2) + "T"@
}

spec fn to_minute(date: Date, rest: nat) -> Seq<char> {
    to_hour(date) + padded(rest / 3600, 2) + ":"@
}

spec fn to_second(date: Date, rest: nat) -> Seq<char> {
    to_minute(date, rest) + padded(rest % 3600 / 60, 2) + ":"@
}

/// Each part of a moment's text follows what stands before it.
proof fn lemma_parts(date: Date, rest: nat)
    requires
        date.year < 10000,
    ensures
        begins_with(moment_text(date, rest), seq![] + padded(date.year as nat, 4)),
        begins_with(moment_text(date, rest), to_month(date) + padded(date.month as nat, 2)),
        begins_with(moment_text(date, rest), to_day(date) + padded(date.day as nat, 2)),
        begins_with(moment_text(date, rest), to_hour(date) + padded(rest / 3600, 2)),
        begins_with(moment_text(date, rest), to_minute(date, rest) + padded(rest % 3600 / 60, 2)),
        begins_with(moment_text(date, rest), to_second(date, rest) + padded(rest % 60, 2)),
{
    let all = moment_text(date, rest);
    let year = seq![] + padded(date.year as nat, 4);
    assert(all.take(year.len() as int) =~= year);
    let month = to_month(date) + padded(date.month as nat, 2);
    assert(all.take(month.len() as int) =~= month);
    let day = to_day(date) + padded(date.day as nat, 2);
    assert(all.take(day.len() as int) =~= day);
    let hour = to_hour(date) + padded(rest / 3600, 2);
    assert(all.take(hour.len() as int) =~= hour);
    let minute = to_minute(date, rest) + padded(rest % 3600 / 60, 2);
    assert(all.take(minute.len() as int) =~= minute);
    let second = to_second(date, rest) + padded(rest % 60, 2);
    assert(all.take(second.len() as int) =~= second);
}

/// A later time of day is one of a later hour, minute or second.
proof fn lemma_clock(s: nat, t: nat)
    requires
        t < 86400,
    ensures
        s < t <==> {
            ||| s / 3600 < t / 3600
            ||| s / 3600 == t / 3600 && s % 3600 / 60 < t % 3600 / 60
            ||| s / 3600 == t / 3600 && s % 3600 / 60 == t % 3600 / 60 && s % 60 < t % 60
        },
        fits(t / 3600, 2),
        fits(t % 3600 / 60, 2),
        fits(t % 60, 2),
{
    lemma_digits(0, t / 3600);
    lemma_digits(0, t % 3600 / 60);
    lemma_digits(0, t % 60);
}

/// Numbers below 10000 have four digits, those below 100 two.
proof fn lemma_digits(four: nat, two: nat)
    requires
        four < 10000,
        two < 100,
    ensures
        fits(four, 4),
        fits(two, 2),
{
    reveal_with_fuel(fits, 5);
}

/// Timestamps sort as time does, up to the year 9999: of two moments, the text of
/// the later one is the greater.
pub proof fn timestamps_sort_as_time_does(a: Seq<char>, earlier: u64, b: Seq<char>, later: u64)
    requires
        is_moment(a, earlier),
        is_moment(b, later),
        earlier < later,
        later < 253_402_300_800,
    ensures
        text_before(a, b),
{
    let x = choose|date: Date|
        {
            &&& on_calendar(date)
            &&& #[trigger] day_number(date) == earlier / 86400
            &&& a == moment_text(date, (earlier % 86400) as nat)
        };
    let y = choose|date: Date|
        {
            &&& on_calendar(date)
            &&& #[trigger] day_number(date) == later / 86400
            &&& b == moment_text(date, (later % 86400) as nat)
        };
    crate::calendar::lemma_four_digits(x);
    crate::calendar::lemma_four_digits(y);
    crate::calendar::dates_follow_their_days(x, y);
    crate::calendar::dates_follow_their_days(y, x);
    let s = (earlier % 86400) as nat;
    let t = (later % 86400) as nat;
    lemma_clock(s, t);
    lemma_digits(y.year as nat, y.month as nat);
    lemma_digits(0, y.day as nat);
    lemma_parts(x, s);
    lemma_parts(y, t);
    if x.year < y.year {
        lemma_padded_decides(a, b, seq![], x.year as nat, y.year as nat, 4);
    } else if x.month < y.month {
        lemma_padded_decides(a, b, to_month(x), x.month as nat, y.month as nat, 2);
    } else if x.day < y.day {
        lemma_padded_decides(a, b, to_day(x), x.day as nat, y.day as nat, 2);
    } else if s / 3600 < t / 3600 {
        lemma_padded_decides(a, b, to_hour(x), s / 3600, t / 3600, 2);
    } else if s % 3600 / 60 < t % 3600 / 60 {
        lemma_padded_decides(a, b, to_minute(x, s), s % 3600 / 60, t % 3600 / 60, 2);
    } else {
        lemma_padded_decides(a, b, to_second(x, s), s % 60, t % 60, 2);
    }
}

// ---------------------------------------------------------------------------
// The lines
// ---------------------------------------------------------------------------

/// One line of the log, its break included, that is written at `moment`:
/// `2026-09-09T13:04:05Z pid=1234 <line>`.
pub open spec fn entry_text(moment: Seq<char>, pid: nat, line: Seq<char>) -> Seq<char> {
    moment + " pid="@ + decimal(pid) + " "@ + line + "\n"@
}

/// One line of the log, its break included:
/// `2026-09-09T13:04:05Z pid=1234 <line>`.
pub fn log(secs: u64, pid: u32, line: &str) -> (r: String)
    ensures
        exists|moment: Seq<char>|
            #[trigger] is_moment(moment, secs) && r@ == entry_text(moment, pid as nat, line@),
{
    let mut s = timestamp(secs);
    let ghost moment = s@;
    s.append(" pid=");
    push_decimal(&mut s, pid as u64);
    s.append(" ");
    s.append(line);
    s.append("\n");
    assert(is_moment(moment, secs) && s@ =~= entry_text(moment, pid as nat, line@));
    s
}

/// A text, or what stands in for it.
pub open spec fn text_or(text: Option<Seq<char>>, other: Seq<char>) -> Seq<char> {
    match text {
        Some(t) => t,
        None => other,
    }
}

fn append_or(s: &mut String, text: &Option<String>, other: &str)
    ensures
        final(s)@ == old(s)@ + text_or(crate::clip::opt_model(*text), other@),
{
    match text {
        Some(t) => s.append(t.as_str()),
        None => s.append(other),
    }
}

/// The launch context.
pub open spec fn context_text(
    exe: Option<Seq<char>>,
    user: Option<Seq<char>>,
    local: Option<Seq<char>>,
) -> Seq<char> {
    "exe="@ + text_or(exe, "?"@) + ", USERNAME="@ + text_or(user, "<unset>"@)
        + ", LOCALAPPDATA="@ + text_or(local, "<unset>"@)
}

/// The launch context worth a log line when a headless run misbehaves on another
/// machine: which exe, and whose environment it inherited.
pub fn context(exe: &Option<String>, user: &Option<String>, local: &Option<String>) -> (r: String)
    ensures
        r@ == context_text(
            crate::clip::opt_model(*exe),
            crate::clip::opt_model(*user),
            crate::clip::opt_model(*local),
        ),
{
    let mut s = String::from_str("exe=");
    append_or(&mut s, exe, "?");
    s.append(", USERNAME=");
    append_or(&mut s, user, "<unset>");
    s.append(", LOCALAPPDATA=");
    append_or(&mut s, local, "<unset>");
    s
}

/// What is known of a panic.
pub struct Panic {
    /// What it says, where that is text.
    pub message: Option<String>,
    /// The file and the line, empty where unknown.
    pub location: String,
    /// The name of its thread, where it has one.
    pub thread: Option<String>,
}

impl Panic {
    /// What it says.
    pub open spec fn said(&self) -> Seq<char> {
        text_or(crate::clip::opt_model(self.message), "unknown panic"@)
    }

    /// The name of its thread.
    pub open spec fn on(&self) -> Seq<char> {
        text_or(crate::clip::opt_model(self.thread), "?"@)
    }

    /// The entry of the crash log.
    pub open spec fn crash_text(
        &self,
        moment: Seq<char>,
        version: Seq<char>,
        pid: nat,
        backtrace: Seq<char>,
    ) -> Seq<char> {
        "---- "@ + moment + " Kuvatin "@ + version + " pid="@ + decimal(pid) + " thread="@
            + self.on() + "\n"@ + self.said() + "\n  at "@ + self.location@ + "\n"@ + backtrace
            + "\n\n"@
    }

    /// The entry of the crash log.
    pub fn crash_entry(&self, secs: u64, version: &str, pid: u32, backtrace: &str) -> (r: String)
        ensures
            exists|moment: Seq<char>|
                #[trigger] is_moment(moment, secs) && r@ == self.crash_text(
                    moment,
                    version@,
                    pid as nat,
                    backtrace@,
                ),
    {
        let mut s = String::from_str("---- ");
        let now = timestamp(secs);
        s.append(now.as_str());
        s.append(" Kuvatin ");
        s.append(version);
        s.append(" pid=");
        push_decimal(&mut s, pid as u64);
        s.append(" thread=");
        append_or(&mut s, &self.thread, "?");
        s.append("\n");
        append_or(&mut s, &self.message, "unknown panic");
        s.append("\n  at ");
        s.append(self.location.as_str());
        s.append("\n");
        s.append(backtrace);
        s.append("\n\n");
        assert(is_moment(now@, secs) && s@ =~= self.crash_text(
            now@,
            version@,
            pid as nat,
            backtrace@,
        ));
        s
    }

    /// The line of the run log.
    pub fn log_line(&self) -> (r: String)
        ensures
            r@ == "PANIC on thread "@ + self.on() + ": "@ + self.said() + " (at "@ + self.location@
                + ")"@,
    {
        let mut s = String::from_str("PANIC on thread ");
        append_or(&mut s, &self.thread, "?");
        s.append(": ");
        append_or(&mut s, &self.message, "unknown panic");
        s.append(" (at ");
        s.append(self.location.as_str());
        s.append(")");
        s
    }

    /// What the error dialog says, where one is shown: a panic on the main
    /// thread would otherwise just vanish, for the windowed build has no stderr.
    /// Worker-thread panics only log — the batch runner already isolates those
    /// into per-file errors.
    pub fn dialog(&self, crash_log: &str) -> (r: Option<String>)
        ensures
            if self.on() == "main"@ {
                &&& r is Some
                &&& r->0@ == self.said() + "\n\nat "@ + self.location@
                    + "\n\nDetails were written to "@ + crash_log@ + "."@
            } else {
                r is None
            },
    {
        let mut on = String::new();
        append_or(&mut on, &self.thread, "?");
        assert(on@ =~= self.on());
        if on != String::from_str("main") {
            return None;
        }
        let mut s = String::new();
        append_or(&mut s, &self.message, "unknown panic");
        assert(s@ =~= self.said());
        s.append("\n\nat ");
        s.append(self.location.as_str());
        s.append("\n\nDetails were written to ");
        s.append(crash_log);
        s.append(".");
        Some(s)
    }
}

// ---------------------------------------------------------------------------
// Laws
// ---------------------------------------------------------------------------

/// The number that the characters of a text from `i` to `j` read as.
pub open spec fn number_at(text: Seq<char>, i: int, j: int) -> int {
    reads(text.subrange(i, j), 10)
}

/// A timestamp's numbers are those of its moment: the date is that of the day, and
/// the hours, minutes and seconds are what has passed of the day.
pub proof fn a_timestamp_tells_its_moment(secs: u64, days: u64, date: Date, r: String)
    requires
        call_ensures(timestamp, (secs,), r),
        days == secs / 86400,
        call_ensures(date_of, (days,), date),
        secs < 253_402_300_800,
    ensures
        number_at(r@, 0, 4) == date.year,
        number_at(r@, 5, 7) == date.month,
        number_at(r@, 8, 10) == date.day,
        number_at(r@, 11, 13) * 3600 + number_at(r@, 14, 16) * 60 + number_at(r@, 17, 19) == secs
            % 86400,
        0 <= number_at(r@, 11, 13) < 24,
        0 <= number_at(r@, 14, 16) < 60,
        0 <= number_at(r@, 17, 19) < 60,
{
    let rest = (secs % 86400) as nat;
    lemma_the_moment(r@, secs, date);
    lemma_date_numbers(date, rest);
    lemma_clock_numbers(date, rest);
    lemma_clock_adds_up(rest);
}

/// The text of a moment is that of its day's date.
proof fn lemma_the_moment(text: Seq<char>, secs: u64, date: Date)
    requires
        is_moment(text, secs),
        on_calendar(date),
        day_number(date) == secs / 86400,
        secs < 253_402_300_800,
    ensures
        text == moment_text(date, (secs % 86400) as nat),
        date.year < 10000,
        date.month < 100,
        date.day < 100,
{
    let d = choose|date: Date|
        {
            &&& on_calendar(date)
            &&& #[trigger] day_number(date) == secs / 86400
            &&& text == moment_text(date, (secs % 86400) as nat)
        };
    crate::calendar::a_day_has_one_date(d, date);
    crate::calendar::lemma_four_digits(date);
}

/// The hours, minutes and seconds of a time of day make it up.
proof fn lemma_clock_adds_up(rest: nat)
    requires
        rest < 86400,
    ensures
        (rest / 3600) * 3600 + (rest % 3600 / 60) * 60 + rest % 60 == rest,
        rest / 3600 < 24,
        rest % 3600 / 60 < 60,
        rest % 60 < 60,
{
}

proof fn lemma_lengths(date: Date, rest: nat)
    ensures
        padded(date.year as nat, 4).len() == 4,
        padded(date.month as nat, 2).len() == 2,
        padded(date.day as nat, 2).len() == 2,
        padded(rest / 3600, 2).len() == 2,
        padded(rest % 3600 / 60, 2).len() == 2,
        padded(rest % 60, 2).len() == 2,
        "-"@.len() == 1,
        "T"@.len() == 1,
        ":"@.len() == 1,
        "Z"@.len() == 1,
{
    lemma_padded_length(date.year as nat, 4);
    lemma_padded_length(date.month as nat, 2);
    lemma_padded_length(date.day as nat, 2);
    lemma_padded_length(rest / 3600, 2);
    lemma_padded_length(rest % 3600 / 60, 2);
    lemma_padded_length(rest % 60, 2);
    reveal_strlit("-");
    reveal_strlit("T");
    reveal_strlit(":");
    reveal_strlit("Z");
}

/// A number of two digits, or of four, reads as itself.
proof fn lemma_short_reads(two: nat, four: nat)
    requires
        two < 100,
        four < 10000,
    ensures
        reads(padded(two, 2), 10) == two,
        reads(padded(four, 4), 10) == four,
{
    lemma_padded_reads(two, 2);
    lemma_padded_reads(four, 4);
    assert(pow(10, 2) == 100) by {
        reveal_with_fuel(pow, 3);
    }
    assert(pow(10, 4) == 10000) by {
        reveal_with_fuel(pow, 5);
    }
}

proof fn lemma_date_numbers(date: Date, rest: nat)
    requires
        date.year < 10000,
        date.month < 100,
        date.day < 100,
    ensures
        number_at(moment_text(date, rest), 0, 4) == date.year,
        number_at(moment_text(date, rest), 5, 7) == date.month,
        number_at(moment_text(date, rest), 8, 10) == date.day,
{
    let text = moment_text(date, rest);
    lemma_lengths(date, rest);
    assert(text.subrange(0, 4) =~= padded(date.year as nat, 4));
    assert(text.subrange(5, 7) =~= padded(date.month as nat, 2));
    assert(text.subrange(8, 10) =~= padded(date.day as nat, 2));
    lemma_short_reads(date.month as nat, date.year as nat);
    lemma_short_reads(date.day as nat, 0);
}

proof fn lemma_clock_numbers(date: Date, rest: nat)
    requires
        date.year < 10000,
        rest < 86400,
    ensures
        number_at(moment_text(date, rest), 11, 13) == rest / 3600,
        number_at(moment_text(date, rest), 14, 16) == rest % 3600 / 60,
        number_at(moment_text(date, rest), 17, 19) == rest % 60,
{
    let text = moment_text(date, rest);
    lemma_lengths(date, rest);
    assert(text.subrange(11, 13) =~= padded(rest / 3600, 2));
    assert(text.subrange(14, 16) =~= padded(rest % 3600 / 60, 2));
    assert(text.subrange(17, 19) =~= padded(rest % 60, 2));
    lemma_short_reads(rest / 3600, 0);
    lemma_short_reads(rest % 3600 / 60, 0);
    lemma_short_reads(rest % 60, 0);
}

/// A log is moved away once it is larger than a million bytes.
pub proof fn a_log_of_a_million_bytes_is_large(bytes: u64, r: bool)
    requires
        call_ensures(is_large, (bytes,), r),
    ensures
        r <==> bytes > 1_000_000,
{
}

/// The logs lie in the folder `Kuvatin` of the known folder; where that is not known,
/// of the variable's, and of the temporary one where there is neither. Each has its
/// own name, and one that is moved away takes the extension `log.1`.
pub proof fn the_logs_lie_in_one_folder(
    known: &Option<FilePath>,
    variable: &Option<FilePath>,
    temp: &FilePath,
    folder: FilePath,
    log_file: FilePath,
    crash_file: FilePath,
    moved: FilePath,
)
    requires
        call_ensures(dir, (known, variable, temp), folder),
        call_ensures(log_path, (&folder,), log_file),
        call_ensures(crash_path, (&folder,), crash_file),
        call_ensures(rotated, (&log_file,), moved),
    ensures
        known is Some ==> folder@ == inside(known->0@, "Kuvatin"@),
        known is None && variable is Some ==> folder@ == inside(variable->0@, "Kuvatin"@),
        known is None && variable is None ==> folder@ == inside(temp@, "Kuvatin"@),
        log_file@ == inside(folder@, "kuvatin.log"@),
        crash_file@ == inside(folder@, "crash.log"@),
        moved@ == with_extension_of(log_file@, "log.1"@),
{
}

/// A line of the log begins with the timestamp, names the process, and ends with what
/// was to be logged and a line break.
pub proof fn a_line_begins_with_its_time(secs: u64, pid: u32, line: &str, stamp: String, r: String)
    requires
        call_ensures(timestamp, (secs,), stamp),
        call_ensures(log, (secs, pid, line), r),
    ensures
        r@ == stamp@ + " pid="@ + decimal(pid as nat) + " "@ + line@ + "\n"@,
{
    let moment = choose|moment: Seq<char>|
        #[trigger] is_moment(moment, secs) && r@ == entry_text(moment, pid as nat, line@);
    a_moment_has_one_text(moment, stamp@, secs);
}

/// The launch context names the program, the user and the folder of local data, and
/// says so of each that is not set.
pub proof fn the_context_names_what_is_known(
    exe: &Option<String>,
    user: &Option<String>,
    local: &Option<String>,
    r: String,
)
    requires
        call_ensures(context, (exe, user, local), r),
    ensures
        r@ == "exe="@ + (if exe is Some {
            exe->0@
        } else {
            "?"@
        }) + ", USERNAME="@ + (if user is Some {
            user->0@
        } else {
            "<unset>"@
        }) + ", LOCALAPPDATA="@ + (if local is Some {
            local->0@
        } else {
            "<unset>"@
        }),
{
}

/// What is told of a panic: its message, its place and its thread, or what stands in
/// for them. Only one on the main thread is told in a dialog.
pub proof fn a_panic_is_told_in_full(
    panic: &Panic,
    secs: u64,
    version: &str,
    pid: u32,
    backtrace: &str,
    crash_log: &str,
    stamp: String,
    entry: String,
    line: String,
    dialog: Option<String>,
)
    requires
        call_ensures(timestamp, (secs,), stamp),
        call_ensures(Panic::crash_entry, (panic, secs, version, pid, backtrace), entry),
        call_ensures(Panic::log_line, (panic,), line),
        call_ensures(Panic::dialog, (panic, crash_log), dialog),
    ensures
        ({
            let said = if panic.message is Some {
                panic.message->0@
            } else {
                "unknown panic"@
            };
            let thread = if panic.thread is Some {
                panic.thread->0@
            } else {
                "?"@
            };
            &&& entry@ == "---- "@ + stamp@ + " Kuvatin "@ + version@ + " pid="@ + decimal(
                pid as nat,
            ) + " thread="@ + thread + "\n"@ + said + "\n  at "@ + panic.location@ + "\n"@
                + backtrace@ + "\n\n"@
            &&& line@ == "PANIC on thread "@ + thread + ": "@ + said + " (at "@ + panic.location@
                + ")"@
            &&& dialog is Some <==> thread == "main"@
            &&& dialog is Some ==> dialog->0@ == said + "\n\nat "@ + panic.location@
                + "\n\nDetails were written to "@ + crash_log@ + "."@
        }),
{
    let moment = choose|moment: Seq<char>|
        #[trigger] is_moment(moment, secs) && entry@ == panic.crash_text(
            moment,
            version@,
            pid as nat,
            backtrace@,
        );
    a_moment_has_one_text(moment, stamp@, secs);
}

} // verus!
