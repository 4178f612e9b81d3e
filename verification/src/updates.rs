//! The opt-in update check and the update itself: the status line, the badge,
//! when a check is due, which download is the current one, and what a failed one
//! says. The check and the download are the caller's.

use crate::settings::{Settings, SettingsModel};
use crate::text::{
    all_hex, begins_with, chars_of, contains_text, hex_number, holds, lemma_trimmed_part, parse_hex,
    text_between, trim, trim_end_of, trimmed, trimmed_of, white_space,
};
use vstd::prelude::*;

verus! {

// ---------------------------------------------------------------------------
// What a failed download says
// ---------------------------------------------------------------------------

/// Whether an HRESULT with a Win32 error inside stands at `i`: `0x8007XXXX`.
pub open spec fn hresult_at(said: Seq<char>, i: int) -> bool {
    &&& 0 <= i
    &&& i + 10 <= said.len()
    &&& said[i] == '0'
    &&& said[i + 1] == 'x'
    &&& all_hex(said.subrange(i + 2, i + 10))
    &&& hex_number(said.subrange(i + 2, i + 10)) / 65536 == 0x8007
}

/// The Win32 error inside the first HRESULT from `i` on.
pub open spec fn code_from(said: Seq<char>, i: int) -> Option<u32>
    decreases said.len() - i,
{
    if i < 0 || i >= said.len() {
        None
    } else if hresult_at(said, i) {
        Some((hex_number(said.subrange(i + 2, i + 10)) % 65536) as u32)
    } else {
        code_from(said, i + 1)
    }
}

/// The Win32 error inside an `0x8007XXXX` HRESULT, when the text carries one.
/// WinHTTP failures arrive as nothing but that code.
pub fn win32_code(said: &str) -> (r: Option<u32>)
    ensures
        r == code_from(said@, 0),
{
    let t = chars_of(said);
    let mut i: usize = 0;
    while i < t.len() && t.len() - i >= 10
        invariant
            i <= t.len(),
            t@ == said@,
            code_from(said@, 0) == code_from(said@, i as int),
        decreases t.len() - i,
    {
        if t[i] == '0' && t[i + 1] == 'x' {
            if let Some(hresult) = parse_hex(&t, i + 2, 8) {
                // Failure, facility Win32: the low half is the Win32 error itself.
                if hresult / 65536 == 0x8007 {
                    return Some(hresult % 65536);
                }
            }
        }
        i += 1;
    }
    proof {
        lemma_too_short(said@, i as int);
    }
    None
}

proof fn lemma_too_short(said: Seq<char>, i: int)
    requires
        0 <= i,
        said.len() - i < 10,
    ensures
        code_from(said, i) is None,
    decreases said.len() - i,
{
    if i < said.len() {
        lemma_too_short(said, i + 1);
    }
}

/// Plain words for the WinHTTP failures a user actually meets.
pub open spec fn reason_of(win32: u32) -> Option<Seq<char>> {
    if win32 == 12002 {
        Some("the connection timed out"@)
    } else if win32 == 12007 {
        Some("the address could not be looked up"@)
    } else if win32 == 12029 {
        Some("no connection could be made"@)
    } else if win32 == 12030 || win32 == 12031 {
        Some("the connection was lost"@)
    } else if win32 == 12045 || win32 == 12175 {
        Some("the secure connection could not be set up"@)
    } else if win32 == 12152 {
        Some("the server's answer made no sense"@)
    } else {
        None
    }
}

/// Plain words for the WinHTTP failures a user actually meets. Windows keeps
/// these strings in `winhttp.dll` rather than the system message table, so
/// `FormatMessage` finds nothing and the code is all that is left.
pub fn network_reason(win32: u32) -> (r: Option<&'static str>)
    ensures
        match reason_of(win32) {
            Some(words) => r is Some && r->0@ == words,
            None => r is None,
        },
{
    match win32 {
        12002 => Some("the connection timed out"),
        12007 => Some("the address could not be looked up"),
        12029 => Some("no connection could be made"),
        12030 => Some("the connection was lost"),
        12031 => Some("the connection was lost"),
        12045 => Some("the secure connection could not be set up"),
        12175 => Some("the secure connection could not be set up"),
        12152 => Some("the server's answer made no sense"),
        _ => None,
    }
}

/// Whether a Win32 error is one of WinHTTP's, which all sit above 12000.
pub open spec fn winhttp(win32: u32) -> bool {
    12001 <= win32 < 13000
}

/// A character in upper case, as `char::to_uppercase` gives it.
pub uninterp spec fn uppercase(c: char) -> Seq<char>;

/// The capital of an ASCII character: of a letter, the letter in upper case; of
/// any other, itself.
pub open spec fn ascii_capital(c: char) -> char {
    if 'a' <= c <= 'z' {
        (c as int - 32) as char
    } else {
        c
    }
}

/// A character in upper case.
pub open spec fn capital(c: char) -> Seq<char> {
    if (c as int) < 128 {
        seq![ascii_capital(c)]
    } else {
        uppercase(c)
    }
}

/// `char::to_uppercase` gives one or more characters, by Unicode's own tables: of
/// an ASCII character the one that `char::to_ascii_uppercase` gives. What the
/// tables hold of other characters is left unsaid.
#[verifier::external_body]
fn upper(c: char) -> (r: String)
    ensures
        r@ == if (c as int) < 128 {
            seq![ascii_capital(c)]
        } else {
            uppercase(c)
        },
        r@.len() > 0,
{
    c.to_uppercase().to_string()
}

/// Whether a text ends as a sentence does.
pub open spec fn ended(text: Seq<char>) -> bool {
    text.len() > 0 && (text.last() == '.' || text.last() == '!' || text.last() == '?')
}

/// The text with a full stop, unless it ends as a sentence does.
pub open spec fn stopped(text: Seq<char>) -> Seq<char> {
    if ended(text) {
        text
    } else {
        text.push('.')
    }
}

/// The text as a sentence: a capital and a full stop.
pub open spec fn sentence_of(said: Seq<char>) -> Seq<char> {
    let said = trimmed(said);
    if said.len() == 0 {
        "The update did not go through."@
    } else {
        stopped(capital(said[0]) + said.skip(1))
    }
}

/// A beginning and the rest of a sentence, ended as a sentence is.
pub fn finish_sentence(beginning: &str, rest: &str) -> (r: String)
    ensures
        r@ == stopped(beginning@ + rest@),
{
    let mut s = crate::text::concat(beginning, rest);
    let t = chars_of(s.as_str());
    let n: usize = t.len();
    if n > 0 && (t[n - 1] == '.' || t[n - 1] == '!' || t[n - 1] == '?') {
        return s;
    }
    s.push('.');
    s
}

/// A capital and a full stop.
pub fn sentence(said: &str) -> (r: String)
    ensures
        r@ == sentence_of(said@),
{
    let said = trim(said);
    let t = chars_of(said.as_str());
    if t.len() == 0 {
        return String::from_str("The update did not go through.");
    }
    let rest = text_between(&t, 1, t.len());
    assert(t@.subrange(1, t.len() as int) =~= t@.skip(1));
    finish_sentence(upper(t[0]).as_str(), rest.as_str())
}

/// What a download that failed says.
pub open spec fn readable_text(said: Seq<char>, version: Seq<char>) -> Seq<char> {
    if holds(said, "HTTP 404"@) {
        "Version "@ + version + " has no installer published."@
    } else {
        match code_from(said, 0) {
            Some(win32) => if winhttp(win32) {
                "Could not reach the download: "@ + (match reason_of(win32) {
                    Some(words) => words,
                    None => "Windows reported "@ + trimmed_of(said, "."@),
                }) + "."@
            } else {
                sentence_of(said)
            },
            None => sentence_of(said),
        }
    }
}

/// Turn what a download failed with into a sentence for the dialog.
pub fn readable(said: &str, version: &str) -> (r: String)
    ensures
        r@ == readable_text(said@, version@),
{
    if contains_text(said, "HTTP 404") {
        let mut s = String::from_str("Version ");
        s.append(version);
        s.append(" has no installer published.");
        return s;
    }
    match win32_code(said) {
        Some(win32) => {
            if win32 < 12001 || win32 >= 13000 {
                return sentence(said);
            }
            let mut s = String::from_str("Could not reach the download: ");
            match network_reason(win32) {
                Some(words) => s.append(words),
                // Not one we have words for, but the code still has to show: it
                // is the only thing to search for or report.
                None => {
                    s.append("Windows reported ");
                    s.append(trim_end_of(said, ".").as_str());
                },
            }
            s.append(".");
            assert(s@ =~= readable_text(said@, version@));
            s
        },
        None => sentence(said),
    }
}

// ---------------------------------------------------------------------------
// The check
// ---------------------------------------------------------------------------

/// What the Settings page and the badge show.
#[derive(PartialEq, Eq, Debug)]
pub struct Status {
    pub enabled: bool,
    /// The version on offer, empty for none.
    pub available: String,
    pub text: String,
}

/// What the Settings page and the badge show.
#[verifier::ext_equal]
pub struct StatusModel {
    pub enabled: bool,
    pub available: Seq<char>,
    pub text: Seq<char>,
}

impl View for Status {
    type V = StatusModel;

    open spec fn view(&self) -> StatusModel {
        StatusModel { enabled: self.enabled, available: self.available@, text: self.text@ }
    }
}

/// What the settings show; `newer` tells whether the newest version seen is
/// newer than the one that runs.
pub open spec fn status_of(s: SettingsModel, newer: bool, current: Seq<char>) -> StatusModel {
    let offered = s.latest_seen.len() > 0 && newer;
    StatusModel {
        enabled: s.check_updates,
        available: if offered {
            s.latest_seen
        } else {
            seq![]
        },
        text: if !s.check_updates {
            "Off. Kuvatin makes no network requests unless you turn this on."@
        } else if s.latest_seen.len() == 0 {
            "Not checked yet."@
        } else if offered {
            "Version "@ + s.latest_seen + " is available."@
        } else {
            "Up to date ("@ + current + ")."@
        },
    }
}

/// Mirror the settings into the toggle, the status line and the badge.
pub fn apply_status(s: &Settings, newer: bool, current: &str) -> (r: Status)
    ensures
        r@ == status_of(s@, newer, current@),
{
    let seen = !s.latest_seen.as_str().is_empty();
    let offered = seen && newer;
    let available = if offered {
        s.latest_seen.clone()
    } else {
        String::new()
    };
    let text = if !s.check_updates {
        String::from_str("Off. Kuvatin makes no network requests unless you turn this on.")
    } else if !seen {
        String::from_str("Not checked yet.")
    } else if offered {
        let mut t = String::from_str("Version ");
        t.append(s.latest_seen.as_str());
        t.append(" is available.");
        t
    } else {
        let mut t = String::from_str("Up to date (");
        t.append(current);
        t.append(").");
        t
    };
    let r = Status { enabled: s.check_updates, available, text };
    assert(r@ =~= status_of(s@, newer, current@));
    r
}

/// Whether a check is due: none ran within the interval, or one is forced.
pub open spec fn due(last: u64, now: u64, interval: u64, force: bool) -> bool {
    force || (if now > last {
        now - last
    } else {
        0
    }) >= interval
}

/// Whether to run a check (a forced check ignores the interval).
pub fn check_due(s: &Settings, now: u64, interval: u64, force: bool) -> (r: bool)
    ensures
        r == due(s@.last_update_check, now, interval, force),
{
    force || now.saturating_sub(s.last_update_check) >= interval
}

/// A check is over: remember when, and the version it found, if it found one.
pub fn checked(s: &mut Settings, now: u64, found: Option<String>)
    ensures
        final(s)@ == (SettingsModel {
            last_update_check: now,
            latest_seen: match found {
                Some(version) => version@,
                None => old(s)@.latest_seen,
            },
            ..old(s)@
        }),
{
    s.last_update_check = now;
    if let Some(version) = found {
        s.latest_seen = version;
    }
}

/// The status line of a check that failed.
pub fn check_failed(error: &str) -> (r: String)
    ensures
        r@ == "Could not check: "@ + error@,
{
    crate::text::concat("Could not check: ", error)
}

// ---------------------------------------------------------------------------
// The update
// ---------------------------------------------------------------------------

/// The update dialog.
#[derive(Clone, Copy, PartialEq, Eq, Structural, Debug)]
pub enum Phase {
    Closed,
    Confirm,
    Working,
    Failed,
}

/// Which download is in flight. Every run gets a number of its own, so a worker
/// that is still unwinding from a cancel can never be mistaken for the current
/// run.
#[derive(Clone, Copy, PartialEq, Eq, Structural, Debug)]
pub struct Runs {
    pub current: u64,
    pub cancelled: bool,
}

impl Runs {
    /// Whether a run was told to stop: by the user, or by a later run.
    pub open spec fn told(self, run: u64) -> bool {
        run != self.current || self.cancelled
    }

    pub fn new() -> (r: Runs)
        ensures
            r == (Runs { current: 0, cancelled: false }),
    {
        Runs { current: 0, cancelled: false }
    }

    /// Take over as the run in flight, and stop whatever was in flight before:
    /// two downloads writing the same staging folder would sweep each other's
    /// files away.
    pub fn start(&mut self) -> (run: u64)
        requires
            old(self).current < u64::MAX,
        ensures
            run == old(self).current + 1,
            *final(self) == (Runs { current: run, cancelled: false }),
    {
        self.current = self.current + 1;
        self.cancelled = false;
        self.current
    }

    /// Cancel the run in flight.
    pub fn cancel(&mut self)
        ensures
            *final(self) == (Runs { cancelled: true, ..*old(self) }),
    {
        self.cancelled = true;
    }

    /// Whether a run was told to stop.
    pub fn stopped(&self, run: u64) -> (r: bool)
        ensures
            r == self.told(run),
    {
        run != self.current || self.cancelled
    }
}

/// Whether there is a version to install, and what to say where there is none.
pub fn version_to_install(s: &Settings) -> (r: Result<String, &'static str>)
    ensures
        match r {
            Ok(version) => s@.latest_seen.len() > 0 && version@ == s@.latest_seen,
            Err(e) => s@.latest_seen.len() == 0 && e@ == "There is no version to install."@,
        },
{
    if s.latest_seen.as_str().is_empty() {
        Err("There is no version to install.")
    } else {
        Ok(s.latest_seen.clone())
    }
}

/// What to do when a download has ended.
#[derive(PartialEq, Eq, Debug)]
pub enum AfterDownload {
    /// It was cancelled: throw away what arrived, if it did, and close the
    /// dialog, if it is the one this run put up.
    Discard { sweep: bool, close: bool },
    /// Hand over to the installer.
    Install,
    /// Show what went wrong.
    Fail(String),
}

/// What to do when a download has ended.
pub enum AfterModel {
    Discard { sweep: bool, close: bool },
    Install,
    Fail(Seq<char>),
}

impl View for AfterDownload {
    type V = AfterModel;

    open spec fn view(&self) -> AfterModel {
        match self {
            AfterDownload::Discard { sweep, close } => AfterModel::Discard {
                sweep: *sweep,
                close: *close,
            },
            AfterDownload::Install => AfterModel::Install,
            AfterDownload::Fail(message) => AfterModel::Fail(message@),
        }
    }
}

/// What to do when the download of a run has ended, with an error or without.
pub open spec fn after(
    runs: Runs,
    run: u64,
    phase: Phase,
    error: Option<Seq<char>>,
    version: Seq<char>,
) -> AfterModel {
    if runs.told(run) {
        AfterModel::Discard { sweep: error is None, close: phase == Phase::Working }
    } else {
        match error {
            None => AfterModel::Install,
            Some(said) => AfterModel::Fail(readable_text(said, version)),
        }
    }
}

/// A download has ended. Cancel is the working dialog's only way out, so it wins
/// even when it lands after the download finished: the download is thrown away
/// rather than installed. Only the dialog this run put up is closed; by now the
/// user may have opened the confirmation again.
pub fn download_ended(
    runs: &Runs,
    run: u64,
    phase: Phase,
    error: &Option<String>,
    version: &str,
) -> (r: AfterDownload)
    ensures
        r@ == after(*runs, run, phase, crate::clip::opt_model(*error), version@),
{
    if runs.stopped(run) {
        return AfterDownload::Discard { sweep: error.is_none(), close: phase == Phase::Working };
    }
    match error {
        None => AfterDownload::Install,
        Some(said) => AfterDownload::Fail(readable(said.as_str(), version)),
    }
}

// ---------------------------------------------------------------------------
// Laws
// ---------------------------------------------------------------------------

/// Whatever a download failed with, what is shown for it ends as a sentence.
pub proof fn a_failure_reads_as_a_sentence(said: Seq<char>, version: Seq<char>)
    ensures
        ended(readable_text(said, version)),
{
    reveal_strlit(" has no installer published.");
    reveal_strlit(".");
    reveal_strlit("The update did not go through.");
}

/// Making a sentence twice is making it once, as long as putting its capital in
/// upper case again changes nothing: what came out begins and ends with no white
/// space, and ends as a sentence does.
pub proof fn a_sentence_stays(said: Seq<char>)
    requires
        trimmed(said).len() > 0 ==> {
            let first = capital(trimmed(said)[0]);
            first.len() > 0 && !white_space(first[0]) && capital(first[0]) == seq![first[0]]
        },
    ensures
        sentence_of(sentence_of(said)) == sentence_of(said),
        trimmed(sentence_of(said)) == sentence_of(said),
        ended(sentence_of(said)),
{
    reveal_strlit("The update did not go through.");
    let r = sentence_of(said);
    assert(ended(r));
    assert(capital(r[0]) == seq![r[0]]);
    assert(trimmed(r) == r);
    assert(seq![r[0]] + r.skip(1) =~= r);
}

/// Of an ASCII text the sentence begins with no lower-case letter, and making it
/// a sentence again changes nothing.
pub proof fn an_ascii_sentence_stays(said: Seq<char>)
    requires
        forall|i: int| 0 <= i < said.len() ==> (#[trigger] said[i] as int) < 128,
    ensures
        sentence_of(sentence_of(said)) == sentence_of(said),
        trimmed(sentence_of(said)) == sentence_of(said),
        ended(sentence_of(said)),
        !('a' <= sentence_of(said)[0] <= 'z'),
{
    reveal_strlit("The update did not go through.");
    lemma_trimmed_part(said);
    let t = trimmed(said);
    if t.len() > 0 {
        assert((t[0] as int) < 128);
        assert(!white_space(t[0]));
    }
    a_sentence_stays(said);
}

/// A code that there are no words for still shows, behind a lead-in.
pub proof fn a_code_without_words_still_shows(said: Seq<char>, version: Seq<char>, i: int)
    requires
        !holds(said, "HTTP 404"@),
        code_from(said, 0) matches Some(win32) && winhttp(win32) && reason_of(win32) is None,
        hresult_at(said, i),
    ensures
        holds(readable_text(said, version), said.subrange(i, i + 10)),
{
    reveal_strlit(".");
    let shown = readable_text(said, version);
    let kept = trimmed_of(said, "."@);
    assert(said.subrange(i + 2, i + 10)[7] == said[i + 9]);
    lemma_trim_keeps(said, i + 10);
    let head = "Could not reach the download: "@ + "Windows reported "@;
    assert(shown =~= head + kept + "."@);
    let at = head.len() + i;
    assert(shown.subrange(at, at + 10) =~= said.subrange(i, i + 10));
    assert(crate::text::stands_at(shown, said.subrange(i, i + 10), at));
}

/// Trimming full stops keeps everything up to a character that is none.
proof fn lemma_trim_keeps(said: Seq<char>, end: int)
    requires
        0 < end <= said.len(),
        said[end - 1] != '.',
    ensures
        end <= trimmed_of(said, "."@).len() <= said.len(),
        trimmed_of(said, "."@) == said.take(trimmed_of(said, "."@).len() as int),
    decreases said.len(),
{
    reveal_strlit(".");
    if "."@.contains(said.last()) {
        assert(said.last() == '.');
        lemma_trim_keeps(said.drop_last(), end);
        let n = trimmed_of(said, "."@).len() as int;
        assert(said.drop_last().take(n) =~= said.take(n));
    } else {
        assert(said.take(said.len() as int) =~= said);
    }
}

/// A run that was cancelled is never installed, however its download ends.
pub proof fn a_cancelled_run_is_never_installed(
    runs: Runs,
    run: u64,
    phase: Phase,
    error: Option<Seq<char>>,
    version: Seq<char>,
)
    requires
        runs.told(run),
    ensures
        after(runs, run, phase, error, version) is Discard,
{
}

/// Once told to stop, a run stays told, whatever is started or cancelled later.
pub proof fn a_stopped_run_stays_stopped(before: Runs, run: u64)
    requires
        run <= before.current,
        before.told(run),
    ensures
        (Runs { cancelled: true, ..before }).told(run),
        before.current < u64::MAX ==> (Runs {
            current: (before.current + 1) as u64,
            cancelled: false,
        }).told(run),
{
}

/// Starting a run stops the one before it.
pub proof fn a_new_run_stops_the_one_before(before: Runs)
    requires
        before.current < u64::MAX,
    ensures
        (Runs { current: (before.current + 1) as u64, cancelled: false }).told(before.current),
        !(Runs { current: (before.current + 1) as u64, cancelled: false }).told(
            (before.current + 1) as u64,
        ),
{
}

/// Nothing is offered, and nothing said to be there, that was not seen.
pub proof fn only_a_newer_version_is_offered(s: SettingsModel, newer: bool, current: Seq<char>)
    ensures
        status_of(s, newer, current).available.len() > 0 ==> newer && status_of(
            s,
            newer,
            current,
        ).available == s.latest_seen,
        !newer ==> status_of(s, newer, current).available.len() == 0,
{
}

/// The code that a text carries is that of its first HRESULT: the low word of the eight
/// hexadecimal digits behind `0x`, of which the first four are 8007. A text without one
/// carries none.
pub proof fn the_first_code_is_read(said: &str, r: Option<u32>, i: int)
    requires
        call_ensures(win32_code, (said,), r),
        0 <= i <= said@.len(),
        forall|j: int| 0 <= j < i ==> !hresult_at(said@, j),
    ensures
        i == said@.len() ==> r is None,
        hresult_at(said@, i) ==> r is Some && r->0 < 65536 && hex_number(
            said@.subrange(i + 2, i + 10),
        ) == 0x8007 * 65536 + r->0,
        hresult_at(said@, i) ==> said@[i] == '0' && said@[i + 1] == 'x' && all_hex(
            said@.subrange(i + 2, i + 10),
        ),
{
    lemma_code_skips(said@, 0, i);
}

proof fn lemma_code_skips(said: Seq<char>, from: int, to: int)
    requires
        0 <= from <= to <= said.len(),
        forall|j: int| from <= j < to ==> !hresult_at(said, j),
    ensures
        code_from(said, from) == code_from(said, to),
    decreases to - from,
{
    if from < to {
        assert(!hresult_at(said, from));
        lemma_code_skips(said, from + 1, to);
    }
}

/// The failures of a network that there are words for.
pub proof fn network_failures_have_words(win32: u32, r: Option<&'static str>)
    requires
        call_ensures(network_reason, (win32,), r),
    ensures
        win32 == 12002 ==> r is Some && r->0@ == "the connection timed out"@,
        win32 == 12007 ==> r is Some && r->0@ == "the address could not be looked up"@,
        win32 == 12029 ==> r is Some && r->0@ == "no connection could be made"@,
        win32 == 12030 || win32 == 12031 ==> r is Some && r->0@ == "the connection was lost"@,
        win32 == 12045 || win32 == 12175 ==> r is Some && r->0@
            == "the secure connection could not be set up"@,
        win32 == 12152 ==> r is Some && r->0@ == "the server's answer made no sense"@,
        r is Some ==> win32 == 12002 || win32 == 12007 || win32 == 12029 || win32 == 12030
            || win32 == 12031 || win32 == 12045 || win32 == 12175 || win32 == 12152,
{
}

/// A text becomes a sentence: without the blanks around it, with a capital in front,
/// and with a full stop unless it ends in one, in an exclamation or in a question mark.
/// An empty one says that the update did not go through.
pub proof fn a_text_becomes_a_sentence(said: &str, r: String)
    requires
        call_ensures(sentence, (said,), r),
    ensures
        trimmed(said@).len() == 0 ==> r@ == "The update did not go through."@,
        trimmed(said@).len() > 0 ==> ({
            let body = capital(trimmed(said@)[0]) + trimmed(said@).skip(1);
            let end = body.last();
            &&& body.len() > 0 && (end == '.' || end == '!' || end == '?') ==> r@ == body
            &&& body.len() == 0 || !(end == '.' || end == '!' || end == '?') ==> r@ == body.push(
                '.',
            )
        }),
        trimmed(said@).len() > 0 && 'a' <= trimmed(said@)[0] <= 'z' ==> r@[0] as int == trimmed(
            said@,
        )[0] as int - 32,
        trimmed(said@).len() > 0 && (trimmed(said@)[0] as int) < 128 && !('a' <= trimmed(said@)[0]
            <= 'z') ==> r@[0] == trimmed(said@)[0],
        trimmed(said@).len() > 0 && (trimmed(said@)[0] as int) >= 128 ==> begins_with(
            r@,
            uppercase(trimmed(said@)[0]),
        ),
{
    let body = trimmed(said@);
    if body.len() > 0 && (body[0] as int) >= 128 {
        let first = uppercase(body[0]);
        assert(r@.take(first.len() as int) =~= first);
    }
}

/// A beginning and a rest are put together, with a full stop unless they end as a
/// sentence does.
pub proof fn a_sentence_is_finished_once(beginning: &str, rest: &str, r: String)
    requires
        call_ensures(finish_sentence, (beginning, rest), r),
    ensures
        ({
            let all = beginning@ + rest@;
            &&& all.len() > 0 && (all.last() == '.' || all.last() == '!' || all.last() == '?')
                ==> r@ == all
            &&& all.len() == 0 || !(all.last() == '.' || all.last() == '!' || all.last() == '?')
                ==> r@ == all.push('.')
        }),
{
}

/// What a failed download is said to be. An installer that is not there is named by its
/// version; a failure of the network is told in words, or by what Windows said; and
/// anything else as it was said, as a sentence.
pub proof fn a_failed_download_is_told_in_words(
    said: &str,
    version: &str,
    code: Option<u32>,
    plain: String,
    words: Option<&'static str>,
    r: String,
)
    requires
        call_ensures(readable, (said, version), r),
        call_ensures(win32_code, (said,), code),
        call_ensures(sentence, (said,), plain),
        code is Some ==> call_ensures(network_reason, (code->0,), words),
    ensures
        holds(said@, "HTTP 404"@) ==> r@ == "Version "@ + version@ + " has no installer published."@,
        !holds(said@, "HTTP 404"@) ==> {
            &&& code is None ==> r@ == plain@
            &&& code is Some && (code->0 <= 12000 || code->0 >= 13000) ==> r@ == plain@
            &&& code is Some && 12000 < code->0 < 13000 && words is Some ==> r@
                == "Could not reach the download: "@ + words->0@ + "."@
            &&& code is Some && 12000 < code->0 < 13000 && words is None ==> r@
                == "Could not reach the download: "@ + ("Windows reported "@ + trimmed_of(
                said@,
                "."@,
            )) + "."@
        },
{
}

/// What the Settings page shows: a version only where one was seen and is newer; and,
/// while the check is on, that nothing was checked, that a version is available, or
/// that the one that runs is up to date.
pub proof fn the_status_tells_what_was_seen(s: &Settings, newer: bool, current: &str, r: Status)
    requires
        call_ensures(apply_status, (s, newer, current), r),
    ensures
        r.enabled == s.check_updates,
        s.latest_seen@.len() > 0 && newer ==> r.available@ == s.latest_seen@,
        s.latest_seen@.len() == 0 || !newer ==> r.available@.len() == 0,
        !s.check_updates ==> r.text@
            == "Off. Kuvatin makes no network requests unless you turn this on."@,
        s.check_updates && s.latest_seen@.len() == 0 ==> r.text@ == "Not checked yet."@,
        s.check_updates && s.latest_seen@.len() > 0 && newer ==> r.text@ == "Version "@
            + s.latest_seen@ + " is available."@,
        s.check_updates && s.latest_seen@.len() > 0 && !newer ==> r.text@ == "Up to date ("@
            + current@ + ")."@,
{
    assert(r@.enabled == r.enabled && r@.available == r.available@ && r@.text == r.text@);
}

/// A check is due where it is forced, or where the interval has passed since the last
/// one. A clock that went back counts as no time passed.
pub proof fn a_check_is_due_after_the_interval(
    s: &Settings,
    now: u64,
    interval: u64,
    force: bool,
    r: bool,
)
    requires
        call_ensures(check_due, (s, now, interval, force), r),
    ensures
        force ==> r,
        !force && now >= s.last_update_check ==> (r <==> now - s.last_update_check >= interval),
        !force && now < s.last_update_check ==> (r <==> interval == 0),
{
}

/// A check that is over leaves its time, and the version it found where it found one;
/// whether checks are made stays as it was. One that failed says why.
pub proof fn a_check_leaves_its_time(
    s: &mut Settings,
    now: u64,
    found: Option<String>,
    error: &str,
    line: String,
)
    requires
        call_ensures(checked, (s, now, found), ()),
        call_ensures(check_failed, (error,), line),
    ensures
        final(s).last_update_check == now,
        found is Some ==> final(s).latest_seen@ == found->0@,
        found is None ==> final(s).latest_seen@ == old(s).latest_seen@,
        final(s).check_updates == old(s).check_updates,
        line@ == "Could not check: "@ + error@,
{
    assert(final(s)@.last_update_check == final(s).last_update_check);
    assert(final(s)@.latest_seen == final(s).latest_seen@);
    assert(final(s)@.check_updates == final(s).check_updates);
}

/// Each run has the number after the last. A run was told to stop exactly where it is
/// not the current one, or the current one was cancelled.
pub proof fn each_run_has_a_number_of_its_own(
    runs: &mut Runs,
    run: u64,
    cancelled: &mut Runs,
    asked: &Runs,
    of: u64,
    told: bool,
)
    requires
        call_ensures(Runs::start, (runs,), run),
        call_ensures(Runs::cancel, (cancelled,), ()),
        call_ensures(Runs::stopped, (asked, of), told),
    ensures
        run == old(runs).current + 1 && final(runs).current == run && !final(runs).cancelled,
        final(cancelled).cancelled && final(cancelled).current == old(cancelled).current,
        told <==> of != asked.current || asked.cancelled,
{
}

/// The version to install is the newest seen; where none was, there is none.
pub proof fn the_newest_version_is_installed(s: &Settings, r: Result<String, &'static str>)
    requires
        call_ensures(version_to_install, (s,), r),
    ensures
        s.latest_seen@.len() > 0 ==> r is Ok && r->Ok_0@ == s.latest_seen@,
        s.latest_seen@.len() == 0 ==> r is Err && r->Err_0@ == "There is no version to install."@,
{
}

/// A download that has ended is installed where it went through, and its failure shown
/// where it did not. One that was told to stop is discarded: what arrived is swept
/// away, and only the dialog of the work is closed.
pub proof fn a_download_that_was_not_stopped_is_installed(
    runs: &Runs,
    run: u64,
    phase: Phase,
    error: &Option<String>,
    version: &str,
    r: AfterDownload,
)
    requires
        call_ensures(download_ended, (runs, run, phase, error, version), r),
    ensures
        r is Install <==> run == runs.current && !runs.cancelled && error is None,
        r is Fail <==> run == runs.current && !runs.cancelled && error is Some,
        r matches AfterDownload::Fail(text) ==> text@ == readable_text(error->0@, version@),
        r matches AfterDownload::Discard { sweep, close } ==> sweep == error is None && close
            == phase is Working,
{
}

} // verus!
