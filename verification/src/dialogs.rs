//! The texts of the app's dialogs.

use crate::order::models;
use crate::text::{begins_with, decimal, push_decimal};
use vstd::prelude::*;

verus! {

/// How many names a dialog lists before it only counts the rest.
pub const NAMES_SHOWN: usize = 10;

/// A dialog: an error, or the neutral form with a check mark instead of the
/// exclamation. It can offer to show the folder of the file it is about.
#[derive(PartialEq, Eq, Debug)]
pub struct Dialog {
    pub title: String,
    pub detail: String,
    pub info: bool,
    /// The file to show in its folder, empty for none.
    pub reveal: String,
}

/// What a dialog says.
#[verifier::ext_equal]
pub struct DialogModel {
    pub title: Seq<char>,
    pub detail: Seq<char>,
    pub info: bool,
    pub reveal: Seq<char>,
}

impl View for Dialog {
    type V = DialogModel;

    open spec fn view(&self) -> DialogModel {
        DialogModel {
            title: self.title@,
            detail: self.detail@,
            info: self.info,
            reveal: self.reveal@,
        }
    }
}

/// An error dialog.
pub fn show_error(title: String, detail: String) -> (r: Dialog)
    ensures
        r@ == (DialogModel { title: title@, detail: detail@, info: false, reveal: seq![] }),
{
    Dialog { title, detail, info: false, reveal: String::new() }
}

/// The same dialog in its neutral, informational form (a batch summary): no
/// red, a check mark instead of the exclamation.
pub fn show_info(title: String, detail: String) -> (r: Dialog)
    ensures
        r@ == (DialogModel { title: title@, detail: detail@, info: true, reveal: seq![] }),
{
    Dialog { title, detail, info: true, reveal: String::new() }
}

/// [`show_info`] plus a "Show in folder" button for the file the message is
/// about — the difference between being told something was written and being
/// able to go and look at it.
pub fn show_info_at(title: String, detail: String, path: String) -> (r: Dialog)
    ensures
        r@ == (DialogModel { title: title@, detail: detail@, info: true, reveal: path@ }),
{
    Dialog { title, detail, info: true, reveal: path }
}

/// Texts with a separator between them.
pub open spec fn joined(texts: Seq<Seq<char>>, separator: Seq<char>) -> Seq<char>
    decreases texts.len(),
{
    if texts.len() == 0 {
        seq![]
    } else if texts.len() == 1 {
        texts[0]
    } else {
        joined(texts.drop_last(), separator) + separator + texts.last()
    }
}

/// Texts with a separator between them.
pub fn join(texts: &Vec<String>, separator: &str) -> (r: String)
    ensures
        r@ == joined(models(texts@), separator@),
{
    assert(models(texts@).take(texts.len() as int) =~= models(texts@));
    join_first(texts, texts.len(), separator)
}

/// The first `n` texts with a separator between them.
pub fn join_first(texts: &Vec<String>, n: usize, separator: &str) -> (r: String)
    requires
        n <= texts.len(),
    ensures
        r@ == joined(models(texts@).take(n as int), separator@),
{
    let ghost m = models(texts@);
    let mut s = String::new();
    let mut i: usize = 0;
    while i < n
        invariant
            i <= n <= texts.len(),
            m == models(texts@),
            s@ == joined(m.take(i as int), separator@),
        decreases n - i,
    {
        assert(m[i as int] == texts[i as int]@);
        assert(m.take(i + 1).drop_last() =~= m.take(i as int));
        if i > 0 {
            s.append(separator);
        }
        s.append(texts[i].as_str());
        assert(s@ =~= joined(m.take(i + 1), separator@));
        i += 1;
    }
    s
}

/// At most ten names, one to a line, and how many more there are.
pub open spec fn name_lines(names: Seq<Seq<char>>) -> Seq<char> {
    if names.len() > NAMES_SHOWN {
        joined(names.take(NAMES_SHOWN as int), "\n"@) + "\n\u{2026}and "@ + decimal(
            (names.len() - NAMES_SHOWN) as nat,
        ) + " more"@
    } else {
        joined(names, "\n"@)
    }
}

/// Join file names for a dialog, capped so twenty failures don't overflow it
/// (the headless path uses the same cap).
pub fn name_list(names: &Vec<String>) -> (r: String)
    ensures
        r@ == name_lines(models(names@)),
{
    if names.len() > NAMES_SHOWN {
        let mut s = join_first(names, NAMES_SHOWN, "\n");
        s.append("\n\u{2026}and ");
        push_decimal(&mut s, (names.len() - NAMES_SHOWN) as u64);
        s.append(" more");
        s
    } else {
        join(names, "\n")
    }
}

/// A name and what went wrong with it.
pub struct FailureModel {
    pub name: Seq<char>,
    pub error: Seq<char>,
}

/// The name of a file and what went wrong with it.
#[derive(PartialEq, Eq, Debug)]
pub struct Failure {
    pub name: String,
    pub error: String,
}

impl View for Failure {
    type V = FailureModel;

    open spec fn view(&self) -> FailureModel {
        FailureModel { name: self.name@, error: self.error@ }
    }
}

/// A bulleted line per failure.
pub open spec fn failure_lines(failures: Seq<FailureModel>) -> Seq<char>
    decreases failures.len(),
{
    if failures.len() == 0 {
        seq![]
    } else {
        failure_lines(failures.drop_last()) + "\u{2022} "@ + failures.last().name + ": "@
            + failures.last().error + "\n"@
    }
}

/// What a headless run that failed says: the intro, at most ten of the
/// failures, and how many more there are.
pub open spec fn failure_text(intro: Seq<char>, failures: Seq<FailureModel>) -> Seq<char> {
    if failures.len() > NAMES_SHOWN {
        intro + "\n\n"@ + failure_lines(failures.take(NAMES_SHOWN as int)) + "\u{2026}and "@
            + decimal((failures.len() - NAMES_SHOWN) as nat) + " more.\n"@
    } else {
        intro + "\n\n"@ + failure_lines(failures)
    }
}

/// A headless run's per-file failures (capped at ten), as its dialog shows
/// them.
pub fn failure_message(intro: &str, failures: &Vec<Failure>) -> (r: String)
    ensures
        r@ == failure_text(intro@, models(failures@)),
{
    let ghost m = models(failures@);
    let mut s = String::from_str(intro);
    s.append("\n\n");
    let n: usize = if failures.len() > NAMES_SHOWN {
        NAMES_SHOWN
    } else {
        failures.len()
    };
    let mut i: usize = 0;
    assert(s@ =~= intro@ + "\n\n"@ + failure_lines(m.take(0)));
    while i < n
        invariant
            i <= n <= failures.len(),
            m == models(failures@),
            s@ == intro@ + "\n\n"@ + failure_lines(m.take(i as int)),
        decreases n - i,
    {
        assert(m[i as int] == failures[i as int]@);
        assert(m.take(i + 1).drop_last() =~= m.take(i as int));
        s.append("\u{2022} ");
        s.append(failures[i].name.as_str());
        s.append(": ");
        s.append(failures[i].error.as_str());
        s.append("\n");
        assert(s@ =~= intro@ + "\n\n"@ + failure_lines(m.take(i + 1)));
        i += 1;
    }
    if failures.len() > NAMES_SHOWN {
        s.append("\u{2026}and ");
        push_decimal(&mut s, (failures.len() - NAMES_SHOWN) as u64);
        s.append(" more.\n");
        assert(s@ =~= failure_text(intro@, m));
    } else {
        assert(m.take(n as int) =~= m);
    }
    s
}

/// The text with a bar for every line break, so that it fits one line.
pub open spec fn on_one_line(text: Seq<char>) -> Seq<char>
    decreases text.len(),
{
    if text.len() == 0 {
        seq![]
    } else if text.last() == '\n' {
        on_one_line(text.drop_last()) + " | "@
    } else {
        on_one_line(text.drop_last()).push(text.last())
    }
}

/// The line of the log for a headless run that failed.
pub open spec fn failure_entry(title: Seq<char>, count: nat, message: Seq<char>) -> Seq<char> {
    "FAIL "@ + title + ": "@ + decimal(count) + " failure(s): "@ + on_one_line(message)
}

/// The line of the log for a headless run that failed.
pub fn failure_log_line(title: &str, count: usize, message: &str) -> (r: String)
    ensures
        r@ == failure_entry(title@, count as nat, message@),
{
    let mut s = String::from_str("FAIL ");
    s.append(title);
    s.append(": ");
    push_decimal(&mut s, count as u64);
    s.append(" failure(s): ");
    let ghost head = s@;
    let text = crate::text::chars_of(message);
    let mut i: usize = 0;
    assert(s@ =~= head + on_one_line(message@.take(0)));
    while i < text.len()
        invariant
            i <= text.len(),
            text@ == message@,
            s@ == head + on_one_line(message@.take(i as int)),
        decreases text.len() - i,
    {
        assert(message@.take(i + 1).drop_last() =~= message@.take(i as int));
        if text[i] == '\n' {
            s.append(" | ");
        } else {
            s.push(text[i]);
        }
        assert(s@ =~= head + on_one_line(message@.take(i + 1)));
        i += 1;
    }
    assert(message@.take(i as int) =~= message@);
    s
}

/// No dialog lists more than ten names: an eleventh line only counts the rest.
pub proof fn name_lists_are_capped(names: Seq<Seq<char>>)
    requires
        forall|i: int| 0 <= i < names.len() ==> !(#[trigger] names[i]).contains('\n'),
    ensures
        breaks(name_lines(names)) <= NAMES_SHOWN,
{
    reveal_strlit("\n");
    reveal_strlit("\n\u{2026}and ");
    reveal_strlit(" more");
    if names.len() > NAMES_SHOWN {
        let shown = names.take(NAMES_SHOWN as int);
        assert forall|i: int| 0 <= i < shown.len() implies !(#[trigger] shown[i]).contains('\n') by {
            assert(shown[i] == names[i]);
        }
        lemma_joined_breaks(shown);
        let a = joined(shown, "\n"@);
        let b = a + "\n\u{2026}and "@;
        let c = b + decimal((names.len() - NAMES_SHOWN) as nat);
        lemma_breaks_add(a, "\n\u{2026}and "@);
        lemma_one_break("\n\u{2026}and "@);
        lemma_breaks_add(b, decimal((names.len() - NAMES_SHOWN) as nat));
        lemma_decimal_breaks((names.len() - NAMES_SHOWN) as nat);
        lemma_breaks_add(c, " more"@);
        lemma_no_break(" more"@);
    } else {
        lemma_joined_breaks(names);
    }
}

/// How many line breaks a text has.
pub open spec fn breaks(text: Seq<char>) -> nat
    decreases text.len(),
{
    if text.len() == 0 {
        0
    } else {
        breaks(text.drop_last()) + if text.last() == '\n' {
            1nat
        } else {
            0nat
        }
    }
}

proof fn lemma_breaks_add(a: Seq<char>, b: Seq<char>)
    ensures
        breaks(a + b) == breaks(a) + breaks(b),
    decreases b.len(),
{
    if b.len() == 0 {
        assert(a + b =~= a);
    } else {
        assert((a + b).drop_last() =~= a + b.drop_last());
        lemma_breaks_add(a, b.drop_last());
    }
}

proof fn lemma_no_break(text: Seq<char>)
    requires
        !text.contains('\n'),
    ensures
        breaks(text) == 0,
    decreases text.len(),
{
    if text.len() > 0 {
        assert forall|i: int| 0 <= i < text.drop_last().len() implies text.drop_last()[i] != '\n' by {
            assert(text[i] != '\n');
        }
        assert(text[text.len() - 1] != '\n');
        lemma_no_break(text.drop_last());
    }
}

proof fn lemma_one_break(text: Seq<char>)
    requires
        text.len() > 0,
        text[0] == '\n',
        forall|i: int| 1 <= i < text.len() ==> text[i] != '\n',
    ensures
        breaks(text) == 1,
    decreases text.len(),
{
    if text.len() == 1 {
        assert(breaks(text.drop_last()) == 0);
    } else {
        lemma_one_break(text.drop_last());
    }
}

proof fn lemma_decimal_breaks(n: nat)
    ensures
        breaks(decimal(n)) == 0,
    decreases n,
{
    let d = decimal(n);
    if n >= 10 {
        lemma_decimal_breaks(n / 10);
        assert(d.drop_last() =~= decimal(n / 10));
    } else {
        assert(breaks(d.drop_last()) == 0);
    }
    assert(d.last() == crate::text::digit((n % 10) as int));
}

proof fn lemma_joined_breaks(names: Seq<Seq<char>>)
    requires
        forall|i: int| 0 <= i < names.len() ==> !(#[trigger] names[i]).contains('\n'),
    ensures
        names.len() > 0 ==> breaks(joined(names, "\n"@)) == names.len() - 1,
        names.len() == 0 ==> breaks(joined(names, "\n"@)) == 0,
    decreases names.len(),
{
    reveal_strlit("\n");
    if names.len() == 1 {
        lemma_no_break(names[0]);
    } else if names.len() > 1 {
        let rest = names.drop_last();
        assert forall|i: int| 0 <= i < rest.len() implies !(#[trigger] rest[i]).contains('\n') by {
            assert(rest[i] == names[i]);
        }
        lemma_joined_breaks(rest);
        let a = joined(rest, "\n"@);
        lemma_breaks_add(a, "\n"@);
        lemma_one_break("\n"@);
        lemma_breaks_add(a + "\n"@, names.last());
        assert(!names[names.len() - 1].contains('\n'));
        lemma_no_break(names.last());
    }
}

/// Nothing joined is empty, one text joined is that text, and one more text is joined
/// behind a separator.
pub proof fn texts_are_joined_one_by_one(
    texts: &Vec<String>,
    more: &Vec<String>,
    separator: &str,
    r: String,
    s: String,
)
    requires
        call_ensures(join, (texts, separator), r),
        call_ensures(join, (more, separator), s),
        more.len() == texts.len() + 1,
        forall|i: int| 0 <= i < texts.len() ==> (#[trigger] more[i])@ == texts[i]@,
    ensures
        texts.len() == 0 ==> r@.len() == 0 && s@ == more[0]@,
        texts.len() > 0 ==> s@ == r@ + separator@ + more[texts.len() as int]@,
{
    let m = models(more@);
    assert(m.len() == more.len());
    assert(m.drop_last() =~= models(texts@));
    assert(m.last() == more[texts.len() as int]@);
}

/// Up to ten names are listed in full, one to a line. Of more, the first ten are, and
/// a last line says how many more there are.
pub proof fn ten_names_are_listed(
    names: &Vec<String>,
    first: &Vec<String>,
    r: String,
    s: String,
)
    requires
        call_ensures(name_list, (names,), r),
        call_ensures(join, (first, "\n"), s),
        first.len() == if names.len() < 10 {
            names.len() as int
        } else {
            10
        },
        forall|i: int| 0 <= i < first.len() ==> (#[trigger] first[i])@ == names[i]@,
    ensures
        names.len() <= 10 ==> r@ == s@,
        names.len() > 10 ==> r@ == s@ + "\n\u{2026}and "@ + decimal((names.len() - 10) as nat)
            + " more"@,
{
    let m = models(names@);
    assert(m.len() == names.len());
    if names.len() > 10 {
        assert(m.take(10) =~= models(first@));
    } else {
        assert(m =~= models(first@));
    }
}

/// Errors are shown as errors and the rest as information; only a message about a
/// file offers to show one. Title and detail are what was given.
pub proof fn dialogs_say_what_they_are_given(
    title: String,
    detail: String,
    path: String,
    error: Dialog,
    info: Dialog,
    at: Dialog,
)
    requires
        call_ensures(show_error, (title, detail), error),
        call_ensures(show_info, (title, detail), info),
        call_ensures(show_info_at, (title, detail, path), at),
    ensures
        error.title@ == title@ && error.detail@ == detail@ && !error.info && error.reveal@.len()
            == 0,
        info.title@ == title@ && info.detail@ == detail@ && info.info && info.reveal@.len() == 0,
        at.title@ == title@ && at.detail@ == detail@ && at.info && at.reveal@ == path@,
{
    assert(error@.title == error.title@ && error@.detail == error.detail@);
    assert(error@.info == error.info && error@.reveal == error.reveal@);
    assert(info@.title == info.title@ && info@.detail == info.detail@);
    assert(info@.info == info.info && info@.reveal == info.reveal@);
    assert(at@.title == at.title@ && at@.detail == at.detail@);
    assert(at@.info == at.info && at@.reveal == at.reveal@);
}

/// A headless run's failures follow its intro, a bulleted line for each of the first
/// ten; of more, a last line says how many more there are.
pub proof fn each_failure_has_a_line(
    intro: &str,
    failures: &Vec<Failure>,
    more: &Vec<Failure>,
    r: String,
    s: String,
)
    requires
        call_ensures(failure_message, (intro, failures), r),
        call_ensures(failure_message, (intro, more), s),
        more.len() == failures.len() + 1,
        forall|i: int| 0 <= i < failures.len() ==> (#[trigger] more[i])@ == failures[i]@,
    ensures
        failures.len() == 0 ==> r@ == intro@ + "\n\n"@,
        failures.len() < 10 ==> s@ == r@ + "\u{2022} "@ + more[failures.len() as int].name@ + ": "@
            + more[failures.len() as int].error@ + "\n"@,
        failures.len() == 10 ==> s@ == r@ + "\u{2026}and "@ + decimal(1) + " more.\n"@,
        failures.len() >= 10 ==> exists|start: Seq<char>|
            s@ == #[trigger] (start + "\u{2026}and "@) + decimal((more.len() - 10) as nat)
                + " more.\n"@ && begins_with(start, intro@),
{
    let a = models(failures@);
    let b = models(more@);
    assert(a.len() == failures.len() && b.len() == more.len());
    assert(b.drop_last() =~= a);
    assert(b.last() == more[failures.len() as int]@);
    if failures.len() == 0 {
        assert(failure_lines(a) =~= seq![]);
        assert(r@ =~= intro@ + "\n\n"@);
    }
    if failures.len() < 10 {
        assert(s@ =~= r@ + "\u{2022} "@ + more[failures.len() as int].name@ + ": "@
            + more[failures.len() as int].error@ + "\n"@);
    }
    if failures.len() == 10 {
        assert(b.take(10) =~= a);
    }
    if failures.len() >= 10 {
        let start = intro@ + "\n\n"@ + failure_lines(b.take(10));
        assert(start.take(intro@.len() as int) =~= intro@);
        assert(s@ == (start + "\u{2026}and "@) + decimal((more.len() - 10) as nat)
            + " more.\n"@);
    }
}

/// A line of the log holds no line break: each of the message's is a bar between two
/// blanks, and every other character stays.
pub proof fn a_message_is_logged_on_one_line(text: Seq<char>, c: char)
    ensures
        !on_one_line(text).contains('\n'),
        !text.contains('\n') ==> on_one_line(text) == text,
        on_one_line(seq![]) == Seq::<char>::empty(),
        c == '\n' ==> on_one_line(text.push(c)) == on_one_line(text) + seq![' ', '|', ' '],
        c != '\n' ==> on_one_line(text.push(c)) == on_one_line(text).push(c),
    decreases text.len(),
{
    reveal_strlit(" | ");
    assert(" | "@ =~= seq![' ', '|', ' ']);
    assert(text.push(c).drop_last() =~= text);
    if text.len() > 0 {
        let less = text.drop_last();
        a_message_is_logged_on_one_line(less, c);
        if on_one_line(text).contains('\n') {
            let k = on_one_line(text).index_of('\n');
            if k < on_one_line(less).len() {
                assert(on_one_line(less)[k] == '\n');
            }
        }
        if !text.contains('\n') {
            if less.contains('\n') {
                let k = less.index_of('\n');
                assert(text[k] == '\n');
            }
            assert(text[text.len() - 1] == text.last());
            assert(on_one_line(text) =~= text);
        }
    } else {
        assert(on_one_line(text) =~= text);
    }
}

/// The line of the log for a run that failed names the run and counts its failures,
/// and holds the message on one line.
pub proof fn a_failure_is_logged_with_its_count(
    title: &str,
    count: usize,
    message: &str,
    r: String,
)
    requires
        call_ensures(failure_log_line, (title, count, message), r),
    ensures
        r@ == "FAIL "@ + title@ + ": "@ + decimal(count as nat) + " failure(s): "@ + on_one_line(
            message@,
        ),
{
}

} // verus!
