//! Coalesce the processes Explorer launches for a multi-item selection into ONE
//! batch.
//!
//! A classic static context-menu verb is invoked once per selected item. Every
//! launched process spools its paths into a shared per-group directory and races
//! for a lock file. The winner (the *leader*) waits until new arrivals go quiet,
//! claims every spooled path and runs the batch; the losers (*followers*) exit
//! immediately. Explorer starts the processes in a quick burst, so a few hundred
//! milliseconds of quiet closes the batch. What the files are called, what they
//! hold and what to do next is decided here; the files are the caller's. Times
//! are in nanoseconds.

use crate::dialogs::{join, joined};
use crate::order::{listed, models, sort_distinct};
use crate::paths::{extension_of, FilePath, PathModel};
use crate::text::{
    all_hex, begins_with, chars_of, code, concat, decimal, find_from, first_place, hex,
    hex_number, parse_hex, push_decimal, push_hex, push_long, starts_with, text_between,
};
use crate::utf16::{decode, decoded, encode, encoded};
use std::collections::hash_map::DefaultHasher;
use std::hash::{BuildHasher, BuildHasherDefault};
use vstd::arithmetic::power::pow;
use vstd::prelude::*;

verus! {

/// What this process should do after the rendezvous.
#[derive(Debug, PartialEq, Eq)]
pub enum Role {
    /// Run the batch over these paths — this process' own plus everything the
    /// followers spooled. Empty when another leader already claimed them all.
    Leader(Vec<FilePath>),
    /// Another process is leading and has this one's paths — exit.
    Follower,
}

/// What a process should do after the rendezvous.
pub enum RoleModel {
    Leader(Seq<PathModel>),
    Follower,
}

impl View for Role {
    type V = RoleModel;

    open spec fn view(&self) -> RoleModel {
        match self {
            Role::Leader(paths) => RoleModel::Leader(models(paths@)),
            Role::Follower => RoleModel::Follower,
        }
    }
}

/// Arrivals must be quiet for this long before the leader closes the batch —
/// once a SECOND arrival has shown up. A lone arrival only waits
/// [`FIRST_ARRIVAL_GRACE`]: a single-file right-click shouldn't pay the full
/// window.
pub const QUIET: u64 = 600_000_000;

pub const FIRST_ARRIVAL_GRACE: u64 = 250_000_000;

/// A lock or spool entry older than this is debris from a crashed run.
pub const STALE: u64 = 30_000_000_000;

// ---------------------------------------------------------------------------
// Names
// ---------------------------------------------------------------------------

/// The hash of a group's name.
pub uninterp spec fn group_hash(group: Seq<char>) -> u64;

/// `std::hash::BuildHasher::hash_one` with a `DefaultHasher`, all of whose
/// instances are the same: the same text has the same hash. Which hash a text
/// has is left unsaid.
#[verifier::external_body]
fn hash_of(group: &str) -> (r: u64)
    ensures
        r == group_hash(group@),
{
    BuildHasherDefault::<DefaultHasher>::default().hash_one(group)
}

/// The directory name of a group with that hash.
pub open spec fn directory_of(hash: u64) -> Seq<char> {
    hex(hash as nat, 16)
}

/// The directory name of a group with that hash.
pub fn hash_dir(hash: u64) -> (r: String)
    ensures
        r@ == directory_of(hash),
{
    let mut s = String::new();
    push_hex(&mut s, hash, 16);
    assert(s@ =~= directory_of(hash));
    s
}

/// Filesystem-safe directory name for a group (groups are free text).
pub fn group_dir(group: &str) -> (r: String)
    ensures
        r@ == directory_of(group_hash(group@)),
{
    hash_dir(hash_of(group))
}

/// The name of a spool entry, less its extension: one of a process' own.
pub open spec fn entry_stem(pid: nat, sequence: nat, nanos: nat) -> Seq<char> {
    decimal(pid) + "-"@ + decimal(sequence) + "-"@ + decimal(nanos)
}

/// The names of a spool entry: it is written under the first and renamed into
/// the second, so a half-written entry is never claimed.
pub struct EntryNames {
    pub temporary: String,
    pub entry: String,
}

/// The names of a new spool entry.
pub fn entry_names(pid: u32, sequence: u64, nanos: u128) -> (r: EntryNames)
    ensures
        r.temporary@ == entry_stem(pid as nat, sequence as nat, nanos as nat) + ".tmp"@,
        r.entry@ == entry_stem(pid as nat, sequence as nat, nanos as nat) + ".paths"@,
{
    let mut stem = String::new();
    push_decimal(&mut stem, pid as u64);
    stem.append("-");
    push_decimal(&mut stem, sequence);
    stem.append("-");
    push_long(&mut stem, nanos);
    assert(stem@ =~= entry_stem(pid as nat, sequence as nat, nanos as nat));
    EntryNames {
        temporary: concat(stem.as_str(), ".tmp"),
        entry: concat(stem.as_str(), ".paths"),
    }
}

/// The name of a directory for what this process claims, or of a lock that it
/// retires: `claim-…` or `stale-…`.
pub fn own_name(kind: &str, pid: u32, sequence: u64) -> (r: String)
    ensures
        r@ == kind@ + "-"@ + decimal(pid as nat) + "-"@ + decimal(sequence as nat),
{
    let mut s = String::from_str(kind);
    s.append("-");
    push_decimal(&mut s, pid as u64);
    s.append("-");
    push_decimal(&mut s, sequence);
    s
}

/// Whether a path is a spool entry's.
pub open spec fn spool_entry(path: PathModel) -> bool {
    extension_of(path) == Some("paths"@)
}

/// Whether a path is a spool entry's.
pub fn is_spool_entry(path: &FilePath) -> (r: bool)
    ensures
        r == spool_entry(path@),
{
    match path.extension() {
        Some(extension) => extension == String::from_str("paths"),
        None => false,
    }
}

// ---------------------------------------------------------------------------
// What a spool entry holds
// ---------------------------------------------------------------------------

/// Units as hexadecimal digits, four to a unit.
pub open spec fn hexes(units: Seq<u16>) -> Seq<char>
    decreases units.len(),
{
    if units.len() == 0 {
        seq![]
    } else {
        hexes(units.drop_last()) + hex(units.last() as nat, 4)
    }
}

/// The line of a path, given as the UTF-16 units of its text.
pub open spec fn line_of(path: Seq<u16>) -> Seq<char> {
    match decoded(path) {
        Some(text) => if text.len() > 0 && text[0] == '#' {
            "#u:"@ + text
        } else {
            text
        },
        None => "#w:"@ + hexes(path),
    }
}

/// One spool line per path. Valid-Unicode paths go verbatim (Windows forbids
/// control characters in paths, so a line break can't occur inside one; a
/// leading `#` is escaped as `#u:`). A path that is NOT valid Unicode — an
/// unpaired surrogate in an NTFS name — is written as `#w:` and its UTF-16 units
/// in hex, so the leader converts exactly the file the user clicked instead of a
/// lossy look-alike that doesn't exist.
pub fn encode_path(path: &Vec<u16>) -> (r: String)
    ensures
        r@ == line_of(path@),
{
    match decode(path) {
        Some(text) => {
            let t = chars_of(text.as_str());
            if t.len() > 0 && t[0] == '#' {
                concat("#u:", text.as_str())
            } else {
                text
            }
        },
        None => {
            let mut s = String::from_str("#w:");
            let mut i: usize = 0;
            assert(s@ =~= "#w:"@ + hexes(path@.take(0)));
            while i < path.len()
                invariant
                    i <= path.len(),
                    s@ == "#w:"@ + hexes(path@.take(i as int)),
                decreases path.len() - i,
            {
                assert(path@.take(i + 1).drop_last() =~= path@.take(i as int));
                push_hex(&mut s, path[i] as u64, 4);
                assert(s@ =~= "#w:"@ + hexes(path@.take(i + 1)));
                i += 1;
            }
            assert(path@.take(i as int) =~= path@);
            s
        },
    }
}

/// How many bytes a character takes in UTF-8.
pub open spec fn bytes_of(c: char) -> int {
    let n = c as int;
    if n < 0x80 {
        1
    } else if n < 0x800 {
        2
    } else if n < 0x10000 {
        3
    } else {
        4
    }
}

/// How many characters make up the next `bytes` bytes; one more than there are
/// where they do not.
pub open spec fn chunk(text: Seq<char>, bytes: int) -> int
    decreases text.len(),
{
    if bytes <= 0 {
        0
    } else if text.len() == 0 {
        1
    } else {
        1 + chunk(text.skip(1), bytes - bytes_of(text[0]))
    }
}

/// The unit that four bytes of text stand for: hexadecimal digits, of which the
/// first may be a plus sign.
pub open spec fn unit_of(group: Seq<char>) -> Option<u16> {
    if group.len() != 4 {
        None
    } else if all_hex(group) {
        Some(hex_number(group) as u16)
    } else if group[0] == '+' && all_hex(group.skip(1)) {
        Some(hex_number(group.skip(1)) as u16)
    } else {
        None
    }
}

/// The units that a text stands for, four bytes to a unit. What is no unit is
/// left out.
pub open spec fn units_in(text: Seq<char>) -> Seq<u16>
    decreases text.len(),
{
    let n = chunk(text, 4);
    if n <= 0 || n > text.len() {
        seq![]
    } else {
        (match unit_of(text.take(n)) {
            Some(unit) => seq![unit],
            None => seq![],
        }) + units_in(text.skip(n))
    }
}

/// The path that a line stands for.
pub open spec fn path_of(line: Seq<char>) -> Seq<u16> {
    if begins_with(line, "#u:"@) {
        encoded(line.skip(3))
    } else if begins_with(line, "#w:"@) {
        units_in(line.skip(3))
    } else {
        encoded(line)
    }
}

fn byte_count(c: char) -> (r: usize)
    ensures
        r == bytes_of(c),
        1 <= r <= 4,
{
    let n: u32 = code(c);
    if n < 0x80 {
        1
    } else if n < 0x800 {
        2
    } else if n < 0x10000 {
        3
    } else {
        4
    }
}

/// The unit that the four characters from `start` on stand for.
fn read_unit(text: &Vec<char>, start: usize) -> (r: Option<u16>)
    requires
        start + 4 <= text.len(),
    ensures
        r == unit_of(text@.subrange(start as int, start + 4)),
{
    let ghost group = text@.subrange(start as int, start + 4);
    assert(text@.subrange(start + 1, start + 4) =~= group.skip(1));
    assert(group[0] == text[start as int]);
    proof {
        lemma_small(group);
        lemma_small(group.skip(1));
    }
    match parse_hex(text, start, 4) {
        Some(n) => Some(n as u16),
        None => if text[start] == '+' {
            match parse_hex(text, start + 1, 3) {
                Some(n) => Some(n as u16),
                None => None,
            }
        } else {
            None
        },
    }
}

/// Four hexadecimal digits make up no more than a unit.
proof fn lemma_small(digits: Seq<char>)
    requires
        digits.len() <= 4,
    ensures
        all_hex(digits) ==> hex_number(digits) < 65536,
{
    if all_hex(digits) {
        lemma_below(digits);
        assert(pow(16, digits.len()) <= 65536) by {
            reveal(pow);
            reveal_with_fuel(pow, 5);
        }
    }
}

proof fn lemma_below(digits: Seq<char>)
    requires
        all_hex(digits),
    ensures
        hex_number(digits) < pow(16, digits.len()),
    decreases digits.len(),
{
    reveal(pow);
    if digits.len() > 0 {
        let rest = digits.drop_last();
        assert forall|i: int| 0 <= i < rest.len() implies crate::text::hex_value(
            #[trigger] rest[i],
        ) >= 0 by {
            assert(rest[i] == digits[i]);
        }
        lemma_below(rest);
        assert(crate::text::hex_value(digits[digits.len() - 1]) < 16);
    }
}

fn read_units(text: &Vec<char>, start: usize) -> (r: Vec<u16>)
    requires
        start <= text.len(),
    ensures
        r@ == units_in(text@.skip(start as int)),
{
    let mut r: Vec<u16> = Vec::new();
    let mut at: usize = start;
    let ghost all = text@.skip(start as int);
    loop
        invariant
            start <= at <= text.len(),
            all == text@.skip(start as int),
            units_in(all) =~= r@ + units_in(text@.skip(at as int)),
        ensures
            r@ == units_in(all),
        decreases text.len() - at,
    {
        let ghost rest = text@.skip(at as int);
        // How far the next four bytes reach.
        let mut end: usize = at;
        let mut bytes: usize = 0;
        assert(rest.skip(0) =~= rest);
        while end < text.len() && bytes < 4
            invariant
                at <= end <= text.len(),
                rest == text@.skip(at as int),
                bytes <= 8,
                end - at <= bytes,
                end == at ==> bytes == 0,
                chunk(rest, 4) == (end - at) + chunk(rest.skip(end - at), 4 - bytes),
            decreases text.len() - end,
        {
            assert(rest.skip(end - at)[0] == text[end as int]);
            assert(rest.skip(end - at).skip(1) =~= rest.skip(end - at + 1));
            bytes = bytes + byte_count(text[end]);
            end += 1;
        }
        if bytes < 4 {
            assert(rest.skip(end - at).len() == 0);
            assert(chunk(rest, 4) > rest.len());
            assert(r@ =~= units_in(all));
            break;
        }
        let ghost n = end - at;
        let ghost r0 = r@;
        assert(chunk(rest, 4) == n);
        assert(rest.take(n) =~= text@.subrange(at as int, end as int));
        assert(rest.skip(n) =~= text@.skip(end as int));
        if end - at == 4 {
            if let Some(unit) = read_unit(text, at) {
                r.push(unit);
            }
        }
        assert(r@ + units_in(text@.skip(end as int)) =~= r0 + units_in(rest));
        at = end;
    }
    r
}

/// The path that a line stands for, as the UTF-16 units of its text.
pub fn decode_path(line: &str) -> (r: Vec<u16>)
    ensures
        r@ == path_of(line@),
{
    proof {
        reveal_strlit("#u:");
        reveal_strlit("#w:");
    }
    let t = chars_of(line);
    if starts_with(line, "#u:") {
        let rest = text_between(&t, 3, t.len());
        assert(t@.subrange(3, t.len() as int) =~= t@.skip(3));
        return encode(rest.as_str());
    }
    if starts_with(line, "#w:") {
        return read_units(&t, 3);
    }
    encode(line)
}

/// The lines of paths.
pub open spec fn lines_for(paths: Seq<Seq<u16>>) -> Seq<Seq<char>> {
    paths.map_values(|p: Seq<u16>| line_of(p))
}

/// What a spool entry for paths holds: a line for each.
pub fn spool_body(paths: &Vec<Vec<u16>>) -> (r: String)
    ensures
        r@ == joined(lines_for(models(paths@)), "\n"@),
{
    let mut lines: Vec<String> = Vec::new();
    let mut i: usize = 0;
    while i < paths.len()
        invariant
            i <= paths.len(),
            lines.len() == i,
            forall|j: int| 0 <= j < i ==> (#[trigger] lines@[j])@ == line_of(paths@[j]@),
        decreases paths.len() - i,
    {
        lines.push(encode_path(&paths[i]));
        i += 1;
    }
    assert(models(lines@) =~= lines_for(models(paths@)));
    join(&lines, "\n")
}

/// A line without the carriage return before its break.
pub open spec fn without_return(line: Seq<char>) -> Seq<char> {
    if line.len() > 0 && line.last() == '\r' {
        line.drop_last()
    } else {
        line
    }
}

/// The lines of a text. The break of the last one is optional.
pub open spec fn lines_of(body: Seq<char>) -> Seq<Seq<char>>
    decreases body.len(),
    via lines_of_decreases
{
    let n = first_place(body, '\n');
    if body.len() == 0 {
        seq![]
    } else if n >= body.len() {
        seq![body]
    } else {
        seq![without_return(body.take(n))] + lines_of(body.skip(n + 1))
    }
}

#[via_fn]
proof fn lines_of_decreases(body: Seq<char>) {
    lemma_first(body);
}

proof fn lemma_first(text: Seq<char>)
    ensures
        0 <= first_place(text, '\n') <= text.len(),
        first_place(text, '\n') < text.len() ==> text[first_place(text, '\n')] == '\n',
        forall|i: int| 0 <= i < first_place(text, '\n') ==> text[i] != '\n',
    decreases text.len(),
{
    if text.len() > 0 {
        let rest = text.drop_first();
        lemma_first(rest);
        assert forall|i: int| 0 <= i < first_place(text, '\n') implies text[i] != '\n' by {
            if i > 0 {
                assert(rest[i - 1] == text[i]);
            }
        }
    }
}

/// The paths of the lines that are not empty.
pub open spec fn paths_in(lines: Seq<Seq<char>>) -> Seq<Seq<u16>>
    decreases lines.len(),
{
    if lines.len() == 0 {
        seq![]
    } else {
        (if lines[0].len() == 0 {
            seq![]
        } else {
            seq![path_of(lines[0])]
        }) + paths_in(lines.skip(1))
    }
}

/// The paths that a spool entry holds, as the UTF-16 units of their texts.
pub fn read_spool(body: &str) -> (r: Vec<Vec<u16>>)
    ensures
        models(r@) == paths_in(lines_of(body@)),
{
    let t = chars_of(body);
    let mut r: Vec<Vec<u16>> = Vec::new();
    let mut at: usize = 0;
    assert(t@.skip(0) =~= t@);
    assert(models(r@) + paths_in(lines_of(t@)) =~= paths_in(lines_of(t@)));
    while at < t.len()
        invariant
            at <= t.len(),
            t@ == body@,
            models(r@) + paths_in(lines_of(t@.skip(at as int))) == paths_in(lines_of(body@)),
        decreases t.len() - at,
    {
        let ghost rest = t@.skip(at as int);
        let ghost r0 = models(r@);
        let end: usize = find_from(&t, at, '\n');
        let stop: usize = if end < t.len() && end > at && t[end - 1] == '\r' {
            end - 1
        } else {
            end
        };
        let line = text_between(&t, at, stop);
        let ghost lines = lines_of(rest);
        proof {
            let n = end - at;
            if end < t.len() {
                assert(rest.take(n) =~= t@.subrange(at as int, end as int));
                if end > at {
                    assert(rest.take(n).last() == t[end - 1]);
                }
                assert(line@ =~= without_return(rest.take(n)));
                assert(rest.skip(n + 1) =~= t@.skip(end + 1));
                assert(lines.skip(1) =~= lines_of(t@.skip(end + 1)));
            } else {
                assert(line@ =~= rest);
                assert(lines.skip(1) =~= Seq::<Seq<char>>::empty());
                assert(t@.skip(end as int) =~= seq![]);
            }
            assert(lines[0] == line@);
        }
        if !line.as_str().is_empty() {
            let path = decode_path(line.as_str());
            let ghost p = path@;
            r.push(path);
            assert(models(r@) =~= r0.push(p));
        }
        at = if end < t.len() {
            end + 1
        } else {
            end
        };
        proof {
            let after = paths_in(lines.skip(1));
            assert(lines_of(t@.skip(at as int)) == lines.skip(1));
            assert(models(r@) + after =~= r0 + paths_in(lines));
        }
    }
    assert(lines_of(t@.skip(at as int)) =~= Seq::<Seq<char>>::empty());
    assert(models(r@) =~= paths_in(lines_of(body@)));
    r
}

// ---------------------------------------------------------------------------
// The race
// ---------------------------------------------------------------------------

/// What came of trying to create the lock.
#[derive(Clone, Copy, PartialEq, Eq, Structural, Debug)]
pub enum LockTry {
    /// It was created.
    Created,
    /// It is there already, this old where that is known.
    Held { age: Option<u64> },
    /// It could not be created for another reason.
    Failed,
}

/// What to do after a try.
#[derive(Clone, Copy, PartialEq, Eq, Structural, Debug)]
pub enum LockStep {
    Lead,
    Follow,
    /// Rename the lock away and try once more, whoever wins the rename.
    Retire,
}

/// Whether something so old is debris from a crashed run.
pub open spec fn stale(age: Option<u64>) -> bool {
    age matches Some(a) && a > STALE
}

/// Whether something so old is debris from a crashed run.
pub fn is_stale(age: Option<u64>) -> (r: bool)
    ensures
        r == stale(age),
{
    match age {
        Some(a) => a > STALE,
        None => false,
    }
}

/// What to do after a try, the first or the second.
pub open spec fn step_after(attempt: LockTry, second: bool) -> LockStep {
    match attempt {
        LockTry::Created => LockStep::Lead,
        LockTry::Held { age } => if stale(age) && !second {
            LockStep::Retire
        } else {
            LockStep::Follow
        },
        LockTry::Failed => LockStep::Lead,
    }
}

/// Try to become the leader. A lock left by a crashed leader is retired and the
/// race re-run once. Where the processes cannot coordinate at all it is better
/// to run alone than to drop the action.
pub fn lock_step(attempt: LockTry, second: bool) -> (r: LockStep)
    ensures
        r == step_after(attempt, second),
{
    match attempt {
        LockTry::Created => LockStep::Lead,
        LockTry::Held { age } => if is_stale(age) && !second {
            LockStep::Retire
        } else {
            LockStep::Follow
        },
        LockTry::Failed => LockStep::Lead,
    }
}

/// Whether the leader is still waiting for arrivals.
#[derive(Clone, Copy, PartialEq, Eq, Structural, Debug)]
pub struct Settling {
    pub started: u64,
    pub last_change: u64,
    pub seen: usize,
    pub quiet: u64,
}

/// How long a lone arrival waits.
pub open spec fn grace(quiet: u64) -> u64 {
    if quiet < FIRST_ARRIVAL_GRACE {
        quiet
    } else {
        FIRST_ARRIVAL_GRACE
    }
}

impl Settling {
    pub open spec fn wf(self) -> bool {
        self.started <= self.last_change
    }

    /// What is seen where there are `count` entries at `now`.
    pub open spec fn looked(self, now: u64, count: usize) -> Settling {
        if count != self.seen {
            Settling { seen: count, last_change: now, ..self }
        } else {
            self
        }
    }

    /// Whether the batch is closed at `now`: a lone arrival has waited out its
    /// grace, or nothing has arrived for the quiet window.
    pub open spec fn closed_at(self, now: u64) -> bool {
        ||| self.seen <= 1 && now - self.started >= grace(self.quiet)
        ||| now - self.last_change >= self.quiet
    }

    /// Begin to wait, with `count` entries there.
    pub fn new(now: u64, count: usize, quiet: u64) -> (r: Settling)
        ensures
            r.wf(),
            r == (Settling { started: now, last_change: now, seen: count, quiet }),
    {
        Settling { started: now, last_change: now, seen: count, quiet }
    }

    /// Let the burst settle: the clock restarts whenever a new entry lands. A
    /// lone arrival (still just our own entry after the grace period) goes
    /// straight ahead instead of waiting out the whole quiet window.
    pub fn look(&mut self, now: u64, count: usize) -> (closed: bool)
        requires
            old(self).wf(),
            old(self).last_change <= now,
        ensures
            final(self).wf(),
            *final(self) == old(self).looked(now, count),
            closed == final(self).closed_at(now),
    {
        if count != self.seen {
            self.seen = count;
            self.last_change = now;
        }
        let lone: u64 = if self.quiet < FIRST_ARRIVAL_GRACE {
            self.quiet
        } else {
            FIRST_ARRIVAL_GRACE
        };
        (self.seen <= 1 && now - self.started >= lone) || now - self.last_change >= self.quiet
    }
}

/// What to do with an entry of the group's directory.
#[derive(Clone, Copy, PartialEq, Eq, Structural, Debug)]
pub enum ClaimStep {
    /// It is no spool entry.
    Leave,
    /// It is debris of a crashed run: delete it, do not batch it.
    Delete,
    /// Rename it into the claim directory; whoever renames first owns it.
    Take,
}

/// What to do with an entry of the group's directory.
pub fn claim_step(path: &FilePath, age: Option<u64>) -> (r: ClaimStep)
    ensures
        r == if !spool_entry(path@) {
            ClaimStep::Leave
        } else if stale(age) {
            ClaimStep::Delete
        } else {
            ClaimStep::Take
        },
{
    if !is_spool_entry(path) {
        ClaimStep::Leave
    } else if is_stale(age) {
        ClaimStep::Delete
    } else {
        ClaimStep::Take
    }
}

/// The leader's batch: every path that was claimed, once, in order.
pub fn lead(claimed: &Vec<FilePath>) -> (r: Role)
    ensures
        r@ matches RoleModel::Leader(paths) && listed::<FilePath>(paths) && paths.to_set()
            == models(claimed@).to_set(),
{
    Role::Leader(sort_distinct(claimed))
}

/// Fold the processes of a selection into a single batch: the leader gets every
/// path, followers get `None` and should exit silently. `None` also when another
/// leader already claimed this process' paths.
pub fn coalesce(role: Role) -> (r: Option<Vec<FilePath>>)
    ensures
        match role@ {
            RoleModel::Leader(paths) => if paths.len() == 0 {
                r is None
            } else {
                r is Some && models(r->0@) == paths
            },
            RoleModel::Follower => r is None,
        },
{
    match role {
        Role::Follower => None,
        Role::Leader(all) => {
            assert(all.len() == models(all@).len());
            if all.len() == 0 {
                None
            } else {
                Some(all)
            }
        },
    }
}

/// The group of a preset: one group per preset, so two different presets never
/// merge.
pub fn preset_group(preset: &str) -> (r: String)
    ensures
        r@ == "preset:"@ + preset@,
{
    concat("preset:", preset)
}

// ---------------------------------------------------------------------------
// Laws
// ---------------------------------------------------------------------------

proof fn lemma_hex(n: nat, width: nat)
    requires
        n < pow(16, width),
    ensures
        hex(n, width).len() == width,
        all_hex(hex(n, width)),
        hex_number(hex(n, width)) == n,
    decreases width,
{
    reveal(pow);
    if width > 0 {
        let w = (width - 1) as nat;
        assert(n / 16 < pow(16, w));
        lemma_hex(n / 16, w);
        let rest = hex(n / 16, w);
        let all = hex(n, width);
        assert(all.drop_last() =~= rest);
        assert(crate::text::hex_value(all.last()) == n % 16);
        assert forall|i: int| 0 <= i < all.len() implies crate::text::hex_value(
            #[trigger] all[i],
        ) >= 0 by {
            if i < w {
                assert(all[i] == rest[i]);
            }
        }
    }
}

/// Groups with different hashes never share a directory.
pub proof fn directories_are_apart(a: u64, b: u64)
    requires
        a != b,
    ensures
        directory_of(a) != directory_of(b),
{
    assert(pow(16, 16) == 0x1_0000_0000_0000_0000) by {
        reveal(pow);
        reveal_with_fuel(pow, 17);
    }
    lemma_hex(a as nat, 16);
    lemma_hex(b as nat, 16);
}

/// Hexadecimal digits of units give the units back.
proof fn lemma_hexes(units: Seq<u16>, more: Seq<char>)
    ensures
        units_in(hexes(units) + more) == units + units_in(more),
    decreases units.len(),
{
    if units.len() == 0 {
        assert(hexes(units) + more =~= more);
        assert(units + units_in(more) =~= units_in(more));
    } else {
        let last = units.last();
        let digits = hex(last as nat, 4);
        let rest = units.drop_last();
        assert(hexes(units) + more =~= hexes(rest) + (digits + more));
        lemma_hexes(rest, digits + more);
        assert(pow(16, 4) == 65536) by {
            reveal(pow);
            reveal_with_fuel(pow, 5);
        }
        lemma_hex(last as nat, 4);
        let all = digits + more;
        assert(all.skip(1).skip(1) =~= all.skip(2));
        assert(all.skip(2).skip(1) =~= all.skip(3));
        assert(all.skip(3).skip(1) =~= all.skip(4));
        assert(all.skip(4) =~= more);
        assert forall|i: int| 0 <= i < 4 implies bytes_of(#[trigger] all[i]) == 1 by {
            assert(all[i] == digits[i]);
            assert(crate::text::hex_value(digits[i]) >= 0);
        }
        assert(all.skip(1)[0] == all[1] && all.skip(2)[0] == all[2] && all.skip(3)[0] == all[3]);
        assert(chunk(all.skip(3), 1) == 1 + chunk(all.skip(3).skip(1), 0));
        assert(chunk(all.skip(2), 2) == 2);
        assert(chunk(all.skip(1), 3) == 3);
        assert(chunk(all, 4) == 4);
        assert(all.take(4) =~= digits);
        assert(units_in(all) =~= seq![last] + units_in(more));
        assert(units =~= rest + seq![last]);
        assert(rest + (seq![last] + units_in(more)) =~= units + units_in(more));
    }
}

/// Every path survives its spool line, whether it is valid text or not.
pub proof fn a_path_round_trips(path: Seq<u16>)
    ensures
        path_of(line_of(path)) == path,
{
    reveal_strlit("#u:");
    reveal_strlit("#w:");
    let line = line_of(path);
    match decoded(path) {
        Some(text) => {
            crate::utf16::decoded_units_are_encoded(path);
            if text.len() > 0 && text[0] == '#' {
                assert(line.take(3) =~= "#u:"@);
                assert(line.skip(3) =~= text);
            } else {
                if begins_with(line, "#u:"@) {
                    assert(line.take(3)[0] == '#');
                }
                if begins_with(line, "#w:"@) {
                    assert(line.take(3)[0] == '#');
                }
            }
        },
        None => {
            assert(line.take(3) =~= "#w:"@);
            assert(line.take(3)[1] != "#u:"@[1]);
            assert(line.skip(3) =~= hexes(path));
            lemma_hexes(path, seq![]);
            assert(hexes(path) + Seq::<char>::empty() =~= hexes(path));
            assert(units_in(Seq::<char>::empty()) =~= seq![]);
            assert(path + Seq::<u16>::empty() =~= path);
        },
    }
}

/// A lock that another process holds is respected: it is followed, unless it is
/// old enough to be a crashed run's.
pub proof fn a_live_lock_is_respected(age: Option<u64>, second: bool)
    requires
        !stale(age),
    ensures
        step_after(LockTry::Held { age }, second) == LockStep::Follow,
{
}

/// A lock is retired at most once: after the second try the race is over.
pub proof fn the_race_ends(attempt: LockTry)
    ensures
        step_after(attempt, true) != LockStep::Retire,
{
}

/// A lone arrival does not wait the full quiet window.
pub proof fn a_lone_arrival_goes_ahead(s: Settling, now: u64)
    requires
        s.seen <= 1,
        now - s.started >= FIRST_ARRIVAL_GRACE,
    ensures
        s.closed_at(now),
{
}

/// A burst is not cut short: once a second entry is there, the batch stays open
/// until nothing has arrived for the quiet window.
pub proof fn a_burst_is_not_cut_short(s: Settling, now: u64, count: usize)
    requires
        count > 1,
        s.looked(now, count).closed_at(now),
        s.quiet > 0,
    ensures
        count == s.seen,
        now - s.last_change >= s.quiet,
{
}

/// Whether a line can stand in a spool entry: it is not empty, and no break is
/// in it.
pub open spec fn one_line(line: Seq<char>) -> bool {
    line.len() > 0 && !line.contains('\n') && !line.contains('\r')
}

/// Whether a path can be spooled: it is not empty, and no control character that
/// breaks lines is in it. Windows allows none in a path.
pub open spec fn spoolable(path: Seq<u16>) -> bool {
    path.len() > 0 && !path.contains(10u16) && !path.contains(13u16)
}

proof fn lemma_has_unit(text: Seq<char>, c: char)
    requires
        text.contains(c),
        (c as int) < 0x80,
    ensures
        encoded(text).contains(c as u16),
    decreases text.len(),
{
    let i = choose|i: int| 0 <= i < text.len() && text[i] == c;
    let rest = text.skip(1);
    let first = crate::utf16::units_of(text[0]);
    if i == 0 {
        assert(encoded(text)[0] == c as u16);
    } else {
        assert(rest[i - 1] == c);
        lemma_has_unit(rest, c);
        let k = choose|k: int| 0 <= k < encoded(rest).len() && encoded(rest)[k] == c as u16;
        assert(encoded(text)[first.len() + k] == c as u16);
    }
}

proof fn lemma_hexes_plain(units: Seq<u16>)
    ensures
        forall|i: int|
            0 <= i < hexes(units).len() ==> crate::text::hex_value(#[trigger] hexes(units)[i]) >= 0,
    decreases units.len(),
{
    if units.len() > 0 {
        let rest = units.drop_last();
        lemma_hexes_plain(rest);
        assert(pow(16, 4) == 65536) by {
            reveal(pow);
            reveal_with_fuel(pow, 5);
        }
        lemma_hex(units.last() as nat, 4);
        let digits = hex(units.last() as nat, 4);
        assert forall|i: int| 0 <= i < hexes(units).len() implies crate::text::hex_value(
            #[trigger] hexes(units)[i],
        ) >= 0 by {
            if i < hexes(rest).len() {
                assert(hexes(units)[i] == hexes(rest)[i]);
            } else {
                assert(hexes(units)[i] == digits[i - hexes(rest).len()]);
            }
        }
    }
}

proof fn lemma_line(path: Seq<u16>)
    requires
        spoolable(path),
    ensures
        one_line(line_of(path)),
{
    reveal_strlit("#u:");
    reveal_strlit("#w:");
    let line = line_of(path);
    crate::utf16::decoded_units_are_encoded(path);
    match decoded(path) {
        Some(text) => {
            if text.contains('\n') {
                lemma_has_unit(text, '\n');
            }
            if text.contains('\r') {
                lemma_has_unit(text, '\r');
            }
            let head: int = if text.len() > 0 && text[0] == '#' {
                3
            } else {
                0
            };
            assert forall|i: int| 0 <= i < line.len() implies line[i] != '\n' && line[i] != '\r' by {
                if i >= head {
                    assert(line[i] == text[i - head]);
                    assert(text.contains(text[i - head]));
                }
            }
        },
        None => {
            lemma_hexes_plain(path);
            assert forall|i: int| 0 <= i < line.len() implies line[i] != '\n' && line[i] != '\r' by {
                if i >= 3 {
                    assert(line[i] == hexes(path)[i - 3]);
                }
            }
        },
    }
}

proof fn lemma_joined_front(lines: Seq<Seq<char>>)
    requires
        lines.len() > 1,
    ensures
        joined(lines, "\n"@) == lines[0] + "\n"@ + joined(lines.skip(1), "\n"@),
    decreases lines.len(),
{
    let rest = lines.skip(1);
    if lines.len() == 2 {
        assert(lines.drop_last()[0] == lines[0]);
        assert(rest[0] == lines[1]);
        assert(joined(lines.drop_last(), "\n"@) == lines[0]);
        assert(joined(rest, "\n"@) == lines[1]);
    } else {
        lemma_joined_front(lines.drop_last());
        assert(lines.drop_last().skip(1) =~= rest.drop_last());
        assert(joined(lines, "\n"@) =~= lines[0] + "\n"@ + joined(rest, "\n"@));
    }
}

proof fn lemma_first_is(text: Seq<char>, n: int)
    requires
        0 <= n < text.len(),
        text[n] == '\n',
        forall|i: int| 0 <= i < n ==> text[i] != '\n',
    ensures
        first_place(text, '\n') == n,
{
    lemma_first(text);
    let k = first_place(text, '\n');
    if k < n {
        assert(text[k] != '\n');
    }
}

/// The lines of a spool entry are those that were written.
proof fn lemma_lines_back(lines: Seq<Seq<char>>)
    requires
        forall|i: int| 0 <= i < lines.len() ==> one_line(#[trigger] lines[i]),
    ensures
        lines_of(joined(lines, "\n"@)) == lines,
    decreases lines.len(),
{
    reveal_strlit("\n");
    let body = joined(lines, "\n"@);
    if lines.len() == 0 {
        assert(lines_of(body) =~= lines);
    } else if lines.len() == 1 {
        assert(one_line(lines[0]));
        lemma_first(body);
        if first_place(body, '\n') < body.len() {
            assert(body.contains(body[first_place(body, '\n')]));
        }
        assert(lines_of(body) =~= lines);
    } else {
        let first = lines[0];
        let rest = lines.skip(1);
        assert(one_line(first));
        lemma_joined_front(lines);
        let n = first.len() as int;
        assert(body[n] == '\n');
        assert forall|i: int| 0 <= i < n implies body[i] != '\n' by {
            assert(body[i] == first[i]);
            assert(first.contains(first[i]));
        }
        lemma_first_is(body, n);
        assert(body.take(n) =~= first);
        assert(first.contains(first.last()));
        assert(body.skip(n + 1) =~= joined(rest, "\n"@));
        assert forall|i: int| 0 <= i < rest.len() implies one_line(#[trigger] rest[i]) by {
            assert(rest[i] == lines[i + 1]);
        }
        lemma_lines_back(rest);
        assert(lines_of(body) =~= seq![first] + rest);
        assert(seq![first] + rest =~= lines);
    }
}

proof fn lemma_paths_back(paths: Seq<Seq<u16>>)
    requires
        forall|i: int| 0 <= i < paths.len() ==> spoolable(#[trigger] paths[i]),
    ensures
        paths_in(lines_for(paths)) == paths,
    decreases paths.len(),
{
    if paths.len() > 0 {
        let rest = paths.skip(1);
        assert(spoolable(paths[0]));
        lemma_line(paths[0]);
        a_path_round_trips(paths[0]);
        assert(lines_for(paths).skip(1) =~= lines_for(rest));
        assert forall|i: int| 0 <= i < rest.len() implies spoolable(#[trigger] rest[i]) by {
            assert(rest[i] == paths[i + 1]);
        }
        lemma_paths_back(rest);
        assert(lines_for(paths)[0] == line_of(paths[0]));
        assert(paths_in(lines_for(paths)) =~= paths);
    } else {
        assert(paths_in(lines_for(paths)) =~= paths);
    }
}

/// What one process spools, the leader reads back: every path, in order,
/// verbatim.
pub proof fn a_spool_entry_round_trips(paths: Seq<Seq<u16>>)
    requires
        forall|i: int| 0 <= i < paths.len() ==> spoolable(#[trigger] paths[i]),
    ensures
        paths_in(lines_of(joined(lines_for(paths), "\n"@))) == paths,
{
    let lines = lines_for(paths);
    assert forall|i: int| 0 <= i < lines.len() implies one_line(#[trigger] lines[i]) by {
        assert(spoolable(paths[i]));
        lemma_line(paths[i]);
    }
    lemma_lines_back(lines);
    lemma_paths_back(paths);
}

/// The directory of a group is named by sixteen hexadecimal digits, which read as the
/// group's hash.
pub proof fn a_directory_is_named_by_its_hash(hash: u64, r: String)
    requires
        call_ensures(hash_dir, (hash,), r),
    ensures
        r@.len() == 16,
        all_hex(r@),
        hex_number(r@) == hash,
{
    assert(pow(16, 16) == 0x1_0000_0000_0000_0000) by {
        reveal_with_fuel(pow, 17);
    }
    lemma_hex(hash as nat, 16);
}

/// A spool entry is named by its process, the number of the entry and the time; it is
/// written under the one ending and renamed into the other.
pub proof fn an_entry_is_named_by_its_process(pid: u32, sequence: u64, nanos: u128, r: EntryNames)
    requires
        call_ensures(entry_names, (pid, sequence, nanos), r),
    ensures
        r.temporary@ == decimal(pid as nat) + "-"@ + decimal(sequence as nat) + "-"@ + decimal(
            nanos as nat,
        ) + ".tmp"@,
        r.entry@ == decimal(pid as nat) + "-"@ + decimal(sequence as nat) + "-"@ + decimal(
            nanos as nat,
        ) + ".paths"@,
{
}

/// What is a process' own is named by what it is, the process and a number.
pub proof fn what_is_its_own_is_named_by_the_process(
    kind: &str,
    pid: u32,
    sequence: u64,
    r: String,
    preset: &str,
    group: String,
)
    requires
        call_ensures(own_name, (kind, pid, sequence), r),
        call_ensures(preset_group, (preset,), group),
    ensures
        r@ == kind@ + "-"@ + decimal(pid as nat) + "-"@ + decimal(sequence as nat),
        group@ == "preset:"@ + preset@,
{
}

/// A path is spooled as its text, unless that begins with a hash mark: then `#u:` stands
/// before it. A path that is no text is spooled as `#w:` and four hexadecimal digits to
/// a unit.
pub proof fn a_path_is_spooled_as_its_text(path: &Vec<u16>, text: Option<String>, r: String)
    requires
        call_ensures(encode_path, (path,), r),
        call_ensures(decode, (path,), text),
    ensures
        text is Some && !(text->0@.len() > 0 && text->0@[0] == '#') ==> r@ == text->0@,
        text is Some && text->0@.len() > 0 && text->0@[0] == '#' ==> r@ == "#u:"@ + text->0@,
        text is None ==> r@ == "#w:"@ + hexes(path@),
        text is None ==> r@.len() == 3 + 4 * path.len(),
{
    if text is None {
        a_unit_is_spooled_as_four_digits(path@);
        reveal_strlit("#w:");
    }
}

/// Each unit is spooled as its own four hexadecimal digits, in the order of the units.
pub proof fn a_unit_is_spooled_as_four_digits(units: Seq<u16>)
    ensures
        hexes(units).len() == 4 * units.len(),
        forall|i: int, k: int|
            0 <= i < units.len() && 0 <= k < 4 ==> hexes(units)[4 * i + k] == #[trigger] hex(
                units[i] as nat,
                4,
            )[k],
    decreases units.len(),
{
    if units.len() > 0 {
        let less = units.drop_last();
        a_unit_is_spooled_as_four_digits(less);
        assert(pow(16, 4) == 65536) by {
            reveal_with_fuel(pow, 5);
        }
        lemma_hex(units.last() as nat, 4);
        assert forall|i: int, k: int| 0 <= i < units.len() && 0 <= k < 4 implies hexes(units)[4 * i
            + k] == #[trigger] hex(units[i] as nat, 4)[k] by {
            if i < less.len() {
                assert(hexes(less)[4 * i + k] == hex(less[i] as nat, 4)[k]);
            }
        }
    }
}

/// What is spooled is read back: a path from its line, and all the paths of an entry, in
/// order.
pub proof fn what_is_spooled_is_read_back(
    path: &Vec<u16>,
    line: String,
    paths: &Vec<Vec<u16>>,
    body: String,
)
    requires
        call_ensures(encode_path, (path,), line),
        call_ensures(spool_body, (paths,), body),
    ensures
        forall|t: &str, r: Vec<u16>|
            t@ == line@ && #[trigger] call_ensures(decode_path, (t,), r) ==> r@ == path@,
        (forall|i: int|
            0 <= i < paths.len() ==> (#[trigger] paths[i]).len() > 0 && !paths[i]@.contains(10u16)
                && !paths[i]@.contains(13u16)) ==> forall|t: &str, r: Vec<Vec<u16>>|
            t@ == body@ && #[trigger] call_ensures(read_spool, (t,), r) ==> models(r@) == models(
                paths@,
            ),
{
    a_path_round_trips(path@);
    if forall|i: int|
        0 <= i < paths.len() ==> (#[trigger] paths[i]).len() > 0 && !paths[i]@.contains(10u16)
            && !paths[i]@.contains(13u16) {
        let m = models(paths@);
        assert forall|i: int| 0 <= i < m.len() implies spoolable(#[trigger] m[i]) by {
            assert(m[i] == paths[i]@);
        }
        a_spool_entry_round_trips(m);
    }
}

/// What is older than thirty seconds is debris; what has no age is not.
pub proof fn debris_is_older_than_thirty_seconds(age: Option<u64>, r: bool)
    requires
        call_ensures(is_stale, (age,), r),
    ensures
        r <==> age is Some && age->0 > 30_000_000_000,
{
}

/// Who creates the lock leads, and so does who cannot coordinate at all. A lock that is
/// held is followed, but for one older than thirty seconds at the first try, which is
/// retired.
pub proof fn a_lock_decides_who_leads(attempt: LockTry, second: bool, r: LockStep)
    requires
        call_ensures(lock_step, (attempt, second), r),
    ensures
        r is Lead <==> attempt is Created || attempt is Failed,
        attempt matches LockTry::Held { age } ==> {
            &&& r is Retire <==> !second && age is Some && age->0 > 30_000_000_000
            &&& r is Follow <==> second || age is None || age->0 <= 30_000_000_000
        },
{
}

/// The leader waits from its last look at which the number of entries had changed. It
/// closes the batch once that is as long ago as the quiet window; a lone arrival also
/// once a quarter of a second has passed, or the quiet window where that is shorter.
pub proof fn the_leader_waits_for_quiet(s: &mut Settling, now: u64, count: usize, closed: bool)
    requires
        call_ensures(Settling::look, (s, now, count), closed),
    ensures
        final(s).seen == count && final(s).started == old(s).started && final(s).quiet == old(s).quiet,
        count != old(s).seen ==> final(s).last_change == now,
        count == old(s).seen ==> final(s).last_change == old(s).last_change,
        closed <==> {
            ||| now - final(s).last_change >= old(s).quiet
            ||| count <= 1 && now - old(s).started >= 250_000_000
            ||| count <= 1 && now - old(s).started >= old(s).quiet
        },
{
}

/// The wait begins at the arrival, with the entries that are there.
pub proof fn the_wait_begins_with_the_arrival(now: u64, count: usize, quiet: u64, r: Settling)
    requires
        call_ensures(Settling::new, (now, count, quiet), r),
    ensures
        r.started == now && r.last_change == now && r.seen == count && r.quiet == quiet,
{
}

/// Only what has the extension `paths` is a spool entry: it is claimed, or deleted where
/// it is older than thirty seconds, and anything else is left alone.
pub proof fn only_spool_entries_are_claimed(
    path: &FilePath,
    age: Option<u64>,
    extension: Option<String>,
    entry: bool,
    r: ClaimStep,
)
    requires
        call_ensures(claim_step, (path, age), r),
        call_ensures(is_spool_entry, (path,), entry),
        call_ensures(FilePath::extension, (path,), extension),
    ensures
        entry <==> extension is Some && extension->0@ == "paths"@,
        r is Leave <==> !entry,
        r is Delete <==> entry && age is Some && age->0 > 30_000_000_000,
        r is Take <==> entry && (age is None || age->0 <= 30_000_000_000),
{
}

/// A leader's batch holds every path that was claimed, and nothing else, in order and
/// each once.
pub proof fn a_leader_runs_what_was_claimed(claimed: &Vec<FilePath>, r: Role, p: PathModel)
    requires
        call_ensures(lead, (claimed,), r),
    ensures
        r is Leader,
        r matches Role::Leader(paths) ==> {
            &&& models(paths@).contains(p) <==> models(claimed@).contains(p)
            &&& forall|i: int, j: int|
                0 <= i < j < paths.len() ==> crate::paths::path_before(
                    (#[trigger] paths[i])@,
                    (#[trigger] paths[j])@,
                )
        },
{
    if let Role::Leader(paths) = r {
        let m = models(paths@);
        assert(m.to_set().contains(p) <==> m.contains(p));
        assert(models(claimed@).to_set().contains(p) <==> models(claimed@).contains(p));
        assert forall|i: int, j: int| 0 <= i < j < paths.len() implies crate::paths::path_before(
            (#[trigger] paths[i])@,
            (#[trigger] paths[j])@,
        ) by {
            assert(m[i] == paths[i]@ && m[j] == paths[j]@);
        }
    }
}

/// A leader with paths runs them all. A follower runs nothing, nor does a leader whose
/// paths another has claimed.
pub proof fn a_leader_runs_its_paths(role: Role, r: Option<Vec<FilePath>>)
    requires
        call_ensures(coalesce, (role,), r),
    ensures
        role is Follower ==> r is None,
        role matches Role::Leader(paths) ==> {
            &&& r is Some <==> paths.len() > 0
            &&& r is Some ==> models(r->0@) == models(paths@)
        },
{
    if let Role::Leader(paths) = role {
        assert(models(paths@).len() == paths.len());
    }
}

/// A line is read by how it begins: behind `#u:` stands the path's text, behind `#w:` its
/// units, and any other line is the text itself.
pub proof fn a_line_is_read_by_its_beginning(line: &str, r: Vec<u16>)
    requires
        call_ensures(decode_path, (line,), r),
    ensures
        begins_with(line@, "#u:"@) ==> r@ == encoded(line@.skip(3)),
        begins_with(line@, "#w:"@) ==> r@ == units_in(line@.skip(3)),
        !begins_with(line@, "#u:"@) && !begins_with(line@, "#w:"@) ==> r@ == encoded(line@),
{
    reveal_strlit("#u:");
    reveal_strlit("#w:");
    if begins_with(line@, "#u:"@) && begins_with(line@, "#w:"@) {
        assert(line@.take(3)[1] == "#u:"@[1]);
        assert(line@.take(3)[1] == "#w:"@[1]);
    }
}

/// Units are read four ASCII characters at a time: hexadecimal digits are the unit that
/// they stand for, a plus may stand for the first of them, and other characters are
/// skipped, four of them too. Fewer than four at the end are nothing.
pub proof fn units_are_read_four_at_a_time(group: Seq<char>, rest: Seq<char>)
    requires
        group.len() <= 4,
        forall|i: int| 0 <= i < group.len() ==> (#[trigger] group[i] as int) < 128,
    ensures
        group.len() == 4 && all_hex(group) ==> units_in(group + rest) == seq![
            hex_number(group) as u16,
        ] + units_in(rest),
        group.len() == 4 && group[0] == '+' && all_hex(group.skip(1)) ==> units_in(group + rest)
            == seq![hex_number(group.skip(1)) as u16] + units_in(rest),
        group.len() == 4 && !all_hex(group) && !(group[0] == '+' && all_hex(group.skip(1)))
            ==> units_in(group + rest) == units_in(rest),
        group.len() < 4 ==> units_in(group) == Seq::<u16>::empty(),
{
    if group.len() == 4 {
        let text = group + rest;
        assert(text[0] == group[0] && text.skip(1)[0] == group[1]);
        assert(text.skip(1).skip(1)[0] == group[2]);
        assert(text.skip(1).skip(1).skip(1)[0] == group[3]);
        reveal_with_fuel(chunk, 5);
        assert(chunk(text, 4) == 4);
        assert(text.take(4) =~= group);
        assert(text.skip(4) =~= rest);
        if group[0] == '+' {
            assert(crate::text::hex_value(group[0]) == -1);
        }
        assert(Seq::<u16>::empty() + units_in(rest) =~= units_in(rest));
    } else {
        lemma_short_chunk(group, 4);
    }
}

proof fn lemma_short_chunk(text: Seq<char>, bytes: int)
    requires
        text.len() < bytes,
        forall|i: int| 0 <= i < text.len() ==> (#[trigger] text[i] as int) < 128,
    ensures
        chunk(text, bytes) == text.len() + 1,
    decreases text.len(),
{
    if text.len() > 0 {
        let less = text.skip(1);
        assert(bytes_of(text[0]) == 1);
        assert forall|i: int| 0 <= i < less.len() implies (#[trigger] less[i] as int) < 128 by {
            assert(less[i] == text[i + 1]);
        }
        lemma_short_chunk(less, bytes - 1);
    }
}

/// A spool entry is read line by line: a line that is empty holds no path, and any other
/// the path that it stands for, without the carriage return before its break; the last
/// line needs no break.
pub proof fn a_spool_entry_is_read_line_by_line(line: Seq<char>, rest: Seq<char>)
    requires
        !line.contains('\n'),
    ensures
        ({
            let all = line.push('\n') + rest;
            let text = if line.len() > 0 && line.last() == '\r' {
                line.drop_last()
            } else {
                line
            };
            &&& text.len() == 0 ==> paths_in(lines_of(all)) == paths_in(lines_of(rest))
            &&& text.len() > 0 ==> paths_in(lines_of(all)) == seq![path_of(text)] + paths_in(
                lines_of(rest),
            )
        }),
        line.len() == 0 ==> paths_in(lines_of(line)) == Seq::<Seq<u16>>::empty(),
        line.len() > 0 ==> paths_in(lines_of(line)) == seq![path_of(line)],
{
    let all = line.push('\n') + rest;
    let n = line.len() as int;
    assert(all[n] == '\n');
    assert forall|i: int| 0 <= i < n implies all[i] != '\n' by {
        assert(line.contains(line[i]));
    }
    lemma_first_is(all, n);
    assert(all.take(n) =~= line);
    assert(all.skip(n + 1) =~= rest);
    let lines = lines_of(all);
    assert(lines == seq![without_return(line)] + lines_of(rest));
    assert(lines.skip(1) =~= lines_of(rest));
    assert(lines[0] == without_return(line));
    assert(Seq::<Seq<u16>>::empty() + paths_in(lines_of(rest)) =~= paths_in(lines_of(rest)));
    if line.len() > 0 {
        lemma_first(line);
        if first_place(line, '\n') < line.len() {
            assert(line.contains(line[first_place(line, '\n')]));
        }
        assert(lines_of(line) =~= seq![line]);
        let one = seq![line];
        assert(one.skip(1) =~= Seq::<Seq<char>>::empty());
        assert(paths_in(one.skip(1)) =~= Seq::<Seq<u16>>::empty());
        assert(paths_in(one) == seq![path_of(line)] + paths_in(one.skip(1)));
        assert(paths_in(one) =~= seq![path_of(line)]);
    }
}

/// Characters beyond ASCII take two to four bytes in a line of units: as many of them as
/// make up four bytes are skipped together.
pub proof fn longer_characters_are_skipped_by_their_bytes(c: char, d: char, rest: Seq<char>)
    ensures
        (c as int) >= 0x10000 ==> units_in(seq![c] + rest) == units_in(rest),
        0x80 <= (c as int) < 0x800 && 0x80 <= (d as int) < 0x800 ==> units_in(seq![c, d] + rest)
            == units_in(rest),
        0x800 <= (c as int) < 0x10000 && (d as int) < 0x80 ==> units_in(seq![c, d] + rest)
            == units_in(rest),
        (c as int) < 0x80 && 0x800 <= (d as int) < 0x10000 ==> units_in(seq![c, d] + rest)
            == units_in(rest),
{
    reveal_with_fuel(chunk, 5);
    let one = seq![c] + rest;
    let two = seq![c, d] + rest;
    assert(one.skip(1) =~= rest && one.take(1) =~= seq![c]);
    assert(two.skip(2) =~= rest && two.take(2) =~= seq![c, d]);
    assert(two.skip(1)[0] == d);
    assert(Seq::<u16>::empty() + units_in(rest) =~= units_in(rest));
    if (c as int) >= 0x10000 {
        assert(chunk(one, 4) == 1);
    }
}

} // verus!
