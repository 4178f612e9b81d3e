//! The command line: which mode the app starts in, and on what.

use crate::clip::opt_model;
use crate::order::models;
use crate::text::{chars_of, code, reads};
use clap::{Arg, ArgAction, Command};
use vstd::prelude::*;

verus! {

/// What clap says of arguments that it refuses, or where it is asked for help,
/// and the status to exit with.
pub type Refusal = (String, i32);

/// What arguments say: for each flag whether it is there, for each option its
/// value, and the values behind them.
pub type Given = (Vec<bool>, Vec<Option<String>>, Vec<String>);

/// What arguments say.
#[verifier::ext_equal]
pub struct GivenModel {
    pub flags: Seq<bool>,
    pub options: Seq<Option<Seq<char>>>,
    pub rest: Seq<Seq<char>>,
}

/// What arguments say.
pub open spec fn given_model(given: Given) -> GivenModel {
    GivenModel {
        flags: given.0@,
        options: given.1@.map_values(|o: Option<String>| opt_model(o)),
        rest: models(given.2@),
    }
}

/// What clap reads from arguments, the first of which names the program, where
/// it knows these flags and these options; none where it refuses them.
pub uninterp spec fn understood(
    flags: Seq<Seq<char>>,
    options: Seq<Seq<char>>,
    args: Seq<Seq<char>>,
) -> Option<GivenModel>;

/// Whether names can stand side by side on a command line: each of them once,
/// none empty, beginning with a hyphen, or one that clap has already.
pub open spec fn names_apart(names: Seq<Seq<char>>) -> bool {
    &&& names.no_duplicates()
    &&& forall|i: int|
        0 <= i < names.len() ==> {
            &&& (#[trigger] names[i]).len() > 0
            &&& names[i][0] != '-'
            &&& names[i] != "help"@
            &&& names[i] != "version"@
        }
}

/// `clap::Command::try_get_matches_from`, on a command with these flags and
/// these options, all of them long, and any number of further values. It says of
/// each flag whether it is there and of each option which value it has, and
/// gives the further values in their order. What it makes of given arguments is
/// left unsaid, but that it makes the same of the same; so are the words in
/// which it refuses some.
#[verifier::external_body]
fn read_arguments(
    name: &String,
    version: &String,
    help: &String,
    flags: &Vec<String>,
    options: &Vec<String>,
    rest: &String,
    args: &Vec<String>,
) -> (r: Result<Given, Refusal>)
    requires
        names_apart((models(flags@) + models(options@)).push(rest@)),
    ensures
        match r {
            Ok(given) => {
                &&& given.0.len() == flags.len()
                &&& given.1.len() == options.len()
                &&& understood(models(flags@), models(options@), models(args@)) == Some(
                    given_model(given),
                )
            },
            Err(_) => understood(models(flags@), models(options@), models(args@)) is None,
        },
{
    let mut m = Command::new(name)
        .version(version)
        .override_help(help)
        .args(flags.iter().map(|n| Arg::new(n).long(n).action(ArgAction::SetTrue)))
        .args(options.iter().map(|n| Arg::new(n).long(n)))
        .arg(Arg::new(rest).action(ArgAction::Append))
        .try_get_matches_from(args)
        .map_err(|e| (e.to_string(), e.exit_code()))?;
    Ok((
        flags.iter().map(|n| m.get_flag(n)).collect(),
        options.iter().map(|n| m.get_one(n).cloned()).collect(),
        m.remove_many(rest).unwrap_or_default().collect(),
    ))
}

/// The flags of the command line.
pub open spec fn flag_names() -> Seq<Seq<char>> {
    seq!["sequence-mp4"@, "register"@, "unregister"@, "print-extensions"@, "quiet"@]
}

/// The options of the command line.
pub open spec fn option_names() -> Seq<Seq<char>> {
    seq!["preset"@, "fps"@]
}

/// The frame rate where none is given.
pub const DEFAULT_FPS: u32 = 30;

const HELP: &'static str =
    "Batch image converter / resizer / cropper

Usage: kuvatin [OPTIONS] [PATH]...

Arguments:
  [PATH]...  Image files or folders to operate on

Options:
      --preset <NAME>     Run a named preset headlessly over the given files
      --sequence-mp4      Render the numbered image sequence each PATH belongs to (or every
                          sequence in a folder PATH) to an MP4 next to it, headlessly
      --fps <FPS>         Frame rate for --sequence-mp4 (one file = one frame) [default: 30]
      --register          Register the Explorer context-menu entries and exit
      --unregister        Remove the Explorer context-menu entries and exit
      --quiet             Never show dialogs (the installer runs --register/--unregister with this)
      --print-extensions  Print the file extensions the Explorer menu attaches to, one per line,
                          and exit (the sparse-package build reads this)
  -h, --help              Print help
  -V, --version           Print version
";

/// What the command line asks for.
#[derive(PartialEq, Eq, Debug)]
pub struct Cli {
    /// Run a named preset headlessly over the given files.
    pub preset: Option<String>,
    /// Render the numbered image sequence each path belongs to (or every
    /// sequence in a folder) to an MP4 next to it, headlessly.
    pub sequence_mp4: bool,
    /// Frame rate for the sequence (one file = one frame).
    pub fps: u32,
    /// Register the Explorer context-menu entries and exit.
    pub register: bool,
    /// Remove the Explorer context-menu entries and exit.
    pub unregister: bool,
    /// Never show dialogs.
    pub quiet: bool,
    /// Print the file extensions the Explorer menu attaches to, and exit.
    pub print_extensions: bool,
    /// Image files or folders to operate on.
    pub paths: Vec<String>,
}

/// What the command line asks for.
#[verifier::ext_equal]
pub struct CliModel {
    pub preset: Option<Seq<char>>,
    pub sequence_mp4: bool,
    pub fps: u32,
    pub register: bool,
    pub unregister: bool,
    pub quiet: bool,
    pub print_extensions: bool,
    pub paths: Seq<Seq<char>>,
}

impl View for Cli {
    type V = CliModel;

    open spec fn view(&self) -> CliModel {
        CliModel {
            preset: opt_model(self.preset),
            sequence_mp4: self.sequence_mp4,
            fps: self.fps,
            register: self.register,
            unregister: self.unregister,
            quiet: self.quiet,
            print_extensions: self.print_extensions,
            paths: models(self.paths@),
        }
    }
}

/// The mode that the app starts in.
#[derive(Debug, PartialEq)]
pub enum Mode {
    Register,
    Unregister,
    PrintExtensions,
    QuickRun { preset: String, paths: Vec<String> },
    SequenceMp4 { paths: Vec<String>, fps: u32 },
    Gui { paths: Vec<String> },
    /// A headless mode with no path.
    Invalid(&'static str),
}

/// The mode that the app starts in.
pub enum ModeModel {
    Register,
    Unregister,
    PrintExtensions,
    QuickRun { preset: Seq<char>, paths: Seq<Seq<char>> },
    SequenceMp4 { paths: Seq<Seq<char>>, fps: u32 },
    Gui { paths: Seq<Seq<char>> },
    Invalid(Seq<char>),
}

impl View for Mode {
    type V = ModeModel;

    open spec fn view(&self) -> ModeModel {
        match self {
            Mode::Register => ModeModel::Register,
            Mode::Unregister => ModeModel::Unregister,
            Mode::PrintExtensions => ModeModel::PrintExtensions,
            Mode::QuickRun { preset, paths } => ModeModel::QuickRun {
                preset: preset@,
                paths: models(paths@),
            },
            Mode::SequenceMp4 { paths, fps } => ModeModel::SequenceMp4 {
                paths: models(paths@),
                fps: *fps,
            },
            Mode::Gui { paths } => ModeModel::Gui { paths: models(paths@) },
            Mode::Invalid(reason) => ModeModel::Invalid(reason@),
        }
    }
}

/// The mode that a command line asks for.
pub open spec fn mode_of(c: CliModel) -> ModeModel {
    if c.register {
        ModeModel::Register
    } else if c.unregister {
        ModeModel::Unregister
    } else if c.print_extensions {
        ModeModel::PrintExtensions
    } else if c.sequence_mp4 {
        if c.paths.len() == 0 {
            ModeModel::Invalid("--sequence-mp4 needs at least one frame or folder PATH"@)
        } else {
            ModeModel::SequenceMp4 { paths: c.paths, fps: c.fps }
        }
    } else {
        match c.preset {
            Some(preset) => if c.paths.len() == 0 {
                ModeModel::Invalid("--preset needs at least one file or folder PATH"@)
            } else {
                ModeModel::QuickRun { preset, paths: c.paths }
            },
            None => ModeModel::Gui { paths: c.paths },
        }
    }
}

/// What is wrong with arguments that clap has read.
#[derive(PartialEq, Eq, Debug)]
pub enum BadArguments {
    /// Two modes that cannot be used together.
    Conflict(&'static str, &'static str),
    /// A frame rate without a sequence to render.
    FpsAlone,
    /// A frame rate that is no number, or none that fits.
    NotANumber(String),
    /// An empty path.
    EmptyPath,
}

/// What is wrong with arguments that clap has read.
pub enum BadModel {
    Conflict(Seq<char>, Seq<char>),
    FpsAlone,
    NotANumber(Seq<char>),
    EmptyPath,
}

impl View for BadArguments {
    type V = BadModel;

    open spec fn view(&self) -> BadModel {
        match self {
            BadArguments::Conflict(a, b) => BadModel::Conflict(a@, b@),
            BadArguments::FpsAlone => BadModel::FpsAlone,
            BadArguments::NotANumber(text) => BadModel::NotANumber(text@),
            BadArguments::EmptyPath => BadModel::EmptyPath,
        }
    }
}

/// What is wrong, in words.
pub open spec fn bad_text(bad: BadModel) -> Seq<char> {
    match bad {
        BadModel::Conflict(a, b) => "the argument '"@ + a + "' cannot be used with '"@ + b + "'"@,
        BadModel::FpsAlone => "the argument '--fps <FPS>' needs '--sequence-mp4'"@,
        BadModel::NotANumber(text) => "invalid value '"@ + text + "' for '--fps <FPS>'"@,
        BadModel::EmptyPath => "a value is required for '[PATH]...' but none was supplied"@,
    }
}

impl BadArguments {
    /// What is wrong, in words.
    pub fn message(&self) -> (r: String)
        ensures
            r@ == bad_text(self@),
    {
        match self {
            BadArguments::Conflict(a, b) => {
                let mut s = String::from_str("the argument '");
                s.append(a);
                s.append("' cannot be used with '");
                s.append(b);
                s.append("'");
                s
            },
            BadArguments::FpsAlone => String::from_str(
                "the argument '--fps <FPS>' needs '--sequence-mp4'",
            ),
            BadArguments::NotANumber(text) => {
                let mut s = String::from_str("invalid value '");
                s.append(text.as_str());
                s.append("' for '--fps <FPS>'");
                s
            },
            BadArguments::EmptyPath => String::from_str(
                "a value is required for '[PATH]...' but none was supplied",
            ),
        }
    }
}

/// Why there is nothing to start.
#[derive(PartialEq, Eq, Debug)]
pub enum CliError {
    /// clap refused the arguments, or was asked for help.
    Refused { message: String, status: i32 },
    Bad(BadArguments),
}

// ---------------------------------------------------------------------------
// A number
// ---------------------------------------------------------------------------

/// Whether all characters are decimal digits.
pub open spec fn all_decimal(digits: Seq<char>) -> bool {
    forall|i: int| 0 <= i < digits.len() ==> '0' <= #[trigger] digits[i] <= '9'
}

/// The number that decimal digits stand for.
pub open spec fn decimal_number(digits: Seq<char>) -> nat
    decreases digits.len(),
{
    if digits.len() == 0 {
        0
    } else {
        (decimal_number(digits.drop_last()) * 10 + (digits.last() as int - 48)) as nat
    }
}

/// The number that a text stands for: digits, a sign before them or none, where
/// it is one that a frame rate can be.
pub open spec fn number_of(text: Seq<char>) -> Option<u32> {
    let signed = text.len() > 0 && (text[0] == '+' || text[0] == '-');
    let digits = if signed {
        text.skip(1)
    } else {
        text
    };
    let n = decimal_number(digits);
    if digits.len() == 0 || !all_decimal(digits) {
        None
    } else if signed && text[0] == '-' {
        if n == 0 {
            Some(0u32)
        } else {
            None
        }
    } else if n <= u32::MAX {
        Some(n as u32)
    } else {
        None
    }
}

/// The number that a text stands for, as a frame rate.
pub fn parse_number(text: &str) -> (r: Option<u32>)
    ensures
        r == number_of(text@),
{
    let t = chars_of(text);
    let signed = t.len() > 0 && (t[0] == '+' || t[0] == '-');
    let start: usize = if signed {
        1
    } else {
        0
    };
    let ghost digits = if signed {
        text@.skip(1)
    } else {
        text@
    };
    if start == t.len() {
        return None;
    }
    let mut n: u64 = 0;
    let mut large = false;
    let mut i: usize = start;
    while i < t.len()
        invariant
            start <= i <= t.len(),
            start == if signed { 1int } else { 0int },
            t@ == text@,
            signed == (text@.len() > 0 && (text@[0] == '+' || text@[0] == '-')),
            digits == t@.skip(start as int),
            digits == if signed { text@.skip(1) } else { text@ },
            forall|j: int| 0 <= j < i - start ==> '0' <= #[trigger] digits[j] <= '9',
            !large ==> n == decimal_number(digits.take(i - start)) && n <= u32::MAX,
            large ==> decimal_number(digits.take(i - start)) > u32::MAX,
        decreases t.len() - i,
    {
        let c: u32 = code(t[i]);
        assert(digits[i - start] == t[i as int]);
        if c < 48 || c > 57 {
            assert(!('0' <= digits[i - start] <= '9'));
            return None;
        }
        assert(digits.take(i - start + 1).drop_last() =~= digits.take(i - start));
        assert(digits.take(i - start + 1).last() == digits[i - start]);
        if !large {
            n = n * 10 + (c - 48) as u64;
            if n > u32::MAX as u64 {
                large = true;
            }
        }
        i += 1;
    }
    assert(digits.take(i - start) =~= digits);
    if signed && t[0] == '-' {
        if !large && n == 0 {
            Some(0)
        } else {
            None
        }
    } else if large {
        None
    } else {
        Some(n as u32)
    }
}

// ---------------------------------------------------------------------------
// The rules
// ---------------------------------------------------------------------------

/// The modes that arguments ask for, in the order in which they are named.
pub open spec fn asked(g: GivenModel) -> Seq<bool> {
    seq![g.options[0] is Some, g.flags[0], g.flags[1], g.flags[2], g.flags[3]]
}

/// How the modes are written.
pub open spec fn mode_name(i: int) -> Seq<char> {
    if i == 0 {
        "--preset <NAME>"@
    } else if i == 1 {
        "--sequence-mp4"@
    } else if i == 2 {
        "--register"@
    } else if i == 3 {
        "--unregister"@
    } else {
        "--print-extensions"@
    }
}

/// Whether the first two modes that are asked for are these.
pub open spec fn first_two(asked: Seq<bool>, i: int, j: int) -> bool {
    &&& 0 <= i < j < asked.len()
    &&& asked[i]
    &&& asked[j]
    &&& forall|k: int| 0 <= k < j && k != i ==> !asked[k]
}

/// Whether two modes are asked for.
pub open spec fn conflicting(asked: Seq<bool>) -> bool {
    exists|i: int, j: int| first_two(asked, i, j)
}

/// Whether the values can be read: a frame rate is a number, a path is not empty.
pub open spec fn values_read(g: GivenModel) -> bool {
    &&& g.options[1] is Some ==> number_of(g.options[1]->0) is Some
    &&& forall|i: int| 0 <= i < g.rest.len() ==> (#[trigger] g.rest[i]).len() > 0
}

/// What well-formed arguments ask for: modes are mutually exclusive, and a frame
/// rate only means something with a sequence.
pub open spec fn cli_of(g: GivenModel, r: Result<CliModel, BadModel>) -> bool {
    if g.options[1] is Some && number_of(g.options[1]->0) is None {
        r == Err::<CliModel, BadModel>(BadModel::NotANumber(g.options[1]->0))
    } else if !values_read(g) {
        r == Err::<CliModel, BadModel>(BadModel::EmptyPath)
    } else if conflicting(asked(g)) {
        exists|i: int, j: int|
            #[trigger] first_two(asked(g), i, j) && r == Err::<CliModel, BadModel>(
                BadModel::Conflict(mode_name(i), mode_name(j)),
            )
    } else if g.options[1] is Some && !g.flags[0] {
        r == Err::<CliModel, BadModel>(BadModel::FpsAlone)
    } else {
        r == Ok::<CliModel, BadModel>(
            CliModel {
                preset: g.options[0],
                sequence_mp4: g.flags[0],
                fps: match g.options[1] {
                    Some(text) => number_of(text)->0,
                    None => DEFAULT_FPS,
                },
                register: g.flags[1],
                unregister: g.flags[2],
                quiet: g.flags[4],
                print_extensions: g.flags[3],
                paths: g.rest,
            },
        )
    }
}

/// The outcome of reading arguments.
pub open spec fn outcome(r: Result<Cli, BadArguments>) -> Result<CliModel, BadModel> {
    match r {
        Ok(c) => Ok(c@),
        Err(e) => Err(e@),
    }
}

fn name_at(i: usize) -> (r: &'static str)
    ensures
        r@ == mode_name(i as int),
{
    if i == 0 {
        "--preset <NAME>"
    } else if i == 1 {
        "--sequence-mp4"
    } else if i == 2 {
        "--register"
    } else if i == 3 {
        "--unregister"
    } else {
        "--print-extensions"
    }
}

/// The first two of the modes that are asked for.
fn conflict(asked: &Vec<bool>) -> (r: Option<(usize, usize)>)
    ensures
        match r {
            Some((i, j)) => first_two(asked@, i as int, j as int),
            None => !conflicting(asked@),
        },
{
    let mut first: Option<usize> = None;
    let mut k: usize = 0;
    while k < asked.len()
        invariant
            k <= asked.len(),
            match first {
                Some(i) => {
                    &&& i < k
                    &&& asked[i as int]
                    &&& forall|m: int| 0 <= m < k && m != i ==> !asked[m]
                },
                None => forall|m: int| 0 <= m < k ==> !asked[m],
            },
        decreases asked.len() - k,
    {
        if asked[k] {
            match first {
                Some(i) => {
                    assert(first_two(asked@, i as int, k as int));
                    return Some((i, k));
                },
                None => {
                    first = Some(k);
                },
            }
        }
        k += 1;
    }
    None
}

impl Cli {
    /// What the arguments that clap has read ask for. Modes are mutually
    /// exclusive and a frame rate only means something with a sequence; nonsense
    /// is an error, not a silent choice.
    pub fn from_given(given: Given) -> (r: Result<Cli, BadArguments>)
        requires
            given.0.len() == flag_names().len(),
            given.1.len() == option_names().len(),
        ensures
            cli_of(given_model(given), outcome(r)),
    {
        let ghost g = given_model(given);
        assert(g.options[0] == opt_model(given.1@[0]));
        assert(g.options[1] == opt_model(given.1@[1]));
        let fps: u32 = match &given.1[1] {
            Some(text) => match parse_number(text.as_str()) {
                Some(n) => n,
                None => {
                    return Err(BadArguments::NotANumber(text.clone()));
                },
            },
            None => DEFAULT_FPS,
        };
        let mut i: usize = 0;
        while i < given.2.len()
            invariant
                i <= given.2.len(),
                g == given_model(given),
                g.options[1] is Some ==> number_of(g.options[1]->0) is Some,
                forall|j: int| 0 <= j < i ==> (#[trigger] g.rest[j]).len() > 0,
            decreases given.2.len() - i,
        {
            assert(g.rest[i as int] == given.2@[i as int]@);
            if given.2[i].as_str().is_empty() {
                assert(!values_read(g));
                return Err(BadArguments::EmptyPath);
            }
            i += 1;
        }
        let modes = vec![
            given.1[0].is_some(),
            given.0[0],
            given.0[1],
            given.0[2],
            given.0[3],
        ];
        assert(modes@ =~= asked(g));
        if let Some((a, b)) = conflict(&modes) {
            return Err(BadArguments::Conflict(name_at(a), name_at(b)));
        }
        if given.1[1].is_some() && !given.0[0] {
            return Err(BadArguments::FpsAlone);
        }
        let preset = match &given.1[0] {
            Some(name) => Some(name.clone()),
            None => None,
        };
        Ok(
            Cli {
                preset,
                sequence_mp4: given.0[0],
                fps,
                register: given.0[1],
                unregister: given.0[2],
                quiet: given.0[4],
                print_extensions: given.0[3],
                paths: given.2,
            },
        )
    }

    /// Read a command line, whose first argument names the program.
    pub fn try_parse_from(version: &String, args: &Vec<String>) -> (r: Result<Cli, CliError>)
        ensures
            match understood(flag_names(), option_names(), models(args@)) {
                None => r matches Err(e) && e is Refused,
                Some(g) => match r {
                    Ok(c) => cli_of(g, Ok(c@)),
                    Err(CliError::Bad(e)) => cli_of(g, Err(e@)),
                    Err(CliError::Refused { .. }) => false,
                },
            },
    {
        let flags = vec![
            String::from_str("sequence-mp4"),
            String::from_str("register"),
            String::from_str("unregister"),
            String::from_str("print-extensions"),
            String::from_str("quiet"),
        ];
        let options = vec![String::from_str("preset"), String::from_str("fps")];
        let rest = String::from_str("paths");
        proof {
            assert(models(flags@) =~= flag_names());
            assert(models(options@) =~= option_names());
            lemma_names_apart();
        }
        let name = String::from_str("kuvatin");
        let help = String::from_str(HELP);
        match read_arguments(&name, version, &help, &flags, &options, &rest, args) {
            Ok(given) => match Cli::from_given(given) {
                Ok(c) => Ok(c),
                Err(e) => Err(CliError::Bad(e)),
            },
            Err(refusal) => Err(CliError::Refused { message: refusal.0, status: refusal.1 }),
        }
    }

    /// The mode to start in.
    pub fn into_mode(self) -> (r: Mode)
        ensures
            r@ == mode_of(self@),
    {
        if self.register {
            Mode::Register
        } else if self.unregister {
            Mode::Unregister
        } else if self.print_extensions {
            Mode::PrintExtensions
        } else if self.sequence_mp4 {
            if self.paths.len() == 0 {
                Mode::Invalid("--sequence-mp4 needs at least one frame or folder PATH")
            } else {
                Mode::SequenceMp4 { paths: self.paths, fps: self.fps }
            }
        } else if let Some(preset) = self.preset {
            if self.paths.len() == 0 {
                Mode::Invalid("--preset needs at least one file or folder PATH")
            } else {
                Mode::QuickRun { preset, paths: self.paths }
            }
        } else {
            Mode::Gui { paths: self.paths }
        }
    }
}

proof fn lemma_names_apart()
    ensures
        names_apart((flag_names() + option_names()).push("paths"@)),
{
    reveal_strlit("sequence-mp4");
    reveal_strlit("register");
    reveal_strlit("unregister");
    reveal_strlit("print-extensions");
    reveal_strlit("quiet");
    reveal_strlit("preset");
    reveal_strlit("fps");
    reveal_strlit("paths");
    reveal_strlit("help");
    reveal_strlit("version");
    let names = (flag_names() + option_names()).push("paths"@);
    assert(names.len() == 8);
    assert(names[0].len() == 12 && names[1].len() == 8 && names[2].len() == 10 && names[3].len()
        == 16 && names[4].len() == 5 && names[5].len() == 6 && names[6].len() == 3
        && names[7].len() == 5);
    assert(names[4][0] == 'q' && names[7][0] == 'p');
    assert(names[0][0] == 's' && names[1][0] == 'r' && names[2][0] == 'u' && names[3][0] == 'p'
        && names[5][0] == 'p' && names[6][0] == 'f');
    assert("help"@.len() == 4 && "version"@.len() == 7);
}

/// Explorer expands `%V` for a drive root to `C:\`, and under MSVC argv rules
/// the trailing backslash escapes the closing quote — the process receives
/// `C:"`. The text with exactly that shape repaired.
pub open spec fn repaired(arg: Seq<char>) -> Seq<char> {
    if arg.len() == 3 && letter(arg[0]) && arg[1] == ':' && arg[2] == '"' {
        seq![arg[0], ':', '\\']
    } else {
        arg
    }
}

/// Whether a character is an ASCII letter.
pub open spec fn letter(c: char) -> bool {
    'a' <= c <= 'z' || 'A' <= c <= 'Z'
}

/// Repair exactly the shape `C:"` back to `C:\`; everything else passes through
/// untouched.
pub fn repair_drive_root(arg: &String) -> (r: String)
    ensures
        r@ == repaired(arg@),
{
    let c = chars_of(arg.as_str());
    if c.len() == 3 {
        let n: u32 = code(c[0]);
        let is_letter = 97 <= n && n <= 122 || 65 <= n && n <= 90;
        if is_letter && c[1] == ':' && c[2] == '"' {
            let mut s = String::new();
            s.push(c[0]);
            s.append(":\\");
            proof {
                reveal_strlit(":\\");
                assert(s@ =~= seq![arg@[0], ':', '\\']);
            }
            return s;
        }
    }
    arg.clone()
}

// ---------------------------------------------------------------------------
// Laws
// ---------------------------------------------------------------------------

/// Modes are mutually exclusive: arguments that ask for two are never accepted.
pub proof fn modes_are_exclusive(g: GivenModel, c: CliModel)
    requires
        cli_of(g, Ok(c)),
    ensures
        !(c.preset is Some && c.sequence_mp4),
        !(c.preset is Some && (c.register || c.unregister || c.print_extensions)),
        !(c.sequence_mp4 && (c.register || c.unregister || c.print_extensions)),
        !(c.register && (c.unregister || c.print_extensions)),
        !(c.unregister && c.print_extensions),
{
    let a = asked(g);
    if conflicting(a) {
    } else {
        assert forall|i: int, j: int| 0 <= i < j < 5 implies !(a[i] && a[j]) by {
            if a[i] && a[j] {
                lemma_two_asked(a, i, j);
            }
        }
        assert(a[0] == c.preset is Some && a[1] == c.sequence_mp4 && a[2] == c.register && a[3]
            == c.unregister && a[4] == c.print_extensions);
    }
}

/// Where two modes are asked for, there are a first and a second.
proof fn lemma_two_asked(a: Seq<bool>, i: int, j: int)
    requires
        0 <= i < j < a.len(),
        a[i],
        a[j],
    ensures
        conflicting(a),
    decreases j + i,
{
    if exists|k: int| 0 <= k < j && k != i && a[k] {
        let k = choose|k: int| 0 <= k < j && k != i && a[k];
        if k < i {
            lemma_two_asked(a, k, i);
        } else {
            lemma_two_asked(a, i, k);
        }
    } else {
        assert(first_two(a, i, j));
    }
}

/// A frame rate is only accepted with a sequence to render.
pub proof fn a_frame_rate_needs_a_sequence(g: GivenModel, c: CliModel)
    requires
        cli_of(g, Ok(c)),
    ensures
        c.fps != DEFAULT_FPS ==> c.sequence_mp4,
{
}

/// A headless mode never starts without a path: it is reported instead.
pub proof fn headless_modes_have_a_path(c: CliModel)
    ensures
        mode_of(c) matches ModeModel::QuickRun { paths, .. } ==> paths.len() > 0,
        mode_of(c) matches ModeModel::SequenceMp4 { paths, .. } ==> paths.len() > 0,
{
}

/// Repairing an argument twice is repairing it once.
pub proof fn a_repaired_argument_stays(arg: Seq<char>)
    ensures
        repaired(repaired(arg)) == repaired(arg),
{
}

/// The mode that a command line starts. To register, to unregister and to print the
/// extensions need nothing else; a render and a quick run take the paths given, of
/// which there must be one; without any of these the window opens with the paths.
pub proof fn a_command_line_starts_its_mode(c: Cli, r: Mode)
    requires
        call_ensures(Cli::into_mode, (c,), r),
    ensures
        c.register ==> r is Register,
        c.unregister && !c.register ==> r is Unregister,
        c.print_extensions && !c.register && !c.unregister ==> r is PrintExtensions,
        !c.register && !c.unregister && !c.print_extensions ==> {
            &&& c.sequence_mp4 && c.paths.len() > 0 ==> (
            r matches Mode::SequenceMp4 { paths, fps } && models(paths@) == models(c.paths@) && fps
                == c.fps)
            &&& c.sequence_mp4 && c.paths.len() == 0 ==> (r matches Mode::Invalid(reason)
                && reason@ == "--sequence-mp4 needs at least one frame or folder PATH"@)
            &&& !c.sequence_mp4 && c.preset is Some && c.paths.len() > 0 ==> (
            r matches Mode::QuickRun { preset, paths } && preset@ == c.preset->0@ && models(paths@)
                == models(c.paths@))
            &&& !c.sequence_mp4 && c.preset is Some && c.paths.len() == 0 ==> (
            r matches Mode::Invalid(reason) && reason@
                == "--preset needs at least one file or folder PATH"@)
            &&& !c.sequence_mp4 && c.preset is None ==> (r matches Mode::Gui { paths } && models(
                paths@,
            ) == models(c.paths@))
        },
{
    assert(c@.paths == models(c.paths@));
    assert(c@.paths.len() == c.paths.len());
    assert(c@.preset == opt_model(c.preset));
}

/// The number that digits read as is the one they stand for.
proof fn lemma_reads(digits: Seq<char>)
    requires
        all_decimal(digits),
    ensures
        decimal_number(digits) == reads(digits, 10),
        reads(digits, 10) >= 0,
    decreases digits.len(),
{
    if digits.len() > 0 {
        let less = digits.drop_last();
        assert forall|i: int| 0 <= i < less.len() implies '0' <= #[trigger] less[i] <= '9' by {
            assert(less[i] == digits[i]);
        }
        lemma_reads(less);
        assert('0' <= digits[digits.len() - 1] <= '9');
    }
}

/// A number is written in decimal digits, a plus or a minus before them or none. What
/// is read is the number that the digits stand for, where it is no more than
/// 4294967295; with a minus only zero is read.
pub proof fn a_number_is_read_as_written(text: &str, r: Option<u32>)
    requires
        call_ensures(parse_number, (text,), r),
    ensures
        text@.len() > 0 && crate::text::all_decimal(text@) ==> {
            &&& reads(text@, 10) <= 0xffff_ffff ==> r is Some && r->0 == reads(text@, 10)
            &&& reads(text@, 10) > 0xffff_ffff ==> r is None
        },
        text@.len() > 1 && text@[0] == '+' && crate::text::all_decimal(text@.skip(1)) ==> {
            &&& reads(text@.skip(1), 10) <= 0xffff_ffff ==> r is Some && r->0 == reads(
                text@.skip(1),
                10,
            )
            &&& reads(text@.skip(1), 10) > 0xffff_ffff ==> r is None
        },
        text@.len() > 1 && text@[0] == '-' && crate::text::all_decimal(text@.skip(1)) ==> {
            &&& reads(text@.skip(1), 10) == 0 ==> r == Some(0u32)
            &&& reads(text@.skip(1), 10) != 0 ==> r is None
        },
        !crate::text::all_decimal(text@) && (text@[0] != '+' && text@[0] != '-' || text@.len() <= 1
            || !crate::text::all_decimal(text@.skip(1))) ==> r is None,
        text@.len() == 0 ==> r is None,
{
    let t = text@;
    if t.len() > 0 && all_decimal(t) {
        lemma_reads(t);
        assert('0' <= t[0] <= '9');
    }
    if t.len() > 1 && all_decimal(t.skip(1)) {
        lemma_reads(t.skip(1));
    }
    if t.len() == 1 && (t[0] == '+' || t[0] == '-') {
        assert(t.skip(1).len() == 0);
    }
    if t.len() > 1 && (t[0] == '+' || t[0] == '-') && all_decimal(t) {
        assert('0' <= t[0] <= '9');
    }
    if crate::text::all_decimal(t) {
        assert(all_decimal(t));
    }
    if all_decimal(t) {
        assert(crate::text::all_decimal(t));
    }
    if t.len() > 0 {
        if crate::text::all_decimal(t.skip(1)) {
            assert(all_decimal(t.skip(1)));
        }
        if all_decimal(t.skip(1)) {
            assert(crate::text::all_decimal(t.skip(1)));
        }
    }
}

/// What arguments that were read say, flag by flag and option by option: the preset,
/// the frame rate, or thirty where none is given, and the paths as they stand.
pub proof fn each_argument_says_its_own(given: Given, r: Result<Cli, BadArguments>)
    requires
        call_ensures(Cli::from_given, (given,), r),
        given.0.len() == 5,
        given.1.len() == 2,
        r is Ok,
    ensures
        r->Ok_0.sequence_mp4 == given.0[0],
        r->Ok_0.register == given.0[1],
        r->Ok_0.unregister == given.0[2],
        r->Ok_0.print_extensions == given.0[3],
        r->Ok_0.quiet == given.0[4],
        given.1[0] is None ==> r->Ok_0.preset is None,
        given.1[0] is Some ==> r->Ok_0.preset is Some && r->Ok_0.preset->0@ == given.1[0]->0@,
        given.1[1] is None ==> r->Ok_0.fps == 30,
        given.1[1] is Some ==> number_of(given.1[1]->0@) == Some(r->Ok_0.fps),
        models(r->Ok_0.paths@) == models(given.2@),
{
    let g = given_model(given);
    assert(g.options[0] == opt_model(given.1[0]) && g.options[1] == opt_model(given.1[1]));
    let c = r->Ok_0;
    assert(outcome(r) == Ok::<CliModel, BadModel>(c@));
    assert(c@.preset == opt_model(c.preset) && c@.paths == models(c.paths@));
}

/// Arguments are accepted exactly where a frame rate that is given is a number and
/// stands with a sequence, no path is empty, and no two modes are asked for.
pub proof fn sound_arguments_are_accepted(given: Given, r: Result<Cli, BadArguments>)
    requires
        call_ensures(Cli::from_given, (given,), r),
        given.0.len() == 5,
        given.1.len() == 2,
    ensures
        r is Ok <==> {
            &&& given.1[1] is Some ==> number_of(given.1[1]->0@) is Some && given.0[0]
            &&& forall|i: int| 0 <= i < given.2.len() ==> (#[trigger] given.2[i])@.len() > 0
            &&& !(given.1[0] is Some && (given.0[0] || given.0[1] || given.0[2] || given.0[3]))
            &&& !(given.0[0] && (given.0[1] || given.0[2] || given.0[3]))
            &&& !(given.0[1] && (given.0[2] || given.0[3]))
            &&& !(given.0[2] && given.0[3])
        },
        given.1[1] is Some && number_of(given.1[1]->0@) is None <==> (
        r matches Err(BadArguments::NotANumber(text)) && text@ == given.1[1]->0@),
{
    let g = given_model(given);
    assert(g.options[0] == opt_model(given.1[0]) && g.options[1] == opt_model(given.1[1]));
    assert(g.rest == models(given.2@) && g.rest.len() == given.2.len());
    assert forall|i: int| 0 <= i < given.2.len() implies g.rest[i] == (#[trigger] given.2[i])@ by {}
    let a = asked(g);
    assert(a[0] == (given.1[0] is Some) && a[1] == given.0[0] && a[2] == given.0[1]);
    assert(a[3] == given.0[2] && a[4] == given.0[3]);
    let none_empty = forall|i: int|
        0 <= i < given.2.len() ==> (#[trigger] given.2[i])@.len() > 0;
    if none_empty {
        assert forall|i: int| 0 <= i < g.rest.len() implies (#[trigger] g.rest[i]).len() > 0 by {
            assert(given.2[i]@.len() > 0);
        }
    } else {
        let i = choose|i: int| 0 <= i < given.2.len() && (#[trigger] given.2[i])@.len() == 0;
        assert(g.rest[i].len() == 0);
    }
    if !conflicting(a) {
        assert forall|i: int, j: int| 0 <= i < j < 5 implies !(#[trigger] a[i] && #[trigger] a[j]) by {
            if a[i] && a[j] {
                lemma_two_asked(a, i, j);
            }
        }
        assert(!(a[0] && a[1]) && !(a[0] && a[2]) && !(a[0] && a[3]) && !(a[0] && a[4]));
        assert(!(a[1] && a[2]) && !(a[1] && a[3]) && !(a[1] && a[4]));
        assert(!(a[2] && a[3]) && !(a[2] && a[4]) && !(a[3] && a[4]));
    } else {
        let (i, j) = choose|i: int, j: int| first_two(a, i, j);
        assert(a[i] && a[j]);
    }
    match r {
        Ok(c) => {
            assert(outcome(r) is Ok);
        },
        Err(e) => {
            assert(outcome(r) is Err);
        },
    }
}

/// What is wrong with arguments is said in words.
pub proof fn what_is_wrong_is_said(bad: &BadArguments, r: String)
    requires
        call_ensures(BadArguments::message, (bad,), r),
    ensures
        match bad {
            BadArguments::Conflict(a, b) => r@ == "the argument '"@ + a@ + "' cannot be used with '"@
                + b@ + "'"@,
            BadArguments::FpsAlone => r@ == "the argument '--fps <FPS>' needs '--sequence-mp4'"@,
            BadArguments::NotANumber(text) => r@ == "invalid value '"@ + text@
                + "' for '--fps <FPS>'"@,
            BadArguments::EmptyPath => r@
                == "a value is required for '[PATH]...' but none was supplied"@,
        },
{
}

/// A drive's letter, a colon and a quote are repaired to the root of that drive; any
/// other argument stays as it is.
pub proof fn only_a_drive_root_is_repaired(arg: &String, r: String)
    requires
        call_ensures(repair_drive_root, (arg,), r),
    ensures
        r@[0] == arg@[0] || arg@.len() == 0,
        arg@.len() == 3 && ('a' <= arg@[0] <= 'z' || 'A' <= arg@[0] <= 'Z') && arg@[1] == ':'
            && arg@[2] == '"' ==> r@ == seq![arg@[0], ':', '\\'],
        !(arg@.len() == 3 && ('a' <= arg@[0] <= 'z' || 'A' <= arg@[0] <= 'Z') && arg@[1] == ':'
            && arg@[2] == '"') ==> r@ == arg@,
{
}

/// A command line is read by what clap makes of it, with these flags and options: it
/// is refused where clap refuses it, and what is accepted says what clap found, flag
/// by flag.
pub proof fn a_command_line_is_read_by_its_flags(
    version: &String,
    args: &Vec<String>,
    r: Result<Cli, CliError>,
)
    requires
        call_ensures(Cli::try_parse_from, (version, args), r),
    ensures
        ({
            let found = understood(
                seq!["sequence-mp4"@, "register"@, "unregister"@, "print-extensions"@, "quiet"@],
                seq!["preset"@, "fps"@],
                models(args@),
            );
            &&& found is None <==> (r matches Err(e) && e is Refused)
            &&& r is Ok ==> {
                &&& found is Some
                &&& r->Ok_0.sequence_mp4 == found->0.flags[0]
                &&& r->Ok_0.register == found->0.flags[1]
                &&& r->Ok_0.unregister == found->0.flags[2]
                &&& r->Ok_0.print_extensions == found->0.flags[3]
                &&& r->Ok_0.quiet == found->0.flags[4]
                &&& opt_model(r->Ok_0.preset) == found->0.options[0]
                &&& found->0.options[1] is None ==> r->Ok_0.fps == 30
                &&& found->0.options[1] is Some ==> number_of(found->0.options[1]->0) == Some(
                    r->Ok_0.fps,
                )
                &&& models(r->Ok_0.paths@) == found->0.rest
            }
        }),
{
    if let Ok(c) = r {
        assert(c@.preset == opt_model(c.preset) && c@.paths == models(c.paths@));
    }
}

/// How the mode at a place is written, among preset, sequence, register, unregister and
/// print.
pub open spec fn written_as(i: int) -> Seq<char> {
    seq![
        "--preset <NAME>"@,
        "--sequence-mp4"@,
        "--register"@,
        "--unregister"@,
        "--print-extensions"@,
    ][i]
}

/// Where two modes are asked for, and the values can be read, the first two are told, as
/// they are written; a frame rate without a sequence is told where they are not; and an
/// empty path where the frame rate can be read.
pub proof fn what_is_wrong_with_arguments_is_told(
    given: Given,
    r: Result<Cli, BadArguments>,
    i: int,
    j: int,
)
    requires
        call_ensures(Cli::from_given, (given,), r),
        given.0.len() == 5,
        given.1.len() == 2,
        given.1[1] is Some ==> number_of(given.1[1]->0@) is Some,
    ensures
        ({
            let asked = seq![
                given.1[0] is Some,
                given.0[0],
                given.0[1],
                given.0[2],
                given.0[3],
            ];
            let paths = forall|k: int| 0 <= k < given.2.len() ==> (#[trigger] given.2[k])@.len() > 0;
            &&& !paths ==> (r matches Err(e) && e is EmptyPath)
            &&& paths && 0 <= i < j < 5 && asked[i] && asked[j] && (forall|k: int|
                0 <= k < j && k != i ==> !asked[k]) ==> (r matches Err(BadArguments::Conflict(a, b))
                && a@ == written_as(i) && b@ == written_as(j))
            &&& r matches Err(e) ==> (e is FpsAlone ==> given.1[1] is Some && !given.0[0])
        }),
{
    let g = given_model(given);
    assert(g.options[0] == opt_model(given.1[0]) && g.options[1] == opt_model(given.1[1]));
    assert(g.rest == models(given.2@) && g.rest.len() == given.2.len());
    assert forall|k: int| 0 <= k < given.2.len() implies g.rest[k] == (#[trigger] given.2[k])@ by {}
    let a = asked(g);
    let paths = forall|k: int| 0 <= k < given.2.len() ==> (#[trigger] given.2[k])@.len() > 0;
    if paths {
        assert forall|k: int| 0 <= k < g.rest.len() implies (#[trigger] g.rest[k]).len() > 0 by {
            assert(given.2[k]@.len() > 0);
        }
    } else {
        let k = choose|k: int| 0 <= k < given.2.len() && (#[trigger] given.2[k])@.len() == 0;
        assert(g.rest[k].len() == 0);
    }
    let asks = seq![given.1[0] is Some, given.0[0], given.0[1], given.0[2], given.0[3]];
    assert(a =~= asks);
    if paths && 0 <= i < j < 5 && asks[i] && asks[j] && (forall|k: int|
        0 <= k < j && k != i ==> !asks[k]) {
        assert(first_two(a, i, j));
        let (x, y) = choose|x: int, y: int|
            #[trigger] first_two(a, x, y) && outcome(r) == Err::<CliModel, BadModel>(
                BadModel::Conflict(mode_name(x), mode_name(y)),
            );
        assert(x == i && y == j) by {
            if y < j {
                assert(!a[y] || y == i);
                assert(!a[x] || x == i);
            }
            if j < y {
                assert(!a[j] || j == x);
                assert(!a[i] || i == x);
            }
        }
        assert(mode_name(i) == written_as(i) && mode_name(j) == written_as(j));
    }
    if let Err(e) = r {
        assert(outcome(r) == Err::<CliModel, BadModel>(e@));
    }
}

} // verus!
