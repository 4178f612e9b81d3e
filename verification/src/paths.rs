//! File paths as the platform splits them, and their order.

use crate::order::{dictionary, first_at, lemma_dictionary_order, strict_total, Duplicate, Ordered, Place};
use crate::text::{lossy, lossy_text, scalar};
use vstd::prelude::*;

verus! {

/// A drive, by its letter as it is spelled. In either case it is one drive.
#[derive(Clone, Copy, Debug)]
pub struct Drive {
    pub letter: u8,
}

impl View for Drive {
    type V = u32;

    /// The letter in upper case.
    open spec fn view(&self) -> u32 {
        if 97 <= self.letter <= 122 {
            (self.letter - 32) as u32
        } else {
            self.letter as u32
        }
    }
}

impl Drive {
    /// The letter in upper case.
    pub fn upper(&self) -> (r: u32)
        ensures
            r == self@,
    {
        if 97 <= self.letter && self.letter <= 122 {
            (self.letter - 32) as u32
        } else {
            self.letter as u32
        }
    }
}

impl vstd::std_specs::cmp::PartialEqSpecImpl for Drive {
    open spec fn obeys_eq_spec() -> bool {
        true
    }

    open spec fn eq_spec(&self, other: &Drive) -> bool {
        self@ == other@
    }
}

impl PartialEq for Drive {
    fn eq(&self, other: &Drive) -> (r: bool) {
        self.upper() == other.upper()
    }
}

impl Eq for Drive {

}

/// What a path on a drive, a share or a device begins with.
#[derive(PartialEq, Eq, Debug)]
pub enum Prefix {
    /// `\\?\volume`, where what follows is taken as it stands.
    Verbatim(Vec<u32>),
    /// `\\?\UNC\server\share`.
    VerbatimShare(Vec<u32>, Vec<u32>),
    /// `\\?\C:`.
    VerbatimDisk(Drive),
    /// `\\.\COM1`.
    Device(Vec<u32>),
    /// `\\server\share`.
    Share(Vec<u32>, Vec<u32>),
    /// `C:`.
    Disk(Drive),
}

/// One component of a path. A name is kept as its code points, a lone
/// surrogate standing for itself, so that every file name has one.
#[derive(PartialEq, Eq, Debug)]
pub enum Part {
    Prefix(Prefix),
    RootDir,
    CurDir,
    ParentDir,
    Name(Vec<u32>),
}

/// A path, as its components. Two spellings of one path are the same path: they
/// have the same components, but for the case of a drive's letter.
#[derive(PartialEq, Eq, Debug)]
pub struct FilePath {
    pub parts: Vec<Part>,
}

/// What a component is: the number of its kind, then its texts. The kinds of
/// prefixes are numbered among themselves behind the number of prefixes.
pub type PartModel = Seq<Seq<u32>>;

/// What a path is: what its components are.
pub type PathModel = Seq<PartModel>;

impl View for Prefix {
    type V = PartModel;

    open spec fn view(&self) -> PartModel {
        match self {
            Prefix::Verbatim(text) => seq![seq![0u32, 0u32], text@],
            Prefix::VerbatimShare(server, share) => seq![seq![0u32, 1u32], server@, share@],
            Prefix::VerbatimDisk(drive) => seq![seq![0u32, 2u32], seq![drive@]],
            Prefix::Device(text) => seq![seq![0u32, 3u32], text@],
            Prefix::Share(server, share) => seq![seq![0u32, 4u32], server@, share@],
            Prefix::Disk(drive) => seq![seq![0u32, 5u32], seq![drive@]],
        }
    }
}

impl View for Part {
    type V = PartModel;

    open spec fn view(&self) -> PartModel {
        match self {
            Part::Prefix(prefix) => prefix@,
            Part::RootDir => seq![seq![1u32]],
            Part::CurDir => seq![seq![2u32]],
            Part::ParentDir => seq![seq![3u32]],
            Part::Name(text) => seq![seq![4u32], text@],
        }
    }
}

impl View for FilePath {
    type V = PathModel;

    open spec fn view(&self) -> PathModel {
        self.parts@.map_values(|p: Part| p@)
    }
}

/// The order of code points.
pub open spec fn code_order() -> spec_fn(u32, u32) -> bool {
    |a: u32, b: u32| a < b
}

/// The order of texts: code point by code point.
pub open spec fn text_order() -> spec_fn(Seq<u32>, Seq<u32>) -> bool {
    dictionary(code_order())
}

/// The order of components: by kind, then by their texts.
pub open spec fn part_order() -> spec_fn(PartModel, PartModel) -> bool {
    dictionary(text_order())
}

/// The order of paths: component by component.
pub open spec fn path_before(a: PathModel, b: PathModel) -> bool {
    dictionary(part_order())(a, b)
}

/// Paths are in a strict total order: of two different paths exactly one comes
/// first, and coming first carries over.
pub proof fn path_order_is_total(a: PathModel, b: PathModel, c: PathModel)
    ensures
        !path_before(a, a),
        path_before(a, b) && path_before(b, c) ==> path_before(a, c),
        a == b || path_before(a, b) || path_before(b, a),
        !(path_before(a, b) && path_before(b, a)),
{
    assert(strict_total(code_order()));
    lemma_dictionary_order(code_order());
    lemma_dictionary_order(text_order());
    lemma_dictionary_order(part_order());
    let d = dictionary(part_order());
    assert(!d(a, a));
    assert(d(a, b) && d(b, c) ==> d(a, c));
    assert(a == b || d(a, b) || d(b, a));
    assert(d(a, b) && d(b, a) ==> d(a, a));
}

fn place_text(a: &Vec<u32>, b: &Vec<u32>) -> (r: Place)
    ensures
        r == Place::Before ==> text_order()(a@, b@),
        r == Place::Same ==> a@ == b@,
        r == Place::After ==> text_order()(b@, a@),
{
    let mut i: usize = 0;
    while i < a.len() && i < b.len()
        invariant
            i <= a.len(),
            i <= b.len(),
            forall|j: int| 0 <= j < i ==> a[j] == b[j],
        decreases a.len() - i,
    {
        if a[i] < b[i] {
            assert(first_at(code_order(), a@, b@, i as int));
            return Place::Before;
        }
        if a[i] > b[i] {
            assert(first_at(code_order(), b@, a@, i as int));
            return Place::After;
        }
        i += 1;
    }
    if i < b.len() {
        assert(first_at(code_order(), a@, b@, i as int));
        Place::Before
    } else if i < a.len() {
        assert(first_at(code_order(), b@, a@, i as int));
        Place::After
    } else {
        assert(a@ =~= b@);
        Place::Same
    }
}

/// A component that agrees with another up to its text `k` comes first where
/// that text does.
proof fn lemma_first_text(a: PartModel, b: PartModel, k: int)
    requires
        0 <= k < a.len(),
        k < b.len(),
        forall|i: int| 0 <= i < k ==> a[i] == b[i],
    ensures
        text_order()(a[k], b[k]) ==> part_order()(a, b),
        text_order()(b[k], a[k]) ==> part_order()(b, a),
{
    if text_order()(a[k], b[k]) {
        assert(first_at(text_order(), a, b, k));
    }
    if text_order()(b[k], a[k]) {
        assert(first_at(text_order(), b, a, k));
    }
}

/// How a number stands to another.
fn place_number(a: u32, b: u32) -> (r: Place)
    ensures
        r == Place::Before <==> a < b,
        r == Place::Same <==> a == b,
{
    if a < b {
        Place::Before
    } else if a == b {
        Place::Same
    } else {
        Place::After
    }
}

impl Prefix {
    /// The number of the prefix's kind.
    fn kind(&self) -> (r: u32)
        ensures
            self@.len() > 0,
            self@[0] == seq![0u32, r],
    {
        match self {
            Prefix::Verbatim(_) => 0,
            Prefix::VerbatimShare(_, _) => 1,
            Prefix::VerbatimDisk(_) => 2,
            Prefix::Device(_) => 3,
            Prefix::Share(_, _) => 4,
            Prefix::Disk(_) => 5,
        }
    }

    fn place(&self, other: &Prefix) -> (r: Place)
        ensures
            r == Place::Before ==> part_order()(self@, other@),
            r == Place::Same ==> self@ == other@,
            r == Place::After ==> part_order()(other@, self@),
    {
        let a: u32 = self.kind();
        let b: u32 = other.kind();
        proof {
            lemma_first_text(self@, other@, 0);
            if a < b {
                assert(first_at(code_order(), self@[0], other@[0], 1));
            }
            if b < a {
                assert(first_at(code_order(), other@[0], self@[0], 1));
            }
        }
        match (self, other) {
            (Prefix::Verbatim(x), Prefix::Verbatim(y)) => {
                proof {
                    lemma_first_text(self@, other@, 1);
                }
                place_text(x, y)
            },
            (Prefix::VerbatimShare(server, share), Prefix::VerbatimShare(host, folder)) => {
                assert(self@ == share_of(1, server@, share@));
                assert(other@ == share_of(1, host@, folder@));
                place_share(server, share, host, folder)
            },
            (Prefix::VerbatimDisk(x), Prefix::VerbatimDisk(y)) => {
                proof {
                    lemma_first_drive(seq![0u32, 2u32], x@, y@);
                    lemma_first_drive(seq![0u32, 2u32], y@, x@);
                }
                place_number(x.upper(), y.upper())
            },
            (Prefix::Device(x), Prefix::Device(y)) => {
                proof {
                    lemma_first_text(self@, other@, 1);
                }
                place_text(x, y)
            },
            (Prefix::Share(server, share), Prefix::Share(host, folder)) => {
                assert(self@ == share_of(4, server@, share@));
                assert(other@ == share_of(4, host@, folder@));
                place_share(server, share, host, folder)
            },
            (Prefix::Disk(x), Prefix::Disk(y)) => {
                proof {
                    lemma_first_drive(seq![0u32, 5u32], x@, y@);
                    lemma_first_drive(seq![0u32, 5u32], y@, x@);
                }
                place_number(x.upper(), y.upper())
            },
            _ => place_number(a, b),
        }
    }
}

/// A drive comes first where its letter does.
proof fn lemma_first_drive(kind: Seq<u32>, a: u32, b: u32)
    ensures
        a < b ==> part_order()(seq![kind, seq![a]], seq![kind, seq![b]]),
{
    if a < b {
        assert(first_at(code_order(), seq![a], seq![b], 0));
        lemma_first_text(seq![kind, seq![a]], seq![kind, seq![b]], 1);
    }
}

/// What a share of a kind is.
spec fn share_of(kind: u32, server: Seq<u32>, share: Seq<u32>) -> PartModel {
    seq![seq![0u32, kind], server, share]
}

/// How a share stands to another of the same kind: by the server, then by the
/// folder.
fn place_share(
    server: &Vec<u32>,
    share: &Vec<u32>,
    host: &Vec<u32>,
    folder: &Vec<u32>,
) -> (r: Place)
    ensures
        forall|kind: u32|
            {
                let a = #[trigger] share_of(kind, server@, share@);
                let b = share_of(kind, host@, folder@);
                &&& r == Place::Before ==> part_order()(a, b)
                &&& r == Place::Same ==> a == b
                &&& r == Place::After ==> part_order()(b, a)
            },
{
    let first = place_text(server, host);
    let second = place_text(share, folder);
    let r = if first != Place::Same {
        first
    } else {
        second
    };
    proof {
        assert forall|kind: u32|
            {
                let a = #[trigger] share_of(kind, server@, share@);
                let b = share_of(kind, host@, folder@);
                &&& r == Place::Before ==> part_order()(a, b)
                &&& r == Place::Same ==> a == b
                &&& r == Place::After ==> part_order()(b, a)
            } by {
            let a = share_of(kind, server@, share@);
            let b = share_of(kind, host@, folder@);
            lemma_first_text(a, b, 1);
            if first == Place::Same {
                lemma_first_text(a, b, 2);
            }
        }
    }
    r
}

impl Part {
    /// The number of the component's kind.
    fn kind(&self) -> (r: u32)
        ensures
            self@.len() > 0,
            self@[0].len() > 0,
            r == self@[0][0],
            self is Prefix <==> r == 0,
            self is Name <==> r == 4,
    {
        match self {
            Part::Prefix(_) => 0,
            Part::RootDir => 1,
            Part::CurDir => 2,
            Part::ParentDir => 3,
            Part::Name(_) => 4,
        }
    }

    fn place(&self, other: &Part) -> (r: Place)
        ensures
            r == Place::Before ==> part_order()(self@, other@),
            r == Place::Same ==> self@ == other@,
            r == Place::After ==> part_order()(other@, self@),
    {
        let a: u32 = self.kind();
        let b: u32 = other.kind();
        proof {
            lemma_first_text(self@, other@, 0);
            if a < b {
                assert(first_at(code_order(), self@[0], other@[0], 0));
            }
            if b < a {
                assert(first_at(code_order(), other@[0], self@[0], 0));
            }
        }
        match (self, other) {
            (Part::Prefix(x), Part::Prefix(y)) => x.place(y),
            (Part::Name(x), Part::Name(y)) => {
                proof {
                    lemma_first_text(self@, other@, 1);
                }
                place_text(x, y)
            },
            _ => place_number(a, b),
        }
    }
}

impl Clone for Prefix {
    fn clone(&self) -> (r: Prefix)
        ensures
            r@ == self@,
    {
        match self {
            Prefix::Verbatim(text) => Prefix::Verbatim(text.clone()),
            Prefix::VerbatimShare(server, share) => {
                Prefix::VerbatimShare(server.clone(), share.clone())
            },
            Prefix::VerbatimDisk(drive) => Prefix::VerbatimDisk(*drive),
            Prefix::Device(text) => Prefix::Device(text.clone()),
            Prefix::Share(server, share) => Prefix::Share(server.clone(), share.clone()),
            Prefix::Disk(drive) => Prefix::Disk(*drive),
        }
    }
}

impl Clone for Part {
    fn clone(&self) -> (r: Part)
        ensures
            r@ == self@,
    {
        match self {
            Part::Prefix(prefix) => Part::Prefix(prefix.clone()),
            Part::RootDir => Part::RootDir,
            Part::CurDir => Part::CurDir,
            Part::ParentDir => Part::ParentDir,
            Part::Name(text) => Part::Name(text.clone()),
        }
    }
}

/// The name that a path ends in, empty where it ends in none.
pub open spec fn name_of(path: PathModel) -> Seq<char> {
    if path.len() > 0 && path.last()[0][0] == 4 {
        lossy(path.last()[1])
    } else {
        seq![]
    }
}

/// Whether a path ends in a name.
pub open spec fn has_name(path: PathModel) -> bool {
    path.len() > 0 && path.last()[0][0] == 4
}

impl FilePath {
    /// The text of the name that the path ends in.
    pub fn file_name(&self) -> (r: Option<String>)
        ensures
            r is Some <==> has_name(self@),
            r is Some ==> r->0@ == name_of(self@),
    {
        match self.name() {
            Some(name) => Some(lossy_text(name)),
            None => None,
        }
    }

    /// The text of the name that the path ends in, empty where it ends in none.
    pub fn name_or_empty(&self) -> (r: String)
        ensures
            r@ == name_of(self@),
    {
        match self.file_name() {
            Some(name) => name,
            None => String::new(),
        }
    }

    /// Whether both are the same path.
    pub fn same(&self, other: &FilePath) -> (r: bool)
        ensures
            r == (self@ == other@),
    {
        self.place(other) == Place::Same
    }
}

impl Ordered for FilePath {
    open spec fn before(a: PathModel, b: PathModel) -> bool {
        path_before(a, b)
    }

    proof fn order_is_total(a: PathModel, b: PathModel, c: PathModel) {
        path_order_is_total(a, b, c);
    }

    fn place(&self, other: &FilePath) -> (r: Place) {
        proof {
            path_order_is_total(self@, other@, self@);
        }
        let ghost a = self@;
        let ghost b = other@;
        let mut i: usize = 0;
        while i < self.parts.len() && i < other.parts.len()
            invariant
                a == self@,
                b == other@,
                i <= self.parts.len(),
                i <= other.parts.len(),
                forall|j: int| 0 <= j < i ==> a[j] == b[j],
                !(path_before(a, b) && path_before(b, a)),
                path_before(a, b) ==> a != b,
                path_before(b, a) ==> a != b,
            decreases self.parts.len() - i,
        {
            match self.parts[i].place(&other.parts[i]) {
                Place::Before => {
                    assert(first_at(part_order(), a, b, i as int));
                    return Place::Before;
                },
                Place::After => {
                    assert(first_at(part_order(), b, a, i as int));
                    return Place::After;
                },
                Place::Same => {},
            }
            i += 1;
        }
        if i < other.parts.len() {
            assert(first_at(part_order(), a, b, i as int));
            Place::Before
        } else if i < self.parts.len() {
            assert(first_at(part_order(), b, a, i as int));
            Place::After
        } else {
            assert(a =~= b);
            Place::Same
        }
    }
}

impl Duplicate for FilePath {
    fn duplicate(&self) -> (r: FilePath) {
        let mut parts: Vec<Part> = Vec::new();
        let mut i: usize = 0;
        while i < self.parts.len()
            invariant
                i <= self.parts.len(),
                parts.len() == i,
                forall|j: int| 0 <= j < i ==> (#[trigger] parts[j])@ == self.parts[j]@,
            decreases self.parts.len() - i,
        {
            parts.push(self.parts[i].clone());
            i += 1;
        }
        assert(parts@.map_values(|p: Part| p@) =~= self.parts@.map_values(|p: Part| p@));
        FilePath { parts }
    }
}

impl Clone for FilePath {
    fn clone(&self) -> (r: FilePath)
        ensures
            r@ == self@,
    {
        self.duplicate()
    }
}

/// The code points of the name that a path ends in.
pub open spec fn name_codes(path: PathModel) -> Seq<u32> {
    path.last()[1]
}

/// Where a code point is last, or -1.
pub open spec fn last_code(codes: Seq<u32>, code: u32) -> int
    decreases codes.len(),
{
    if codes.len() == 0 {
        -1
    } else if codes.last() == code {
        codes.len() - 1
    } else {
        last_code(codes.drop_last(), code)
    }
}

/// The code point of a full stop.
pub const DOT: u32 = 46;

/// A name without its extension: what stands before its last full stop, unless
/// that is the name's first character.
pub open spec fn stem_codes(name: Seq<u32>) -> Seq<u32> {
    if last_code(name, DOT) > 0 {
        name.take(last_code(name, DOT))
    } else {
        name
    }
}

/// The extension of a name: what stands after its last full stop, unless that
/// is the name's first character.
pub open spec fn extension_codes(name: Seq<u32>) -> Option<Seq<u32>> {
    if last_code(name, DOT) > 0 {
        Some(name.skip(last_code(name, DOT) + 1))
    } else {
        None
    }
}

/// The text of code points, where all of them are characters.
pub open spec fn text_of(codes: Seq<u32>) -> Option<Seq<char>> {
    if forall|i: int| 0 <= i < codes.len() ==> scalar(#[trigger] codes[i]) {
        Some(lossy(codes))
    } else {
        None
    }
}

/// The text of the name that a path ends in, less its extension; none where the
/// path ends in no name, or the text is no valid text.
pub open spec fn stem_of(path: PathModel) -> Option<Seq<char>> {
    if has_name(path) {
        text_of(stem_codes(name_codes(path)))
    } else {
        None
    }
}

/// The text of a path's extension; none where it has none, or the text is no
/// valid text.
pub open spec fn extension_of(path: PathModel) -> Option<Seq<char>> {
    if has_name(path) && extension_codes(name_codes(path)) is Some {
        text_of(extension_codes(name_codes(path))->0)
    } else {
        None
    }
}

/// The text of the name that a path ends in; none where it ends in no name, or
/// the text is no valid text.
pub open spec fn valid_name_of(path: PathModel) -> Option<Seq<char>> {
    if has_name(path) {
        text_of(name_codes(path))
    } else {
        None
    }
}

/// The text of the code points from `start` to `end`, where all of them are
/// characters.
fn text_between(codes: &Vec<u32>, start: usize, end: usize) -> (r: Option<String>)
    requires
        start <= end <= codes.len(),
    ensures
        match text_of(codes@.subrange(start as int, end as int)) {
            Some(text) => r is Some && r->0@ == text,
            None => r is None,
        },
{
    let ghost part = codes@.subrange(start as int, end as int);
    let mut s = String::new();
    let mut i: usize = start;
    assert(s@ =~= lossy(part.take(0)));
    while i < end
        invariant
            start <= i <= end <= codes.len(),
            part == codes@.subrange(start as int, end as int),
            s@ == lossy(part.take(i - start)),
            forall|j: int| 0 <= j < i - start ==> scalar(#[trigger] part[j]),
        decreases end - i,
    {
        assert(part[i - start] == codes[i as int]);
        match char::from_u32(codes[i]) {
            Some(c) => s.push(c),
            None => {
                assert(!scalar(part[i - start]));
                return None;
            },
        }
        assert(s@ =~= lossy(part.take(i - start + 1)));
        i += 1;
    }
    assert(part.take(i - start) =~= part);
    Some(s)
}

/// Where the last full stop of a name is; 0 where it has none.
fn last_dot(codes: &Vec<u32>) -> (r: usize)
    ensures
        r <= codes.len(),
        last_code(codes@, DOT) > 0 ==> r == last_code(codes@, DOT) && r < codes.len(),
        last_code(codes@, DOT) <= 0 ==> r == 0,
{
    let mut n: usize = codes.len();
    assert(codes@.take(n as int) =~= codes@);
    while n > 0
        invariant
            n <= codes.len(),
            last_code(codes@, DOT) == last_code(codes@.take(n as int), DOT),
        decreases n,
    {
        assert(codes@.take(n as int).last() == codes[n - 1]);
        assert(codes@.take(n as int).drop_last() =~= codes@.take(n - 1));
        if codes[n - 1] == DOT {
            return n - 1;
        }
        n -= 1;
    }
    0
}

impl FilePath {
    /// The code points of the name that the path ends in.
    fn name(&self) -> (r: Option<&Vec<u32>>)
        ensures
            r is Some <==> has_name(self@),
            r is Some ==> r->0@ == name_codes(self@),
    {
        let n: usize = self.parts.len();
        if n == 0 {
            return None;
        }
        assert(self@.last() == self.parts[n - 1]@);
        match &self.parts[n - 1] {
            Part::Name(text) => {
                Some(text)
            },
            _ => None,
        }
    }

    /// The name that the path ends in without its extension, where it is valid
    /// text.
    pub fn file_stem(&self) -> (r: Option<String>)
        ensures
            match stem_of(self@) {
                Some(text) => r is Some && r->0@ == text,
                None => r is None,
            },
    {
        match self.name() {
            Some(name) => {
                let dot: usize = last_dot(name);
                let end: usize = if dot > 0 {
                    dot
                } else {
                    name.len()
                };
                assert(name@.subrange(0, end as int) =~= stem_codes(name@));
                text_between(name, 0, end)
            },
            None => None,
        }
    }

    /// The path's extension, where it has one and it is valid text.
    pub fn extension(&self) -> (r: Option<String>)
        ensures
            match extension_of(self@) {
                Some(text) => r is Some && r->0@ == text,
                None => r is None,
            },
    {
        match self.name() {
            Some(name) => {
                let dot: usize = last_dot(name);
                if dot == 0 {
                    return None;
                }
                assert(name@.subrange(dot + 1, name.len() as int) =~= name@.skip(dot + 1));
                text_between(name, dot + 1, name.len())
            },
            None => None,
        }
    }

    /// The name that the path ends in, where it is valid text.
    pub fn valid_name(&self) -> (r: Option<String>)
        ensures
            match valid_name_of(self@) {
                Some(text) => r is Some && r->0@ == text,
                None => r is None,
            },
    {
        match self.name() {
            Some(name) => {
                assert(name@.subrange(0, name.len() as int) =~= name@);
                text_between(name, 0, name.len())
            },
            None => None,
        }
    }
}

/// The code points of a text.
pub open spec fn codes_of(text: Seq<char>) -> Seq<u32> {
    text.map_values(|c: char| c as u32)
}

/// What a folder holds under a name.
pub open spec fn inside(folder: PathModel, name: Seq<char>) -> PathModel {
    folder.push(seq![seq![4u32], codes_of(name)])
}

/// The code points of a text.
pub fn codes(text: &str) -> (r: Vec<u32>)
    ensures
        r@ == codes_of(text@),
{
    let t = crate::text::chars_of(text);
    let mut r: Vec<u32> = Vec::new();
    let mut i: usize = 0;
    while i < t.len()
        invariant
            i <= t.len(),
            t@ == text@,
            r@ == codes_of(text@).take(i as int),
        decreases t.len() - i,
    {
        r.push(crate::text::code(t[i]));
        assert(r@ =~= codes_of(text@).take(i + 1));
        i += 1;
    }
    assert(codes_of(text@).take(i as int) =~= codes_of(text@));
    r
}

impl FilePath {
    /// What the folder holds under a name.
    pub fn join(&self, name: &str) -> (r: FilePath)
        ensures
            r@ == inside(self@, name@),
    {
        let mut r = self.clone();
        let ghost before = r.parts@;
        r.parts.push(Part::Name(codes(name)));
        assert(r@ =~= inside(self@, name@)) by {
            assert(r.parts@.map_values(|p: Part| p@) =~= before.map_values(|p: Part| p@).push(
                seq![seq![4u32], codes_of(name@)],
            ));
        }
        r
    }
}

/// A name that was joined to a folder is the name that the path ends in.
pub proof fn a_joined_name_is_the_name(folder: PathModel, name: Seq<char>)
    ensures
        valid_name_of(inside(folder, name)) == Some(name),
{
    let codes = name_codes(inside(folder, name));
    assert forall|i: int| 0 <= i < name.len() implies scalar(#[trigger] codes[i]) && lossy(
        codes,
    )[i] == name[i] by {
        lemma_code(name[i]);
    }
    assert(lossy(codes) =~= name);
}

/// A character is the one of its code point.
proof fn lemma_code(c: char)
    ensures
        scalar(c as u32),
        (c as u32) as char == c,
{
}

/// A path with another extension: what stands before the last full stop of its
/// name, and, unless the extension is empty, a full stop and the extension. A
/// path without a name stays as it is.
pub open spec fn with_extension_of(path: PathModel, extension: Seq<char>) -> PathModel {
    if has_name(path) {
        path.update(
            path.len() - 1,
            seq![
                seq![4u32],
                stem_codes(name_codes(path)) + if extension.len() == 0 {
                    seq![]
                } else {
                    seq![DOT] + codes_of(extension)
                },
            ],
        )
    } else {
        path
    }
}

impl FilePath {
    /// The path with another extension.
    pub fn with_extension(&self, extension: &str) -> (r: FilePath)
        ensures
            r@ == with_extension_of(self@, extension@),
    {
        let mut r = self.clone();
        let ghost before = r.parts@;
        match self.name() {
            Some(name) => {
                let dot: usize = last_dot(name);
                let end: usize = if dot > 0 {
                    dot
                } else {
                    name.len()
                };
                let mut new: Vec<u32> = Vec::new();
                let mut i: usize = 0;
                while i < end
                    invariant
                        i <= end <= name.len(),
                        new@ == name@.take(i as int),
                    decreases end - i,
                {
                    new.push(name[i]);
                    assert(new@ =~= name@.take(i + 1));
                    i += 1;
                }
                assert(new@ =~= stem_codes(name@));
                if !extension.is_empty() {
                    new.push(DOT);
                    let mut e = codes(extension);
                    new.append(&mut e);
                }
                let n: usize = r.parts.len();
                let ghost text = new@;
                assert(r@.len() == self@.len());
                r.parts.set(n - 1, Part::Name(new));
                proof {
                    let part = seq![seq![4u32], text];
                    assert(r.parts@.map_values(|p: Part| p@) =~= before.map_values(
                        |p: Part| p@,
                    ).update(n - 1, part));
                    assert(text =~= stem_codes(name@) + if extension@.len() == 0 {
                        seq![]
                    } else {
                        seq![DOT] + codes_of(extension@)
                    });
                }
                r
            },
            None => r,
        }
    }
}

// ---------------------------------------------------------------------------
// Laws
// ---------------------------------------------------------------------------

/// Where a kind of component comes among the others.
pub open spec fn rank(p: Part) -> int {
    match p {
        Part::Prefix(_) => 0,
        Part::RootDir => 1,
        Part::CurDir => 2,
        Part::ParentDir => 3,
        Part::Name(_) => 4,
    }
}

/// A path comes first where it does at the component where the two part.
proof fn lemma_parting(a: &FilePath, b: &FilePath, k: int, r: Place)
    requires
        call_ensures(FilePath::place, (a, b), r),
        0 <= k < a.parts.len(),
        k < b.parts.len(),
        forall|i: int| 0 <= i < k ==> (#[trigger] a.parts[i])@ == b.parts[i]@,
    ensures
        part_order()(a.parts[k]@, b.parts[k]@) ==> r is Before,
        part_order()(b.parts[k]@, a.parts[k]@) ==> r is After,
{
    assert forall|i: int| 0 <= i < k implies a@[i] == b@[i] by {
        assert(a.parts[i]@ == b.parts[i]@);
    }
    assert(a@[k] == a.parts[k]@ && b@[k] == b.parts[k]@);
    if part_order()(a.parts[k]@, b.parts[k]@) {
        assert(first_at(part_order(), a@, b@, k));
    }
    if part_order()(b.parts[k]@, a.parts[k]@) {
        assert(first_at(part_order(), b@, a@, k));
    }
}

proof fn lemma_ranks(a: Part, b: Part)
    ensures
        rank(a) < rank(b) ==> part_order()(a@, b@),
{
    if rank(a) < rank(b) {
        assert(a@[0][0] == rank(a) && b@[0][0] == rank(b));
        assert(code_order()(a@[0][0], b@[0][0]));
        assert(first_at(code_order(), a@[0], b@[0], 0));
        assert(text_order()(a@[0], b@[0]));
        lemma_first_text(a@, b@, 0);
    }
}

/// Paths stand in the order of their components. A path comes before what it holds.
/// Where two part, a prefix comes before a root, that before a reference to the
/// folder itself, that before one to the folder above, and that before a name.
pub proof fn paths_stand_in_the_order_of_their_components(
    a: &FilePath,
    b: &FilePath,
    k: int,
    r: Place,
)
    requires
        call_ensures(FilePath::place, (a, b), r),
        0 <= k <= a.parts.len(),
        k <= b.parts.len(),
        forall|i: int| 0 <= i < k ==> (#[trigger] a.parts[i])@ == b.parts[i]@,
    ensures
        k == a.parts.len() && k < b.parts.len() ==> r is Before,
        k < a.parts.len() && k == b.parts.len() ==> r is After,
        k == a.parts.len() && k == b.parts.len() ==> r is Same,
        k < a.parts.len() && k < b.parts.len() && rank(a.parts[k]) < rank(b.parts[k])
            ==> r is Before,
        k < a.parts.len() && k < b.parts.len() && rank(a.parts[k]) > rank(b.parts[k])
            ==> r is After,
{
    assert forall|i: int| 0 <= i < k implies a@[i] == b@[i] by {
        assert(a.parts[i]@ == b.parts[i]@);
    }
    if k < a.parts.len() && k < b.parts.len() {
        lemma_parting(a, b, k, r);
        lemma_ranks(a.parts[k], b.parts[k]);
        lemma_ranks(b.parts[k], a.parts[k]);
    } else if k == a.parts.len() && k == b.parts.len() {
        assert(a@ =~= b@);
    } else if k == a.parts.len() {
        assert(first_at(part_order(), a@, b@, k));
    } else {
        assert(first_at(part_order(), b@, a@, k));
    }
}

/// Where two paths part at a name, the name decides by its code points, as in a
/// dictionary: a name comes before one that goes on where it ends, and where two
/// first differ the lower code point comes first.
pub proof fn names_stand_in_dictionary_order(a: &FilePath, b: &FilePath, k: int, n: int, r: Place)
    requires
        call_ensures(FilePath::place, (a, b), r),
        0 <= k < a.parts.len(),
        k < b.parts.len(),
        forall|i: int| 0 <= i < k ==> (#[trigger] a.parts[i])@ == b.parts[i]@,
    ensures
        a.parts[k] matches Part::Name(x) ==> (b.parts[k] matches Part::Name(y) ==> (0 <= n
            <= x.len() && n <= y.len() && x@.take(n) == y@.take(n) ==> {
            &&& n == x.len() && n < y.len() ==> r is Before
            &&& n < x.len() && n == y.len() ==> r is After
            &&& n < x.len() && n < y.len() && x[n] < y[n] ==> r is Before
            &&& n < x.len() && n < y.len() && x[n] > y[n] ==> r is After
        })),
{
    lemma_parting(a, b, k, r);
    if let Part::Name(x) = a.parts[k] {
        if let Part::Name(y) = b.parts[k] {
            if 0 <= n <= x.len() && n <= y.len() && x@.take(n) == y@.take(n) {
                assert forall|i: int| 0 <= i < n implies x@[i] == y@[i] by {
                    assert(x@.take(n)[i] == x@[i] && y@.take(n)[i] == y@[i]);
                }
                let p = a.parts[k]@;
                let q = b.parts[k]@;
                assert(p[0] == q[0] && p[1] == x@ && q[1] == y@);
                lemma_first_text(p, q, 1);
                if n < y.len() && (n == x.len() || x[n] < y[n]) {
                    assert(first_at(code_order(), x@, y@, n));
                }
                if n < x.len() && (n == y.len() || y[n] < x[n]) {
                    assert(first_at(code_order(), y@, x@, n));
                }
            }
        }
    }
}

/// Two paths are the same only where they have the same components: the same names,
/// code point by code point, and the same drives, in whatever case.
pub proof fn the_same_path_has_the_same_components(a: &FilePath, b: &FilePath, r: bool, i: int)
    requires
        call_ensures(FilePath::same, (a, b), r),
    ensures
        r <==> a.parts.len() == b.parts.len() && forall|k: int|
            0 <= k < a.parts.len() ==> (#[trigger] a.parts[k])@ == b.parts[k]@,
        r && 0 <= i < a.parts.len() ==> rank(a.parts[i]) == rank(b.parts[i]),
        r && 0 <= i < a.parts.len() ==> (a.parts[i] matches Part::Name(x) ==> (
        b.parts[i] matches Part::Name(y) ==> x@ == y@)),
        r && 0 <= i < a.parts.len() ==> (a.parts[i] matches Part::Prefix(Prefix::Disk(x)) ==> (
        b.parts[i] matches Part::Prefix(Prefix::Disk(y)) ==> x.letter == y.letter || x.letter
            == y.letter + 32 && 'a' as int <= x.letter <= 'z' as int || y.letter == x.letter + 32
            && 'a' as int <= y.letter <= 'z' as int)),
{
    assert(a@.len() == a.parts.len() && b@.len() == b.parts.len());
    assert forall|k: int| 0 <= k < a@.len() implies #[trigger] a@[k] == a.parts[k]@ by {}
    assert forall|k: int| 0 <= k < b@.len() implies #[trigger] b@[k] == b.parts[k]@ by {}
    if a.parts.len() == b.parts.len() && forall|k: int|
        0 <= k < a.parts.len() ==> (#[trigger] a.parts[k])@ == b.parts[k]@ {
        assert(a@ =~= b@);
    }
    if r {
        assert forall|k: int| 0 <= k < a.parts.len() implies (#[trigger] a.parts[k])@
            == b.parts[k]@ by {
            assert(a@[k] == a.parts[k]@ && b@[k] == b.parts[k]@);
        }
    }
    if r && 0 <= i < a.parts.len() {
        let p = a.parts[i];
        let q = b.parts[i];
        assert(p@ == q@);
        assert(p@[0][0] == rank(p) && q@[0][0] == rank(q));
        if let Part::Name(x) = p {
            if let Part::Name(y) = q {
                assert(p@[1] == x@ && q@[1] == y@);
            }
        }
        if let Part::Prefix(Prefix::Disk(x)) = p {
            if let Part::Prefix(Prefix::Disk(y)) = q {
                assert(p@[1][0] == x@ && q@[1][0] == y@);
            }
        }
    }
}

proof fn lemma_last_code(codes: Seq<u32>, code: u32)
    ensures
        -1 <= last_code(codes, code) < codes.len(),
        last_code(codes, code) >= 0 ==> codes[last_code(codes, code)] == code,
        forall|i: int| last_code(codes, code) < i < codes.len() ==> (#[trigger] codes[i]) != code,
    decreases codes.len(),
{
    if codes.len() > 0 && codes.last() != code {
        let less = codes.drop_last();
        lemma_last_code(less, code);
        assert forall|i: int| last_code(codes, code) < i < codes.len() implies (
        #[trigger] codes[i]) != code by {
            if i < less.len() {
                assert(less[i] == codes[i]);
            }
        }
    }
}

/// Whether code points are all characters, and a text is made of them.
pub open spec fn spells(codes: Seq<u32>, text: Seq<char>) -> bool {
    &&& text.len() == codes.len()
    &&& forall|i: int| 0 <= i < codes.len() ==> (#[trigger] text[i]) as u32 == codes[i]
}

proof fn lemma_spells(codes: Seq<u32>)
    ensures
        text_of(codes) matches Some(text) ==> spells(codes, text),
{
}

/// The name that a path ends in, taken apart: what stands before its last full stop,
/// the full stop, and the extension, which has none. A name whose only full stop is
/// its first character has no extension, and is all stem.
pub proof fn a_name_is_its_stem_and_its_extension(
    path: &FilePath,
    name: Option<String>,
    stem: Option<String>,
    extension: Option<String>,
)
    requires
        call_ensures(FilePath::valid_name, (path,), name),
        call_ensures(FilePath::file_stem, (path,), stem),
        call_ensures(FilePath::extension, (path,), extension),
        name is Some,
    ensures
        stem is Some,
        extension is Some ==> {
            &&& name->0@ == stem->0@.push('.') + extension->0@
            &&& stem->0@.len() > 0
            &&& forall|i: int|
                0 <= i < extension->0@.len() ==> (#[trigger] extension->0@[i]) != '.'
        },
        extension is None ==> {
            &&& name->0@ == stem->0@
            &&& forall|i: int| 1 <= i < name->0@.len() ==> (#[trigger] name->0@[i]) != '.'
        },
{
    let codes = name_codes(path@);
    let at = last_code(codes, DOT);
    lemma_last_code(codes, DOT);
    lemma_spells(codes);
    assert(forall|i: int| 0 <= i < codes.len() ==> scalar(#[trigger] codes[i]));
    if at > 0 {
        let before = codes.take(at);
        let after = codes.skip(at + 1);
        assert forall|i: int| 0 <= i < before.len() implies scalar(#[trigger] before[i]) by {
            assert(scalar(codes[i]));
        }
        assert forall|i: int| 0 <= i < after.len() implies scalar(#[trigger] after[i]) by {
            assert(scalar(codes[i + at + 1]));
        }
        lemma_spells(before);
        lemma_spells(after);
        assert(name->0@ =~= stem->0@.push('.') + extension->0@);
        assert forall|i: int| 0 <= i < extension->0@.len() implies (#[trigger] extension->0@[i])
            != '.' by {
            assert(codes[i + at + 1] != DOT);
            assert(extension->0@[i] as u32 == after[i]);
        }
    } else {
        assert forall|i: int| 1 <= i < name->0@.len() implies (#[trigger] name->0@[i]) != '.' by {
            assert(codes[i] != DOT);
            assert(name->0@[i] as u32 == codes[i]);
        }
    }
}

/// The name of a path is the text of its last component, where that is a name and
/// all its code points are characters.
pub proof fn the_name_is_the_last_component(path: &FilePath, name: Option<String>)
    requires
        call_ensures(FilePath::valid_name, (path,), name),
    ensures
        path.parts.len() == 0 ==> name is None,
        path.parts.len() > 0 && !(path.parts@.last() is Name) ==> name is None,
        path.parts.len() > 0 ==> (path.parts@.last() matches Part::Name(codes) ==> {
            &&& name is Some ==> spells(codes@, name->0@)
            &&& name is None ==> exists|i: int|
                0 <= i < codes.len() && !scalar(#[trigger] codes[i])
        }),
{
    if path.parts.len() > 0 {
        assert(path@.last() == path.parts@.last()@);
        if let Part::Name(codes) = path.parts@.last() {
            assert(name_codes(path@) == codes@);
            lemma_spells(codes@);
            if name is None {
                let i = choose|i: int| 0 <= i < codes@.len() && !scalar(#[trigger] codes@[i]);
                assert(!scalar(codes[i]));
            }
        }
    }
}

/// What a folder holds under a name is the folder's components and then the name.
pub proof fn a_joined_path_is_the_folder_and_the_name(folder: &FilePath, name: &str, r: FilePath)
    requires
        call_ensures(FilePath::join, (folder, name), r),
    ensures
        r.parts.len() == folder.parts.len() + 1,
        forall|i: int|
            0 <= i < folder.parts.len() ==> (#[trigger] r.parts[i])@ == folder.parts[i]@,
        r.parts@.last() is Name,
        r.parts@.last() matches Part::Name(codes) ==> spells(codes@, name@),
{
    assert(r@.len() == r.parts.len() && folder@.len() == folder.parts.len());
    assert forall|i: int| 0 <= i < folder.parts.len() implies (#[trigger] r.parts[i])@
        == folder.parts[i]@ by {
        assert(r@[i] == r.parts[i]@ && folder@[i] == folder.parts[i]@);
    }
    let last = r.parts@.last();
    assert(r@.last() == last@);
    assert(last@[0][0] == rank(last));
    if let Part::Name(codes) = last {
        assert(last@[1] == codes@);
        assert(codes@ == codes_of(name@));
    }
}

/// A path with another extension has the same components but for the last, a name:
/// of that name it has what stands before the last full stop past its first
/// character, or all of it, and behind it a full stop and the extension, or nothing
/// where the extension is empty.
pub proof fn only_the_extension_is_replaced(path: &FilePath, extension: &str, r: FilePath)
    requires
        call_ensures(FilePath::with_extension, (path, extension), r),
        path.parts.len() > 0,
    ensures
        r.parts.len() == path.parts.len(),
        forall|i: int|
            0 <= i < path.parts.len() - 1 ==> (#[trigger] r.parts[i])@ == path.parts[i]@,
        !(path.parts@.last() is Name) ==> r@ == path@,
        path.parts@.last() matches Part::Name(codes) ==> (r.parts@.last() matches Part::Name(made)
            && exists|n: int|
            {
                &&& #[trigger] is_stem(codes@, n)
                &&& extension@.len() == 0 ==> made@ == codes@.take(n)
                &&& extension@.len() > 0 ==> made@.len() == n + 1 + extension@.len() && made@.take(n)
                    == codes@.take(n) && made[n] == 46 && spells(made@.skip(n + 1), extension@)
            }),
{
    assert(r@.len() == r.parts.len() && path@.len() == path.parts.len());
    assert forall|i: int| 0 <= i < path.parts.len() - 1 implies (#[trigger] r.parts[i])@
        == path.parts[i]@ by {
        assert(r@[i] == r.parts[i]@ && path@[i] == path.parts[i]@);
    }
    assert(path@.last() == path.parts@.last()@);
    assert(r@.last() == r.parts@.last()@);
    let last = r.parts@.last();
    assert(last@[0][0] == rank(last));
    assert(path.parts@.last()@[0][0] == rank(path.parts@.last()));
    if let Part::Name(codes) = path.parts@.last() {
        assert(name_codes(path@) == codes@);
        lemma_last_code(codes@, DOT);
        let at = last_code(codes@, DOT);
        let n = if at > 0 {
            at
        } else {
            codes@.len() as int
        };
        assert(is_stem(codes@, n));
        assert(codes@.take(n) =~= stem_codes(codes@));
        if let Part::Name(made) = last {
            assert(last@[1] == made@);
            if extension@.len() == 0 {
                assert(made@ =~= codes@.take(n));
            } else {
                assert(made@ == stem_codes(codes@) + (seq![DOT] + codes_of(extension@)));
                assert(made@.take(n) =~= codes@.take(n));
                assert(made@.skip(n + 1) =~= codes_of(extension@));
            }
        }
    }
}

/// Whether the stem of a name has `n` code points: a full stop past the first
/// character follows it, and none comes after that; or there is none at all past the
/// first character, and the stem is the whole name.
pub open spec fn is_stem(name: Seq<u32>, n: int) -> bool {
    ||| {
        &&& 0 < n < name.len()
        &&& name[n] == 46
        &&& forall|i: int| n < i < name.len() ==> (#[trigger] name[i]) != 46
    }
    ||| n == name.len() && forall|i: int| 1 <= i < name.len() ==> (#[trigger] name[i]) != 46
}

/// A path's name as it is shown has a character for each code point: its own, or the
/// replacement character where the code point is none of a character.
pub proof fn a_shown_name_has_a_character_for_each_code_point(
    path: &FilePath,
    r: Option<String>,
    shown: String,
)
    requires
        call_ensures(FilePath::file_name, (path,), r),
        call_ensures(FilePath::name_or_empty, (path,), shown),
    ensures
        r is Some <==> path.parts.len() > 0 && path.parts@.last() is Name,
        r is Some ==> shown@ == r->0@,
        r is None ==> shown@.len() == 0,
        r is Some ==> (path.parts@.last() matches Part::Name(codes) ==> {
            &&& shown@.len() == codes.len()
            &&& forall|i: int|
                0 <= i < codes.len() && scalar(codes[i]) ==> (#[trigger] shown@[i]) as u32
                    == codes[i]
            &&& forall|i: int|
                0 <= i < codes.len() && !scalar(codes[i]) ==> (#[trigger] shown@[i]) == '\u{FFFD}'
        }),
{
    if path.parts.len() > 0 {
        assert(path@.last() == path.parts@.last()@);
        assert(path@.last()[0][0] == rank(path.parts@.last()));
        if let Part::Name(codes) = path.parts@.last() {
            assert(path@.last()[1] == codes@);
        }
    }
}

} // verus!
