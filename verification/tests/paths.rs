use kuvatin::order::{
    contains, insert_sorted, remove_sorted, search, sort_distinct, without, Ordered, Place,
};
use kuvatin::paths::{codes, Drive, FilePath, Part, Prefix};
use kuvatin::sorted_map::SortedMap;
use kuvatin::text::{contains_text, lossy_text, push_hex, push_padded, trim, trim_end_of};

fn path(parts: Vec<Part>) -> FilePath {
    FilePath { parts }
}

fn name(s: &str) -> Part {
    Part::Name(codes(s))
}

fn drive(letter: u8) -> Part {
    Part::Prefix(Prefix::Disk(Drive { letter }))
}

fn p(s: &str) -> FilePath {
    path(vec![name(s)])
}

#[test]
fn a_name_has_a_stem_and_an_extension() {
    let f = p("kuva.v2.PNG");
    assert_eq!(f.file_name().as_deref(), Some("kuva.v2.PNG"));
    assert_eq!(f.file_stem().as_deref(), Some("kuva.v2"));
    assert_eq!(f.extension().as_deref(), Some("PNG"));
    assert_eq!(p(".hidden").extension(), None);
    assert_eq!(p(".hidden").file_stem().as_deref(), Some(".hidden"));
    assert_eq!(p("name.").extension().as_deref(), Some(""));
    let root = path(vec![drive(b'C'), Part::RootDir]);
    assert_eq!(root.file_name(), None);
    assert_eq!(root.extension(), None);
    assert_eq!(root.name_or_empty(), "");
    assert_eq!(path(vec![name("a"), Part::ParentDir]).file_name(), None);
}

/// A name that is no valid text is shown with a stand-in for what is not, and
/// is not taken for text.
#[test]
fn a_name_that_is_no_text_is_shown_all_the_same() {
    let odd = path(vec![Part::Name(vec!['x' as u32, 0xD800, '.' as u32, 'a' as u32])]);
    assert_eq!(odd.file_name().as_deref(), Some("x\u{FFFD}.a"));
    assert_eq!(odd.valid_name(), None);
    assert_eq!(odd.file_stem(), None);
    assert_eq!(odd.extension().as_deref(), Some("a"));
    assert_eq!(p("Työ.png").valid_name().as_deref(), Some("Työ.png"));
    assert_eq!(lossy_text(&vec![0x41, 0x110000, 0x10FFFF]), "A\u{FFFD}\u{10FFFF}");
}

#[test]
fn names_are_joined_and_extensions_replaced() {
    let dir = path(vec![Part::RootDir, name("work")]);
    let f = dir.join("a.log");
    assert_eq!(f, path(vec![Part::RootDir, name("work"), name("a.log")]));
    assert_eq!(f.with_extension("log.1").file_name().as_deref(), Some("a.log.1"));
    assert_eq!(f.with_extension("").file_name().as_deref(), Some("a"));
    assert_eq!(p("bare").with_extension("x").file_name().as_deref(), Some("bare.x"));
    let root = path(vec![Part::RootDir]);
    assert_eq!(root.with_extension("x"), root);
    assert!(f.same(&f.clone()) && !f.same(&dir));
}

/// Lists of paths are in the order of their components.
#[test]
fn paths_are_listed_in_order_and_once() {
    let list = sort_distinct(&vec![
        p("b"),
        path(vec![name("a"), name("z")]),
        p("a b"),
        p("b"),
        path(vec![Part::RootDir]),
        p("a"),
    ]);
    assert_eq!(
        list,
        vec![
            path(vec![Part::RootDir]),
            p("a"),
            path(vec![name("a"), name("z")]),
            p("a b"),
            p("b"),
        ]
    );
    assert_eq!(search(&list, &p("a b")), Ok(3));
    assert_eq!(search(&list, &p("aa")), Err(4));
    assert!(contains(&list, &p("b")) && !contains(&list, &p("c")));
    let mut few = vec![p("a"), p("c")];
    insert_sorted(&mut few, p("b"));
    insert_sorted(&mut few, p("b"));
    assert_eq!(few, vec![p("a"), p("b"), p("c")]);
    remove_sorted(&mut few, &p("a"));
    remove_sorted(&mut few, &p("x"));
    assert_eq!(few, vec![p("b"), p("c")]);
    assert_eq!(without(&list, &few).len(), 4);
}

#[test]
fn a_map_by_path_keeps_one_value_for_each() {
    let mut m: SortedMap<FilePath, (u32, u32, u32, u32)> = SortedMap::new();
    assert!(m.is_empty());
    m.insert(p("b"), (1, 1, 1, 1));
    m.insert(p("a"), (2, 2, 2, 2));
    m.insert(p("b"), (3, 3, 3, 3));
    assert_eq!(m.len(), 2);
    assert_eq!(m.key_at(0), &p("a"));
    assert_eq!(m.get(&p("b")), Some(&(3, 3, 3, 3)));
    m.remove(&p("b"));
    m.remove(&p("x"));
    assert!(!m.contains_key(&p("b")) && m.contains_key(&p("a")));
    m.clear();
    assert!(m.is_empty());
}

#[test]
fn text_is_trimmed_padded_and_searched() {
    assert_eq!(trim("\u{3000} a b\t\n"), "a b");
    assert_eq!(trim("\u{2003}"), "");
    assert_eq!(trim_end_of("frame_-. ", "_-. "), "frame");
    assert_eq!(trim_end_of("_-", "_-"), "");
    assert!(contains_text("abcabd", "abd") && !contains_text("ab", "abc"));
    assert!(contains_text("x", ""));
    let mut s = String::new();
    push_padded(&mut s, 7, 3);
    push_hex(&mut s, 0xbeef, 6);
    assert_eq!(s, "00700beef");
}

/// A drive is one drive in either case of its letter, and a path keeps the case
/// that it was spelled in.
#[test]
fn a_drive_has_no_case() {
    let upper = path(vec![drive(b'C'), Part::RootDir, name("a.png")]);
    let lower = path(vec![drive(b'c'), Part::RootDir, name("a.png")]);
    assert!(upper.same(&lower) && upper == lower);
    assert_ne!(upper, path(vec![drive(b'd'), Part::RootDir, name("a.png")]));
    assert_ne!(upper, path(vec![drive(b'C'), Part::RootDir, name("A.png")]));
    let list = sort_distinct(&vec![lower, upper]);
    assert_eq!(list.len(), 1);
    match &list[0].parts[0] {
        Part::Prefix(Prefix::Disk(d)) => assert_eq!(d.letter, b'c'),
        other => panic!("{other:?}"),
    }
}

/// Prefixes are in the order of their kinds, a share by its server and then its
/// folder.
#[test]
fn prefixes_are_in_the_order_of_their_kinds() {
    let x = || codes("x");
    let list = vec![
        Prefix::Verbatim(x()),
        Prefix::VerbatimShare(x(), x()),
        Prefix::VerbatimDisk(Drive { letter: b'z' }),
        Prefix::Device(codes("COM1")),
        Prefix::Share(codes("a"), codes("z")),
        Prefix::Share(codes("ab"), codes("a")),
        Prefix::Share(codes("ab"), codes("b")),
        Prefix::Disk(Drive { letter: b'B' }),
        Prefix::Disk(Drive { letter: b'c' }),
        Prefix::Disk(Drive { letter: b'D' }),
    ];
    let paths: Vec<FilePath> = list.into_iter().map(|x| path(vec![Part::Prefix(x)])).collect();
    for i in 0..paths.len() {
        for j in 0..paths.len() {
            let expected = match (i < j, i == j) {
                (true, _) => Place::Before,
                (_, true) => Place::Same,
                _ => Place::After,
            };
            assert_eq!(paths[i].place(&paths[j]), expected, "{i} {j}");
        }
        assert_eq!(paths[i].place(&path(vec![Part::RootDir])), Place::Before);
    }
}
