use kuvatin::collect::{collect_images, is_dotfile, is_hidden, is_image, Listed, Picked};
use kuvatin::paths::{Drive, FilePath, Part, Prefix};

fn p(name: &str) -> FilePath {
    FilePath {
        parts: vec![
            Part::Name("dir".chars().map(|c| c as u32).collect()),
            Part::Name(name.chars().map(|c| c as u32).collect()),
        ],
    }
}

/// Whether the app reads files of the name's extension.
fn known(name: &str) -> bool {
    let ext = name.rsplit('.').next().unwrap().to_lowercase();
    ["png", "jpg", "tif", "jfif"].contains(&ext.as_str())
}

fn listed(name: &str, attributes: u32) -> Listed {
    Listed {
        path: p(name),
        is_file: true,
        known: known(name),
        attributes,
    }
}

fn file(name: &str) -> Picked {
    Picked::File {
        path: p(name),
        known: known(name),
    }
}

#[test]
fn collects_files_and_folder_contents() {
    let got = collect_images(&vec![Picked::Folder(vec![
        listed("note.txt", 0),
        listed("a.png", 0),
    ])]);
    assert_eq!(got, vec![p("a.png")]);
}

#[test]
fn dedups_and_filters_non_images() {
    let got = collect_images(&vec![
        file("a.JPG"),
        file("a.JPG"),
        file("note.txt"),
        Picked::Neither,
    ]);
    assert_eq!(got, vec![p("a.JPG")]);
}

/// The canonical list applies: `.tif` and `.jfif` are inputs now.
#[test]
fn accepts_every_input_extension() {
    let got = collect_images(&vec![Picked::Folder(vec![
        listed("scan.tif", 0),
        listed("photo.jfif", 0),
    ])]);
    assert_eq!(got, vec![p("photo.jfif"), p("scan.tif")]);
}

/// Dot-files and (on Windows) hidden files inside a folder are skipped;
/// an explicitly selected hidden file is still honoured.
#[test]
fn folder_scan_skips_hidden_and_dotfiles() {
    let got = collect_images(&vec![Picked::Folder(vec![
        listed("a.png", 0),
        listed("._a.png", 0),
        listed("thumb.png", 2),
        listed("system.png", 4),
    ])]);
    assert_eq!(got, vec![p("a.png")], "only the visible file");
    assert_eq!(
        collect_images(&vec![file("thumb.png"), file("._a.png")]),
        vec![p("._a.png"), p("thumb.png")],
        "explicit selection wins"
    );
}

#[test]
fn a_folder_in_a_folder_is_no_image() {
    let mut sub = listed("sub.png", 0);
    sub.is_file = false;
    assert!(collect_images(&vec![Picked::Folder(vec![sub])]).is_empty());
}

#[test]
fn what_a_file_is_shows_in_its_name_and_attributes() {
    assert!(is_image(&p("a.png"), true));
    assert!(!is_image(&p("a.png"), false));
    assert!(!is_image(&p("png"), true), "no extension");
    assert!(is_hidden(2) && is_hidden(4) && is_hidden(0x26) && !is_hidden(0x20));
    assert!(is_dotfile(&p(".a")) && !is_dotfile(&p("a.b")));
}

/// A drive's letter has no case, so two spellings of one file are one file; and
/// what lies on a share comes before what lies on a drive.
#[test]
fn a_file_is_collected_once_however_its_drive_is_spelled() {
    let codes = |t: &str| -> Vec<u32> { t.chars().map(|c| c as u32).collect() };
    let on = |prefix: Prefix| FilePath {
        parts: vec![Part::Prefix(prefix), Part::RootDir, Part::Name(codes("a.png"))],
    };
    let disk = |letter: u8| on(Prefix::Disk(Drive { letter }));
    let share = || on(Prefix::Share(codes("z"), codes("z")));
    let picked = vec![disk(b'c'), disk(b'C'), share(), disk(b'B')]
        .into_iter()
        .map(|path| Picked::File { path, known: true })
        .collect();
    let got = collect_images(&picked);
    assert_eq!(got, vec![share(), disk(b'B'), disk(b'C')]);
}
