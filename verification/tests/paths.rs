use google_img_translate::collect::{collect_images, Entry, EntryKind, Listing};
use google_img_translate::config::Config;
use google_img_translate::path::{
    extension, is_supported, join, mime_of, parent, rel_display, show_path, strip_base,
    write_path, Name, OsPath, Prefix, PrefixKind, Separator,
};
use google_img_translate::worker::output_path;

fn name(gap: &str, text: &str) -> Name {
    Name { gap: gap.to_string(), bytes: text.as_bytes().to_vec(), text: text.to_string() }
}

fn prefix(kind: PrefixKind, text: &str) -> Option<Prefix> {
    Some(Prefix {
        kind,
        identity: text.to_ascii_uppercase().into_bytes(),
        bytes: text.as_bytes().to_vec(),
        text: text.to_string(),
    })
}

fn path(lead: &str, names: &[&str]) -> OsPath {
    let (drive, root) = match lead.strip_prefix("C:") {
        Some(root) => (prefix(PrefixKind::Drive, "C:"), root),
        None => (None, lead),
    };
    OsPath {
        prefix: drive,
        root: if root.is_empty() { None } else { Some(root.to_string()) },
        names: names
            .iter()
            .enumerate()
            .map(|(i, n)| name(if i == 0 { "" } else { "/" }, n))
            .collect(),
        trail: String::new(),
    }
}

/// `/in//a/./b.png/`, as it was given.
fn spelled_out() -> OsPath {
    OsPath {
        prefix: None,
        root: Some("/".to_string()),
        names: vec![name("", "in"), name("//", "a"), name("/./", "b.png")],
        trail: "/".to_string(),
    }
}

fn shown(p: &OsPath) -> String {
    show_path(p)
}

#[test]
fn paths_are_shown_as_they_were_given() {
    assert_eq!(shown(&path("/", &["in", "a.png"])), "/in/a.png");
    assert_eq!(shown(&path("", &["in", "a.png"])), "in/a.png");
    assert_eq!(shown(&path("/", &[])), "/");
    assert_eq!(shown(&path("C:\\", &["图片", "x.jpg"])), "C:\\图片/x.jpg");
    assert_eq!(shown(&spelled_out()), "/in//a/./b.png/");
    assert_eq!(write_path(&spelled_out()), b"/in//a/./b.png/".to_vec());
}

#[test]
fn spelling_does_not_change_where_a_path_leads() {
    let input = OsPath { trail: "/".to_string(), ..path("/", &["in"]) };
    assert_eq!(rel_display(&input, &spelled_out()), "a/./b.png");
    assert_eq!(rel_display(&spelled_out(), &path("/", &["in", "a", "b.png", "c"])), "c");
    assert_eq!(shown(&parent(&spelled_out()).unwrap()), "/in//a");
    let out = OsPath { trail: "//".to_string(), ..path("", &["out"]) };
    assert_eq!(shown(&join(&out, &path("", &["a"]), Separator::Slash)), "out//a");
    assert_eq!(shown(&join(&out, &path("", &[]), Separator::Slash)), "out//");
    assert_eq!(shown(&join(&path("", &["out"]), &path("", &[]), Separator::Slash)), "out/");
}

#[test]
fn names_that_are_no_text_are_shown_as_the_system_shows_them() {
    let p = OsPath {
        names: vec![Name {
            gap: String::new(),
            bytes: vec![b'a', 0xed, 0xa0, 0x80, b'.', b'p', b'n', b'g'],
            text: "a\u{FFFD}.png".to_string(),
        }],
        ..path("", &[])
    };
    assert_eq!(shown(&p), "a\u{FFFD}.png");
    assert_eq!(write_path(&p), vec![b'a', 0xed, 0xa0, 0x80, b'.', b'p', b'n', b'g']);
    assert!(is_supported(&p));
}

#[test]
fn separators_are_put_where_they_are_missing() {
    let tail = path("", &["x.jpg"]);
    let windows = Separator::Backslash;
    assert_eq!(shown(&join(&path("C:\\", &["图片"]), &tail, windows)), "C:\\图片\\x.jpg");
    assert_eq!(shown(&join(&path("C:\\", &[]), &tail, windows)), "C:\\x.jpg");
    assert_eq!(shown(&join(&path("C:", &[]), &tail, windows)), "C:x.jpg");
    let slashed = OsPath { trail: "/".to_string(), ..path("", &["in"]) };
    assert_eq!(shown(&join(&slashed, &tail, windows)), "in/x.jpg");
    let odd = OsPath { trail: "\\".to_string(), ..path("", &["in"]) };
    assert_eq!(shown(&join(&odd, &tail, Separator::Slash)), "in\\/x.jpg");
    assert_eq!(shown(&join(&path("", &[]), &tail, Separator::Slash)), "x.jpg");
}

#[test]
fn rel_display_strips_the_input_directory() {
    let input = path("/", &["in"]);
    assert_eq!(rel_display(&input, &path("/", &["in", "详情", "1.jpg"])), "详情/1.jpg");
    assert_eq!(rel_display(&input, &input), "");
}

#[test]
fn rel_display_shows_a_foreign_path_whole() {
    let input = path("/", &["in"]);
    assert_eq!(rel_display(&input, &path("/", &["other", "a.jpg"])), "/other/a.jpg");
    assert_eq!(rel_display(&input, &path("", &["in", "a.jpg"])), "in/a.jpg");
    assert_eq!(rel_display(&path("", &[]), &path("/", &["a.jpg"])), "/a.jpg");
}

#[test]
fn strip_base_compares_whole_names() {
    assert!(strip_base(&path("/", &["in"]), &path("/", &["input", "a.jpg"])).is_none());
    assert!(strip_base(&path("/", &["in", "a.jpg"]), &path("/", &["in"])).is_none());
}

#[test]
fn join_keeps_an_absolute_tail() {
    let out = path("/", &["out"]);
    let relative = path("", &["a", "b.jpg"]);
    assert_eq!(shown(&join(&out, &relative, Separator::Slash)), "/out/a/b.jpg");
    assert_eq!(shown(&join(&out, &path("/", &["b.jpg"]), Separator::Slash)), "/b.jpg");
}

#[test]
fn parent_of_a_bare_root_is_missing() {
    assert_eq!(shown(&parent(&path("/", &["a", "b"])).unwrap()), "/a");
    assert_eq!(shown(&parent(&path("", &["a"])).unwrap()), "");
    assert!(parent(&path("/", &[])).is_none());
}

#[test]
fn extensions_follow_the_last_dot() {
    assert_eq!(extension(&path("", &["a.tar.gz"])), Some(b"gz".to_vec()));
    assert_eq!(extension(&path("", &["a."])), Some(Vec::new()));
    assert_eq!(extension(&path("", &[".png"])), None);
    assert_eq!(extension(&path("", &[".a.png"])), Some(b"png".to_vec()));
    assert_eq!(extension(&path("", &["png"])), None);
    assert_eq!(extension(&path("", &[".."])), None);
    assert_eq!(extension(&path("/", &[])), None);
    assert_eq!(extension(&path("", &["a.png", "b"])), None);
}

#[test]
fn supported_extensions_ignore_case() {
    for name in ["a.jpg", "a.JPEG", "a.Png", "a.webp", "b.c.WEBP"] {
        assert!(is_supported(&path("", &[name])), "{}", name);
    }
    for name in ["a.gif", "a.jpgx", "a", ".jpg", "a.jp", "a.bmp", "a.pn\u{FF47}"] {
        assert!(!is_supported(&path("", &[name])), "{}", name);
    }
}

#[test]
fn media_types_go_by_extension() {
    assert_eq!(mime_of(&path("", &["a.PNG"])), "image/png");
    assert_eq!(mime_of(&path("", &["a.WebP"])), "image/webp");
    assert_eq!(mime_of(&path("", &["a.jpg"])), "image/jpeg");
    assert_eq!(mime_of(&path("", &["a.jpeg"])), "image/jpeg");
    assert_eq!(mime_of(&path("", &["a"])), "image/jpeg");
}

fn named(name: &str, kind: EntryKind) -> Entry {
    Entry::Named { name: name.as_bytes().to_vec(), text: name.to_string(), kind }
}

fn tree() -> Listing {
    Listing::Entries(vec![
        named("主图", EntryKind::Directory(Listing::Entries(vec![named("3.png", EntryKind::File)]))),
        named("b.jpg", EntryKind::File),
        named("notes.txt", EntryKind::File),
        named("pipe.png", EntryKind::Other),
        named("a.jpg", EntryKind::File),
        named(
            "sub",
            EntryKind::Directory(Listing::Entries(vec![
                named("2.WEBP", EntryKind::File),
                named("deep.png", EntryKind::Directory(Listing::Entries(vec![]))),
            ])),
        ),
        named("sub.jpg", EntryKind::File),
    ])
}

fn gather(input: &OsPath, listing: &Listing, recursive: bool) -> Result<Vec<OsPath>, String> {
    collect_images(input, listing, recursive, Separator::Slash)
}

fn collected(recursive: bool) -> Vec<String> {
    gather(&path("/", &["in"]), &tree(), recursive)
        .unwrap()
        .iter()
        .map(shown)
        .collect()
}

#[test]
fn recursive_collection_takes_all_levels_in_path_order() {
    assert_eq!(
        collected(true),
        vec![
            "/in/a.jpg",
            "/in/b.jpg",
            "/in/sub/2.WEBP",
            "/in/sub.jpg",
            "/in/主图/3.png",
        ]
    );
}

#[test]
fn flat_collection_takes_the_top_level_only() {
    assert_eq!(collected(false), vec!["/in/a.jpg", "/in/b.jpg", "/in/sub.jpg"]);
}

#[test]
fn collection_does_not_depend_on_the_order_of_reading() {
    let forward = Listing::Entries(vec![
        named("x.png", EntryKind::File),
        named("y.png", EntryKind::File),
    ]);
    let backward = Listing::Entries(vec![
        named("y.png", EntryKind::File),
        named("x.png", EntryKind::File),
    ]);
    let input = path("", &[]);
    let a: Vec<String> =
        gather(&input, &forward, true).unwrap().iter().map(shown).collect();
    let b: Vec<String> =
        gather(&input, &backward, true).unwrap().iter().map(shown).collect();
    assert_eq!(a, vec!["x.png", "y.png"]);
    assert_eq!(a, b);
}

#[test]
fn the_first_failure_fails_the_collection() {
    let input = path("/", &["in"]);
    let listing = Listing::Entries(vec![
        named("a.jpg", EntryKind::File),
        named("locked", EntryKind::Directory(Listing::Unreadable("denied".to_string()))),
        Entry::Unreadable("broken".to_string()),
    ]);
    assert_eq!(gather(&input, &listing, true).err(), Some("denied".to_string()));
    assert_eq!(gather(&input, &listing, false).err(), Some("broken".to_string()));
    let gone = Listing::Unreadable("gone".to_string());
    assert_eq!(gather(&input, &gone, false).err(), Some("gone".to_string()));
}

fn config(input: OsPath, output: OsPath) -> Config {
    Config {
        input,
        output,
        source: "auto".to_string(),
        target: "en".to_string(),
        timeout_nanos: 90_000_000_000,
        headless: false,
        overwrite: false,
        chrome: None,
        recursive: true,
        concurrency: 1,
    }
}

#[test]
fn results_repeat_the_structure_of_the_input() {
    let cfg = config(path("/", &["in"]), path("/", &["out"]));
    for (image, result) in [
        (path("/", &["in", "a.jpg"]), "/out/a.jpg"),
        (path("/", &["in", "详情", "1.jpg"]), "/out/详情/1.jpg"),
        (path("/", &["in", "详情", "细节", "2.jpg"]), "/out/详情/细节/2.jpg"),
        (path("/", &["in", "主图", "3.png"]), "/out/主图/3.png"),
    ] {
        assert_eq!(shown(&output_path(&cfg, &image, Separator::Slash)), result);
    }
}

#[test]
fn settings_are_cloned_field_by_field() {
    let mut cfg = config(path("/", &["in"]), path("", &["out"]));
    cfg.chrome = Some(b"/usr/bin/chrome".to_vec());
    let copy = cfg.clone();
    assert_eq!(shown(&copy.input), "/in");
    assert_eq!(shown(&copy.output), "out");
    assert_eq!(copy.chrome, Some(b"/usr/bin/chrome".to_vec()));
    assert_eq!((copy.source.as_str(), copy.target.as_str()), ("auto", "en"));
    assert!(copy.recursive && !copy.headless && !copy.overwrite);
}

#[test]
fn different_images_have_different_results() {
    let cfg = config(path("/", &["in"]), path("", &[]));
    let a = output_path(&cfg, &path("/", &["in", "a", "1.jpg"]), Separator::Slash);
    let b = output_path(&cfg, &path("/", &["in", "b", "1.jpg"]), Separator::Slash);
    assert_eq!((shown(&a), shown(&b)), ("a/1.jpg".to_string(), "b/1.jpg".to_string()));
}

#[test]
fn a_shown_path_leads_back_to_its_image() {
    for input in [
        path("/", &["in"]),
        path("/", &[]),
        path("", &[]),
        path("", &["."]),
        OsPath { trail: "//".to_string(), ..path("", &["in"]) },
    ] {
        let images = gather(&input, &tree(), true).unwrap();
        let names: Vec<String> = images.iter().map(|i| rel_display(&input, i)).collect();
        assert_eq!(names, vec!["a.jpg", "b.jpg", "sub/2.WEBP", "sub.jpg", "主图/3.png"]);
        for (image, shown_name) in images.iter().zip(&names) {
            let parts: Vec<&str> = shown_name.split('/').collect();
            let back = join(&input, &path("", &parts), Separator::Slash);
            assert_eq!(shown(&back), shown(image));
            assert_eq!(write_path(&back), write_path(image));
        }
    }
}

#[test]
fn images_begin_with_the_input_as_it_was_given() {
    let input = OsPath { trail: "/".to_string(), ..path("", &[".", "in"]) };
    let images = gather(&input, &tree(), false).unwrap();
    assert_eq!(shown(&images[0]), "./in/a.jpg");
    let images = collect_images(&path("", &["in"]), &tree(), true, Separator::Backslash).unwrap();
    assert_eq!(shown(&images[2]), "in\\sub\\2.WEBP");
}

#[test]
fn a_root_directory_keeps_the_drive_it_is_seen_from() {
    let rooted = path("\\", &["b"]);
    let out = path("C:\\", &["out"]);
    assert_eq!(shown(&join(&out, &rooted, Separator::Backslash)), "C:\\b");
    assert_eq!(shown(&join(&path("C:", &["x"]), &rooted, Separator::Backslash)), "C:\\b");
    assert_eq!(shown(&join(&path("", &["x"]), &rooted, Separator::Backslash)), "\\b");
    let drive = OsPath { prefix: prefix(PrefixKind::Drive, "D:"), ..path("", &["b"]) };
    assert_eq!(shown(&join(&out, &drive, Separator::Backslash)), "D:b");
    assert_eq!(shown(&join(&path("/", &["out"]), &path("/", &["b"]), Separator::Slash)), "/b");
}

#[test]
fn drives_are_compared_however_they_are_written() {
    let lower = OsPath { prefix: prefix(PrefixKind::Drive, "c:"), ..path("\\", &["in"]) };
    assert_eq!(rel_display(&lower, &path("C:\\", &["in", "a.jpg"])), "a.jpg");
    assert_eq!(rel_display(&path("C:", &[]), &path("C:\\", &["a.jpg"])), "\\a.jpg");
    assert_eq!(rel_display(&path("C:", &[]), &path("C:", &["a.jpg"])), "a.jpg");
    assert_eq!(rel_display(&path("\\", &[]), &path("C:\\", &["a.jpg"])), "C:\\a.jpg");
    assert_eq!(rel_display(&path("C:\\", &[]), &path("C:", &["a.jpg"])), "C:a.jpg");
}

#[test]
fn a_share_implies_its_root_directory() {
    let share = OsPath {
        prefix: prefix(PrefixKind::Other, "\\\\s\\x"),
        root: Some(String::new()),
        ..path("", &[])
    };
    let a = join(&share, &path("", &["a"]), Separator::Backslash);
    assert_eq!(shown(&a), "\\\\s\\x\\a");
    assert_eq!(shown(&parent(&a).unwrap()), "\\\\s\\x\\");
    assert_eq!(rel_display(&share, &a), "a");
    assert_eq!(shown(&join(&a, &path("\\", &["b"]), Separator::Backslash)), "\\\\s\\x\\b");
    assert_eq!(shown(&join(&share, &path("", &[]), Separator::Backslash)), "\\\\s\\x\\");
}

#[test]
fn a_verbatim_path_is_written_anew() {
    let base = OsPath {
        prefix: prefix(PrefixKind::Verbatim, "\\\\?\\C:"),
        root: Some("\\".to_string()),
        names: vec![name("", "in"), name("\\\\", "sub")],
        trail: "\\".to_string(),
    };
    let seen = |tail: &OsPath| shown(&join(&base, tail, Separator::Backslash));
    assert_eq!(seen(&path("", &["a", "b"])), "\\\\?\\C:\\in\\sub\\a\\b");
    assert_eq!(seen(&path("", &[".", "a"])), "\\\\?\\C:\\in\\sub\\a");
    assert_eq!(seen(&path("", &["..", "..", "..", "a"])), "\\\\?\\C:\\a");
    assert_eq!(seen(&path("\\", &["a"])), "\\\\?\\C:\\a");
    assert_eq!(seen(&path("", &[])), "\\\\?\\C:\\in\\\\sub\\");
    let bare = OsPath { prefix: prefix(PrefixKind::Verbatim, "\\\\?\\C:"), ..path("", &[]) };
    assert_eq!(shown(&join(&bare, &path("", &["a"]), Separator::Backslash)), "\\\\?\\C:\\a");
}

#[test]
fn a_dot_is_a_component_only_at_the_beginning() {
    let dotted = path("", &[".", "a"]);
    let joined = join(&path("", &["out"]), &dotted, Separator::Slash);
    assert_eq!((shown(&joined).as_str(), joined.names.len()), ("out/./a", 2));
    assert_eq!(rel_display(&path("", &["out"]), &joined), "a");
    let alone = join(&path("/", &[]), &path("", &["."]), Separator::Slash);
    assert_eq!((shown(&alone).as_str(), alone.names.len()), ("/.", 0));
    let first = join(&path("", &[]), &dotted, Separator::Slash);
    assert_eq!((shown(&first).as_str(), first.names.len()), ("./a", 2));
}

#[test]
fn a_spelled_out_path_is_shown_so_that_it_leads_back() {
    let input = path("/", &["in"]);
    let image = OsPath { trail: String::new(), ..spelled_out() };
    assert_eq!(rel_display(&input, &image), "a/./b.png");
    let back = join(&input, &path("", &["a", "b.png"]), Separator::Slash);
    assert_eq!(rel_display(&image, &back), "");
    assert_eq!(rel_display(&back, &image), "");
}
