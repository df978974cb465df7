use agent_platform_desktop::coder_files::{
    arrange, flatten, view_text, DirItem, Entry, Listing, MAX_ENTRIES, MAX_VIEW_BYTES,
};

fn item(path: &str, is_dir: bool) -> DirItem {
    let name = path.rsplit('/').next().unwrap().to_string();
    DirItem { path: path.into(), name, is_dir }
}

fn names(entries: &[Entry]) -> Vec<String> {
    entries.iter().map(|e| format!("{}{}", "  ".repeat(e.depth), e.name)).collect()
}

/// What a walk of the scratch tree reads, in the order a directory read might
/// hand it back.
fn listings() -> Vec<Listing> {
    vec![
        Listing {
            dir: "/w".into(),
            items: vec![
                item("/w/README.md", false),
                item("/w/node_modules", true),
                item("/w/.agent", true),
                item("/w/src", true),
            ],
        },
        Listing {
            dir: "/w/src".into(),
            items: vec![item("/w/src/app.rs", false), item("/w/src/deep", true)],
        },
        Listing { dir: "/w/src/deep".into(), items: vec![item("/w/src/deep/mod.rs", false)] },
    ]
}

fn skip() -> Vec<String> {
    vec!["node_modules".to_string(), "target".to_string()]
}

#[test]
fn only_opened_directories_are_walked() {
    let shut = flatten("/w", &listings(), &vec![], &skip());
    assert_eq!(names(&shut), vec!["src", "README.md"], "dirs first, build output skipped");

    let one = vec!["/w/src".to_string()];
    assert_eq!(names(&flatten("/w", &listings(), &one, &skip())), vec!["src", "  deep", "  app.rs", "README.md"]);

    let both = vec!["/w/src".to_string(), "/w/src/deep".to_string()];
    assert_eq!(
        names(&flatten("/w", &listings(), &both, &skip())),
        vec!["src", "  deep", "    mod.rs", "  app.rs", "README.md"]
    );
    let rows = flatten("/w", &listings(), &both, &skip());
    assert_eq!(rows[2].path, "/w/src/deep/mod.rs");
    assert!(rows[0].is_dir && !rows[4].is_dir);
}

#[test]
fn a_file_reads_back_and_a_binary_says_so() {
    assert_eq!(view_text(b"hello\nthere\n").unwrap(), "hello\nthere\n");

    assert!(view_text(b"\x89PNG\r\n\x1a\n\x00\x00").unwrap_err().contains("binary"));

    let big = "x".repeat(MAX_VIEW_BYTES * 2);
    let shown = view_text(big.as_bytes()).unwrap();
    assert!(shown.ends_with("bytes]"), "a truncated view says it was truncated");
    assert!(shown.contains(&format!("of {} bytes", big.len())), "and how much it left");
    assert!(shown.len() < big.len());
    assert!(shown.starts_with(&"x".repeat(MAX_VIEW_BYTES)));
}

#[test]
fn a_stray_byte_costs_one_character() {
    let shown = view_text(b"ab\xffcd").unwrap();
    assert_eq!(shown, "ab\u{fffd}cd");
}

#[test]
fn names_sort_without_regard_to_case() {
    let items = vec![item("/w/b.txt", false), item("/w/A.txt", false), item("/w/Zed", true), item("/w/alpha", true)];
    let names: Vec<String> = arrange(&items, &skip()).into_iter().map(|i| i.name).collect();
    assert_eq!(names, vec!["alpha", "Zed", "A.txt", "b.txt"]);
}

#[test]
fn a_huge_directory_is_cut_to_the_cap() {
    let items: Vec<DirItem> = (0..MAX_ENTRIES + 5).map(|k| item(&format!("/w/f{k:05}"), false)).collect();
    assert_eq!(arrange(&items, &skip()).len(), MAX_ENTRIES);
}
