use agent_platform_desktop::coder_git::ancestors;
use agent_platform_desktop::coder_git::{
    diff_text, exclude_update, failed, parse_changes, parse_log, plain, subject, Checkpoint,
    MAX_SUBJECT,
};

#[test]
fn a_canonicalized_windows_path_is_handed_to_git_the_way_git_spells_it() {
    assert_eq!(plain(r"\\?\C:\work\demo"), r"C:\work\demo");
    assert_eq!(plain(r"\\?\UNC\box\share\demo"), r"\\box\share\demo");
    assert_eq!(plain(r"C:\work\demo"), r"C:\work\demo");
    assert_eq!(plain("/home/t/demo"), "/home/t/demo");
}

#[test]
fn a_long_prompt_does_not_become_a_long_row() {
    assert_eq!(subject("  fix the parser  \nand then some"), "fix the parser");
    assert_eq!(subject("   "), "agent turn");
    assert_eq!(subject(&"x".repeat(500)).len(), MAX_SUBJECT);
}

#[test]
fn the_subject_skips_blank_lines_and_carriage_returns() {
    assert_eq!(subject("\r\n  \n  second line\r\nthird"), "second line");
    assert_eq!(subject(""), "agent turn");
}

#[test]
fn the_short_sha_is_its_first_eight_characters() {
    let c = Checkpoint { sha: "0123456789abcdef".into(), message: "m".into(), when: "now".into() };
    assert_eq!(c.short(), "01234567");
    let short = Checkpoint { sha: "abc".into(), message: String::new(), when: String::new() };
    assert_eq!(short.short(), "abc");
}

#[test]
fn the_log_reads_back_newest_first_with_any_prompt_text() {
    let out = "aaa\0fix; it | now\02 minutes ago\r\n\0no sha\0x\nbbb\0baseline\01 hour ago\nbroken line\n";
    let list = parse_log(out);
    assert_eq!(list.len(), 2);
    assert_eq!(list[0], Checkpoint { sha: "aaa".into(), message: "fix; it | now".into(), when: "2 minutes ago".into() });
    assert_eq!(list[1].sha, "bbb");
    assert_eq!(list[1].message, "baseline");
    assert!(parse_log("").is_empty());
}

#[test]
fn the_changed_files_are_read_off_the_name_status_listing() {
    let out = "M\tsrc/a.rs\r\nA\tnew file.txt\nD\t old.rs \nbroken\n\t\n";
    let c = parse_changes(out, true);
    assert!(c.revertable);
    assert_eq!(c.hidden, 0);
    let files: Vec<(char, &str)> = c.files.iter().map(|f| (f.status, f.path.as_str())).collect();
    assert_eq!(files, [('M', "src/a.rs"), ('A', "new file.txt"), ('D', "old.rs")]);

    let many: String = (0..205).map(|i| format!("A\tf{i}\n")).collect();
    let c = parse_changes(&many, false);
    assert_eq!(c.files.len(), 200);
    assert_eq!(c.hidden, 5);
    assert!(!c.revertable);
}

#[test]
fn an_empty_checkpoint_says_so() {
    assert_eq!(diff_text("  \n"), "(this checkpoint changed nothing)");
    assert_eq!(diff_text("a.rs | 1 +\n\n"), "a.rs | 1 +");
}

#[test]
fn a_failed_git_call_reports_what_git_said() {
    assert_eq!(failed("init", "  \n"), "git init failed");
    assert_eq!(failed("add", "fatal: nope\n"), "git add: fatal: nope");
}

#[test]
fn the_agent_dir_is_excluded_once() {
    assert_eq!(exclude_update("").as_deref(), Some(".agent/\n"));
    assert_eq!(exclude_update("*.log").as_deref(), Some("*.log\n.agent/\n"));
    assert_eq!(exclude_update("*.log\n").as_deref(), Some("*.log\n.agent/\n"));
    assert_eq!(exclude_update("*.log\n  .agent/  \n"), None);
}

#[test]
fn a_folder_climbs_to_its_root() {
    assert_eq!(ancestors("/work/demo/src"), vec!["/work/demo/src", "/work/demo", "/work", "/"]);
    assert_eq!(ancestors("rel/dir"), vec!["rel/dir", "rel", ""]);
}

#[test]
fn every_folder_that_splits_plainly_is_climbed() {
    let chain = ancestors("D:/work/demo/src");
    assert_eq!(&chain[..3], ["D:/work/demo/src", "D:/work/demo", "D:/work"]);
    assert!(chain.len() > 3, "the walk goes on past a drive's first folder");
    let chain = ancestors("a/./b/c");
    assert_eq!(&chain[..2], ["a/./b/c", "a/./b"]);
}
