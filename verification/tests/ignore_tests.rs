use tesseract_client::ignore::IgnoreSet;
use tesseract_client::ignore::pattern_matches;
use tesseract_client::ignore::split_bytes;
use tesseract_client::ignore::trim_ws;

#[test]
fn default_patterns_exclude_vcs_and_build_dirs() {
    let ig = IgnoreSet::new();
    assert!(ig.is_excluded(b".git/config"));
    assert!(ig.is_excluded(b".git"));
    assert!(ig.is_excluded(b"target/debug/foo"));
    assert!(ig.is_excluded(b"a/target/b"));
    assert!(ig.is_excluded(b"Cargo.lock"));
    assert!(ig.is_excluded(b"member/Cargo.lock"));
    assert!(!ig.is_excluded(b"src/main.rs"));
    assert!(!ig.is_excluded(b"Cargo.toml"));
}

#[test]
fn literal_pattern_never_matches_part_of_a_segment() {
    let ig = IgnoreSet::new();
    assert!(!ig.is_excluded(b"retargeted/x"));
    assert!(!ig.is_excluded(b"src/targets.rs"));
    assert!(!ig.is_excluded(b"gitconfig"));
}

#[test]
fn star_suffix_excludes_paths_ending_with_the_literal() {
    let mut ig = IgnoreSet::new();
    ig.add_pattern(b"*.log");
    assert!(ig.is_excluded(b"x.log"));
    assert!(ig.is_excluded(b"a/b/c.log"));
    assert!(ig.is_excluded(b"deep/ly/nested/file.log"));
    assert!(!ig.is_excluded(b"c.txt"));
    assert!(!ig.is_excluded(b"a/b/c.log.bak"));
    assert!(!ig.is_excluded(b"logfile"));
}

#[test]
fn star_matches_a_run_inside_one_segment_only() {
    assert!(pattern_matches(b"*.log", b"build.log"));
    assert!(!pattern_matches(b"*.log", b"build.log/extra"));
    assert!(pattern_matches(b"foo*", b"a/foobar"));
    assert!(!pattern_matches(b"foo*", b"a/fo"));
}

#[test]
fn globstar_segment_matches_any_depth() {
    assert!(pattern_matches(b"**/node_modules", b"node_modules"));
    assert!(pattern_matches(b"**/node_modules", b"a/b/node_modules"));
    assert!(pattern_matches(b"a/**/b", b"a/b"));
    assert!(pattern_matches(b"a/**/b", b"a/x/y/b"));
    assert!(!pattern_matches(b"a/**/b", b"a/x/y/c"));
}

#[test]
fn slashes_around_a_pattern_are_trimmed() {
    assert!(pattern_matches(b"/target/", b"target"));
    assert!(pattern_matches(b"/target/", b"target/sub"));
}

#[test]
fn ignore_file_lines_are_trimmed_and_comments_skipped() {
    let content = b"# a comment\n\n  *.tmp  \nbuild\n   # also skipped\n";
    let ig = IgnoreSet::with_ignore_file(content);
    assert!(ig.is_excluded(b"a/thing.tmp"));
    assert!(ig.is_excluded(b"build/out"));
    assert!(!ig.is_excluded(b"a/comment"));
    assert!(!ig.is_excluded(b"src/lib.rs"));
}

#[test]
fn empty_ignore_file_leaves_only_defaults() {
    let ig = IgnoreSet::with_ignore_file(b"");
    assert!(ig.is_excluded(b"target/x"));
    assert!(!ig.is_excluded(b"src/x.rs"));
}

#[test]
fn split_bytes_keeps_empty_segments() {
    let parts = split_bytes(b"a//b", 47);
    let views: Vec<&[u8]> = parts.iter().map(|p| p.as_slice()).collect();
    assert_eq!(views, vec![b"a" as &[u8], b"", b"b"]);
    let one = split_bytes(b"abc", 47);
    assert_eq!(one.len(), 1);
    assert_eq!(one[0].as_slice(), b"abc");
}

#[test]
fn trim_ws_strips_spaces_tabs_and_carriage_returns() {
    assert_eq!(trim_ws(b"  hello \t\r").as_slice(), b"hello");
    assert_eq!(trim_ws(b"\r").as_slice(), b"");
    assert_eq!(trim_ws(b"x").as_slice(), b"x");
}
