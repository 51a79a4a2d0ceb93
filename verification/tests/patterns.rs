use glob_hasher::{OverrideFilter, Walker, parse_ignore_rules};

fn filter(globs: &[&str]) -> OverrideFilter {
    let globs: Vec<String> = globs.iter().map(|s| s.to_string()).collect();
    OverrideFilter::build(&globs).expect("patterns should be valid")
}

#[test]
fn empty_pattern_set_selects_everything() {
    let f = filter(&[]);
    assert!(f.file_included(&"anything.rs".to_string()));
    assert!(f.file_included(&"deep/path/file.bin".to_string()));
}

#[test]
fn unanchored_pattern_matches_at_any_depth() {
    let f = filter(&["*.js"]);
    assert!(f.file_included(&"app.js".to_string()));
    assert!(f.file_included(&"src/nested/app.js".to_string()));
    assert!(!f.file_included(&"app.ts".to_string()));
}

#[test]
fn anchored_pattern_matches_from_root_only() {
    let f = filter(&["src/*.js"]);
    assert!(f.file_included(&"src/app.js".to_string()));
    assert!(!f.file_included(&"other/src/app.js".to_string()));
    assert!(!f.file_included(&"src/nested/app.js".to_string()));
}

#[test]
fn star_does_not_cross_separators_but_globstar_does() {
    let f = filter(&["src/*.js"]);
    assert!(!f.file_included(&"src/a/b.js".to_string()));
    let g = filter(&["src/**/*.js"]);
    assert!(g.file_included(&"src/a/b.js".to_string()));
    assert!(g.file_included(&"src/a/b/c.js".to_string()));
    // A `**/` segment also matches zero directories.
    assert!(g.file_included(&"src/top.js".to_string()));
}

#[test]
fn trailing_globstar_matches_everything_inside() {
    let f = filter(&["vendor/**"]);
    assert!(f.file_included(&"vendor/a.txt".to_string()));
    assert!(f.file_included(&"vendor/a/b/c.txt".to_string()));
    assert!(!f.file_included(&"vendor".to_string()));
    assert!(!f.file_included(&"other/vendor/a.txt".to_string()));
}

#[test]
fn question_mark_matches_one_character() {
    let f = filter(&["a?.txt"]);
    assert!(f.file_included(&"ab.txt".to_string()));
    assert!(!f.file_included(&"a.txt".to_string()));
    assert!(!f.file_included(&"abc.txt".to_string()));
    assert!(!f.file_included(&"a/.txt".to_string()));
}

#[test]
fn bracket_expressions_match_ranges_and_negations() {
    let f = filter(&["file[0-9].rs"]);
    assert!(f.file_included(&"file7.rs".to_string()));
    assert!(!f.file_included(&"filex.rs".to_string()));
    let g = filter(&["file[!0-9].rs"]);
    assert!(g.file_included(&"filex.rs".to_string()));
    assert!(!g.file_included(&"file7.rs".to_string()));
}

#[test]
fn last_match_wins_on_three_pattern_fixture() {
    // A broad include, a broad negation, and a narrow re-include: the last
    // matching pattern decides.
    let f = filter(&["**/*.txt", "!sub/**", "sub/special.txt"]);
    assert!(f.file_included(&"top.txt".to_string()));
    assert!(!f.file_included(&"sub/other.txt".to_string()));
    assert!(f.file_included(&"sub/special.txt".to_string()));
}

#[test]
fn unterminated_bracket_is_rejected() {
    let globs: Vec<String> = vec!["src/[abc.rs".to_string()];
    assert!(OverrideFilter::build(&globs).is_err());
}

#[test]
fn trailing_backslash_is_rejected() {
    let globs: Vec<String> = vec!["weird\\".to_string()];
    assert!(OverrideFilter::build(&globs).is_err());
}

#[test]
fn ignore_rules_skip_comments_and_blanks() {
    let text: Vec<char> = "# build outputs\n\n*.log\n".chars().collect();
    let rules = parse_ignore_rules(&text);
    assert_eq!(rules.len(), 1);
}

#[test]
fn negated_ignore_rule_reincludes_a_path() {
    // Within one ignore file, later rules win and negation re-includes a
    // path excluded by a preceding broader rule.
    let filter = OverrideFilter::build(&Vec::new()).unwrap();
    let mut w = Walker::new(filter, true, true);
    let text = "*.log\n!keep.log\n".to_string();
    w.push_dir(&String::new(), Some(&text));
    assert!(!w.file_visible(&"debug.log".to_string()));
    assert!(w.file_visible(&"keep.log".to_string()));
    assert!(w.file_visible(&"notes.txt".to_string()));
}

#[test]
fn nested_ignore_file_takes_precedence_over_ancestor() {
    let filter = OverrideFilter::build(&Vec::new()).unwrap();
    let mut w = Walker::new(filter, true, true);
    w.push_dir(&String::new(), Some(&"*.log\n".to_string()));
    w.push_dir(&"sub".to_string(), Some(&"!debug.log\n".to_string()));
    // The nested file re-includes under its directory.
    assert!(w.file_visible(&"sub/debug.log".to_string()));
    assert!(!w.file_visible(&"sub/other.log".to_string()));
    w.pop_dir();
    // Outside the nested directory the ancestor rule stands.
    assert!(!w.file_visible(&"debug.log".to_string()));
}

#[test]
fn gitignore_disabled_ignores_the_rules() {
    let filter = OverrideFilter::build(&Vec::new()).unwrap();
    let mut w = Walker::new(filter, false, true);
    w.push_dir(&String::new(), Some(&"*.log\n".to_string()));
    assert!(w.file_visible(&"debug.log".to_string()));
}

#[test]
fn hidden_files_follow_the_option() {
    let filter = OverrideFilter::build(&Vec::new()).unwrap();
    let mut included = Walker::new(filter.clone(), true, true);
    included.push_dir(&String::new(), None);
    assert!(included.file_visible(&".env".to_string()));
    assert!(included.file_visible(&"dir/.env".to_string()));

    let mut excluded = Walker::new(filter, true, false);
    excluded.push_dir(&String::new(), None);
    assert!(!excluded.file_visible(&".env".to_string()));
    assert!(!excluded.file_visible(&"dir/.env".to_string()));
    assert!(excluded.file_visible(&"dir/env".to_string()));
}

#[test]
fn directory_only_rule_prunes_directories() {
    let filter = OverrideFilter::build(&Vec::new()).unwrap();
    let mut w = Walker::new(filter, true, true);
    w.push_dir(&String::new(), Some(&"node_modules/\n".to_string()));
    assert!(!w.dir_entered(&"node_modules".to_string()));
    assert!(w.dir_entered(&"src".to_string()));
    // The directory-only rule does not match a regular file of that name.
    assert!(w.file_visible(&"node_modules".to_string()));
}

#[test]
fn negated_filter_pattern_prunes_directories() {
    let f = filter(&["**/*.rs", "!target"]);
    assert!(f.dir_pruned(&"target".to_string()));
    assert!(!f.dir_pruned(&"src".to_string()));
    // A directory matching no pattern is still descended into: files
    // inside may match.
    let g = filter(&["**/*.rs"]);
    assert!(!g.dir_pruned(&"src".to_string()));
}

#[test]
fn backslash_escapes_a_wildcard() {
    let f = filter(&["a\\*b"]);
    assert!(f.file_included(&"a*b".to_string()));
    assert!(!f.file_included(&"axb".to_string()));
}

#[test]
fn directory_only_override_pattern_does_not_select_files() {
    let f = filter(&["build/"]);
    assert!(!f.file_included(&"build".to_string()));
    assert!(f.dir_pruned(&"src".to_string()) == false);
}
