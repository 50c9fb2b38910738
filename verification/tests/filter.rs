use disk_usage::analyzer::{skip_decision, Analyzer};
use disk_usage::entry::{DirEntry, EntryKind};
use disk_usage::error::ConfigError;
use disk_usage::settings::{Platform, ScanSettings};
use disk_usage::utils::{base_name_of, chars_of, contains_chars, is_hidden, matches_at};
use glob::Pattern;

fn settings(ignore: &str) -> ScanSettings {
    ScanSettings {
        dir: "/".to_string(),
        ignore: ignore.to_string(),
        reclaimable: "**/node_modules".to_string(),
        nlargest: 100,
        largebytes: 1024,
        hidden: false,
    }
}

fn entry(path: &str, kind: EntryKind, is_symlink: bool) -> DirEntry {
    DirEntry { path: path.to_string(), kind, is_symlink }
}

#[test]
fn pattern_match() {
    let pattern = Pattern::new("**/node_modules").expect("Unable to parse ignore glob pattern");

    assert_eq!(pattern.matches("/Users/max/git/project/node_modules"), true);

    let analyzer = Analyzer::new(settings("**/node_modules"), Platform::Other)
        .expect("Unable to parse ignore glob pattern");
    let file = entry("/Users/max/git/project/node_modules", EntryKind::File, false);
    assert_eq!(analyzer.should_skip(&file), true);
}

#[test]
fn ignore_glob_skips_matching_paths_only() {
    let analyzer = Analyzer::new(settings("**/target"), Platform::Other).unwrap();
    assert!(analyzer.should_skip(&entry("/home/me/project/target", EntryKind::Directory, false)));
    assert!(analyzer.should_skip(&entry("/home/me/project/target", EntryKind::File, false)));
    assert!(!analyzer.should_skip(&entry("/home/me/project/src", EntryKind::Directory, false)));
    assert!(!analyzer.should_skip(&entry("/home/me/project/notes.txt", EntryKind::File, false)));
}

#[test]
fn empty_ignore_glob_matches_nothing() {
    let analyzer = Analyzer::new(settings(""), Platform::Other).unwrap();
    assert!(!analyzer.should_skip(&entry("/a", EntryKind::Directory, false)));
    assert!(!analyzer.should_skip(&entry("/a/b.txt", EntryKind::File, false)));
}

#[test]
fn symlinked_directories_are_skipped_and_files_are_not() {
    let analyzer = Analyzer::new(settings(""), Platform::Other).unwrap();
    assert!(analyzer.should_skip(&entry("/a/link", EntryKind::Directory, true)));
    assert!(!analyzer.should_skip(&entry("/a/link.txt", EntryKind::File, true)));
    assert!(!analyzer.should_skip(&entry("/a/dangling", EntryKind::Other, true)));
}

#[test]
fn app_bundles_are_skipped_on_macos_only() {
    let bundle = entry("/Applications/Safari.app", EntryKind::Directory, false);
    let mac = Analyzer::new(settings(""), Platform::MacOs).unwrap();
    let other = Analyzer::new(settings(""), Platform::Other).unwrap();
    assert!(mac.should_skip(&bundle));
    assert!(!other.should_skip(&bundle));
    assert!(!mac.should_skip(&entry("/Applications/Safari.app", EntryKind::File, false)));
    assert!(!mac.should_skip(&entry("/my.apps/tool", EntryKind::Directory, false)));
    assert!(mac.should_skip(&entry("/x/my.apps", EntryKind::Directory, false)));
}

#[test]
fn skip_decision_follows_the_rule() {
    let dir = entry("/a/b", EntryKind::Directory, false);
    assert!(skip_decision(&dir, true, Platform::Other));
    assert!(!skip_decision(&dir, false, Platform::Other));
    assert!(!skip_decision(&dir, false, Platform::MacOs));
    let link = entry("/a/b", EntryKind::Directory, true);
    assert!(skip_decision(&link, false, Platform::Other));
}

#[test]
fn malformed_ignore_glob_is_a_configuration_error() {
    let made = Analyzer::new(settings("a**"), Platform::Other);
    assert!(matches!(made, Err(ConfigError::IgnorePattern)));
    let made = Analyzer::new(settings("[abc"), Platform::Other);
    assert!(matches!(made, Err(ConfigError::IgnorePattern)));
}

#[test]
fn malformed_reclaimable_glob_is_a_configuration_error() {
    let mut bad = settings("");
    bad.reclaimable = "***".to_string();
    let made = Analyzer::new(bad, Platform::Other);
    assert!(matches!(made, Err(ConfigError::ReclaimablePattern)));
}

#[test]
fn ignore_glob_is_looked_at_first() {
    let mut bad = settings("***");
    bad.reclaimable = "***".to_string();
    let made = Analyzer::new(bad, Platform::Other);
    assert!(matches!(made, Err(ConfigError::IgnorePattern)));
}

#[test]
fn error_messages() {
    assert_eq!(ConfigError::IgnorePattern.message(), "Unable to parse ignore glob pattern");
    assert_eq!(
        ConfigError::ReclaimablePattern.message(),
        "Unable to parse reclaimable directory glob pattern"
    );
}

#[test]
fn names_starting_with_a_dot_are_hidden() {
    assert!(is_hidden(".hidden"));
    assert!(is_hidden("/home/me/.config"));
    assert!(is_hidden("relative/dir/.git"));
    assert!(is_hidden("/."));
    assert!(is_hidden(".."));
}

#[test]
fn other_names_are_not_hidden() {
    assert!(!is_hidden("visible"));
    assert!(!is_hidden("/home/me/file.txt"));
    assert!(!is_hidden("/home/.config/file"));
    assert!(!is_hidden("a.b"));
    assert!(!is_hidden(""));
    assert!(!is_hidden("/trailing/"));
}

#[test]
fn hidden_looks_at_characters_not_bytes() {
    assert!(is_hidden("/données/.caché"));
    assert!(!is_hidden("/.données/caché"));
}

#[test]
fn base_name_is_what_follows_the_last_separator() {
    assert_eq!(base_name_of("/a/b/c.txt"), "c.txt");
    assert_eq!(base_name_of("c.txt"), "c.txt");
    assert_eq!(base_name_of("/a/b/"), "");
    assert_eq!(base_name_of(""), "");
    assert_eq!(base_name_of("/"), "");
    assert_eq!(base_name_of("/ü/ö"), "ö");
}

#[test]
fn chars_of_gives_the_characters() {
    assert_eq!(chars_of("aé/"), vec!['a', 'é', '/']);
    assert_eq!(chars_of(""), Vec::<char>::new());
}

#[test]
fn substring_search() {
    let hay = chars_of("Safari.app");
    assert!(contains_chars(&hay, &chars_of(".app")));
    assert!(contains_chars(&hay, &chars_of("")));
    assert!(contains_chars(&hay, &chars_of("Safari.app")));
    assert!(!contains_chars(&hay, &chars_of(".apk")));
    assert!(!contains_chars(&hay, &chars_of("Safari.apps")));
    assert!(!contains_chars(&chars_of(""), &chars_of("a")));
    assert!(matches_at(&hay, &chars_of(".app"), 6));
    assert!(!matches_at(&hay, &chars_of(".app"), 5));
    assert!(!matches_at(&hay, &chars_of(".app"), 7));
    assert!(matches_at(&hay, &chars_of(""), 10));
    assert!(!matches_at(&hay, &chars_of(""), 11));
}
