use disk_usage::deletion::{DeleteChoice, DeletionTally};
use disk_usage::entry::FileTreeNode;
use disk_usage::pie_chart::PieChart;
use disk_usage::scan::Scan;
use disk_usage::settings::ScanSettings;
use disk_usage::totals::CategoryTotals;
use disk_usage::ui_state::{CurrentTab, UiState};

#[test]
fn default_settings() {
    let settings = ScanSettings::defaults();
    assert_eq!(settings.dir, "/");
    assert_eq!(settings.ignore, "");
    assert_eq!(settings.reclaimable, "**/node_modules");
    assert_eq!(settings.nlargest, 100);
    assert_eq!(settings.largebytes, 50 * 1024 * 1024);
    assert_eq!(settings.hidden, false);
}

#[test]
fn a_new_snapshot_holds_nothing() {
    let scan = Scan::new();
    assert_eq!(scan.dir, "");
    assert_eq!(scan.completed_at, None);
    assert_eq!(scan.current_file, None);
    assert_eq!(scan.total_bytes, 0);
    assert!(scan.largest_files.is_empty());
    assert_eq!(scan.totals, CategoryTotals::new());
    assert_eq!(scan.dev_total_usage, 0);
    assert!(scan.developer_dirs.is_empty());
    assert!(scan.started_at > 1_000_000_000_000);
}

#[test]
fn clearing_empties_a_snapshot() {
    let mut scan = Scan::new();
    scan.dir = "/somewhere".to_string();
    scan.completed_at = Some(5);
    scan.current_file = Some("/somewhere/f".to_string());
    scan.total_bytes = 9;
    scan.largest_files.push(("/somewhere/f".to_string(), 9));
    scan.totals.binaries = 9;
    scan.dev_total_usage = 3;
    scan.developer_dirs.push(("/somewhere/node_modules".to_string(), 3));
    scan.clear_at(42);
    assert_eq!(scan.dir, "");
    assert_eq!(scan.started_at, 42);
    assert_eq!(scan.completed_at, None);
    assert_eq!(scan.current_file, None);
    assert_eq!(scan.total_bytes, 0);
    assert!(scan.largest_files.is_empty());
    assert_eq!(scan.totals, CategoryTotals::new());
    assert_eq!(scan.dev_total_usage, 0);
    assert!(scan.developer_dirs.is_empty());
    scan.total_bytes = 1;
    scan.clear();
    assert_eq!(scan.total_bytes, 0);
    assert!(scan.started_at > 1_000_000_000_000);
}

#[test]
fn file_tree_nodes_hold_what_they_are_given() {
    let node = FileTreeNode::new("/a/b".to_string(), true, 77);
    assert_eq!(node.path, "/a/b");
    assert!(node.is_file);
    assert_eq!(node.len, 77);
}

#[test]
fn the_pie_chart() {
    let chart = PieChart::new();
    assert_eq!(chart.diameter, 256);
    assert_eq!(chart.fill, (125, 125, 125));
}

#[test]
fn a_new_interface_shows_the_defaults() {
    let state = UiState::new();
    assert!(!state.show_delete_confirm);
    assert!(!state.show_settings);
    assert_eq!(state.file_to_delete, None);
    assert_eq!(state.current_tab, CurrentTab::LargeFiles);
    let settings = state.scan_settings();
    assert_eq!(settings.dir, "/");
    assert_eq!(settings.ignore, "");
    assert_eq!(settings.reclaimable, "**/node_modules");
    assert_eq!(settings.nlargest, 100);
    assert_eq!(settings.largebytes, 52428800);
    assert!(!settings.hidden);
}

#[test]
fn scan_settings_follow_the_interface() {
    let mut state = UiState::new();
    state.setting_root_dir = "/home/me".to_string();
    state.setting_ignore_glob = "**/target".to_string();
    state.setting_developer_cache_dirs = "**/.cache".to_string();
    state.setting_hidden = true;
    state.setting_nlargest = 5;
    state.setting_largebytes = 6;
    let settings = state.scan_settings();
    assert_eq!(settings.dir, "/home/me");
    assert_eq!(settings.ignore, "**/target");
    assert_eq!(settings.reclaimable, "**/.cache");
    assert!(settings.hidden);
    assert_eq!(settings.nlargest, 5);
    assert_eq!(settings.largebytes, 6);
}

#[test]
fn a_confirmed_deletion_hands_the_file_out_once() {
    let mut state = UiState::new();
    state.request_delete("/big.bin", true);
    assert!(state.show_delete_confirm);
    assert_eq!(state.file_to_delete, Some(("/big.bin".to_string(), true)));
    assert_eq!(state.resolve_delete(true), Some(("/big.bin".to_string(), true)));
    assert!(!state.show_delete_confirm);
    assert_eq!(state.file_to_delete, None);
    assert_eq!(state.resolve_delete(true), None);
}

#[test]
fn a_refused_deletion_hands_nothing_out() {
    let mut state = UiState::new();
    state.request_delete("/big.bin", false);
    assert_eq!(state.resolve_delete(false), None);
    assert!(!state.show_delete_confirm);
    assert_eq!(state.file_to_delete, None);
}

#[test]
fn menu_selections() {
    assert_eq!(DeleteChoice::from_selection(None), DeleteChoice::Keep);
    assert_eq!(DeleteChoice::from_selection(Some(0)), DeleteChoice::Keep);
    assert_eq!(DeleteChoice::from_selection(Some(1)), DeleteChoice::Exit);
    assert_eq!(DeleteChoice::from_selection(Some(2)), DeleteChoice::Trash);
    assert_eq!(DeleteChoice::from_selection(Some(3)), DeleteChoice::Force);
    assert_eq!(DeleteChoice::from_selection(Some(4)), DeleteChoice::Keep);
    assert!(DeleteChoice::Trash.deletes());
    assert!(DeleteChoice::Force.deletes());
    assert!(!DeleteChoice::Keep.deletes());
    assert!(!DeleteChoice::Exit.deletes());
}

#[test]
fn only_successful_deletions_are_tallied() {
    let mut tally = DeletionTally::new();
    assert_eq!(tally.reclaimed(), 0);
    tally.record(10, true);
    tally.record(5, false);
    tally.record(7, true);
    assert_eq!(tally.reclaimed(), 17);
    tally.record(u64::MAX, true);
    assert_eq!(tally.reclaimed(), u64::MAX);
    tally.record(1, true);
    assert_eq!(tally.reclaimed(), u64::MAX);
}
