use disk_usage::analyzer::{Analyzer, ScanReply, ScanRequest};
use disk_usage::engine::ScanState;
use disk_usage::entry::{DirEntry, EntryKind};
use disk_usage::scan::Scan;
use disk_usage::settings::{Platform, ScanSettings};

const MIB: u64 = 1024 * 1024;

/// A file system in memory: what each directory lists, and how large each
/// file is. A directory or a file that is not named cannot be read.
struct Tree {
    listings: Vec<(&'static str, Vec<(&'static str, EntryKind, bool)>)>,
    sizes: Vec<(&'static str, u64)>,
}

impl Tree {
    fn answer(&self, request: &ScanRequest) -> Option<ScanReply> {
        match request {
            ScanRequest::ListDir(path) => {
                match self.listings.iter().find(|(dir, _)| dir == path) {
                    Some((_, entries)) => Some(ScanReply::Listing(
                        entries
                            .iter()
                            .map(|(path, kind, is_symlink)| DirEntry {
                                path: path.to_string(),
                                kind: *kind,
                                is_symlink: *is_symlink,
                            })
                            .collect(),
                    )),
                    None => Some(ScanReply::ListingFailed),
                }
            }
            ScanRequest::FileSize(path) => {
                match self.sizes.iter().find(|(file, _)| file == path) {
                    Some((_, size)) => Some(ScanReply::Size(*size)),
                    None => Some(ScanReply::SizeFailed),
                }
            }
            ScanRequest::Done => None,
        }
    }
}

fn settings(dir: &str) -> ScanSettings {
    ScanSettings {
        dir: dir.to_string(),
        ignore: "".to_string(),
        reclaimable: "**/node_modules".to_string(),
        nlargest: 10,
        largebytes: 50 * MIB,
        hidden: false,
    }
}

/// Runs a whole scan of `tree`; gives back the snapshot and every request
/// the engine made, as text.
fn scan(analyzer: &mut Analyzer, tree: &Tree, started: i64) -> (Scan, Vec<String>) {
    let mut snapshot = Scan::new();
    let mut asked = Vec::new();
    let mut now = started;
    let mut request = analyzer.start_at(&mut snapshot, now);
    loop {
        match &request {
            ScanRequest::ListDir(path) => asked.push(format!("list {}", path)),
            ScanRequest::FileSize(path) => asked.push(format!("size {}", path)),
            ScanRequest::Done => {}
        }
        let reply = match tree.answer(&request) {
            Some(reply) => reply,
            None => break,
        };
        now += 1;
        request = analyzer.resume_at(&mut snapshot, reply, now);
    }
    (snapshot, asked)
}

fn names(list: &Vec<(String, u64)>) -> Vec<(&str, u64)> {
    list.iter().map(|(path, size)| (path.as_str(), *size)).collect()
}

fn three_files() -> Tree {
    Tree {
        listings: vec![(
            ".",
            vec![
                ("a.txt", EntryKind::File, false),
                ("b.jpg", EntryKind::File, false),
                (".hidden", EntryKind::File, false),
            ],
        )],
        sizes: vec![("a.txt", 10 * MIB), ("b.jpg", 60 * MIB), (".hidden", 5 * MIB)],
    }
}

#[test]
fn a_hidden_file_is_left_out() {
    let mut analyzer = Analyzer::new(settings("."), Platform::Other).unwrap();
    let (snapshot, asked) = scan(&mut analyzer, &three_files(), 1000);
    assert_eq!(analyzer.state(), ScanState::Completed);
    assert_eq!(asked, vec!["list .", "size a.txt", "size b.jpg"]);
    assert_eq!(snapshot.total_bytes, 70 * MIB);
    assert_eq!(snapshot.totals.images, 60 * MIB);
    assert_eq!(snapshot.totals.documents, 10 * MIB);
    assert_eq!(snapshot.totals.other, 0);
    assert_eq!(snapshot.totals.videos, 0);
    assert_eq!(snapshot.totals.music, 0);
    assert_eq!(snapshot.totals.archives, 0);
    assert_eq!(snapshot.totals.binaries, 0);
    assert_eq!(names(&snapshot.largest_files), vec![("b.jpg", 60 * MIB)]);
    assert_eq!(snapshot.dir, ".");
    assert_eq!(snapshot.started_at, 1000);
    assert_eq!(snapshot.completed_at, Some(1003));
    assert_eq!(snapshot.current_file, None);
    assert_eq!(analyzer.total_bytes(), 70 * MIB);
}

#[test]
fn hidden_files_are_counted_when_asked_for() {
    let mut with_hidden = settings(".");
    with_hidden.hidden = true;
    let mut analyzer = Analyzer::new(with_hidden, Platform::Other).unwrap();
    let (snapshot, asked) = scan(&mut analyzer, &three_files(), 0);
    assert_eq!(asked, vec!["list .", "size a.txt", "size b.jpg", "size .hidden"]);
    assert_eq!(snapshot.total_bytes, 75 * MIB);
    assert_eq!(snapshot.totals.other, 5 * MIB);
}

fn with_node_modules() -> Tree {
    Tree {
        listings: vec![
            (
                "/root",
                vec![
                    ("/root/readme.txt", EntryKind::File, false),
                    ("/root/node_modules", EntryKind::Directory, false),
                    ("/root/src", EntryKind::Directory, false),
                ],
            ),
            (
                "/root/node_modules",
                vec![
                    ("/root/node_modules/a.js", EntryKind::File, false),
                    ("/root/node_modules/b.js", EntryKind::File, false),
                    ("/root/node_modules/c.js", EntryKind::File, false),
                ],
            ),
            ("/root/src", vec![("/root/src/main.rs", EntryKind::File, false)]),
        ],
        sizes: vec![
            ("/root/readme.txt", 1),
            ("/root/node_modules/a.js", 100 * MIB),
            ("/root/node_modules/b.js", 60 * MIB),
            ("/root/node_modules/c.js", 40 * MIB),
            ("/root/src/main.rs", 2),
        ],
    }
}

#[test]
fn a_reclaimable_directory_is_recorded_with_its_bytes() {
    let mut analyzer = Analyzer::new(settings("/root"), Platform::Other).unwrap();
    let (snapshot, asked) = scan(&mut analyzer, &with_node_modules(), 0);
    assert_eq!(analyzer.state(), ScanState::Completed);
    assert_eq!(names(&snapshot.developer_dirs), vec![("/root/node_modules", 200 * MIB)]);
    assert_eq!(snapshot.dev_total_usage, 200 * MIB);
    assert_eq!(snapshot.total_bytes, 200 * MIB + 3);
    assert_eq!(
        asked,
        vec![
            "list /root",
            "size /root/readme.txt",
            "list /root/node_modules",
            "size /root/node_modules/a.js",
            "size /root/node_modules/b.js",
            "size /root/node_modules/c.js",
            "list /root/src",
            "size /root/src/main.rs",
        ]
    );
    assert_eq!(
        names(&snapshot.largest_files),
        vec![("/root/node_modules/a.js", 100 * MIB), ("/root/node_modules/b.js", 60 * MIB)]
    );
    assert_eq!(names(analyzer.stats().developer_dirs()), vec![("/root/node_modules", 200 * MIB)]);
}

#[test]
fn an_unreadable_directory_counts_nothing() {
    let tree = Tree {
        listings: vec![(
            "/",
            vec![
                ("/private", EntryKind::Directory, false),
                ("/notes.txt", EntryKind::File, false),
            ],
        )],
        sizes: vec![("/notes.txt", 7)],
    };
    let mut analyzer = Analyzer::new(settings("/"), Platform::Other).unwrap();
    let (snapshot, asked) = scan(&mut analyzer, &tree, 0);
    assert_eq!(asked, vec!["list /", "list /private", "size /notes.txt"]);
    assert_eq!(analyzer.state(), ScanState::Completed);
    assert_eq!(snapshot.total_bytes, 7);
    assert!(snapshot.completed_at.is_some());
    assert!(snapshot.developer_dirs.is_empty());
}

#[test]
fn an_unreadable_root_completes_with_nothing() {
    let tree = Tree { listings: vec![], sizes: vec![] };
    let mut analyzer = Analyzer::new(settings("/nowhere"), Platform::Other).unwrap();
    let (snapshot, asked) = scan(&mut analyzer, &tree, 5);
    assert_eq!(asked, vec!["list /nowhere"]);
    assert_eq!(analyzer.state(), ScanState::Completed);
    assert_eq!(snapshot.total_bytes, 0);
    assert_eq!(snapshot.completed_at, Some(6));
}

#[test]
fn an_unreadable_file_counts_nothing() {
    let tree = Tree {
        listings: vec![(
            "/",
            vec![("/gone.jpg", EntryKind::File, false), ("/here.jpg", EntryKind::File, false)],
        )],
        sizes: vec![("/here.jpg", 9)],
    };
    let mut analyzer = Analyzer::new(settings("/"), Platform::Other).unwrap();
    let (snapshot, asked) = scan(&mut analyzer, &tree, 0);
    assert_eq!(asked, vec!["list /", "size /gone.jpg", "size /here.jpg"]);
    assert_eq!(snapshot.total_bytes, 9);
    assert_eq!(snapshot.totals.images, 9);
}

#[test]
fn an_unreadable_reclaimable_directory_is_recorded_with_nothing() {
    let tree = Tree {
        listings: vec![("/", vec![("/node_modules", EntryKind::Directory, false)])],
        sizes: vec![],
    };
    let mut analyzer = Analyzer::new(settings("/"), Platform::Other).unwrap();
    let (snapshot, _) = scan(&mut analyzer, &tree, 0);
    assert_eq!(names(&snapshot.developer_dirs), vec![("/node_modules", 0)]);
    assert_eq!(snapshot.dev_total_usage, 0);
}

#[test]
fn totals_add_up_at_every_step() {
    let tree = with_node_modules();
    let mut analyzer = Analyzer::new(settings("/root"), Platform::Other).unwrap();
    let mut snapshot = Scan::new();
    let mut request = analyzer.start_at(&mut snapshot, 0);
    let mut before = 0;
    while let Some(reply) = tree.answer(&request) {
        request = analyzer.resume_at(&mut snapshot, reply, 1);
        let sum: u64 = snapshot.totals.entries().iter().map(|row| row.1).sum();
        assert_eq!(sum, snapshot.total_bytes);
        assert_eq!(snapshot.total_bytes, analyzer.total_bytes());
        assert!(snapshot.total_bytes >= before);
        before = snapshot.total_bytes;
        assert_eq!(snapshot.largest_files, *analyzer.stats().get_largest());
        assert_eq!(snapshot.developer_dirs, *analyzer.stats().developer_dirs());
        for pair in snapshot.largest_files.windows(2) {
            assert!(pair[0].1 >= pair[1].1);
        }
        assert!(snapshot.largest_files.len() <= 10);
        assert!(snapshot.largest_files.iter().all(|file| file.1 >= 50 * MIB));
    }
    assert_eq!(snapshot.total_bytes, 200 * MIB + 3);
}

#[test]
fn the_current_file_is_the_one_last_taken_up() {
    let tree = with_node_modules();
    let mut analyzer = Analyzer::new(settings("/root"), Platform::Other).unwrap();
    let mut snapshot = Scan::new();
    let request = analyzer.start_at(&mut snapshot, 0);
    assert_eq!(snapshot.current_file, None);
    let request = analyzer.resume_at(&mut snapshot, tree.answer(&request).unwrap(), 1);
    assert!(matches!(&request, ScanRequest::FileSize(path) if path == "/root/readme.txt"));
    assert_eq!(snapshot.current_file, Some("/root/readme.txt".to_string()));
    let request = analyzer.resume_at(&mut snapshot, tree.answer(&request).unwrap(), 2);
    assert!(matches!(&request, ScanRequest::ListDir(path) if path == "/root/node_modules"));
    assert_eq!(snapshot.current_file, Some("/root/readme.txt".to_string()));
    assert_eq!(snapshot.total_bytes, 1);
    assert_eq!(snapshot.completed_at, None);
}

#[test]
fn scanning_again_gives_the_same_result() {
    let tree = with_node_modules();
    let mut first = Analyzer::new(settings("/root"), Platform::Other).unwrap();
    let mut second = Analyzer::new(settings("/root"), Platform::Other).unwrap();
    let (one, asked_one) = scan(&mut first, &tree, 10);
    let (two, asked_two) = scan(&mut second, &tree, 99_000);
    assert_eq!(asked_one, asked_two);
    assert_eq!(one.totals, two.totals);
    assert_eq!(one.largest_files, two.largest_files);
    assert_eq!(one.total_bytes, two.total_bytes);
    assert_eq!(one.developer_dirs, two.developer_dirs);
    assert_ne!(one.started_at, two.started_at);
    assert_ne!(one.completed_at, two.completed_at);
}

#[test]
fn a_link_back_to_an_ancestor_is_not_followed() {
    let tree = Tree {
        listings: vec![
            (
                "/a",
                vec![("/a/b", EntryKind::Directory, false), ("/a/f.jpg", EntryKind::File, false)],
            ),
            (
                "/a/b",
                vec![
                    ("/a/b/up", EntryKind::Directory, true),
                    ("/a/b/g.jpg", EntryKind::File, false),
                ],
            ),
            ("/a/b/up", vec![("/a/b/up/f.jpg", EntryKind::File, false)]),
        ],
        sizes: vec![("/a/f.jpg", 3), ("/a/b/g.jpg", 4), ("/a/b/up/f.jpg", 3)],
    };
    let mut analyzer = Analyzer::new(settings("/a"), Platform::Other).unwrap();
    let (snapshot, asked) = scan(&mut analyzer, &tree, 0);
    assert_eq!(asked, vec!["list /a", "list /a/b", "size /a/b/g.jpg", "size /a/f.jpg"]);
    assert_eq!(snapshot.total_bytes, 7);
    assert_eq!(analyzer.state(), ScanState::Completed);
}

#[test]
fn ignored_and_hidden_directories_are_not_entered() {
    let tree = Tree {
        listings: vec![
            (
                "/p",
                vec![
                    ("/p/target", EntryKind::Directory, false),
                    ("/p/.git", EntryKind::Directory, false),
                    ("/p/socket", EntryKind::Other, false),
                    ("/p/src", EntryKind::Directory, false),
                ],
            ),
            ("/p/target", vec![("/p/target/big.bin", EntryKind::File, false)]),
            ("/p/.git", vec![("/p/.git/pack", EntryKind::File, false)]),
            ("/p/src", vec![]),
        ],
        sizes: vec![("/p/target/big.bin", 1000), ("/p/.git/pack", 1000)],
    };
    let mut ignoring = settings("/p");
    ignoring.ignore = "**/target".to_string();
    let mut analyzer = Analyzer::new(ignoring, Platform::Other).unwrap();
    let (snapshot, asked) = scan(&mut analyzer, &tree, 0);
    assert_eq!(asked, vec!["list /p", "list /p/src"]);
    assert_eq!(snapshot.total_bytes, 0);
}

#[test]
fn a_directory_holds_the_bytes_of_all_that_lies_beneath_it() {
    let tree = Tree {
        listings: vec![
            ("/r", vec![("/r/node_modules", EntryKind::Directory, false)]),
            (
                "/r/node_modules",
                vec![
                    ("/r/node_modules/x", EntryKind::File, false),
                    ("/r/node_modules/node_modules", EntryKind::Directory, false),
                    ("/r/node_modules/y", EntryKind::File, false),
                ],
            ),
            (
                "/r/node_modules/node_modules",
                vec![("/r/node_modules/node_modules/z", EntryKind::File, false)],
            ),
        ],
        sizes: vec![
            ("/r/node_modules/x", 1),
            ("/r/node_modules/node_modules/z", 10),
            ("/r/node_modules/y", 100),
        ],
    };
    let mut analyzer = Analyzer::new(settings("/r"), Platform::Other).unwrap();
    let (snapshot, _) = scan(&mut analyzer, &tree, 0);
    assert_eq!(
        names(&snapshot.developer_dirs),
        vec![("/r/node_modules/node_modules", 10), ("/r/node_modules", 111)]
    );
    assert_eq!(snapshot.dev_total_usage, 121);
    assert_eq!(snapshot.total_bytes, 111);
}

#[test]
fn a_scan_starts_once() {
    let tree = three_files();
    let mut analyzer = Analyzer::new(settings("."), Platform::Other).unwrap();
    let mut snapshot = Scan::new();
    assert_eq!(analyzer.state(), ScanState::NotStarted);
    assert!(matches!(analyzer.request(), ScanRequest::Done));
    let request = analyzer.start_at(&mut snapshot, 7);
    assert_eq!(analyzer.state(), ScanState::Running);
    assert!(matches!(&request, ScanRequest::ListDir(path) if path == "."));
    let again = analyzer.start_at(&mut snapshot, 8);
    assert!(matches!(&again, ScanRequest::ListDir(path) if path == "."));
    assert_eq!(snapshot.started_at, 7);
    let (_, asked) = {
        let mut other = Analyzer::new(settings("."), Platform::Other).unwrap();
        scan(&mut other, &tree, 0)
    };
    assert_eq!(asked.len(), 3);
}

#[test]
fn answers_that_do_not_fit_change_nothing() {
    let mut analyzer = Analyzer::new(settings("."), Platform::Other).unwrap();
    let mut snapshot = Scan::new();
    let early = analyzer.resume_at(&mut snapshot, ScanReply::Size(5), 1);
    assert!(matches!(early, ScanRequest::Done));
    assert_eq!(analyzer.state(), ScanState::NotStarted);
    analyzer.start_at(&mut snapshot, 2);
    let request = analyzer.resume_at(&mut snapshot, ScanReply::Size(5), 3);
    assert!(matches!(&request, ScanRequest::ListDir(path) if path == "."));
    let request = analyzer.resume_at(&mut snapshot, ScanReply::SizeFailed, 3);
    assert!(matches!(&request, ScanRequest::ListDir(path) if path == "."));
    assert_eq!(snapshot.total_bytes, 0);
    let request = analyzer.resume_at(
        &mut snapshot,
        ScanReply::Listing(vec![DirEntry {
            path: "f.jpg".to_string(),
            kind: EntryKind::File,
            is_symlink: false,
        }]),
        4,
    );
    assert!(matches!(&request, ScanRequest::FileSize(path) if path == "f.jpg"));
    let request = analyzer.resume_at(&mut snapshot, ScanReply::ListingFailed, 5);
    assert!(matches!(&request, ScanRequest::FileSize(path) if path == "f.jpg"));
    let request = analyzer.resume_at(&mut snapshot, ScanReply::Listing(vec![]), 5);
    assert!(matches!(&request, ScanRequest::FileSize(path) if path == "f.jpg"));
    let request = analyzer.resume_at(&mut snapshot, ScanReply::Size(5), 6);
    assert!(matches!(request, ScanRequest::Done));
    assert_eq!(analyzer.state(), ScanState::Completed);
    let late = analyzer.resume_at(&mut snapshot, ScanReply::Size(5), 7);
    assert!(matches!(late, ScanRequest::Done));
    assert_eq!(snapshot.total_bytes, 5);
    assert_eq!(snapshot.completed_at, Some(6));
}

#[test]
fn cancelling_ends_the_scan() {
    let tree = with_node_modules();
    let mut analyzer = Analyzer::new(settings("/root"), Platform::Other).unwrap();
    let mut snapshot = Scan::new();
    let request = analyzer.start_at(&mut snapshot, 0);
    let request = analyzer.resume_at(&mut snapshot, tree.answer(&request).unwrap(), 1);
    let request = analyzer.resume_at(&mut snapshot, tree.answer(&request).unwrap(), 2);
    assert!(matches!(request, ScanRequest::ListDir(_)));
    analyzer.cancel_at(&mut snapshot, 3);
    assert_eq!(analyzer.state(), ScanState::Cancelled);
    assert!(matches!(analyzer.request(), ScanRequest::Done));
    assert_eq!(snapshot.completed_at, Some(3));
    assert_eq!(snapshot.current_file, None);
    assert_eq!(snapshot.total_bytes, 1);
    let after = analyzer.resume_at(&mut snapshot, ScanReply::ListingFailed, 4);
    assert!(matches!(after, ScanRequest::Done));
    analyzer.cancel_at(&mut snapshot, 5);
    assert_eq!(snapshot.completed_at, Some(3));
}

#[test]
fn cancelling_before_the_start_changes_nothing() {
    let mut analyzer = Analyzer::new(settings("/root"), Platform::Other).unwrap();
    let mut snapshot = Scan::new();
    analyzer.cancel_at(&mut snapshot, 3);
    assert_eq!(analyzer.state(), ScanState::NotStarted);
    assert_eq!(snapshot.completed_at, None);
}

#[test]
fn a_total_beyond_the_counter_fails_the_scan() {
    let tree = Tree {
        listings: vec![(
            "/",
            vec![("/a.bin", EntryKind::File, false), ("/b.bin", EntryKind::File, false)],
        )],
        sizes: vec![("/a.bin", u64::MAX), ("/b.bin", 1)],
    };
    let mut analyzer = Analyzer::new(settings("/"), Platform::Other).unwrap();
    let (snapshot, asked) = scan(&mut analyzer, &tree, 0);
    assert_eq!(asked, vec!["list /", "size /a.bin", "size /b.bin"]);
    assert_eq!(analyzer.state(), ScanState::Failed);
    assert_eq!(snapshot.total_bytes, u64::MAX);
    assert!(snapshot.completed_at.is_some());
    assert_eq!(snapshot.current_file, None);
}

#[test]
fn reclaimable_bytes_beyond_the_counter_fail_the_scan() {
    let tree = Tree {
        listings: vec![
            ("/", vec![("/node_modules", EntryKind::Directory, false)]),
            (
                "/node_modules",
                vec![
                    ("/node_modules/node_modules", EntryKind::Directory, false),
                    ("/node_modules/small", EntryKind::File, false),
                ],
            ),
            (
                "/node_modules/node_modules",
                vec![("/node_modules/node_modules/huge", EntryKind::File, false)],
            ),
        ],
        sizes: vec![("/node_modules/node_modules/huge", u64::MAX - 1), ("/node_modules/small", 1)],
    };
    let mut analyzer = Analyzer::new(settings("/"), Platform::Other).unwrap();
    let (snapshot, _) = scan(&mut analyzer, &tree, 0);
    assert_eq!(analyzer.state(), ScanState::Failed);
    assert_eq!(snapshot.total_bytes, u64::MAX);
    assert_eq!(names(&snapshot.developer_dirs), vec![("/node_modules/node_modules", u64::MAX - 1)]);
}

#[test]
fn the_clock_is_read_where_no_time_is_given() {
    let tree = three_files();
    let mut analyzer = Analyzer::new(settings("."), Platform::Other).unwrap();
    let mut snapshot = Scan::new();
    let mut request = analyzer.start(&mut snapshot);
    while let Some(reply) = tree.answer(&request) {
        request = analyzer.resume(&mut snapshot, reply);
    }
    assert_eq!(analyzer.state(), ScanState::Completed);
    // Any clock that is set at all shows a time after the year 2001.
    assert!(snapshot.started_at > 1_000_000_000_000);
    assert!(snapshot.completed_at.unwrap() >= snapshot.started_at);
    assert_eq!(snapshot.total_bytes, 70 * MIB);

    let mut cancelled = Analyzer::new(settings("."), Platform::Other).unwrap();
    cancelled.start(&mut snapshot);
    cancelled.cancel(&mut snapshot);
    assert_eq!(cancelled.state(), ScanState::Cancelled);
    assert!(snapshot.completed_at.is_some());
}
