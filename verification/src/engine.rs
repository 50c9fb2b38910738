//! The scan engine as mathematics: its states, what it asks of its host,
//! and how each answer moves it on.
//!
//! The walk is depth first. The engine keeps one level for each directory
//! that is open, the root's first; a level holds the directory's listing
//! and how far the walk has come in it. Between two answers of the host
//! the engine passes over every entry that needs no answer, closes every
//! directory that is done, and stops at the next entry that has to be
//! listed or measured, or at the end of the scan.

use crate::classify::path_category;
use crate::entry::{Entry, EntryKind};
use crate::pattern::glob_matches;
use crate::scan::Snapshot;
use crate::settings::{Platform, Settings};
use crate::stats::{total_size, Usage};
use crate::utils::{base_name, has_substring, is_hidden_path};
use vstd::prelude::*;

verus! {

/// Where a scan stands in its life.
#[derive(Clone, Copy, Debug, PartialEq, Eq, Structural)]
pub enum ScanState {
    /// Set up, not yet started.
    NotStarted,
    /// Under way.
    Running,
    /// The whole tree was walked.
    Completed,
    /// Stopped on request.
    Cancelled,
    /// Given up: a byte count outgrew its 64-bit counter.
    Failed,
}

/// What the engine waits for.
#[derive(Clone, Copy, Debug, PartialEq, Eq, Structural)]
pub enum Awaiting {
    /// Nothing: the scan is not under way.
    Nothing,
    /// The listing of a directory.
    Listing,
    /// The size of a file.
    Size,
}

/// What the engine asks of its host.
pub enum Request {
    /// List the directory at this path.
    ListDir(Seq<char>),
    /// Give the size of the file at this path.
    FileSize(Seq<char>),
    /// Nothing more: the scan is not under way.
    Done,
}

/// What the host answers.
pub enum Reply {
    /// The entries of the directory asked for.
    Listing(Seq<Entry>),
    /// The directory could not be listed.
    ListingFailed,
    /// The size of the file asked for, in bytes.
    Size(u64),
    /// The file's size could not be had.
    SizeFailed,
}

/// One open directory: its path, its listing, the index of the entry the
/// walk stands at, the bytes counted beneath it so far, and the bytes that
/// the whole scan had counted when the directory was opened.
pub struct Level {
    pub path: Seq<char>,
    pub entries: Seq<Entry>,
    pub next: int,
    pub bytes: u64,
    pub since: u64,
}

impl Level {
    /// Whether the walk stands at an entry, not behind the last.
    pub open spec fn has_current(self) -> bool {
        0 <= self.next < self.entries.len()
    }

    /// The entry the walk stands at.
    pub open spec fn current(self) -> Entry {
        self.entries[self.next]
    }

    /// How many entries are left, the current one included.
    pub open spec fn remaining(self) -> nat {
        if self.next < self.entries.len() {
            (self.entries.len() - self.next) as nat
        } else {
            0
        }
    }

    /// This level with the walk one entry on.
    pub open spec fn advanced(self) -> Level {
        Level { next: self.next + 1, ..self }
    }

    /// This level with the walk one entry on and `bytes` more counted.
    pub open spec fn credited(self, bytes: u64) -> Level {
        Level { next: self.next + 1, bytes: (self.bytes + bytes) as u64, ..self }
    }
}

/// A bound on the steps the walk can still take without a new listing: one
/// for each open level and one for each entry left in it.
pub open spec fn work(stack: Seq<Level>) -> nat
    decreases stack.len(),
{
    if stack.len() == 0 {
        0
    } else {
        work(stack.drop_last()) + 1 + stack.last().remaining()
    }
}

/// Opening a level adds its own share of the work.
pub proof fn lemma_work_push(stack: Seq<Level>, level: Level)
    ensures
        work(stack.push(level)) == work(stack) + 1 + level.remaining(),
{
    assert(stack.push(level).drop_last() == stack);
}

/// The engine's state.
pub struct Engine {
    /// The directory that is scanned.
    pub root: Seq<char>,
    /// Whether hidden entries are included.
    pub include_hidden: bool,
    /// The glob on full paths that says what to skip.
    pub ignore: Seq<char>,
    /// The platform, for the rule on application bundles.
    pub platform: Platform,
    /// What the usage tracker holds.
    pub usage: Usage,
    /// The bytes of all files counted so far.
    pub total_bytes: u64,
    /// Where the scan stands in its life.
    pub state: ScanState,
    /// What the engine waits for.
    pub awaiting: Awaiting,
    /// The open directories, the root's level first.
    pub stack: Seq<Level>,
    /// The file that was last taken up.
    pub current_file: Option<Seq<char>>,
    /// When the scan started.
    pub started_at: i64,
    /// When the scan ended.
    pub completed_at: Option<i64>,
}

impl Engine {
    /// An engine that was set up with `settings` and has not started.
    pub open spec fn fresh(settings: Settings, platform: Platform) -> Engine {
        Engine {
            root: settings.dir,
            include_hidden: settings.hidden,
            ignore: settings.ignore,
            platform,
            usage: Usage::fresh(settings.reclaimable, settings.nlargest, settings.largebytes),
            total_bytes: 0,
            state: ScanState::NotStarted,
            awaiting: Awaiting::Nothing,
            stack: Seq::empty(),
            current_file: None,
            started_at: 0,
            completed_at: None,
        }
    }

    /// The path filter. An entry is skipped where its full path matches the
    /// ignore glob; a directory also where it is a symbolic link, or, on
    /// macOS, where its base name holds `.app`.
    pub open spec fn skips(self, entry: Entry) -> bool {
        ||| glob_matches(self.ignore, entry.path)
        ||| {
            &&& entry.kind == EntryKind::Directory
            &&& {
                ||| entry.is_symlink
                ||| self.platform == Platform::MacOs && has_substring(
                    base_name(entry.path),
                    ".app"@,
                )
            }
        }
    }

    /// Whether the hidden-entries rule lets `entry` through.
    pub open spec fn admits(self, entry: Entry) -> bool {
        self.include_hidden || !is_hidden_path(entry.path)
    }

    /// Whether the walk goes down into `entry`: a directory that is neither
    /// skipped nor left out as hidden.
    pub open spec fn descends(self, entry: Entry) -> bool {
        entry.kind == EntryKind::Directory && !self.skips(entry) && self.admits(entry)
    }

    /// Whether `entry` is measured: a file that is not left out as hidden.
    pub open spec fn measures(self, entry: Entry) -> bool {
        entry.kind == EntryKind::File && self.admits(entry)
    }

    /// The path that the pending request is about: the root while no
    /// directory is open, else the entry that the walk stands at.
    pub open spec fn pending_path(self) -> Seq<char> {
        if self.stack.len() == 0 {
            self.root
        } else {
            self.stack.last().current().path
        }
    }

    /// What the engine asks of its host in this state.
    pub open spec fn request(self) -> Request {
        match self.awaiting {
            Awaiting::Listing => Request::ListDir(self.pending_path()),
            Awaiting::Size => Request::FileSize(self.pending_path()),
            Awaiting::Nothing => Request::Done,
        }
    }

    /// What readers are shown of this state.
    pub open spec fn snapshot(self) -> Snapshot {
        Snapshot {
            dir: self.root,
            started_at: self.started_at,
            completed_at: self.completed_at,
            current_file: self.current_file,
            total_bytes: self.total_bytes,
            largest: self.usage.largest,
            totals: self.usage.totals,
            reclaimable_total: self.usage.reclaimable_total,
            reclaimable: self.usage.reclaimable,
        }
    }

    /// The scan ends in `state` at `now`: nothing is open or pending any
    /// more, no file is current, and the completion time is set.
    pub open spec fn finish(self, state: ScanState, now: i64) -> Engine {
        Engine {
            state,
            awaiting: Awaiting::Nothing,
            stack: Seq::empty(),
            current_file: None,
            completed_at: Some(now),
            ..self
        }
    }

    /// This state with its innermost level replaced.
    pub open spec fn with_top(self, level: Level) -> Engine {
        Engine { stack: self.stack.drop_last().push(level), ..self }
    }

    /// The walk moves on from a state in which nothing is pending, until
    /// it stands at an entry to list or to measure, or the scan ends.
    pub open spec fn settle(self, now: i64) -> Engine
        decreases work(self.stack), 0nat,
    {
        if self.stack.len() == 0 {
            self.finish(ScanState::Completed, now)
        } else {
            let top = self.stack.last();
            if !top.has_current() {
                let below = Engine { stack: self.stack.drop_last(), ..self };
                below.close_dir(top.path, top.bytes, now)
            } else if self.descends(top.current()) {
                Engine { awaiting: Awaiting::Listing, ..self }
            } else if self.measures(top.current()) {
                Engine {
                    awaiting: Awaiting::Size,
                    current_file: Some(top.current().path),
                    ..self
                }
            } else {
                proof {
                    lemma_work_push(self.stack.drop_last(), top.advanced());
                }
                self.with_top(top.advanced()).settle(now)
            }
        }
    }

    /// The directory that the walk stands at, `path`, is done with `bytes`
    /// beneath it. Where no level is open it was the root, and the scan is
    /// complete. Else the directory is reported to the usage tracker, its
    /// bytes are credited to the level above it, and the walk moves on; but
    /// where the reclaimable bytes would outgrow their counter, the scan
    /// fails.
    pub open spec fn close_dir(self, path: Seq<char>, bytes: u64, now: i64) -> Engine
        decreases work(self.stack), 1nat,
    {
        if self.stack.len() == 0 {
            self.finish(ScanState::Completed, now)
        } else {
            let matched = glob_matches(self.usage.glob, base_name(path));
            if matched && self.usage.reclaimable_total + bytes > u64::MAX {
                self.finish(ScanState::Failed, now)
            } else {
                let top = self.stack.last();
                proof {
                    lemma_work_push(self.stack.drop_last(), top.credited(bytes));
                }
                Engine { usage: self.usage.with_dir(path, bytes, matched), ..self }.with_top(
                    top.credited(bytes),
                ).settle(now)
            }
        }
    }

    /// The file that the walk stands at has `len` bytes: they are counted
    /// in the scan's total, in the file's category and in the level the
    /// file lies in, and the file is offered to the list of the largest.
    pub open spec fn count_file(self, len: u64) -> Engine {
        let path = self.pending_path();
        Engine {
            usage: self.usage.with_file(path, len, path_category(path)),
            total_bytes: (self.total_bytes + len) as u64,
            ..self
        }.with_top(self.stack.last().credited(len))
    }

    /// The scan starts at `now`: the engine asks for the listing of the
    /// root. A scan starts once; on an engine that has started, nothing
    /// changes.
    pub open spec fn start(self, now: i64) -> Engine {
        if self.state == ScanState::NotStarted {
            Engine {
                state: ScanState::Running,
                awaiting: Awaiting::Listing,
                started_at: now,
                ..self
            }
        } else {
            self
        }
    }

    /// The host's answer moves the scan on. An answer that does not fit the
    /// pending request, or that comes while no scan is under way, changes
    /// nothing.
    pub open spec fn resume(self, reply: Reply, now: i64) -> Engine {
        if self.state != ScanState::Running {
            self
        } else {
            match (self.awaiting, reply) {
                (Awaiting::Listing, Reply::Listing(entries)) => Engine {
                    stack: self.stack.push(
                        Level {
                            path: self.pending_path(),
                            entries,
                            next: 0,
                            bytes: 0,
                            since: self.total_bytes,
                        },
                    ),
                    ..self
                }.settle(now),
                (Awaiting::Listing, Reply::ListingFailed) => self.close_dir(
                    self.pending_path(),
                    0,
                    now,
                ),
                (Awaiting::Size, Reply::Size(len)) => if self.total_bytes + len > u64::MAX {
                    self.finish(ScanState::Failed, now)
                } else {
                    self.count_file(len).settle(now)
                },
                (Awaiting::Size, Reply::SizeFailed) => self.with_top(
                    self.stack.last().advanced(),
                ).settle(now),
                _ => self,
            }
        }
    }

    /// The scan is stopped at `now`, if it is under way.
    pub open spec fn cancel(self, now: i64) -> Engine {
        if self.state == ScanState::Running {
            self.finish(ScanState::Cancelled, now)
        } else {
            self
        }
    }

    /// Level `i` stands at a directory that the walk went down into, and
    /// the level after it is that directory's; the bytes of level `i` are
    /// those that were counted between its opening and the opening of the
    /// level after it.
    pub open spec fn linked(self, i: int) -> bool {
        &&& self.stack[i].has_current()
        &&& self.descends(self.stack[i].current())
        &&& self.stack[i + 1].path == self.stack[i].current().path
        &&& self.stack[i].bytes == self.stack[i + 1].since - self.stack[i].since
    }

    /// What holds of the open levels whatever is pending: each but the
    /// innermost is linked to the next, and the bytes of the innermost are
    /// those that were counted since it was opened.
    pub open spec fn stack_inv(self) -> bool {
        &&& forall|i: int| 0 <= i < self.stack.len() - 1 ==> #[trigger] self.linked(i)
        &&& forall|i: int|
            0 <= i < self.stack.len() ==> 0 <= (#[trigger] self.stack[i]).next
                <= self.stack[i].entries.len()
        &&& self.stack.len() > 0 ==> self.stack.last().bytes == self.total_bytes
            - self.stack.last().since
    }

    /// What holds of the counters in every state.
    pub open spec fn counters_inv(self) -> bool {
        &&& self.usage.wf()
        &&& self.total_bytes == total_size(self.usage.seen)
    }

    /// The engine's invariant.
    pub open spec fn wf(self) -> bool {
        &&& self.counters_inv()
        &&& match self.state {
            ScanState::NotStarted => {
                &&& self.awaiting == Awaiting::Nothing
                &&& self.stack.len() == 0
                &&& self.current_file is None
                &&& self.completed_at is None
            },
            ScanState::Running => {
                &&& self.stack_inv()
                &&& self.completed_at is None
                &&& match self.awaiting {
                    Awaiting::Nothing => false,
                    Awaiting::Listing => self.stack.len() > 0 ==> {
                        &&& self.stack.last().has_current()
                        &&& self.descends(self.stack.last().current())
                    },
                    Awaiting::Size => {
                        &&& self.stack.len() > 0
                        &&& self.stack.last().has_current()
                        &&& self.measures(self.stack.last().current())
                        &&& self.current_file == Some(self.stack.last().current().path)
                    },
                }
            },
            _ => {
                &&& self.awaiting == Awaiting::Nothing
                &&& self.stack.len() == 0
                &&& self.current_file is None
                &&& self.completed_at is Some
            },
        }
    }

    /// Whether the walk may move on from this state: a scan under way with
    /// nothing pending.
    pub open spec fn in_motion(self) -> bool {
        &&& self.counters_inv()
        &&& self.state == ScanState::Running
        &&& self.stack_inv()
        &&& self.completed_at is None
    }

    /// This state with all times blotted out.
    pub open spec fn timeless(self) -> Engine {
        Engine {
            started_at: 0,
            completed_at: if self.completed_at is Some {
                Some(0i64)
            } else {
                None
            },
            ..self
        }
    }

    /// The scan as a static tree sees it: `steps` times over, the engine's
    /// request is answered by `host`, which gives the same answer to the
    /// same request; answer number `k` comes at the time `clock(k)`.
    pub open spec fn drive(
        self,
        host: spec_fn(Request) -> Reply,
        clock: spec_fn(nat) -> i64,
        steps: nat,
    ) -> Engine
        decreases steps,
    {
        if steps == 0 {
            self
        } else {
            let before = self.drive(host, clock, (steps - 1) as nat);
            before.resume(host(before.request()), clock((steps - 1) as nat))
        }
    }
}

} // verus!
