//! The scan engine.
//!
//! The engine never touches the file system. Its host starts it, performs
//! what the engine asks for (list a directory, take a file's size) and
//! resumes it with the answer, until the engine asks for nothing more.
//! Whenever it is called, the engine brings the snapshot it is handed up
//! to date; the host may hold that snapshot behind a lock and take the lock
//! for the length of the call alone.

use crate::clock::timestamp_now;
use crate::engine::{lemma_work_push, work, Awaiting, Engine, Level, Reply, Request, ScanState};
use crate::entry::{entries_view, DirEntry, Entry, EntryKind, FileTreeNode};
use crate::error::ConfigError;
use crate::largest::copy_files;
use crate::pattern::{compile_pattern, glob_matches, glob_parses, glob_source, pattern_matches};
use crate::scan::{Scan, Snapshot};
use crate::settings::{Platform, ScanSettings};
use crate::stats::AnalyzerStats;
use crate::utils::{base_name, base_name_of, chars_of, contains_chars, has_substring, is_hidden};
use glob::Pattern;
use vstd::prelude::*;

verus! {

/// What the engine asks of its host.
#[derive(Debug)]
pub enum ScanRequest {
    /// List the directory at this path, and resume with the listing or
    /// with the news that it could not be had.
    ListDir(String),
    /// Take the size of the file at this path, links followed, and resume
    /// with the size or with the news that it could not be had.
    FileSize(String),
    /// Nothing more: the scan is not under way.
    Done,
}

impl View for ScanRequest {
    type V = Request;

    open spec fn view(&self) -> Request {
        match self {
            ScanRequest::ListDir(path) => Request::ListDir(path@),
            ScanRequest::FileSize(path) => Request::FileSize(path@),
            ScanRequest::Done => Request::Done,
        }
    }
}

/// What the host answers.
#[derive(Debug)]
pub enum ScanReply {
    /// The entries of the directory asked for.
    Listing(Vec<DirEntry>),
    /// The directory could not be listed.
    ListingFailed,
    /// The size of the file asked for, in bytes.
    Size(u64),
    /// The file's size could not be had.
    SizeFailed,
}

impl View for ScanReply {
    type V = Reply;

    open spec fn view(&self) -> Reply {
        match self {
            ScanReply::Listing(entries) => Reply::Listing(entries_view(entries@)),
            ScanReply::ListingFailed => Reply::ListingFailed,
            ScanReply::Size(len) => Reply::Size(*len),
            ScanReply::SizeFailed => Reply::SizeFailed,
        }
    }
}

/// The rule of the path filter, given whether the ignore glob matches the
/// entry's path: a match is skipped; a directory is also skipped where it
/// is a symbolic link, or, on macOS, where its base name holds `.app`.
pub open spec fn skip_rule(entry: Entry, ignored: bool, platform: Platform) -> bool {
    ||| ignored
    ||| {
        &&& entry.kind == EntryKind::Directory
        &&& {
            ||| entry.is_symlink
            ||| platform == Platform::MacOs && has_substring(base_name(entry.path), ".app"@)
        }
    }
}

/// Decides whether `entry` is skipped; `ignored` says whether the ignore
/// glob matches its path.
pub fn skip_decision(entry: &DirEntry, ignored: bool, platform: Platform) -> (skip: bool)
    ensures
        skip == skip_rule(entry@, ignored, platform),
{
    if ignored {
        return true;
    }
    if entry.kind != EntryKind::Directory {
        return false;
    }
    if entry.is_symlink {
        return true;
    }
    if platform != Platform::MacOs {
        return false;
    }
    let name = chars_of(base_name_of(entry.path.as_str()));
    let bundle = chars_of(".app");
    contains_chars(&name, &bundle)
}

/// One open directory: its node, whose length is the bytes counted beneath
/// it so far, its listing, and the index of the entry the walk stands at.
struct Frame {
    node: FileTreeNode,
    entries: Vec<DirEntry>,
    next: usize,
    since: Ghost<u64>,
}

impl View for Frame {
    type V = Level;

    closed spec fn view(&self) -> Level {
        Level {
            path: self.node.path@,
            entries: entries_view(self.entries@),
            next: self.next as int,
            bytes: self.node.len,
            since: self.since@,
        }
    }
}

/// The open directories as mathematics.
spec fn stack_view(stack: Seq<Frame>) -> Seq<Level> {
    Seq::new(stack.len(), |i: int| stack[i]@)
}

/// Whether the snapshot `after` shows the engine state `engine`, having
/// been brought up to date from `before`, which showed `engine_before`.
/// Times, counts and the current file are written on every call. The
/// directory and the two lists are written when they may have changed, and
/// left alone otherwise.
pub open spec fn shows(
    after: Snapshot,
    before: Snapshot,
    engine: Engine,
    engine_before: Engine,
) -> bool {
    &&& after.started_at == engine.started_at
    &&& after.completed_at == engine.completed_at
    &&& after.current_file == engine.current_file
    &&& after.total_bytes == engine.total_bytes
    &&& after.totals == engine.usage.totals
    &&& after.reclaimable_total == engine.usage.reclaimable_total
    &&& after.dir == engine.root || after.dir == before.dir
    &&& after.largest == engine.usage.largest || (after.largest == before.largest
        && engine.usage.largest == engine_before.usage.largest)
    &&& after.reclaimable == engine.usage.reclaimable || (after.reclaimable == before.reclaimable
        && engine.usage.reclaimable == engine_before.usage.reclaimable)
}

/// A snapshot that showed the engine before a call shows it after the
/// call, in every field.
pub proof fn lemma_shows(after: Snapshot, before: Snapshot, engine: Engine, engine_before: Engine)
    requires
        shows(after, before, engine, engine_before),
        before == engine_before.snapshot(),
        engine.root == engine_before.root,
    ensures
        after == engine.snapshot(),
{
}

/// The scan engine: the settings of one scan, its usage tracker, and the
/// place the walk has come to.
pub struct Analyzer {
    total_bytes: u64,
    tree: FileTreeNode,
    stats: AnalyzerStats,
    ignore_pattern: Pattern,
    settings: ScanSettings,
    platform: Platform,
    state: ScanState,
    awaiting: Awaiting,
    stack: Vec<Frame>,
    current_file: Option<String>,
    started_at: i64,
    completed_at: Option<i64>,
}

impl View for Analyzer {
    type V = Engine;

    closed spec fn view(&self) -> Engine {
        Engine {
            root: self.tree.path@,
            include_hidden: self.settings.hidden,
            ignore: glob_source(self.ignore_pattern),
            platform: self.platform,
            usage: self.stats@,
            total_bytes: self.total_bytes,
            state: self.state,
            awaiting: self.awaiting,
            stack: stack_view(self.stack@),
            current_file: match self.current_file {
                Some(path) => Some(path@),
                None => None,
            },
            started_at: self.started_at,
            completed_at: self.completed_at,
        }
    }
}

impl Analyzer {
    /// What holds of the engine's parts whatever it is doing: they are the
    /// parts it was made with.
    pub closed spec fn made(&self) -> bool {
        &&& self.tree.path@ == self.settings.dir@
        &&& glob_source(self.ignore_pattern) == self.settings.ignore@
        &&& self.stats@.glob == self.settings.reclaimable@
        &&& self.stats@.top_n == self.settings.nlargest
        &&& self.stats@.threshold == self.settings.largebytes
    }

    /// The engine's invariant, between any two calls.
    pub closed spec fn wf(&self) -> bool {
        self.made() && self@.wf()
    }

    /// The invariant is that of the model.
    pub proof fn lemma_wf(&self)
        requires
            self.wf(),
        ensures
            self@.wf(),
    {
    }

    /// An engine for one scan with `settings` on `platform`. Fails exactly
    /// where one of the two globs of the settings is malformed, before
    /// anything is walked; the ignore glob is looked at first.
    pub fn new(settings: ScanSettings, platform: Platform) -> (made: Result<Analyzer, ConfigError>)
        ensures
            match made {
                Ok(analyzer) => {
                    &&& glob_parses(settings@.ignore)
                    &&& glob_parses(settings@.reclaimable)
                    &&& analyzer@ == Engine::fresh(settings@, platform)
                    &&& analyzer.wf()
                },
                Err(error) => if glob_parses(settings@.ignore) {
                    !glob_parses(settings@.reclaimable) && error == ConfigError::ReclaimablePattern
                } else {
                    error == ConfigError::IgnorePattern
                },
            },
    {
        let ignore_pattern = match compile_pattern(settings.ignore.as_str()) {
            Ok(pattern) => pattern,
            Err(_) => {
                return Err(ConfigError::IgnorePattern);
            },
        };
        let stats = match AnalyzerStats::new(
            settings.reclaimable.as_str(),
            settings.nlargest,
            settings.largebytes,
        ) {
            Ok(stats) => stats,
            Err(error) => {
                return Err(error);
            },
        };
        let analyzer = Analyzer {
            total_bytes: 0,
            tree: FileTreeNode::new(settings.dir.clone(), false, 0),
            stats,
            ignore_pattern,
            settings,
            platform,
            state: ScanState::NotStarted,
            awaiting: Awaiting::Nothing,
            stack: Vec::new(),
            current_file: None,
            started_at: 0,
            completed_at: None,
        };
        assert(analyzer@.stack =~= Seq::empty());
        Ok(analyzer)
    }

    /// Where the scan stands in its life.
    pub fn state(&self) -> (state: ScanState)
        ensures
            state == self@.state,
    {
        self.state
    }

    /// The bytes of all files counted so far.
    pub fn total_bytes(&self) -> (total: u64)
        ensures
            total == self@.total_bytes,
    {
        self.total_bytes
    }

    /// The usage tracker.
    pub fn stats(&self) -> (stats: &AnalyzerStats)
        ensures
            stats@ == self@.usage,
    {
        &self.stats
    }

    /// The path filter: whether `entry` is skipped. An entry is skipped
    /// where its full path matches the ignore glob; a directory also where
    /// it is a symbolic link, or, on macOS, where its base name holds
    /// `.app`.
    pub fn should_skip(&self, entry: &DirEntry) -> (skip: bool)
        ensures
            skip == self@.skips(entry@),
            skip == skip_rule(entry@, glob_matches(self@.ignore, entry@.path), self@.platform),
    {
        let ignored = pattern_matches(&self.ignore_pattern, entry.path.as_str());
        skip_decision(entry, ignored, self.platform)
    }

    /// What the engine asks of its host now.
    pub fn request(&self) -> (request: ScanRequest)
        requires
            self.wf(),
        ensures
            request@ == self@.request(),
    {
        match self.awaiting {
            Awaiting::Nothing => ScanRequest::Done,
            Awaiting::Listing => ScanRequest::ListDir(self.pending_path()),
            Awaiting::Size => ScanRequest::FileSize(self.pending_path()),
        }
    }

    /// The path that the pending request is about.
    fn pending_path(&self) -> (path: String)
        requires
            self@.stack.len() > 0 ==> self@.stack.last().has_current(),
        ensures
            path@ == self@.pending_path(),
    {
        if self.stack.len() == 0 {
            self.tree.path.clone()
        } else {
            let last = self.stack.len() - 1;
            let frame = &self.stack[last];
            frame.entries[frame.next].path.clone()
        }
    }

    /// Ends the scan in `state` at `now`.
    fn finish(&mut self, state: ScanState, now: i64)
        requires
            old(self).made(),
        ensures
            final(self).made(),
            final(self)@ == old(self)@.finish(state, now),
    {
        self.state = state;
        self.awaiting = Awaiting::Nothing;
        self.stack = Vec::new();
        self.current_file = None;
        self.completed_at = Some(now);
        assert(self@.stack =~= Seq::empty());
    }

    /// Brings `snapshot` up to date: times, counts and the current file
    /// always, the directory and the two lists where asked.
    fn publish(&self, snapshot: &mut Scan, dir: bool, largest: bool, reclaimable: bool)
        ensures
            final(snapshot)@.started_at == self@.started_at,
            final(snapshot)@.completed_at == self@.completed_at,
            final(snapshot)@.current_file == self@.current_file,
            final(snapshot)@.total_bytes == self@.total_bytes,
            final(snapshot)@.totals == self@.usage.totals,
            final(snapshot)@.reclaimable_total == self@.usage.reclaimable_total,
            final(snapshot)@.dir == if dir {
                self@.root
            } else {
                old(snapshot)@.dir
            },
            final(snapshot)@.largest == if largest {
                self@.usage.largest
            } else {
                old(snapshot)@.largest
            },
            final(snapshot)@.reclaimable == if reclaimable {
                self@.usage.reclaimable
            } else {
                old(snapshot)@.reclaimable
            },
    {
        snapshot.started_at = self.started_at;
        snapshot.completed_at = self.completed_at;
        snapshot.current_file = match &self.current_file {
            Some(path) => Some(path.clone()),
            None => None,
        };
        snapshot.total_bytes = self.total_bytes;
        snapshot.totals = self.stats.totals();
        snapshot.dev_total_usage = self.stats.dev_total_usage();
        if dir {
            snapshot.dir = self.tree.path.clone();
        }
        if largest {
            snapshot.largest_files = copy_files(self.stats.get_largest());
        }
        if reclaimable {
            snapshot.developer_dirs = copy_files(self.stats.developer_dirs());
        }
    }

    /// Moves the walk one entry on in the innermost directory.
    fn step_over(&mut self)
        requires
            old(self).made(),
            old(self)@.stack.len() > 0,
            old(self)@.stack.last().has_current(),
        ensures
            final(self).made(),
            final(self)@ == old(self)@.with_top(old(self)@.stack.last().advanced()),
    {
        let last = self.stack.len() - 1;
        let next = self.stack[last].next;
        let count = self.stack[last].entries.len();
        assert(self@.stack.last() == self.stack@[last as int]@);
        assert(next < count);
        self.stack[last].next = next + 1;
        assert(self@.stack =~= old(self)@.stack.drop_last().push(
            old(self)@.stack.last().advanced(),
        ));
    }

    /// Credits `bytes` to the innermost directory and moves the walk one
    /// entry on in it.
    fn credit(&mut self, bytes: u64)
        requires
            old(self).made(),
            old(self)@.stack.len() > 0,
            old(self)@.stack.last().has_current(),
            old(self)@.stack.last().bytes + bytes <= u64::MAX,
        ensures
            final(self).made(),
            final(self)@ == old(self)@.with_top(old(self)@.stack.last().credited(bytes)),
    {
        let last = self.stack.len() - 1;
        let next = self.stack[last].next;
        let counted = self.stack[last].node.len;
        let count = self.stack[last].entries.len();
        assert(self@.stack.last() == self.stack@[last as int]@);
        assert(next < count);
        self.stack[last].next = next + 1;
        self.stack[last].node.len = counted + bytes;
        assert(self@.stack =~= old(self)@.stack.drop_last().push(
            old(self)@.stack.last().credited(bytes),
        ));
    }

    /// Closes the directory at `path`, which the walk stands at in the
    /// innermost open directory, with `bytes` beneath it: reports it to the
    /// usage tracker and credits its bytes. Gives back whether the walk
    /// goes on (it does not where the scan failed) and whether the
    /// directory was recorded as reclaimable.
    fn credit_dir(&mut self, path: &str, bytes: u64, now: i64) -> (outcome: (bool, bool))
        requires
            old(self).made(),
            old(self)@.closing(bytes),
            old(self)@.stack.len() > 0,
        ensures
            final(self).made(),
            outcome.0 ==> {
                &&& final(self)@.in_motion()
                &&& final(self)@.settle(now) == old(self)@.close_dir(path@, bytes, now)
                &&& work(final(self)@.stack) <= work(old(self)@.stack)
            },
            !outcome.0 ==> final(self)@ == old(self)@.close_dir(path@, bytes, now),
            !outcome.1 ==> final(self)@.usage.reclaimable == old(self)@.usage.reclaimable,
            final(self)@.usage.largest == old(self)@.usage.largest,
    {
        let matched = self.stats.is_reclaimable(path);
        if matched && self.stats.dev_total_usage() > u64::MAX - bytes {
            self.finish(ScanState::Failed, now);
            return (false, false);
        }
        proof {
            let top = self@.stack.last();
            let noted = Engine { usage: self@.usage.with_dir(path@, bytes, matched), ..self@ };
            self@.usage.lemma_with_dir(path@, bytes, matched);
            assert forall|i: int| 0 <= i < noted.stack.len() - 1 implies #[trigger] noted.linked(
                i,
            ) by {
                assert(self@.linked(i));
            }
            noted.lemma_with_top(top.credited(bytes));
        }
        self.stats.record_dir(path, bytes, matched);
        self.credit(bytes);
        (true, matched)
    }

    /// Moves the walk on until it stands at an entry to list or to
    /// measure, or the scan ends. Gives back whether a directory was
    /// recorded as reclaimable on the way.
    fn settle(&mut self, now: i64) -> (recorded: bool)
        requires
            old(self).made(),
            old(self)@.in_motion(),
        ensures
            final(self).made(),
            final(self)@ == old(self)@.settle(now),
            final(self)@.usage.largest == old(self)@.usage.largest,
            !recorded ==> final(self)@.usage.reclaimable == old(self)@.usage.reclaimable,
    {
        let mut recorded = false;
        loop
            invariant
                self.made(),
                self@.usage.largest == old(self)@.usage.largest,
                self@.in_motion(),
                self@.settle(now) == old(self)@.settle(now),
                !recorded ==> self@.usage.reclaimable == old(self)@.usage.reclaimable,
            decreases work(self@.stack),
        {
            if self.stack.len() == 0 {
                self.finish(ScanState::Completed, now);
                return recorded;
            }
            let last = self.stack.len() - 1;
            let next = self.stack[last].next;
            if next >= self.stack[last].entries.len() {
                let ghost before = self@;
                let frame = self.stack.pop().unwrap();
                proof {
                    let below = Engine { stack: before.stack.drop_last(), ..before };
                    assert(self@.stack =~= before.stack.drop_last());
                    assert(self@ == below);
                    assert(frame@ == before.stack.last());
                    assert forall|i: int| 0 <= i < below.stack.len() - 1 implies
                        #[trigger] below.linked(i) by {
                        assert(before.linked(i));
                    }
                    assert forall|i: int| 0 <= i < below.stack.len() implies 0 <= (
                    #[trigger] below.stack[i]).next <= below.stack[i].entries.len() by {
                        assert(below.stack[i] == before.stack[i]);
                    }
                    if below.stack.len() > 0 {
                        assert(before.linked(below.stack.len() - 1));
                    }
                }
                if self.stack.len() == 0 {
                    self.finish(ScanState::Completed, now);
                    return recorded;
                }
                let outcome = self.credit_dir(frame.node.path.as_str(), frame.node.len, now);
                if outcome.1 {
                    recorded = true;
                }
                if !outcome.0 {
                    return recorded;
                }
            } else {
                let entry = &self.stack[last].entries[next];
                let admitted = self.settings.hidden || !is_hidden(entry.path.as_str());
                let descend = admitted && entry.kind == EntryKind::Directory && !self.should_skip(
                    entry,
                );
                let measure = admitted && entry.kind == EntryKind::File;
                assert(entry@ == self@.stack.last().current());
                if descend {
                    self.awaiting = Awaiting::Listing;
                    return recorded;
                } else if measure {
                    let path = entry.path.clone();
                    self.awaiting = Awaiting::Size;
                    self.current_file = Some(path);
                    return recorded;
                } else {
                    proof {
                        self@.lemma_with_top(self@.stack.last().advanced());
                    }
                    self.step_over();
                }
            }
        }
    }

    /// Starts the scan at the time `now` and brings `snapshot` up to date.
    /// The engine then asks for the listing of the root. A scan starts
    /// once: on an engine that has started nothing changes.
    pub fn start_at(&mut self, snapshot: &mut Scan, now: i64) -> (request: ScanRequest)
        requires
            old(self).wf(),
        ensures
            final(self).wf(),
            final(self)@ == old(self)@.start(now),
            request@ == final(self)@.request(),
            shows(final(snapshot)@, old(snapshot)@, final(self)@, old(self)@),
            old(self)@.state == ScanState::NotStarted ==> final(snapshot)@
                == final(self)@.snapshot(),
    {
        if self.state == ScanState::NotStarted {
            self.state = ScanState::Running;
            self.awaiting = Awaiting::Listing;
            self.started_at = now;
            self.publish(snapshot, true, true, true);
        } else {
            self.publish(snapshot, false, false, false);
        }
        self.request()
    }

    /// Resumes the scan with the host's answer, which comes at the time
    /// `now`, and brings `snapshot` up to date. An answer that does not fit
    /// the pending request, or that comes while no scan is under way,
    /// changes nothing.
    pub fn resume_at(&mut self, snapshot: &mut Scan, reply: ScanReply, now: i64) -> (request:
        ScanRequest)
        requires
            old(self).wf(),
        ensures
            final(self).wf(),
            final(self)@ == old(self)@.resume(reply@, now),
            request@ == final(self)@.request(),
            shows(final(snapshot)@, old(snapshot)@, final(self)@, old(self)@),
    {
        proof {
            self@.lemma_resume(reply@, now);
        }
        if self.state != ScanState::Running {
            self.publish(snapshot, false, false, false);
            return self.request();
        }
        let mut counted = false;
        let mut recorded = false;
        match reply {
            ScanReply::Listing(entries) => {
                if self.awaiting == Awaiting::Listing {
                    let path = self.pending_path();
                    let ghost level = Level {
                        path: path@,
                        entries: entries_view(entries@),
                        next: 0,
                        bytes: 0,
                        since: self.total_bytes,
                    };
                    let ghost before = self@;
                    self.stack.push(
                        Frame {
                            node: FileTreeNode::new(path, false, 0),
                            entries,
                            next: 0,
                            since: Ghost(self.total_bytes),
                        },
                    );
                    proof {
                        let opened = Engine { stack: before.stack.push(level), ..before };
                        assert(self@.stack =~= before.stack.push(level));
                        assert(self@ == opened);
                        lemma_work_push(before.stack, level);
                        assert forall|i: int| 0 <= i < opened.stack.len() - 1 implies
                            #[trigger] opened.linked(i) by {
                            if i < before.stack.len() - 1 {
                                assert(before.linked(i));
                            }
                        }
                    }
                    recorded = self.settle(now);
                }
            },
            ScanReply::ListingFailed => {
                if self.awaiting == Awaiting::Listing {
                    if self.stack.len() == 0 {
                        self.finish(ScanState::Completed, now);
                    } else {
                        let path = self.pending_path();
                        let outcome = self.credit_dir(path.as_str(), 0, now);
                        recorded = outcome.1;
                        if outcome.0 {
                            let more = self.settle(now);
                            recorded = recorded || more;
                        }
                    }
                }
            },
            ScanReply::Size(len) => {
                if self.awaiting == Awaiting::Size {
                    if len > u64::MAX - self.total_bytes {
                        self.finish(ScanState::Failed, now);
                    } else {
                        proof {
                            self@.lemma_count_file(len);
                        }
                        let last = self.stack.len() - 1;
                        let next = self.stack[last].next;
                        self.stats.register_file(
                            self.stack[last].entries[next].path.as_str(),
                            len,
                        );
                        self.total_bytes = self.total_bytes + len;
                        self.credit(len);
                        counted = true;
                        recorded = self.settle(now);
                    }
                }
            },
            ScanReply::SizeFailed => {
                if self.awaiting == Awaiting::Size {
                    proof {
                        self@.lemma_with_top(self@.stack.last().advanced());
                    }
                    self.step_over();
                    recorded = self.settle(now);
                }
            },
        }
        let ended = self.state != ScanState::Running;
        self.publish(snapshot, false, counted || ended, recorded || ended);
        self.request()
    }

    /// Stops the scan at the time `now`, if it is under way, and brings
    /// `snapshot` up to date.
    pub fn cancel_at(&mut self, snapshot: &mut Scan, now: i64)
        requires
            old(self).wf(),
        ensures
            final(self).wf(),
            final(self)@ == old(self)@.cancel(now),
            shows(final(snapshot)@, old(snapshot)@, final(self)@, old(self)@),
    {
        if self.state == ScanState::Running {
            self.finish(ScanState::Cancelled, now);
            self.publish(snapshot, false, true, true);
        } else {
            self.publish(snapshot, false, false, false);
        }
    }

    /// Starts the scan now. See `start_at`.
    pub fn start(&mut self, snapshot: &mut Scan) -> (request: ScanRequest)
        requires
            old(self).wf(),
        ensures
            final(self).wf(),
            final(self)@ == old(self)@.start(final(self)@.started_at),
            request@ == final(self)@.request(),
            shows(final(snapshot)@, old(snapshot)@, final(self)@, old(self)@),
            old(self)@.state == ScanState::NotStarted ==> final(snapshot)@
                == final(self)@.snapshot(),
    {
        let now = timestamp_now();
        self.start_at(snapshot, now)
    }

    /// Resumes the scan with the host's answer, which comes now. See
    /// `resume_at`: the engine does what it would do at any other time, but
    /// for the completion time that it may set.
    pub fn resume(&mut self, snapshot: &mut Scan, reply: ScanReply) -> (request: ScanRequest)
        requires
            old(self).wf(),
        ensures
            final(self).wf(),
            exists|now: i64| final(self)@ == old(self)@.resume(reply@, now),
            final(self)@.timeless() == old(self)@.resume(reply@, 0).timeless(),
            request@ == final(self)@.request(),
            shows(final(snapshot)@, old(snapshot)@, final(self)@, old(self)@),
    {
        let now = timestamp_now();
        proof {
            self@.lemma_resume_timeless(self@, reply@, now, 0);
        }
        self.resume_at(snapshot, reply, now)
    }

    /// Stops the scan now, if it is under way. See `cancel_at`.
    pub fn cancel(&mut self, snapshot: &mut Scan)
        requires
            old(self).wf(),
        ensures
            final(self).wf(),
            exists|now: i64| final(self)@ == old(self)@.cancel(now),
            final(self)@.timeless() == old(self)@.cancel(0).timeless(),
            shows(final(snapshot)@, old(snapshot)@, final(self)@, old(self)@),
    {
        let now = timestamp_now();
        self.cancel_at(snapshot, now)
    }
}

} // verus!
