//! What holds of every scan: the laws of the engine, proved over its
//! model.

use crate::engine::{
    lemma_work_push, work, Awaiting, Engine, Level, Reply, Request, ScanState,
};
use crate::entry::{Entry, EntryKind};
use crate::largest::well_ranked;
use crate::pattern::glob_matches;
use crate::stats::total_size;
use crate::utils::base_name;
use vstd::prelude::*;

verus! {

impl Engine {
    /// Whether this state holds the same settings, the same counted files
    /// and the same start time as `before`. The walk alone changes none of
    /// them: it only opens and closes directories and records those that
    /// are reclaimable.
    pub open spec fn walked_from(self, before: Engine) -> bool {
        &&& self.root == before.root
        &&& self.include_hidden == before.include_hidden
        &&& self.ignore == before.ignore
        &&& self.platform == before.platform
        &&& self.started_at == before.started_at
        &&& self.total_bytes == before.total_bytes
        &&& self.usage.seen == before.usage.seen
        &&& self.usage.offered == before.usage.offered
        &&& self.usage.largest == before.usage.largest
        &&& self.usage.totals == before.usage.totals
        &&& self.usage.glob == before.usage.glob
        &&& self.usage.top_n == before.usage.top_n
        &&& self.usage.threshold == before.usage.threshold
        &&& before.usage.reclaimable.is_prefix_of(self.usage.reclaimable)
        &&& self.usage.reclaimable_total >= before.usage.reclaimable_total
    }

    /// Whether a directory with `bytes` beneath it may be closed in this
    /// state: the scan is under way, the open levels are in order, the
    /// innermost stands at an entry, and with `bytes` more its bytes are
    /// those that were counted since it was opened.
    pub open spec fn closing(self, bytes: u64) -> bool {
        &&& self.counters_inv()
        &&& self.state == ScanState::Running
        &&& self.completed_at is None
        &&& forall|i: int| 0 <= i < self.stack.len() - 1 ==> #[trigger] self.linked(i)
        &&& forall|i: int|
            0 <= i < self.stack.len() ==> 0 <= (#[trigger] self.stack[i]).next
                <= self.stack[i].entries.len()
        &&& self.stack.len() > 0 ==> self.stack.last().has_current()
        &&& self.stack.len() > 0 ==> self.stack.last().bytes + bytes == self.total_bytes
            - self.stack.last().since
    }

    /// Replacing the innermost level by one with the same path and listing
    /// keeps the levels below it linked.
    pub proof fn lemma_with_top(self, level: Level)
        requires
            self.stack.len() > 0,
            level.path == self.stack.last().path,
            level.since == self.stack.last().since,
            forall|i: int| 0 <= i < self.stack.len() - 1 ==> #[trigger] self.linked(i),
            forall|i: int|
                0 <= i < self.stack.len() ==> 0 <= (#[trigger] self.stack[i]).next
                    <= self.stack[i].entries.len(),
            0 <= level.next <= level.entries.len(),
        ensures
            self.with_top(level).stack.len() == self.stack.len(),
            self.with_top(level).stack.last() == level,
            forall|i: int|
                0 <= i < self.stack.len() - 1 ==> #[trigger] self.with_top(level).linked(i),
            forall|i: int|
                0 <= i < self.stack.len() ==> 0 <= (#[trigger] self.with_top(level).stack[i]).next
                    <= self.with_top(level).stack[i].entries.len(),
            work(self.with_top(level).stack) == work(self.stack) - self.stack.last().remaining()
                + level.remaining(),
    {
        let after = self.with_top(level);
        lemma_work_push(self.stack.drop_last(), level);
        assert forall|i: int| 0 <= i < self.stack.len() - 1 implies #[trigger] after.linked(
            i,
        ) by {
            assert(self.linked(i));
            assert(after.stack[i] == self.stack[i]);
        }
        assert forall|i: int| 0 <= i < self.stack.len() implies 0 <= (
        #[trigger] after.stack[i]).next <= after.stack[i].entries.len() by {
            if i < self.stack.len() - 1 {
                assert(after.stack[i] == self.stack[i]);
            }
        }
    }

    /// The walk keeps the engine's invariant and changes nothing of what
    /// was counted; it ends at a pending request or at the scan's end.
    pub proof fn lemma_settle(self, now: i64)
        requires
            self.in_motion(),
        ensures
            self.settle(now).wf(),
            self.settle(now).walked_from(self),
            self.settle(now).state != ScanState::NotStarted,
            self.settle(now).state != ScanState::Cancelled,
            self.settle(now).state != ScanState::Running ==> self.settle(now).completed_at
                == Some(now),
            self.settle(now).stack.len() <= self.stack.len(),
            self.settle(now).state == ScanState::Running && self.settle(now).stack.len()
                == self.stack.len() ==> self.settle(now).stack.last().next
                >= self.stack.last().next,
        decreases work(self.stack), 0nat,
    {
        if self.stack.len() == 0 {
        } else {
            let top = self.stack.last();
            if !top.has_current() {
                let below = Engine { stack: self.stack.drop_last(), ..self };
                assert forall|i: int| 0 <= i < below.stack.len() - 1 implies #[trigger] below.linked(
                    i,
                ) by {
                    assert(self.linked(i));
                }
                assert forall|i: int| 0 <= i < below.stack.len() implies 0 <= (
                #[trigger] below.stack[i]).next <= below.stack[i].entries.len() by {
                    assert(below.stack[i] == self.stack[i]);
                }
                if below.stack.len() > 0 {
                    assert(self.linked(below.stack.len() - 1));
                }
                below.lemma_close_dir(top.path, top.bytes, now);
            } else if self.descends(top.current()) || self.measures(top.current()) {
                let stopped = self.settle(now);
                assert forall|i: int| 0 <= i < stopped.stack.len() - 1 implies
                    #[trigger] stopped.linked(i) by {
                    assert(self.linked(i));
                }
            } else {
                self.lemma_with_top(top.advanced());
                self.with_top(top.advanced()).lemma_settle(now);
            }
        }
    }

    /// Closing a directory keeps the engine's invariant and changes nothing
    /// of what was counted.
    pub proof fn lemma_close_dir(self, path: Seq<char>, bytes: u64, now: i64)
        requires
            self.closing(bytes),
        ensures
            self.close_dir(path, bytes, now).wf(),
            self.close_dir(path, bytes, now).walked_from(self),
            self.close_dir(path, bytes, now).state != ScanState::NotStarted,
            self.close_dir(path, bytes, now).state != ScanState::Cancelled,
            self.close_dir(path, bytes, now).state != ScanState::Running ==> self.close_dir(
                path,
                bytes,
                now,
            ).completed_at == Some(now),
            self.close_dir(path, bytes, now).stack.len() <= self.stack.len(),
        decreases work(self.stack), 1nat,
    {
        if self.stack.len() == 0 {
        } else {
            let matched = glob_matches(self.usage.glob, base_name(path));
            if matched && self.usage.reclaimable_total + bytes > u64::MAX {
            } else {
                let top = self.stack.last();
                let noted = Engine { usage: self.usage.with_dir(path, bytes, matched), ..self };
                self.usage.lemma_with_dir(path, bytes, matched);
                assert forall|i: int| 0 <= i < noted.stack.len() - 1 implies #[trigger] noted.linked(
                    i,
                ) by {
                    assert(self.linked(i));
                }
                noted.lemma_with_top(top.credited(bytes));
                let moved = noted.with_top(top.credited(bytes));
                moved.lemma_settle(now);
            }
        }
    }

    /// Starting keeps the invariant.
    pub proof fn lemma_start(self, now: i64)
        requires
            self.wf(),
        ensures
            self.start(now).wf(),
    {
    }

    /// Cancelling keeps the invariant.
    pub proof fn lemma_cancel(self, now: i64)
        requires
            self.wf(),
        ensures
            self.cancel(now).wf(),
    {
    }

    /// An answer keeps the invariant; the bytes counted never shrink, and
    /// the files counted before stay counted.
    pub proof fn lemma_resume(self, reply: Reply, now: i64)
        requires
            self.wf(),
        ensures
            self.resume(reply, now).wf(),
            self.resume(reply, now).total_bytes >= self.total_bytes,
            self.usage.seen.is_prefix_of(self.resume(reply, now).usage.seen),
            self.resume(reply, now).root == self.root,
            self.resume(reply, now).started_at == self.started_at,
            self.state == ScanState::Running && self.resume(reply, now).state
                != ScanState::Running ==> self.resume(reply, now).completed_at == Some(now),
    {
        if self.state == ScanState::Running {
            match (self.awaiting, reply) {
                (Awaiting::Listing, Reply::Listing(entries)) => {
                    let level = Level {
                        path: self.pending_path(),
                        entries,
                        next: 0,
                        bytes: 0,
                        since: self.total_bytes,
                    };
                    let opened = Engine { stack: self.stack.push(level), ..self };
                    lemma_work_push(self.stack, level);
                    assert forall|i: int| 0 <= i < opened.stack.len() - 1 implies
                        #[trigger] opened.linked(i) by {
                        if i < self.stack.len() - 1 {
                            assert(self.linked(i));
                        }
                    }
                    opened.lemma_settle(now);
                },
                (Awaiting::Listing, Reply::ListingFailed) => {
                    self.lemma_close_dir(self.pending_path(), 0, now);
                },
                (Awaiting::Size, Reply::Size(len)) => {
                    if self.total_bytes + len > u64::MAX {
                    } else {
                        self.lemma_count_file(len);
                        self.count_file(len).lemma_settle(now);
                    }
                },
                (Awaiting::Size, Reply::SizeFailed) => {
                    self.lemma_with_top(self.stack.last().advanced());
                    self.with_top(self.stack.last().advanced()).lemma_settle(now);
                },
                _ => {},
            }
        }
    }

    /// Counting the pending file leaves a state from which the walk may
    /// move on.
    pub proof fn lemma_count_file(self, len: u64)
        requires
            self.wf(),
            self.state == ScanState::Running,
            self.awaiting == Awaiting::Size,
            self.total_bytes + len <= u64::MAX,
        ensures
            self.count_file(len).in_motion(),
            self.count_file(len).total_bytes == self.total_bytes + len,
            self.count_file(len).usage.seen.drop_last() == self.usage.seen,
            self.count_file(len).root == self.root,
            self.count_file(len).started_at == self.started_at,
    {
        let path = self.pending_path();
        let category = crate::classify::path_category(path);
        self.usage.lemma_with_file(path, len, category);
        let counted = Engine {
            usage: self.usage.with_file(path, len, category),
            total_bytes: (self.total_bytes + len) as u64,
            ..self
        };
        assert forall|i: int| 0 <= i < counted.stack.len() - 1 implies #[trigger] counted.linked(
            i,
        ) by {
            assert(self.linked(i));
        }
        counted.lemma_with_top(self.stack.last().credited(len));
        assert(counted.usage.seen.drop_last() == self.usage.seen);
    }

    /// A scan ends once: on an engine whose scan has ended, starting,
    /// answering and cancelling change nothing, so the completion time that
    /// was set stays, and so do the results.
    pub proof fn lemma_ended_stays(self, reply: Reply, now: i64)
        requires
            self.state != ScanState::NotStarted,
            self.state != ScanState::Running,
        ensures
            self.start(now) == self,
            self.resume(reply, now) == self,
            self.cancel(now) == self,
    {
    }

    /// When a scan ends, by completion, by failure or on request, its
    /// completion time is set to the time of the call, and no file is
    /// current any more.
    pub proof fn lemma_end_is_stamped(self, reply: Reply, now: i64)
        requires
            self.wf(),
            self.state == ScanState::Running,
        ensures
            self.resume(reply, now).state != ScanState::Running ==> {
                &&& self.resume(reply, now).completed_at == Some(now)
                &&& self.resume(reply, now).current_file is None
            },
            self.resume(reply, now).state == ScanState::Running ==> self.resume(
                reply,
                now,
            ).completed_at is None,
            self.cancel(now).state == ScanState::Cancelled,
            self.cancel(now).completed_at == Some(now),
            self.cancel(now).current_file is None,
    {
        self.lemma_resume(reply, now);
    }

    /// The path filter: an entry whose path the ignore glob matches is
    /// skipped, whatever it is; a file whose path the glob does not match
    /// is not skipped, be it a symbolic link or not.
    pub proof fn lemma_filter(self, entry: Entry)
        ensures
            glob_matches(self.ignore, entry.path) ==> self.skips(entry),
            entry.kind == EntryKind::File && !glob_matches(self.ignore, entry.path)
                ==> !self.skips(entry),
            entry.kind == EntryKind::Directory && entry.is_symlink ==> self.skips(entry),
            self.skips(entry) ==> !self.descends(entry),
    {
    }

    /// The totals invariant: in every state of a scan, the bytes under the
    /// seven categories add up to the total bytes, which are the bytes of
    /// the files counted.
    pub proof fn lemma_totals_add_up(self)
        requires
            self.wf(),
        ensures
            self.snapshot().consistent(),
            self.usage.totals.sum() == self.total_bytes,
            self.total_bytes == total_size(self.usage.seen),
    {
        self.usage.lemma_totals();
    }

    /// The top-N invariants: in every state of a scan, the list of the
    /// largest files is in descending order of size, no longer than the
    /// bound, and free of files under the threshold; and a counted file of
    /// at least the threshold that is not listed is no larger than any
    /// listed file, the list being full.
    pub proof fn lemma_top_n(self)
        requires
            self.wf(),
        ensures
            well_ranked(self.snapshot().largest, self.usage.top_n as int, self.usage.threshold),
            forall|i: int|
                0 <= i < self.usage.offered.len() && self.usage.offered[i].1
                    >= self.usage.threshold && !self.snapshot().largest.contains(
                    #[trigger] self.usage.offered[i],
                ) ==> {
                    &&& self.snapshot().largest.len() == self.usage.top_n
                    &&& forall|j: int|
                        0 <= j < self.usage.top_n ==> self.snapshot().largest[j].1
                            >= self.usage.offered[i].1
                },
    {
        self.usage.lemma_largest();
    }

    /// The bytes of a directory are the bytes of all that lies beneath it:
    /// while a scan is under way, the bytes of the innermost open directory
    /// are those that were counted since it was opened, and the bytes of an
    /// open directory above it are those that were counted from its own
    /// opening to the opening of the next. So when the walk leaves a
    /// directory, the directory is closed, and reported to the usage
    /// tracker, with exactly the bytes of the files counted while it was
    /// open.
    pub proof fn lemma_subtree_bytes(self, now: i64)
        requires
            self.wf(),
            self.state == ScanState::Running,
            self.stack.len() > 0,
        ensures
            self.stack.last().bytes == self.total_bytes - self.stack.last().since,
            forall|i: int|
                0 <= i < self.stack.len() - 1 ==> (#[trigger] self.stack[i]).bytes
                    == self.stack[i + 1].since - self.stack[i].since,
            !self.stack.last().has_current() ==> self.settle(now) == (Engine {
                stack: self.stack.drop_last(),
                ..self
            }).close_dir(
                self.stack.last().path,
                (self.total_bytes - self.stack.last().since) as u64,
                now,
            ),
    {
        assert forall|i: int| 0 <= i < self.stack.len() - 1 implies (#[trigger] self.stack[i]).bytes
            == self.stack[i + 1].since - self.stack[i].since by {
            assert(self.linked(i));
        }
    }

    /// Symbolic links to directories are never followed: whenever the
    /// engine asks for the listing of an entry, that entry is a directory
    /// that is no symbolic link, that the ignore glob does not match, and
    /// that the hidden-entries rule lets through. So a link back to an
    /// ancestor is never walked, and no file is reached twice through it.
    pub proof fn lemma_links_not_followed(self)
        requires
            self.wf(),
            self.awaiting == Awaiting::Listing,
            self.stack.len() > 0,
        ensures
            self.request() == Request::ListDir(self.stack.last().current().path),
            self.stack.last().current().kind == EntryKind::Directory,
            !self.stack.last().current().is_symlink,
            !glob_matches(self.ignore, self.stack.last().current().path),
            self.admits(self.stack.last().current()),
    {
    }

    /// Whatever answers come, the invariant holds after every one of them.
    pub proof fn lemma_drive(
        self,
        host: spec_fn(Request) -> Reply,
        clock: spec_fn(nat) -> i64,
        steps: nat,
    )
        requires
            self.wf(),
        ensures
            self.drive(host, clock, steps).wf(),
            self.drive(host, clock, steps).total_bytes >= self.total_bytes,
        decreases steps,
    {
        if steps > 0 {
            self.lemma_drive(host, clock, (steps - 1) as nat);
            let before = self.drive(host, clock, (steps - 1) as nat);
            before.lemma_resume(host(before.request()), clock((steps - 1) as nat));
        }
    }

    /// The walk does not read the clock: from states that differ in their
    /// times alone it leads to states that differ in their times alone.
    pub proof fn lemma_settle_timeless(self, other: Engine, now: i64, then: i64)
        requires
            self.timeless() == other.timeless(),
        ensures
            self.settle(now).timeless() == other.settle(then).timeless(),
        decreases work(self.stack), 0nat,
    {
        assert(self.stack == other.stack);
        if self.stack.len() == 0 {
        } else {
            let top = self.stack.last();
            if !top.has_current() {
                let below = Engine { stack: self.stack.drop_last(), ..self };
                let other_below = Engine { stack: other.stack.drop_last(), ..other };
                below.lemma_close_dir_timeless(other_below, top.path, top.bytes, now, then);
            } else if self.descends(top.current()) {
                assert(other.descends(top.current()));
            } else if self.measures(top.current()) {
                assert(other.measures(top.current()));
            } else {
                assert(!other.descends(top.current()));
                assert(!other.measures(top.current()));
                lemma_work_push(self.stack.drop_last(), top.advanced());
                self.with_top(top.advanced()).lemma_settle_timeless(
                    other.with_top(top.advanced()),
                    now,
                    then,
                );
            }
        }
    }

    /// Closing a directory does not read the clock either.
    pub proof fn lemma_close_dir_timeless(
        self,
        other: Engine,
        path: Seq<char>,
        bytes: u64,
        now: i64,
        then: i64,
    )
        requires
            self.timeless() == other.timeless(),
        ensures
            self.close_dir(path, bytes, now).timeless() == other.close_dir(
                path,
                bytes,
                then,
            ).timeless(),
        decreases work(self.stack), 1nat,
    {
        assert(self.stack == other.stack);
        assert(self.usage == other.usage);
        if self.stack.len() == 0 {
        } else {
            let matched = glob_matches(self.usage.glob, base_name(path));
            if matched && self.usage.reclaimable_total + bytes > u64::MAX {
            } else {
                let top = self.stack.last();
                lemma_work_push(self.stack.drop_last(), top.credited(bytes));
                let moved = Engine {
                    usage: self.usage.with_dir(path, bytes, matched),
                    ..self
                }.with_top(top.credited(bytes));
                let other_moved = Engine {
                    usage: other.usage.with_dir(path, bytes, matched),
                    ..other
                }.with_top(top.credited(bytes));
                moved.lemma_settle_timeless(other_moved, now, then);
            }
        }
    }

    /// Neither does an answer: the time at which it comes shows in the
    /// completion time alone.
    pub proof fn lemma_resume_timeless(self, other: Engine, reply: Reply, now: i64, then: i64)
        requires
            self.timeless() == other.timeless(),
        ensures
            self.resume(reply, now).timeless() == other.resume(reply, then).timeless(),
            self.request() == other.request(),
    {
        assert(self.stack == other.stack);
        assert(self.usage == other.usage);
        if self.state == ScanState::Running {
            match (self.awaiting, reply) {
                (Awaiting::Listing, Reply::Listing(entries)) => {
                    let level = Level {
                        path: self.pending_path(),
                        entries,
                        next: 0,
                        bytes: 0,
                        since: self.total_bytes,
                    };
                    Engine { stack: self.stack.push(level), ..self }.lemma_settle_timeless(
                        Engine { stack: other.stack.push(level), ..other },
                        now,
                        then,
                    );
                },
                (Awaiting::Listing, Reply::ListingFailed) => {
                    self.lemma_close_dir_timeless(other, self.pending_path(), 0, now, then);
                },
                (Awaiting::Size, Reply::Size(len)) => {
                    if self.total_bytes + len > u64::MAX {
                    } else {
                        self.count_file(len).lemma_settle_timeless(
                            other.count_file(len),
                            now,
                            then,
                        );
                    }
                },
                (Awaiting::Size, Reply::SizeFailed) => {
                    self.with_top(self.stack.last().advanced()).lemma_settle_timeless(
                        other.with_top(other.stack.last().advanced()),
                        now,
                        then,
                    );
                },
                _ => {},
            }
        }
    }

    /// Scanning again gives the same result. Two scans with the same
    /// settings of a tree that answers the same request in the same way
    /// pass through the same states, whenever they start and however long
    /// the answers take: after any number of answers they agree in their
    /// category totals, in their lists of the largest files, in their total
    /// bytes and in all else but their times.
    pub proof fn lemma_rescan(
        self,
        other: Engine,
        host: spec_fn(Request) -> Reply,
        clock: spec_fn(nat) -> i64,
        other_clock: spec_fn(nat) -> i64,
        started: i64,
        other_started: i64,
        steps: nat,
    )
        requires
            self.timeless() == other.timeless(),
        ensures
            self.start(started).drive(host, clock, steps).timeless() == other.start(
                other_started,
            ).drive(host, other_clock, steps).timeless(),
            self.start(started).drive(host, clock, steps).usage.totals == other.start(
                other_started,
            ).drive(host, other_clock, steps).usage.totals,
            self.start(started).drive(host, clock, steps).usage.largest == other.start(
                other_started,
            ).drive(host, other_clock, steps).usage.largest,
            self.start(started).drive(host, clock, steps).total_bytes == other.start(
                other_started,
            ).drive(host, other_clock, steps).total_bytes,
        decreases steps,
    {
        let a = self.start(started);
        let b = other.start(other_started);
        assert(a.timeless() == b.timeless());
        if steps > 0 {
            let k = (steps - 1) as nat;
            self.lemma_rescan(other, host, clock, other_clock, started, other_started, k);
            let a_before = a.drive(host, clock, k);
            let b_before = b.drive(host, other_clock, k);
            a_before.lemma_resume_timeless(b_before, host(a_before.request()), clock(k), other_clock(k));
        }
    }
}

} // verus!
