//! A directory tree, what a scan of it comes to, and the proof that the
//! engine, answered from the tree, comes to just that.

use crate::classify::path_category;
use crate::engine::{lemma_work_push, work, Awaiting, Engine, Level, Reply, ScanState};
use crate::entry::{Entry, EntryKind};
use crate::pattern::glob_matches;
use crate::stats::Usage;
use crate::utils::base_name;
use vstd::prelude::*;

verus! {

/// One entry of a directory tree, with what the host would answer about
/// it: the size where it is a file, the listing where it is a directory;
/// `None` where the answer cannot be had.
pub struct Node {
    pub entry: Entry,
    pub size: Option<u64>,
    pub listing: Option<Seq<Node>>,
}

/// The entries that a listing shows.
pub open spec fn entries_of(nodes: Seq<Node>) -> Seq<Entry> {
    Seq::new(nodes.len(), |i: int| nodes[i].entry)
}

/// The answer to a request for the size of `node`.
pub open spec fn size_reply(node: Node) -> Reply {
    match node.size {
        Some(len) => Reply::Size(len),
        None => Reply::SizeFailed,
    }
}

/// The answer to a request for the listing of `node`.
pub open spec fn listing_reply(node: Node) -> Reply {
    match node.listing {
        Some(children) => Reply::Listing(entries_of(children)),
        None => Reply::ListingFailed,
    }
}

/// What a walk has gathered: the usage, the bytes counted, the file last
/// taken up, and whether a counter was outgrown, which ends the walk.
pub struct Walk {
    pub usage: Usage,
    pub total_bytes: u64,
    pub current_file: Option<Seq<char>>,
    pub failed: bool,
}

impl Engine {
    /// What this state has gathered.
    pub open spec fn gathered(self) -> Walk {
        Walk {
            usage: self.usage,
            total_bytes: self.total_bytes,
            current_file: self.current_file,
            failed: false,
        }
    }

    /// The walk of one entry, as the scan is meant: a directory that the
    /// walk goes down into is walked entry by entry and then reported to
    /// the usage tracker with the bytes counted beneath it; a file that is
    /// measured is counted if its size can be had; anything else is passed
    /// over. The settings are those of `self`.
    pub open spec fn walk_node(self, w: Walk, node: Node) -> Walk
        decreases node,
    {
        if w.failed {
            w
        } else if self.descends(node.entry) {
            let inner = match node.listing {
                Some(children) => self.walk_list(w, children, 0),
                None => w,
            };
            let bytes = (inner.total_bytes - w.total_bytes) as u64;
            let matched = glob_matches(self.usage.glob, base_name(node.entry.path));
            if inner.failed {
                inner
            } else if matched && inner.usage.reclaimable_total + bytes > u64::MAX {
                Walk { failed: true, ..inner }
            } else {
                Walk { usage: inner.usage.with_dir(node.entry.path, bytes, matched), ..inner }
            }
        } else if self.measures(node.entry) {
            let path = node.entry.path;
            match node.size {
                Some(len) => if w.total_bytes + len > u64::MAX {
                    Walk { failed: true, current_file: Some(path), ..w }
                } else {
                    Walk {
                        usage: w.usage.with_file(path, len, path_category(path)),
                        total_bytes: (w.total_bytes + len) as u64,
                        current_file: Some(path),
                        failed: false,
                    }
                },
                None => Walk { current_file: Some(path), ..w },
            }
        } else {
            w
        }
    }

    /// The walk of the entries of a listing from index `k` on, in order.
    pub open spec fn walk_list(self, w: Walk, nodes: Seq<Node>, k: int) -> Walk
        decreases nodes, nodes.len() - k,
    {
        if k < 0 || k >= nodes.len() {
            w
        } else {
            self.walk_list(self.walk_node(w, nodes[k]), nodes, k + 1)
        }
    }

    /// The engine awaits the listing of the directory `node`; the host
    /// answers this request and every one that follows from the tree, until
    /// the directory is closed or the scan has ended.
    pub open spec fn play_node(self, node: Node, now: i64) -> Engine
        decreases node,
    {
        let opened = self.resume(listing_reply(node), now);
        match node.listing {
            Some(children) => opened.play_rest(children, self.stack.len() + 1, 0, now),
            None => opened,
        }
    }

    /// The engine has come to some entry of the listing `nodes`, which is
    /// that of its level number `depth`, not before index `from`; the host
    /// answers from the tree until that level is closed or the scan has
    /// ended.
    pub open spec fn play_rest(self, nodes: Seq<Node>, depth: nat, from: int, now: i64) -> Engine
        decreases nodes, nodes.len() - from,
    {
        if self.state != ScanState::Running || self.stack.len() != depth || depth == 0 {
            self
        } else {
            let k = self.stack.last().next;
            if k < from || k >= nodes.len() || from < 0 {
                self
            } else {
                match self.awaiting {
                    Awaiting::Size => self.resume(size_reply(nodes[k]), now).play_rest(
                        nodes,
                        depth,
                        k + 1,
                        now,
                    ),
                    Awaiting::Listing => self.play_node(nodes[k], now).play_rest(
                        nodes,
                        depth,
                        k + 1,
                        now,
                    ),
                    Awaiting::Nothing => self,
                }
            }
        }
    }
}

impl Engine {
    /// Whether this state holds the same settings as `other`, as far as the
    /// walk goes by them.
    pub open spec fn same_settings(self, other: Engine) -> bool {
        &&& self.include_hidden == other.include_hidden
        &&& self.ignore == other.ignore
        &&& self.platform == other.platform
        &&& self.usage.glob == other.usage.glob
    }

    /// This state with what the walk `w` has gathered, and nothing pending.
    pub open spec fn with_walk(self, w: Walk) -> Engine {
        Engine {
            usage: w.usage,
            total_bytes: w.total_bytes,
            current_file: w.current_file,
            awaiting: Awaiting::Nothing,
            ..self
        }
    }

    /// This state with what the walk `w` has gathered, the walk standing
    /// behind the last entry of the innermost level.
    pub open spec fn landed(self, w: Walk) -> Engine {
        let top = self.stack.last();
        self.with_walk(w).with_top(
            Level {
                next: top.entries.len() as int,
                bytes: (w.total_bytes - top.since) as u64,
                ..top
            },
        )
    }

    /// Where the engine stands when the walk `w` of the innermost level is
    /// done: the scan has failed where the walk has, else the level is
    /// closed and the walk has moved on above it.
    pub open spec fn outcome(self, w: Walk, now: i64) -> Engine {
        if w.failed {
            self.with_walk(w).finish(ScanState::Failed, now)
        } else {
            self.landed(w).settle(now)
        }
    }

    /// The walk pays no heed to what was pending before it moved on.
    proof fn lemma_settle_awaiting(self, pending: Awaiting, now: i64)
        ensures
            (Engine { awaiting: pending, ..self }).settle(now) == self.settle(now),
        decreases work(self.stack), 0nat,
    {
        let other = Engine { awaiting: pending, ..self };
        if self.stack.len() == 0 {
        } else {
            let top = self.stack.last();
            if !top.has_current() {
                let below = Engine { stack: self.stack.drop_last(), ..self };
                below.lemma_close_dir_awaiting(pending, top.path, top.bytes, now);
                assert(Engine { stack: other.stack.drop_last(), ..other } == Engine {
                    awaiting: pending,
                    ..below
                });
            } else if self.descends(top.current()) {
                assert(other.descends(top.current()));
            } else if self.measures(top.current()) {
                assert(other.measures(top.current()));
            } else {
                assert(!other.descends(top.current()));
                assert(!other.measures(top.current()));
                lemma_work_push(self.stack.drop_last(), top.advanced());
                self.with_top(top.advanced()).lemma_settle_awaiting(pending, now);
                assert(other.with_top(top.advanced()) == Engine {
                    awaiting: pending,
                    ..self.with_top(top.advanced())
                });
            }
        }
    }

    /// Nor does the closing of a directory.
    proof fn lemma_close_dir_awaiting(
        self,
        pending: Awaiting,
        path: Seq<char>,
        bytes: u64,
        now: i64,
    )
        ensures
            (Engine { awaiting: pending, ..self }).close_dir(path, bytes, now) == self.close_dir(
                path,
                bytes,
                now,
            ),
        decreases work(self.stack), 1nat,
    {
        let other = Engine { awaiting: pending, ..self };
        if self.stack.len() == 0 {
        } else {
            let matched = glob_matches(self.usage.glob, base_name(path));
            if matched && self.usage.reclaimable_total + bytes > u64::MAX {
            } else {
                let top = self.stack.last();
                lemma_work_push(self.stack.drop_last(), top.credited(bytes));
                let moved = Engine {
                    usage: self.usage.with_dir(path, bytes, matched),
                    ..self
                }.with_top(top.credited(bytes));
                let other_moved = Engine {
                    usage: other.usage.with_dir(path, bytes, matched),
                    ..other
                }.with_top(top.credited(bytes));
                moved.lemma_settle_awaiting(pending, now);
                assert(other_moved == Engine { awaiting: pending, ..moved });
            }
        }
    }

    /// The walk of an entry leaves the glob of the usage tracker as it was.
    proof fn lemma_walk_node_glob(self, w: Walk, node: Node)
        ensures
            self.walk_node(w, node).usage.glob == w.usage.glob,
        decreases node,
    {
        if !w.failed && self.descends(node.entry) {
            match node.listing {
                Some(children) => {
                    self.lemma_walk_list_glob(w, children, 0);
                },
                None => {},
            }
        }
    }

    /// The walk of a listing leaves the glob of the usage tracker as it was.
    proof fn lemma_walk_list_glob(self, w: Walk, nodes: Seq<Node>, k: int)
        ensures
            self.walk_list(w, nodes, k).usage.glob == w.usage.glob,
        decreases nodes, nodes.len() - k,
    {
        if 0 <= k < nodes.len() {
            self.lemma_walk_node_glob(w, nodes[k]);
            self.lemma_walk_list_glob(self.walk_node(w, nodes[k]), nodes, k + 1);
        }
    }

    /// A walk that has failed gathers nothing more.
    proof fn lemma_walk_failed(self, w: Walk, nodes: Seq<Node>, k: int)
        requires
            w.failed,
        ensures
            self.walk_list(w, nodes, k) == w,
        decreases nodes.len() - k,
    {
        if 0 <= k < nodes.len() {
            assert(self.walk_node(w, nodes[k]) == w);
            self.lemma_walk_failed(w, nodes, k + 1);
        }
    }
}

impl Engine {
    /// The state in which the walk moves on after the directory at `path`
    /// was closed with `bytes`.
    pub open spec fn moved(self, path: Seq<char>, bytes: u64) -> Engine {
        Engine {
            usage: self.usage.with_dir(
                path,
                bytes,
                glob_matches(self.usage.glob, base_name(path)),
            ),
            ..self
        }.with_top(self.stack.last().credited(bytes))
    }

    /// Where the walk stands behind the last entry of the innermost level,
    /// that level may be closed with its bytes.
    proof fn lemma_exhausted(self, now: i64)
        requires
            self.in_motion(),
            self.stack.len() > 0,
            !self.stack.last().has_current(),
        ensures
            (Engine { stack: self.stack.drop_last(), ..self }).closing(self.stack.last().bytes),
            self.settle(now) == (Engine { stack: self.stack.drop_last(), ..self }).close_dir(
                self.stack.last().path,
                self.stack.last().bytes,
                now,
            ),
    {
        let below = Engine { stack: self.stack.drop_last(), ..self };
        assert forall|i: int| 0 <= i < below.stack.len() - 1 implies #[trigger] below.linked(i) by {
            assert(self.linked(i));
        }
        assert forall|i: int| 0 <= i < below.stack.len() implies 0 <= (
        #[trigger] below.stack[i]).next <= below.stack[i].entries.len() by {
            assert(below.stack[i] == self.stack[i]);
        }
        if below.stack.len() > 0 {
            assert(self.linked(below.stack.len() - 1));
        }
    }

    /// Where a directory may be closed and its bytes fit the counter of
    /// the reclaimable bytes, the walk moves on in the level above it.
    proof fn lemma_moved(self, path: Seq<char>, bytes: u64, now: i64)
        requires
            self.closing(bytes),
            self.stack.len() > 0,
            !(glob_matches(self.usage.glob, base_name(path)) && self.usage.reclaimable_total
                + bytes > u64::MAX),
        ensures
            self.moved(path, bytes).in_motion(),
            self.close_dir(path, bytes, now) == self.moved(path, bytes).settle(now),
            self.moved(path, bytes).stack.len() == self.stack.len(),
            self.moved(path, bytes).stack.last() == self.stack.last().credited(bytes),
            self.moved(path, bytes).stack.drop_last() == self.stack.drop_last(),
    {
        let matched = glob_matches(self.usage.glob, base_name(path));
        let top = self.stack.last();
        let noted = Engine { usage: self.usage.with_dir(path, bytes, matched), ..self };
        self.usage.lemma_with_dir(path, bytes, matched);
        assert forall|i: int| 0 <= i < noted.stack.len() - 1 implies #[trigger] noted.linked(i) by {
            assert(self.linked(i));
        }
        noted.lemma_with_top(top.credited(bytes));
        assert(self.moved(path, bytes).stack.drop_last() =~= self.stack.drop_last());
    }
}

impl Engine {
    /// What the walk of the children of `node` gathers, starting from what
    /// this state has gathered.
    pub open spec fn walk_children(self, f: Engine, node: Node) -> Walk {
        match node.listing {
            Some(children) => f.walk_list(self.gathered(), children, 0),
            None => self.gathered(),
        }
    }

    /// Whether the walk is about to move on at index `k` of the innermost
    /// level, whose listing is that of `nodes`, under the settings of `f`.
    pub open spec fn at_rest(self, f: Engine, nodes: Seq<Node>, k: int) -> bool {
        &&& self.in_motion()
        &&& self.same_settings(f)
        &&& self.stack.len() > 0
        &&& self.stack.last().entries == entries_of(nodes)
        &&& self.stack.last().next == k
        &&& 0 <= k <= nodes.len()
    }

    /// Whether the engine, answered from the tree, does with the entries
    /// from `k` on what the walk of them says.
    pub open spec fn plays_rest(self, f: Engine, nodes: Seq<Node>, k: int, now: i64) -> bool {
        let w = f.walk_list(self.gathered(), nodes, k);
        &&& self.settle(now).play_rest(nodes, self.stack.len(), k, now) == self.outcome(w, now)
        &&& !w.failed ==> self.landed(w).in_motion() && w.total_bytes >= self.total_bytes
    }

    /// Whether `later` is this state further on in the same level: all but
    /// what was gathered, what is pending and how far the walk has come
    /// in the innermost level is the same.
    pub open spec fn further_on(self, later: Engine) -> bool {
        &&& later.root == self.root
        &&& later.include_hidden == self.include_hidden
        &&& later.ignore == self.ignore
        &&& later.platform == self.platform
        &&& later.state == self.state
        &&& later.started_at == self.started_at
        &&& later.completed_at == self.completed_at
        &&& later.stack.len() == self.stack.len()
        &&& later.stack.drop_last() == self.stack.drop_last()
        &&& later.stack.last().path == self.stack.last().path
        &&& later.stack.last().entries == self.stack.last().entries
        &&& later.stack.last().since == self.stack.last().since
    }

    /// Two states of which one is the other further on come to the same
    /// outcome of a walk.
    proof fn lemma_same_outcome(self, later: Engine, w: Walk, now: i64)
        requires
            self.further_on(later),
            self.stack.len() > 0,
        ensures
            later.outcome(w, now) == self.outcome(w, now),
            later.landed(w) == self.landed(w),
    {
        assert(later.landed(w).stack =~= self.landed(w).stack);
    }

    /// The rest of a listing, where nothing is left of it.
    proof fn lemma_rest_done(self, f: Engine, nodes: Seq<Node>, k: int, now: i64)
        requires
            self.at_rest(f, nodes, k),
            k >= nodes.len(),
        ensures
            self.plays_rest(f, nodes, k, now),
    {
        let top = self.stack.last();
        let w = f.walk_list(self.gathered(), nodes, k);
        assert(w == self.gathered());
        assert(self.landed(w).stack =~= self.stack);
        assert(self.landed(w) == Engine { awaiting: Awaiting::Nothing, ..self });
        self.lemma_settle_awaiting(Awaiting::Nothing, now);
        self.lemma_exhausted(now);
        let below = Engine { stack: self.stack.drop_last(), ..self };
        below.lemma_close_dir(top.path, top.bytes, now);
        assert(self.settle(now).stack.len() < self.stack.len());
        assert forall|i: int| 0 <= i < self.landed(w).stack.len() - 1 implies
            #[trigger] self.landed(w).linked(i) by {
            assert(self.linked(i));
        }
    }

    /// The rest of a listing, where the entry at `k` is passed over.
    proof fn lemma_rest_skip(self, f: Engine, nodes: Seq<Node>, k: int, now: i64)
        requires
            self.at_rest(f, nodes, k),
            k < nodes.len(),
            !f.descends(nodes[k].entry),
            !f.measures(nodes[k].entry),
        ensures
            self.plays_rest(f, nodes, k, now),
        decreases nodes, nodes.len() - k, 0nat,
    {
        let top = self.stack.last();
        let w = f.walk_list(self.gathered(), nodes, k);
        assert(top.current() == nodes[k].entry);
        assert(f.walk_node(self.gathered(), nodes[k]) == self.gathered());
        self.lemma_with_top(top.advanced());
        let e1 = self.with_top(top.advanced());
        assert(self.settle(now) == e1.settle(now));
        assert(e1.gathered() == self.gathered());
        assert forall|i: int| 0 <= i < e1.stack.len() - 1 implies #[trigger] e1.linked(i) by {}
        e1.lemma_play_rest(f, nodes, k + 1, now);
        e1.lemma_settle(now);
        assert(e1.stack.drop_last() =~= self.stack.drop_last());
        self.lemma_same_outcome(e1, w, now);
        let s = e1.settle(now);
        assert(s.play_rest(nodes, self.stack.len(), k, now) == s.play_rest(
            nodes,
            self.stack.len(),
            k + 1,
            now,
        ));
    }

    /// The rest of a listing, where the entry at `k` is a file that is
    /// measured.
    proof fn lemma_rest_file(self, f: Engine, nodes: Seq<Node>, k: int, now: i64)
        requires
            self.at_rest(f, nodes, k),
            k < nodes.len(),
            !f.descends(nodes[k].entry),
            f.measures(nodes[k].entry),
        ensures
            self.plays_rest(f, nodes, k, now),
        decreases nodes, nodes.len() - k, 0nat,
    {
        let d = self.stack.len();
        let top = self.stack.last();
        let node = nodes[k];
        let g = self.gathered();
        let w = f.walk_list(g, nodes, k);
        let w1 = f.walk_node(g, node);
        assert(top.current() == node.entry);
        assert(w == f.walk_list(w1, nodes, k + 1));
        self.lemma_settle(now);
        let s = Engine { awaiting: Awaiting::Size, current_file: Some(node.entry.path), ..self };
        assert(self.settle(now) == s);
        assert(s.play_rest(nodes, d, k, now) == s.resume(size_reply(node), now).play_rest(
            nodes,
            d,
            k + 1,
            now,
        ));
        match node.size {
            Some(len) => {
                if self.total_bytes + len > u64::MAX {
                    f.lemma_walk_failed(w1, nodes, k + 1);
                    assert(self.with_walk(w).finish(ScanState::Failed, now) == s.finish(
                        ScanState::Failed,
                        now,
                    ));
                } else {
                    s.lemma_count_file(len);
                    let e1 = s.count_file(len);
                    assert(e1.gathered() == w1);
                    assert(e1.stack.last() == top.credited(len));
                    assert(e1.stack.drop_last() =~= self.stack.drop_last());
                    e1.lemma_play_rest(f, nodes, k + 1, now);
                    self.lemma_same_outcome(e1, w, now);
                }
            },
            None => {
                s.lemma_with_top(top.advanced());
                let e1 = s.with_top(top.advanced());
                assert(e1.gathered() == w1);
                assert(e1.stack.drop_last() =~= self.stack.drop_last());
                assert forall|i: int| 0 <= i < e1.stack.len() - 1 implies #[trigger] e1.linked(
                    i,
                ) by {}
                e1.lemma_play_rest(f, nodes, k + 1, now);
                self.lemma_same_outcome(e1, w, now);
            },
        }
    }

    /// The rest of a listing, where the entry at `k` is a directory that
    /// the walk goes down into.
    proof fn lemma_rest_dir(self, f: Engine, nodes: Seq<Node>, k: int, now: i64)
        requires
            self.at_rest(f, nodes, k),
            k < nodes.len(),
            f.descends(nodes[k].entry),
        ensures
            self.plays_rest(f, nodes, k, now),
        decreases nodes, nodes.len() - k, 0nat,
    {
        let d = self.stack.len();
        let top = self.stack.last();
        let node = nodes[k];
        let entry = node.entry;
        let g = self.gathered();
        let w = f.walk_list(g, nodes, k);
        let w1 = f.walk_node(g, node);
        assert(top.current() == entry);
        assert(w == f.walk_list(w1, nodes, k + 1));
        self.lemma_settle(now);
        let s = Engine { awaiting: Awaiting::Listing, ..self };
        assert(self.settle(now) == s);
        assert(s.play_rest(nodes, d, k, now) == s.play_node(node, now).play_rest(
            nodes,
            d,
            k + 1,
            now,
        ));
        s.lemma_play_node(f, node, now);
        let inner = s.walk_children(f, node);
        let base = s.with_walk(inner);
        assert(inner.usage.glob == f.usage.glob) by {
            match node.listing {
                Some(children) => {
                    f.lemma_walk_list_glob(s.gathered(), children, 0);
                },
                None => {},
            }
        }
        if inner.failed {
            assert(w1 == inner);
            f.lemma_walk_failed(w1, nodes, k + 1);
            assert(self.with_walk(w).finish(ScanState::Failed, now) == base.finish(
                ScanState::Failed,
                now,
            ));
        } else {
            let b = (inner.total_bytes - s.total_bytes) as u64;
            let matched = glob_matches(f.usage.glob, base_name(entry.path));
            if matched && inner.usage.reclaimable_total + b > u64::MAX {
                f.lemma_walk_failed(w1, nodes, k + 1);
                assert(self.with_walk(w).finish(ScanState::Failed, now) == base.finish(
                    ScanState::Failed,
                    now,
                ));
            } else {
                base.lemma_moved(entry.path, b, now);
                let e1 = base.moved(entry.path, b);
                assert(e1.gathered() == w1);
                e1.lemma_play_rest(f, nodes, k + 1, now);
                self.lemma_same_outcome(e1, w, now);
            }
        }
    }

    /// The engine, answered from the tree, does with the rest of a listing
    /// what the walk of that rest says: from a state in which the walk is
    /// about to move on at index `k` of the innermost level, whose listing
    /// is that of `nodes`, the answers lead to the outcome of the walk of
    /// the entries from `k` on.
    pub proof fn lemma_play_rest(self, f: Engine, nodes: Seq<Node>, k: int, now: i64)
        requires
            self.at_rest(f, nodes, k),
        ensures
            self.plays_rest(f, nodes, k, now),
        decreases nodes, nodes.len() - k, 1nat,
    {
        if k >= nodes.len() {
            self.lemma_rest_done(f, nodes, k, now);
        } else if f.descends(nodes[k].entry) {
            self.lemma_rest_dir(f, nodes, k, now);
        } else if f.measures(nodes[k].entry) {
            self.lemma_rest_file(f, nodes, k, now);
        } else {
            self.lemma_rest_skip(f, nodes, k, now);
        }
    }

    /// The engine, answered from the tree, does with a directory what the
    /// walk of its children says: from a state in which the listing of the
    /// directory `node` is awaited, the answers lead to the failure of the
    /// scan where the walk of the children fails, and else to the closing
    /// of the directory with the bytes that the walk has counted.
    pub proof fn lemma_play_node(self, f: Engine, node: Node, now: i64)
        requires
            self.wf(),
            self.same_settings(f),
            self.state == ScanState::Running,
            self.awaiting == Awaiting::Listing,
            self.stack.len() > 0,
            self.stack.last().current() == node.entry,
        ensures
            self.walk_children(f, node).failed ==> self.play_node(node, now) == self.with_walk(
                self.walk_children(f, node),
            ).finish(ScanState::Failed, now),
            !self.walk_children(f, node).failed ==> {
                &&& self.walk_children(f, node).total_bytes >= self.total_bytes
                &&& self.with_walk(self.walk_children(f, node)).closing(
                    (self.walk_children(f, node).total_bytes - self.total_bytes) as u64,
                )
                &&& self.play_node(node, now) == self.with_walk(
                    self.walk_children(f, node),
                ).close_dir(
                    node.entry.path,
                    (self.walk_children(f, node).total_bytes - self.total_bytes) as u64,
                    now,
                )
            },
        decreases node, 0nat, 0nat,
    {
        let path = node.entry.path;
        let inner = self.walk_children(f, node);
        let base = self.with_walk(inner);
        assert(self.pending_path() == path);
        match node.listing {
            None => {
                assert(base == Engine { awaiting: Awaiting::Nothing, ..self });
                self.lemma_close_dir_awaiting(Awaiting::Nothing, path, 0, now);
                assert forall|i: int| 0 <= i < base.stack.len() - 1 implies #[trigger] base.linked(
                    i,
                ) by {
                    assert(self.linked(i));
                }
            },
            Some(children) => {
                let level = Level {
                    path,
                    entries: entries_of(children),
                    next: 0,
                    bytes: 0,
                    since: self.total_bytes,
                };
                let opened = Engine { stack: self.stack.push(level), ..self };
                lemma_work_push(self.stack, level);
                assert forall|i: int| 0 <= i < opened.stack.len() - 1 implies
                    #[trigger] opened.linked(i) by {
                    if i < self.stack.len() - 1 {
                        assert(self.linked(i));
                    }
                }
                assert(opened.gathered() == self.gathered());
                opened.lemma_play_rest(f, children, 0, now);
                if !inner.failed {
                    let landed = opened.landed(inner);
                    landed.lemma_exhausted(now);
                    assert(landed.stack.drop_last() =~= self.stack);
                    assert(Engine { stack: landed.stack.drop_last(), ..landed } == base);
                }
            },
        }
    }

    /// What the walk leaves out adds nothing: the walk of a directory that
    /// is a symbolic link, of an entry that the ignore glob matches, of an
    /// entry that the hidden-entries rule leaves out, or of anything that
    /// is neither file nor directory gathers nothing, whatever lies behind
    /// it. So a link back to an ancestor is not walked, and nothing is
    /// counted a second time through it.
    pub proof fn lemma_walk_leaves_out(self, w: Walk, node: Node)
        requires
            ({
                ||| node.entry.kind == EntryKind::Directory && node.entry.is_symlink
                ||| node.entry.kind == EntryKind::Directory && glob_matches(
                    self.ignore,
                    node.entry.path,
                )
                ||| !self.admits(node.entry)
                ||| node.entry.kind == EntryKind::Other
            }),
        ensures
            !self.descends(node.entry),
            !self.measures(node.entry),
            self.walk_node(w, node) == w,
    {
    }

    /// A scan is the walk of its tree. An engine that is started and then
    /// answered from the tree under `root`, whatever the tree, comes to its
    /// end; it ends completed with just what the walk of the root's entries
    /// gathers, or failed where that walk outgrows a counter. Nothing is
    /// counted twice, and nothing that the walk leaves out is counted.
    pub proof fn lemma_scan_is_walk(self, root: Node, started: i64, now: i64)
        requires
            self.wf(),
            self.state == ScanState::NotStarted,
        ensures
            self.start(started).play_node(root, now) == self.start(started).with_walk(
                self.start(started).walk_children(self, root),
            ).finish(
                if self.start(started).walk_children(self, root).failed {
                    ScanState::Failed
                } else {
                    ScanState::Completed
                },
                now,
            ),
    {
        let s = self.start(started);
        let inner = s.walk_children(self, root);
        match root.listing {
            None => {},
            Some(children) => {
                let level = Level {
                    path: s.root,
                    entries: entries_of(children),
                    next: 0,
                    bytes: 0,
                    since: s.total_bytes,
                };
                let opened = Engine { stack: s.stack.push(level), ..s };
                assert(opened.gathered() == s.gathered());
                opened.lemma_play_rest(self, children, 0, now);
                if !inner.failed {
                    let landed = opened.landed(inner);
                    landed.lemma_exhausted(now);
                    assert(landed.stack.drop_last() =~= s.stack);
                }
            },
        }
    }
}

} // verus!
