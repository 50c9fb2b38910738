//! The scan snapshot: the live and, in the end, final state of one scan,
//! as its readers see it.
//!
//! The snapshot is plain data. Sharing it between the scan and its readers,
//! and locking it, is the host's business: the engine writes to it only
//! through a `&mut` that the host hands in.

use crate::clock::timestamp_now;
use crate::largest::FileSize;
use crate::totals::CategoryTotals;
use vstd::prelude::*;

verus! {

/// The state of a scan as readers see it. Times are milliseconds since the
/// Unix epoch.
#[derive(Clone, Debug)]
pub struct Scan {
    /// The directory that is scanned.
    pub dir: String,
    /// When the scan started.
    pub started_at: i64,
    /// When the scan ended; `None` while it runs.
    pub completed_at: Option<i64>,
    /// The file that was last taken up; `None` once the scan has ended.
    pub current_file: Option<String>,
    /// The bytes of all files counted so far.
    pub total_bytes: u64,
    /// The largest files, descending by size.
    pub largest_files: Vec<(String, u64)>,
    /// The bytes counted under each category.
    pub totals: CategoryTotals,
    /// The bytes of all reclaimable directories together.
    pub dev_total_usage: u64,
    /// The reclaimable directories, each with the bytes beneath it.
    pub developer_dirs: Vec<(String, u64)>,
}

/// A snapshot as mathematics.
pub struct Snapshot {
    pub dir: Seq<char>,
    pub started_at: i64,
    pub completed_at: Option<i64>,
    pub current_file: Option<Seq<char>>,
    pub total_bytes: u64,
    pub largest: Seq<FileSize>,
    pub totals: CategoryTotals,
    pub reclaimable_total: u64,
    pub reclaimable: Seq<FileSize>,
}

impl Snapshot {
    /// The snapshot of a scan that started at `now` and has seen nothing.
    pub open spec fn cleared(now: i64) -> Snapshot {
        Snapshot {
            dir: Seq::empty(),
            started_at: now,
            completed_at: None,
            current_file: None,
            total_bytes: 0,
            largest: Seq::empty(),
            totals: CategoryTotals::zero(),
            reclaimable_total: 0,
            reclaimable: Seq::empty(),
        }
    }

    /// What readers rely on: every counted byte stands under exactly one
    /// category.
    pub open spec fn consistent(self) -> bool {
        self.totals.sum() == self.total_bytes
    }
}

impl View for Scan {
    type V = Snapshot;

    open spec fn view(&self) -> Snapshot {
        Snapshot {
            dir: self.dir@,
            started_at: self.started_at,
            completed_at: self.completed_at,
            current_file: match self.current_file {
                Some(path) => Some(path@),
                None => None,
            },
            total_bytes: self.total_bytes,
            largest: self.largest_files.deep_view(),
            totals: self.totals,
            reclaimable_total: self.dev_total_usage,
            reclaimable: self.developer_dirs.deep_view(),
        }
    }
}

impl Scan {
    /// A snapshot that holds nothing, stamped with the present time.
    pub fn new() -> (scan: Scan)
        ensures
            scan@ == Snapshot::cleared(scan.started_at),
    {
        let now = timestamp_now();
        let scan = Scan {
            dir: String::new(),
            started_at: now,
            completed_at: None,
            current_file: None,
            total_bytes: 0,
            largest_files: Vec::new(),
            totals: CategoryTotals::new(),
            dev_total_usage: 0,
            developer_dirs: Vec::new(),
        };
        assert(scan@.largest =~= Seq::empty());
        assert(scan@.reclaimable =~= Seq::empty());
        scan
    }

    /// Empties the snapshot for a scan that starts at `now`: no directory,
    /// no completion time, no current file, all totals zero, both lists
    /// empty.
    pub fn clear_at(&mut self, now: i64)
        ensures
            final(self)@ == Snapshot::cleared(now),
    {
        self.dir = String::new();
        self.started_at = now;
        self.completed_at = None;
        self.current_file = None;
        self.total_bytes = 0;
        self.largest_files = Vec::new();
        self.totals = CategoryTotals::new();
        self.dev_total_usage = 0;
        self.developer_dirs = Vec::new();
        assert(self@.largest =~= Seq::empty());
        assert(self@.reclaimable =~= Seq::empty());
    }

    /// Empties the snapshot for a scan that starts now.
    pub fn clear(&mut self)
        ensures
            final(self)@ == Snapshot::cleared(final(self).started_at),
    {
        let now = timestamp_now();
        self.clear_at(now);
    }
}

} // verus!
