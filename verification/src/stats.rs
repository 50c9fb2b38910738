//! The usage tracker: byte totals per category, the bounded list of the
//! largest files, and the directories whose name marks them as
//! reclaimable.

use crate::classify::{classify, path_category, Category};
use crate::error::ConfigError;
use crate::largest::{
    keep_largest, largest_of, lemma_largest_of, offer_file, well_ranked, FileSize,
};
use crate::pattern::{
    compile_pattern, glob_matches, glob_parses, glob_source, pattern_matches, pattern_source,
};
use crate::totals::CategoryTotals;
use crate::utils::{base_name, base_name_of};
use glob::Pattern;
use vstd::prelude::*;

verus! {

/// A file that was counted: its path, its length, and the category its
/// bytes went to.
pub struct SeenFile {
    pub path: Seq<char>,
    pub size: u64,
    pub category: Category,
}

/// The bytes of all the files of `seen`.
pub open spec fn total_size(seen: Seq<SeenFile>) -> int
    decreases seen.len(),
{
    if seen.len() == 0 {
        0
    } else {
        total_size(seen.drop_last()) + seen.last().size
    }
}

/// The bytes of those files of `seen` that went to `category`.
pub open spec fn size_in(seen: Seq<SeenFile>, category: Category) -> int
    decreases seen.len(),
{
    if seen.len() == 0 {
        0
    } else if seen.last().category == category {
        size_in(seen.drop_last(), category) + seen.last().size
    } else {
        size_in(seen.drop_last(), category)
    }
}

/// The category totals after the files of `seen` were counted in order.
pub open spec fn totals_of(seen: Seq<SeenFile>) -> CategoryTotals
    decreases seen.len(),
{
    if seen.len() == 0 {
        CategoryTotals::zero()
    } else {
        totals_of(seen.drop_last()).plus(seen.last().category, seen.last().size)
    }
}

/// The sizes of a list of paths with sizes, added up.
pub open spec fn sum_sizes(list: Seq<FileSize>) -> int
    decreases list.len(),
{
    if list.len() == 0 {
        0
    } else {
        sum_sizes(list.drop_last()) + list.last().1
    }
}

/// What the tracker holds, as mathematics.
pub struct Usage {
    /// Every file counted so far, in order.
    pub seen: Seq<SeenFile>,
    /// Every file offered to the list of the largest so far, in order.
    pub offered: Seq<FileSize>,
    /// The largest files, descending by size.
    pub largest: Seq<FileSize>,
    /// The byte total of each category.
    pub totals: CategoryTotals,
    /// The reclaimable directories found, each with the bytes beneath it.
    pub reclaimable: Seq<FileSize>,
    /// The bytes of all reclaimable directories together.
    pub reclaimable_total: u64,
    /// The glob that a directory's base name must match to be reclaimable.
    pub glob: Seq<char>,
    /// The bound on the list of the largest files.
    pub top_n: u64,
    /// The least size a file must have to be listed.
    pub threshold: u64,
}

impl Usage {
    /// A tracker that has seen nothing.
    pub open spec fn fresh(glob: Seq<char>, top_n: u64, threshold: u64) -> Usage {
        Usage {
            seen: Seq::empty(),
            offered: Seq::empty(),
            largest: Seq::empty(),
            totals: CategoryTotals::zero(),
            reclaimable: Seq::empty(),
            reclaimable_total: 0,
            glob,
            top_n,
            threshold,
        }
    }

    /// The tracker's invariant: its aggregates are those of its history,
    /// and its sums fit their counters.
    pub open spec fn wf(self) -> bool {
        &&& self.largest == largest_of(self.offered, self.top_n as int, self.threshold)
        &&& self.totals == totals_of(self.seen)
        &&& total_size(self.seen) <= u64::MAX
        &&& self.reclaimable_total == sum_sizes(self.reclaimable)
    }

    /// After a file was offered to the list of the largest.
    pub open spec fn with_offer(self, path: Seq<char>, len: u64) -> Usage {
        Usage {
            offered: self.offered.push((path, len)),
            largest: keep_largest(self.largest, (path, len), self.top_n as int, self.threshold),
            ..self
        }
    }

    /// After a file was counted under `category` and offered to the list.
    pub open spec fn with_file(self, path: Seq<char>, len: u64, category: Category) -> Usage {
        Usage {
            seen: self.seen.push(SeenFile { path, size: len, category }),
            totals: self.totals.plus(category, len),
            ..self.with_offer(path, len)
        }
    }

    /// After a directory with `len` bytes beneath it was reported; it is
    /// recorded only if its base name `matched` the glob.
    pub open spec fn with_dir(self, path: Seq<char>, len: u64, matched: bool) -> Usage {
        if matched {
            Usage {
                reclaimable: self.reclaimable.push((path, len)),
                reclaimable_total: (self.reclaimable_total + len) as u64,
                ..self
            }
        } else {
            self
        }
    }

    /// Offering a file keeps the invariant.
    pub proof fn lemma_with_offer(self, path: Seq<char>, len: u64)
        requires
            self.wf(),
        ensures
            self.with_offer(path, len).wf(),
    {
        assert(self.offered.push((path, len)).drop_last() == self.offered);
    }

    /// Counting a file keeps the invariant, as long as the bytes seen fit
    /// a 64-bit counter.
    pub proof fn lemma_with_file(self, path: Seq<char>, len: u64, category: Category)
        requires
            self.wf(),
            total_size(self.seen) + len <= u64::MAX,
        ensures
            self.with_file(path, len, category).wf(),
    {
        self.lemma_with_offer(path, len);
        assert(self.seen.push(SeenFile { path, size: len, category }).drop_last() == self.seen);
    }

    /// Reporting a directory keeps the invariant, as long as the reclaimable
    /// bytes fit a 64-bit counter.
    pub proof fn lemma_with_dir(self, path: Seq<char>, len: u64, matched: bool)
        requires
            self.wf(),
            matched ==> self.reclaimable_total + len <= u64::MAX,
        ensures
            self.with_dir(path, len, matched).wf(),
    {
        assert(self.reclaimable.push((path, len)).drop_last() == self.reclaimable);
    }

    /// Every counted byte lands in exactly one category: the total of a
    /// category is the bytes of the files that went to it, and the totals
    /// of all categories add up to the bytes of all files.
    pub proof fn lemma_totals(self)
        requires
            self.wf(),
        ensures
            self.totals.sum() == total_size(self.seen),
            forall|category: Category| self.totals.of(category) == size_in(self.seen, category),
    {
        lemma_totals_of(self.seen);
    }

    /// The list of the largest files is in descending order of size, is no
    /// longer than the bound, and holds no file under the threshold; and a
    /// file of at least the threshold that was offered and is not listed is
    /// no larger than any listed file, the list being full.
    pub proof fn lemma_largest(self)
        requires
            self.wf(),
        ensures
            well_ranked(self.largest, self.top_n as int, self.threshold),
            forall|i: int|
                0 <= i < self.offered.len() && self.offered[i].1 >= self.threshold
                    && !self.largest.contains(#[trigger] self.offered[i]) ==> {
                    &&& self.largest.len() == self.top_n
                    &&& forall|j: int|
                        0 <= j < self.top_n ==> self.largest[j].1 >= self.offered[i].1
                },
    {
        lemma_largest_of(self.offered, self.top_n as int, self.threshold);
    }
}

/// As long as the bytes of `seen` fit a 64-bit counter, no category total
/// wraps: each is the bytes of its own files, and together they are the
/// bytes of all.
pub proof fn lemma_totals_of(seen: Seq<SeenFile>)
    requires
        total_size(seen) <= u64::MAX,
    ensures
        totals_of(seen).sum() == total_size(seen),
        forall|category: Category| totals_of(seen).of(category) == size_in(seen, category),
    decreases seen.len(),
{
    if seen.len() > 0 {
        let before = seen.drop_last();
        lemma_total_size_nonnegative(before);
        lemma_totals_of(before);
        let last = seen.last();
        totals_of(before).lemma_plus(last.category, last.size);
        assert forall|category: Category|
            totals_of(seen).of(category) == size_in(seen, category) by {
            assert(totals_of(before).of(category) == size_in(before, category));
            if category != last.category {
                assert(totals_of(before).plus(last.category, last.size).of(category)
                    == totals_of(before).of(category));
            }
        }
    }
}

/// Counting one more file adds its size.
pub proof fn lemma_total_size_push(seen: Seq<SeenFile>, file: SeenFile)
    ensures
        total_size(seen.push(file)) == total_size(seen) + file.size,
{
    assert(seen.push(file).drop_last() == seen);
}

/// A sum of sizes is not negative.
pub proof fn lemma_total_size_nonnegative(seen: Seq<SeenFile>)
    ensures
        total_size(seen) >= 0,
    decreases seen.len(),
{
    if seen.len() > 0 {
        lemma_total_size_nonnegative(seen.drop_last());
    }
}

/// The usage tracker. It belongs to the scan alone; readers see copies of
/// what it holds.
pub struct AnalyzerStats {
    developer_dir_pattern: Pattern,
    largest_files: Vec<(String, u64)>,
    developer_dirs: Vec<(String, u64)>,
    totals: CategoryTotals,
    dev_total_usage: u64,
    top_n: u64,
    large_threshold: u64,
    seen: Ghost<Seq<SeenFile>>,
    offered: Ghost<Seq<FileSize>>,
}

impl View for AnalyzerStats {
    type V = Usage;

    closed spec fn view(&self) -> Usage {
        Usage {
            seen: self.seen@,
            offered: self.offered@,
            largest: self.largest_files.deep_view(),
            totals: self.totals,
            reclaimable: self.developer_dirs.deep_view(),
            reclaimable_total: self.dev_total_usage,
            glob: glob_source(self.developer_dir_pattern),
            top_n: self.top_n,
            threshold: self.large_threshold,
        }
    }
}

impl AnalyzerStats {
    /// A tracker that has seen nothing. It lists at most `top_n` files, none
    /// under `large_threshold` bytes, and takes a directory for reclaimable
    /// where its base name matches the glob `reclaimable`. Fails exactly
    /// where that text is not a well-formed glob.
    pub fn new(reclaimable: &str, top_n: u64, large_threshold: u64) -> (made: Result<
        AnalyzerStats,
        ConfigError,
    >)
        ensures
            match made {
                Ok(stats) => {
                    &&& glob_parses(reclaimable@)
                    &&& stats@ == Usage::fresh(reclaimable@, top_n, large_threshold)
                    &&& stats@.wf()
                },
                Err(error) => {
                    &&& !glob_parses(reclaimable@)
                    &&& error == ConfigError::ReclaimablePattern
                },
            },
    {
        match compile_pattern(reclaimable) {
            Ok(pattern) => {
                let stats = AnalyzerStats {
                    developer_dir_pattern: pattern,
                    largest_files: Vec::new(),
                    developer_dirs: Vec::new(),
                    totals: CategoryTotals::new(),
                    dev_total_usage: 0,
                    top_n,
                    large_threshold,
                    seen: Ghost(Seq::empty()),
                    offered: Ghost(Seq::empty()),
                };
                assert(stats@.largest =~= Seq::empty());
                assert(stats@.reclaimable =~= Seq::empty());
                Ok(stats)
            },
            Err(_) => Err(ConfigError::ReclaimablePattern),
        }
    }

    /// The largest files, descending by size.
    pub fn get_largest(&self) -> (list: &Vec<(String, u64)>)
        ensures
            list.deep_view() == self@.largest,
    {
        &self.largest_files
    }

    /// The reclaimable directories found, each with the bytes beneath it.
    pub fn developer_dirs(&self) -> (list: &Vec<(String, u64)>)
        ensures
            list.deep_view() == self@.reclaimable,
    {
        &self.developer_dirs
    }

    /// The bytes of all reclaimable directories together.
    pub fn dev_total_usage(&self) -> (total: u64)
        ensures
            total == self@.reclaimable_total,
    {
        self.dev_total_usage
    }

    /// The byte total of each category.
    pub fn totals(&self) -> (totals: CategoryTotals)
        ensures
            totals == self@.totals,
    {
        self.totals
    }

    /// The bytes of all files counted so far.
    pub fn total_bytes(&self) -> (total: u64)
        requires
            self@.wf(),
        ensures
            total == total_size(self@.seen),
            total == self@.totals.sum(),
    {
        proof {
            self@.lemma_totals();
            lemma_total_size_nonnegative(self@.seen);
        }
        let totals = self.totals;
        totals.images + totals.videos + totals.music + totals.documents + totals.archives
            + totals.binaries + totals.other
    }

    /// The glob that marks reclaimable directories.
    pub fn reclaimable_glob(&self) -> (glob: &str)
        ensures
            glob@ == self@.glob,
    {
        pattern_source(&self.developer_dir_pattern)
    }

    /// Offers a file to the list of the largest without counting its bytes.
    pub fn push_largest(&mut self, path: &str, len: u64)
        requires
            old(self)@.wf(),
        ensures
            final(self)@ == old(self)@.with_offer(path@, len),
            final(self)@.wf(),
    {
        proof {
            self@.lemma_largest();
            self@.lemma_with_offer(path@, len);
        }
        offer_file(&mut self.largest_files, path, len, self.top_n, self.large_threshold);
        self.offered = Ghost(self.offered@.push((path@, len)));
    }

    /// Counts a file of `len` bytes under `category` and offers it to the
    /// list of the largest.
    pub fn register_classified(&mut self, path: &str, len: u64, category: Category)
        requires
            old(self)@.wf(),
            total_size(old(self)@.seen) + len <= u64::MAX,
        ensures
            final(self)@ == old(self)@.with_file(path@, len, category),
            final(self)@.wf(),
    {
        proof {
            self@.lemma_totals();
            self@.lemma_with_file(path@, len, category);
        }
        self.push_largest(path, len);
        self.totals.add(category, len);
        self.seen = Ghost(self.seen@.push(SeenFile { path: path@, size: len, category }));
    }

    /// Counts the file at `path`, of `len` bytes: its bytes go to the
    /// category of its guessed media type, and it is offered to the list of
    /// the largest.
    pub fn register_file(&mut self, path: &str, len: u64)
        requires
            old(self)@.wf(),
            total_size(old(self)@.seen) + len <= u64::MAX,
        ensures
            final(self)@ == old(self)@.with_file(path@, len, path_category(path@)),
            final(self)@.wf(),
    {
        let category = classify(path);
        self.register_classified(path, len, category);
    }

    /// Takes note of a directory with `len` bytes beneath it; `matched` says
    /// whether its base name matches the glob for reclaimable directories.
    pub fn record_dir(&mut self, path: &str, len: u64, matched: bool)
        requires
            old(self)@.wf(),
            matched ==> old(self)@.reclaimable_total + len <= u64::MAX,
        ensures
            final(self)@ == old(self)@.with_dir(path@, len, matched),
            final(self)@.wf(),
    {
        proof {
            self@.lemma_with_dir(path@, len, matched);
        }
        if matched {
            self.dev_total_usage = self.dev_total_usage + len;
            self.developer_dirs.push((path.to_owned(), len));
            assert(self@.reclaimable =~= old(self)@.reclaimable.push((path@, len)));
        }
    }

    /// Whether the base name of `path` matches the glob for reclaimable
    /// directories.
    pub fn is_reclaimable(&self, path: &str) -> (matched: bool)
        ensures
            matched == glob_matches(self@.glob, base_name(path@)),
    {
        pattern_matches(&self.developer_dir_pattern, base_name_of(path))
    }

    /// Reports a directory whose subtree holds `len` bytes: if its base
    /// name matches the glob for reclaimable directories, it is recorded
    /// with that size.
    pub fn register_dir_usage(&mut self, path: &str, len: u64)
        requires
            old(self)@.wf(),
            old(self)@.reclaimable_total + len <= u64::MAX,
        ensures
            final(self)@ == old(self)@.with_dir(
                path@,
                len,
                glob_matches(old(self)@.glob, base_name(path@)),
            ),
            final(self)@.wf(),
    {
        let matched = self.is_reclaimable(path);
        self.record_dir(path, len, matched);
    }
}

} // verus!
