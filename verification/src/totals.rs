//! Byte totals per usage category.

use crate::classify::Category;
use vstd::prelude::*;

verus! {

/// The cumulative byte count of each category. Every counted file adds its
/// length to exactly one of the seven.
#[derive(Clone, Copy, Debug, PartialEq, Eq, Structural)]
pub struct CategoryTotals {
    pub images: u64,
    pub videos: u64,
    pub music: u64,
    pub documents: u64,
    pub archives: u64,
    pub binaries: u64,
    pub other: u64,
}

impl CategoryTotals {
    /// Nothing counted yet.
    pub open spec fn zero() -> CategoryTotals {
        CategoryTotals {
            images: 0,
            videos: 0,
            music: 0,
            documents: 0,
            archives: 0,
            binaries: 0,
            other: 0,
        }
    }

    /// The total of one category.
    pub open spec fn of(self, category: Category) -> u64 {
        match category {
            Category::Images => self.images,
            Category::Videos => self.videos,
            Category::Music => self.music,
            Category::Documents => self.documents,
            Category::Archives => self.archives,
            Category::Binaries => self.binaries,
            Category::Other => self.other,
        }
    }

    /// The bytes of all categories together.
    pub open spec fn sum(self) -> int {
        self.images + self.videos + self.music + self.documents + self.archives + self.binaries
            + self.other
    }

    /// These totals with `len` more bytes under `category`.
    pub open spec fn plus(self, category: Category, len: u64) -> CategoryTotals
        recommends
            self.of(category) + len <= u64::MAX,
    {
        match category {
            Category::Images => CategoryTotals { images: (self.images + len) as u64, ..self },
            Category::Videos => CategoryTotals { videos: (self.videos + len) as u64, ..self },
            Category::Music => CategoryTotals { music: (self.music + len) as u64, ..self },
            Category::Documents => CategoryTotals {
                documents: (self.documents + len) as u64,
                ..self
            },
            Category::Archives => CategoryTotals { archives: (self.archives + len) as u64, ..self },
            Category::Binaries => CategoryTotals { binaries: (self.binaries + len) as u64, ..self },
            Category::Other => CategoryTotals { other: (self.other + len) as u64, ..self },
        }
    }

    /// Adding to one category raises that category and the sum by `len` and
    /// leaves the other categories alone.
    pub proof fn lemma_plus(self, category: Category, len: u64)
        requires
            self.of(category) + len <= u64::MAX,
        ensures
            self.plus(category, len).of(category) == self.of(category) + len,
            self.plus(category, len).sum() == self.sum() + len,
            forall|other: Category|
                other != category ==> self.plus(category, len).of(other) == self.of(other),
    {
    }

    /// The totals of a scan that has counted nothing.
    pub fn new() -> (totals: CategoryTotals)
        ensures
            totals == CategoryTotals::zero(),
    {
        CategoryTotals {
            images: 0,
            videos: 0,
            music: 0,
            documents: 0,
            archives: 0,
            binaries: 0,
            other: 0,
        }
    }

    /// The total of one category.
    pub fn get(&self, category: Category) -> (total: u64)
        ensures
            total == self.of(category),
    {
        match category {
            Category::Images => self.images,
            Category::Videos => self.videos,
            Category::Music => self.music,
            Category::Documents => self.documents,
            Category::Archives => self.archives,
            Category::Binaries => self.binaries,
            Category::Other => self.other,
        }
    }

    /// Counts `len` more bytes under `category`.
    pub fn add(&mut self, category: Category, len: u64)
        requires
            old(self).of(category) + len <= u64::MAX,
        ensures
            *final(self) == old(self).plus(category, len),
    {
        match category {
            Category::Images => {
                self.images = self.images + len;
            },
            Category::Videos => {
                self.videos = self.videos + len;
            },
            Category::Music => {
                self.music = self.music + len;
            },
            Category::Documents => {
                self.documents = self.documents + len;
            },
            Category::Archives => {
                self.archives = self.archives + len;
            },
            Category::Binaries => {
                self.binaries = self.binaries + len;
            },
            Category::Other => {
                self.other = self.other + len;
            },
        }
    }

    /// The seven totals with their categories, in reporting order.
    pub fn entries(&self) -> (rows: Vec<(Category, u64)>)
        ensures
            rows@ == seq![
                (Category::Images, self.images),
                (Category::Videos, self.videos),
                (Category::Music, self.music),
                (Category::Documents, self.documents),
                (Category::Archives, self.archives),
                (Category::Binaries, self.binaries),
                (Category::Other, self.other),
            ],
    {
        let mut rows: Vec<(Category, u64)> = Vec::new();
        rows.push((Category::Images, self.images));
        rows.push((Category::Videos, self.videos));
        rows.push((Category::Music, self.music));
        rows.push((Category::Documents, self.documents));
        rows.push((Category::Archives, self.archives));
        rows.push((Category::Binaries, self.binaries));
        rows.push((Category::Other, self.other));
        assert(rows@ =~= seq![
            (Category::Images, self.images),
            (Category::Videos, self.videos),
            (Category::Music, self.music),
            (Category::Documents, self.documents),
            (Category::Archives, self.archives),
            (Category::Binaries, self.binaries),
            (Category::Other, self.other),
        ]);
        rows
    }
}

} // verus!
