//! What a user may do with a deletion candidate, and the count of what
//! was reclaimed. Deleting itself is the host's business.

use vstd::prelude::*;

verus! {

/// What to do with one file that is offered for deletion.
#[derive(Clone, Copy, Debug, PartialEq, Eq, Structural)]
pub enum DeleteChoice {
    /// Leave the file alone and go on to the next.
    Keep,
    /// Stop offering files.
    Exit,
    /// Move the file to the trash.
    Trash,
    /// Remove the file for good.
    Force,
}

impl DeleteChoice {
    /// The choice that stands at `selection` in the menu; no selection, or
    /// one beyond the menu, keeps the file.
    pub open spec fn of(selection: Option<usize>) -> DeleteChoice {
        match selection {
            Some(index) => if index == 1 {
                DeleteChoice::Exit
            } else if index == 2 {
                DeleteChoice::Trash
            } else if index == 3 {
                DeleteChoice::Force
            } else {
                DeleteChoice::Keep
            },
            None => DeleteChoice::Keep,
        }
    }

    /// The choice that stands at `selection` in the menu.
    pub fn from_selection(selection: Option<usize>) -> (choice: DeleteChoice)
        ensures
            choice == DeleteChoice::of(selection),
    {
        match selection {
            Some(1) => DeleteChoice::Exit,
            Some(2) => DeleteChoice::Trash,
            Some(3) => DeleteChoice::Force,
            _ => DeleteChoice::Keep,
        }
    }

    /// Whether the choice asks for the file to be deleted.
    pub fn deletes(&self) -> (deletes: bool)
        ensures
            deletes == (*self == DeleteChoice::Trash || *self == DeleteChoice::Force),
    {
        match self {
            DeleteChoice::Trash => true,
            DeleteChoice::Force => true,
            _ => false,
        }
    }
}

/// The bytes reclaimed by the deletions that succeeded.
pub struct DeletionTally {
    reclaimed: u64,
}

impl DeletionTally {
    /// The bytes reclaimed so far.
    pub closed spec fn total(&self) -> u64 {
        self.reclaimed
    }

    /// A tally of nothing.
    pub fn new() -> (tally: DeletionTally)
        ensures
            tally.total() == 0,
    {
        DeletionTally { reclaimed: 0 }
    }

    /// The bytes reclaimed so far.
    pub fn reclaimed(&self) -> (total: u64)
        ensures
            total == self.total(),
    {
        self.reclaimed
    }

    /// Takes note of an attempt to delete a file of `size` bytes. Only a
    /// deletion that succeeded counts. The tally stops at the largest
    /// 64-bit number.
    pub fn record(&mut self, size: u64, deleted: bool)
        ensures
            final(self).total() == if !deleted {
                old(self).total()
            } else if old(self).total() + size <= u64::MAX {
                (old(self).total() + size) as u64
            } else {
                u64::MAX
            },
    {
        if deleted {
            if size > u64::MAX - self.reclaimed {
                self.reclaimed = u64::MAX;
            } else {
                self.reclaimed = self.reclaimed + size;
            }
        }
    }
}

} // verus!
