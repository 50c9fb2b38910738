//! Configuration errors: what keeps a scan from starting.

use vstd::prelude::*;

verus! {

/// A setting that cannot be used. Such an error is found when the scan is
/// set up, never while it runs.
#[derive(Clone, Copy, Debug, PartialEq, Eq, Structural)]
pub enum ConfigError {
    /// The ignore pattern is not a well-formed glob.
    IgnorePattern,
    /// The pattern for reclaimable directories is not a well-formed glob.
    ReclaimablePattern,
}

impl ConfigError {
    /// The text that describes this error.
    pub open spec fn text(self) -> Seq<char> {
        match self {
            ConfigError::IgnorePattern => "Unable to parse ignore glob pattern"@,
            ConfigError::ReclaimablePattern => "Unable to parse reclaimable directory glob pattern"@,
        }
    }

    /// A message for the user.
    pub fn message(&self) -> (message: String)
        ensures
            message@ == self.text(),
    {
        match self {
            ConfigError::IgnorePattern => "Unable to parse ignore glob pattern".to_owned(),
            ConfigError::ReclaimablePattern => {
                "Unable to parse reclaimable directory glob pattern".to_owned()
            },
        }
    }
}

} // verus!
