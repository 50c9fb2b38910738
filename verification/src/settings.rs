//! What a scan is told before it starts.

use vstd::prelude::*;

verus! {

/// The platform the scan runs on, as far as the rules on what to skip
/// depend on it.
#[derive(Clone, Copy, Debug, PartialEq, Eq, Structural)]
pub enum Platform {
    /// macOS, where application bundles are directories that are not
    /// looked into.
    MacOs,
    /// Any other platform.
    Other,
}

/// The settings of one scan. They are made once and never changed.
#[derive(Clone, Debug)]
pub struct ScanSettings {
    /// The directory to scan.
    pub dir: String,
    /// A glob on full paths: what matches it is skipped.
    pub ignore: String,
    /// A glob on base names: a directory that matches it is reclaimable.
    pub reclaimable: String,
    /// How many of the largest files are listed at most.
    pub nlargest: u64,
    /// The least size, in bytes, of a file that is listed.
    pub largebytes: u64,
    /// Whether entries whose name begins with a dot are included.
    pub hidden: bool,
}

/// Settings as mathematics.
pub struct Settings {
    pub dir: Seq<char>,
    pub ignore: Seq<char>,
    pub reclaimable: Seq<char>,
    pub nlargest: u64,
    pub largebytes: u64,
    pub hidden: bool,
}

impl Settings {
    /// The settings of a scan that was told nothing: the whole file system,
    /// nothing ignored, hidden entries left out, `node_modules` directories
    /// reclaimable, the hundred largest files of at least 50 MiB listed.
    pub open spec fn defaults() -> Settings {
        Settings {
            dir: "/"@,
            ignore: ""@,
            reclaimable: "**/node_modules"@,
            nlargest: 100,
            largebytes: 52428800,
            hidden: false,
        }
    }
}

impl View for ScanSettings {
    type V = Settings;

    open spec fn view(&self) -> Settings {
        Settings {
            dir: self.dir@,
            ignore: self.ignore@,
            reclaimable: self.reclaimable@,
            nlargest: self.nlargest,
            largebytes: self.largebytes,
            hidden: self.hidden,
        }
    }
}

impl ScanSettings {
    /// The default settings.
    pub fn defaults() -> (settings: ScanSettings)
        ensures
            settings@ == Settings::defaults(),
    {
        ScanSettings {
            dir: "/".to_owned(),
            ignore: "".to_owned(),
            reclaimable: "**/node_modules".to_owned(),
            nlargest: 100,
            largebytes: 52428800,
            hidden: false,
        }
    }
}

} // verus!
