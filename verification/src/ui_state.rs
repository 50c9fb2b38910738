//! The state of the settings and of the deletion dialogue, as the user
//! interface holds it between two frames.

use crate::settings::{ScanSettings, Settings};
use vstd::prelude::*;

verus! {

/// The tab of the results view that is shown.
#[derive(Clone, Copy, Debug, PartialEq, Eq, Structural)]
pub enum CurrentTab {
    LargeFiles,
    Recs,
    Summary,
}

/// What the user interface remembers.
#[derive(Clone)]
pub struct UiState {
    /// Whether the user is being asked to confirm a deletion.
    pub show_delete_confirm: bool,
    /// Whether the settings window is open.
    pub show_settings: bool,
    /// The file whose deletion waits for confirmation, and whether it is
    /// to be removed for good rather than moved to the trash.
    pub file_to_delete: Option<(String, bool)>,
    /// The tab that is shown.
    pub current_tab: CurrentTab,
    /// The directory to scan.
    pub setting_root_dir: String,
    /// The glob of what to skip.
    pub setting_ignore_glob: String,
    /// The glob of directories that can be reclaimed.
    pub setting_developer_cache_dirs: String,
    /// Whether hidden entries are scanned.
    pub setting_hidden: bool,
    /// How many of the largest files are listed.
    pub setting_nlargest: u64,
    /// The least size of a listed file, in bytes.
    pub setting_largebytes: u64,
}

/// The state of the interface as mathematics.
pub struct Ui {
    pub show_delete_confirm: bool,
    pub show_settings: bool,
    pub file_to_delete: Option<(Seq<char>, bool)>,
    pub current_tab: CurrentTab,
    pub settings: Settings,
}

impl Ui {
    /// The state after the deletion of `path` was asked for: the question
    /// is shown and the file is remembered.
    pub open spec fn asked(self, path: Seq<char>, force: bool) -> Ui {
        Ui { show_delete_confirm: true, file_to_delete: Some((path, force)), ..self }
    }

    /// The state after the question was answered: nothing waits any more.
    pub open spec fn answered(self) -> Ui {
        Ui { show_delete_confirm: false, file_to_delete: None, ..self }
    }

    /// The file to delete when the question is answered with `confirm`.
    pub open spec fn to_delete(self, confirm: bool) -> Option<(Seq<char>, bool)> {
        if confirm {
            self.file_to_delete
        } else {
            None
        }
    }
}

impl View for UiState {
    type V = Ui;

    open spec fn view(&self) -> Ui {
        Ui {
            show_delete_confirm: self.show_delete_confirm,
            show_settings: self.show_settings,
            file_to_delete: match self.file_to_delete {
                Some(file) => Some((file.0@, file.1)),
                None => None,
            },
            current_tab: self.current_tab,
            settings: Settings {
                dir: self.setting_root_dir@,
                ignore: self.setting_ignore_glob@,
                reclaimable: self.setting_developer_cache_dirs@,
                nlargest: self.setting_nlargest,
                largebytes: self.setting_largebytes,
                hidden: self.setting_hidden,
            },
        }
    }
}

impl UiState {
    /// The state of an interface that was just opened: nothing is asked,
    /// the tab of the large files is shown, and the settings are the
    /// defaults.
    pub fn new() -> (state: UiState)
        ensures
            state@ == (Ui {
                show_delete_confirm: false,
                show_settings: false,
                file_to_delete: None,
                current_tab: CurrentTab::LargeFiles,
                settings: Settings::defaults(),
            }),
    {
        let defaults = ScanSettings::defaults();
        UiState {
            show_delete_confirm: false,
            show_settings: false,
            file_to_delete: None,
            current_tab: CurrentTab::LargeFiles,
            setting_root_dir: defaults.dir,
            setting_ignore_glob: defaults.ignore,
            setting_developer_cache_dirs: defaults.reclaimable,
            setting_hidden: defaults.hidden,
            setting_nlargest: defaults.nlargest,
            setting_largebytes: defaults.largebytes,
        }
    }

    /// The settings for a scan, as they stand in the interface.
    pub fn scan_settings(&self) -> (settings: ScanSettings)
        ensures
            settings@ == self@.settings,
    {
        ScanSettings {
            dir: self.setting_root_dir.clone(),
            ignore: self.setting_ignore_glob.clone(),
            reclaimable: self.setting_developer_cache_dirs.clone(),
            nlargest: self.setting_nlargest,
            largebytes: self.setting_largebytes,
            hidden: self.setting_hidden,
        }
    }

    /// The user asks for `path` to be deleted, for good if `force`: the
    /// interface is to ask for confirmation.
    pub fn request_delete(&mut self, path: &str, force: bool)
        ensures
            final(self)@ == old(self)@.asked(path@, force),
    {
        self.show_delete_confirm = true;
        self.file_to_delete = Some((path.to_owned(), force));
    }

    /// The user answers the question. Gives back the file to delete, and
    /// whether for good, if the user confirmed and a file was waiting;
    /// after that nothing waits.
    pub fn resolve_delete(&mut self, confirm: bool) -> (file: Option<(String, bool)>)
        ensures
            final(self)@ == old(self)@.answered(),
            match file {
                Some(f) => old(self)@.to_delete(confirm) == Some((f.0@, f.1)),
                None => old(self)@.to_delete(confirm) is None,
            },
    {
        let waiting = self.file_to_delete.take();
        self.show_delete_confirm = false;
        if confirm {
            waiting
        } else {
            None
        }
    }
}

} // verus!
