//! A disk-usage scanning engine.
//!
//! The engine walks a directory tree without touching the file system
//! itself: it tells its host which directory to list or which file to
//! measure next, and the host hands the answer back. On the way it adds up
//! the bytes of the files under seven categories, keeps a bounded list of
//! the largest files, and records the directories whose name marks them as
//! reclaimable.
//!
//! `analyzer` holds the engine and `stats` its usage tracker; `engine`
//! holds the engine's mathematical model, against which every call of the
//! engine is proved. `laws` and `tree` state what holds of every scan: the
//! totals add up, the list of the largest files is what it promises to be,
//! links to directories are never followed, and a scan comes to exactly
//! what the walk of its tree says. `pattern`, `classify` and `clock` hold
//! the few calls into other crates, which are taken on trust.

pub mod analyzer;
pub mod classify;
pub mod clock;
pub mod deletion;
pub mod engine;
pub mod entry;
pub mod error;
pub mod largest;
pub mod laws;
pub mod pattern;
pub mod pie_chart;
pub mod scan;
pub mod settings;
pub mod stats;
pub mod totals;
pub mod tree;
pub mod ui_state;
pub mod utils;
