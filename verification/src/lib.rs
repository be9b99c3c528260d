//! Core logic of a desktop file-organizer: classification of files by
//! extension, windowed content fingerprinting, duplicate detection, folder
//! comparison and merging, a rule engine with custom and per-category default
//! rules, planning of file mutations, and an undoable history ledger.
//!
//! Everything here is pure logic over plain values; reading directories,
//! hashing file contents and performing the planned mutations is left to the
//! surrounding application, which feeds results back in.

pub mod text;
pub mod fmt;
pub mod paths;
pub mod sorting;
pub mod classifier;
pub mod records;
pub mod fingerprint;
pub mod dedup;
pub mod compare;
pub mod rules;
pub mod organizer;
pub mod renamer;
pub mod fileops;
pub mod stats;
pub mod tree;
pub mod scan;
pub mod history;
pub mod fsmodel;
pub mod settings;
pub mod watcher;
