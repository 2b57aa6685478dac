//! Input resolution and result aggregation for a link-checking tool.
//!
//! `file` classifies a path or address into a content kind, `input` turns a
//! user-supplied specifier into an input descriptor and builds content records,
//! `stats` folds per-link outcomes into counters and a per-source fail map,
//! `report` lays out summary lines, and `dump` decides how printing links ends.

pub mod dump;
pub mod file;
pub mod input;
pub mod report;
pub mod stats;
