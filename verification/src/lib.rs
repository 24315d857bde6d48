//! Commit-history aggregation: contributor statistics, work-pattern
//! classification, activity histograms and file-change frequency, all computed
//! from plain commit records and stated over mathematical models.

pub mod instant;
pub mod pattern;
pub mod histogram;
pub mod ranking;
pub mod permutation;
pub mod commit;
pub mod contributors;
pub mod files;
pub mod activity;
pub mod chart;
pub mod source;
