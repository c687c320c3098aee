//! Load-order analysis for Ship of Harkinian mod archives.

pub mod formats;
pub mod text;
pub mod model;
pub mod conflicts;
pub mod sort;
pub mod sorting;
pub mod sort_laws;
pub mod warnings;
mod overlap_count;
pub mod warning_order;
pub mod report;
pub mod toggle;
pub mod json;
pub mod paths;
pub mod pins;
pub mod config;
pub mod scan;
pub mod desktop;
