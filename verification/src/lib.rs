//! Top memory consumers of a Linux system: parsing of `/proc` status texts,
//! grouping of processes by name, ranking by memory and rendering of the report.
pub mod ranking;
pub mod text;
pub mod number;
pub mod top_pss;
pub mod top_rss;
pub mod cli;
