//! Who asked: counts the addresses in web server logs, finds out whose they are, and lays out the
//! report.
pub mod address;
pub mod batch;
pub mod classify;
pub mod cloud;
pub mod display;
pub mod feeds;
pub mod groups;
pub mod lists;
pub mod log;
pub mod lookup;
pub mod options;
pub mod parsers;
pub mod pattern;
pub mod plain;
pub mod ranges;
pub mod ranking;
pub mod records;
pub mod refresh;
pub mod screen;
pub mod selection;
pub mod sorting;
pub mod table;
pub mod tally;
pub mod text;
pub mod wording;
