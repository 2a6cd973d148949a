//! A daily journal kept as plain text: typed entries with tags and dates,
//! queries over them, entries that appear on the day they name, and
//! completion for what is being typed.
//!
//! Everything here works on values that the caller holds: text that was read,
//! and the day that a clock gave.  Nothing reads or writes files.

pub mod config;
pub mod context;
pub mod cursor;
pub mod date;
pub mod dateexpr;
pub mod datevalue;
pub mod dayfile;
pub mod dayops;
pub mod entries;
pub mod filter;
pub mod hints;
pub mod journal;
pub mod later;
pub mod layout;
pub mod listnav;
pub mod matching;
pub mod modes;
pub mod normalize;
pub mod project;
pub mod registry;
pub mod sorting;
pub mod tags;
pub mod text;
pub mod unicode;
pub mod views;
pub mod width;
pub mod wrap;
