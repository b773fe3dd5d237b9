//! A minimal single-table, disk-backed record store.
//!
//! The storage engine keeps fixed-size pages over a single file image,
//! stores rows in a compact fixed-width binary format, and orders them
//! as cells of one B-tree leaf node (the root page).  A line-oriented
//! command layer parses `insert` / `select` statements and the meta
//! commands, and renders their output as bytes.  All file input and
//! output stays outside this crate: a table is opened from the file's
//! bytes and closed back to the bytes that must be written out.

pub mod engine;
pub mod layout;
pub mod node;
pub mod pager;
pub mod parse;
pub mod row;
pub mod table;
pub mod text;
pub mod util;
