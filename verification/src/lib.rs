//! The deletion engine of `irm`: sizing a directory tree, deciding what a
//! removal may delete under the read-only policy, and rendering byte counts.
//!
//! The library never touches the file system. A caller lists a tree into
//! [`entry::Entry`] values, hands the listing to [`scan::scan`] and
//! [`walk::delete_tree`], and carries out what they return.
//!
//! All types are plain data. Contracts speak of the values themselves; a
//! path is carried through unchanged from the listing to what is reported.

pub mod entry;
pub mod outcome;
pub mod scan;
pub mod units;
pub mod walk;
