//! Identity-aware duplicate-file detection.
//!
//! Files are first folded into records by their on-disk identity, so that
//! hard links and symbolic links to one file count once; records are then
//! grouped by size, and the survivors by an Adler-32 checksum of their
//! content. The library works on plain values: reading directories and
//! files is left to the caller, who hands over what was found.

pub mod checksum;
pub mod grouping;
pub mod metafile;
pub mod options;
pub mod ordered_set;
pub mod pipeline;
pub mod recursive_dir_reader;
pub mod report;
