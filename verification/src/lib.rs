//! A tar archiving library: the ustar header codec, the block scanner that
//! enumerates archive members, the builder that produces archive bytes, and
//! the extraction planner, together with the option and error types of the
//! surrounding command-line tool.

use vstd::prelude::*;

pub mod create;
pub mod errors;
pub mod extract;
pub mod fields;
pub mod header;
pub mod laws;
pub mod list;
pub mod normalize;
pub mod operation;
pub mod options;
pub mod params;
pub mod scanner;
pub mod sed;
pub mod strings;
pub mod time;
pub mod util;

verus! {

/// The archive's fixed I/O unit: every header and every data region is a
/// whole number of blocks of this many bytes.
pub const BLOCK_SIZE: usize = 512;

} // verus!
