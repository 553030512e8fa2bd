//! A command line parser in the manner of getopt(3), with the small
//! computations of a few classic Unix tools, verified with Verus.
pub mod count;
pub mod dump;
pub mod getopt;
pub mod laws;
pub mod number;
pub mod offset;
pub mod remove;

pub use getopt::{is_valid_optstring, Arg, GetOpt, GetOptErr, OptSpec};
pub use offset::{parse_offset, OffsetError};
