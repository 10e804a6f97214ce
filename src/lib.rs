//! Parsing of the Linux per-process memory map listings (`/proc/<pid>/maps`
//! and `/proc/<pid>/smaps`) into typed, verified records.
//!
//! A listing is a sequence of lines: one header line per mapping, each
//! followed by zero or more detail lines. `Parser` reads it one record at a
//! time; `read` and `read_filtered` collect every record at once.

pub mod text;
pub mod types;
pub mod header;
pub mod usage;
pub mod parse;
pub mod laws;

pub use parse::{read, read_filtered, ParseMapping, ParseUsage, Parser};
pub use types::{Device, Error, Mapping, Permissions, Usage, VmFlags};
