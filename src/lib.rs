//! A verified parser for the Linux `/proc/<pid>/maps` text format.
//!
//! Each line of a maps file describes one mapping of a process's address
//! space: an address range, permissions, an offset, a device, an inode and an
//! optional pathname. `parse_from_text` decodes a whole file in order;
//! `line::decode_line` decodes a single line.

pub mod line;
pub mod maps;
pub mod number;
pub mod record;
pub mod round_trip;
mod text;

pub use line::{DecodeErrorKind, FieldName, LineFault};
pub use maps::{parse_from_contents, parse_from_text, DecodeError, Error};
pub use record::{AddressRange, Device, MemoryMap, Pathname, Permissions};
