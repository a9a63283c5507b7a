//! A process memory access engine: region enumeration from a mapping listing,
//! protection specifiers and their native encodings, and a session that
//! validates every memory operation against its region table before any
//! platform call is made.

pub mod error;
pub mod text;
pub mod protection;
pub mod native;
pub mod region;
pub mod maps;
pub mod session;
pub mod hex;
