//! Library for applying IPS ("International Patching System") delta patches
//! to binary images.
//!
//! An IPS patch stream starts with the five-byte marker `PATCH`, carries a
//! sequence of records, and ends with the three-byte sentinel `EOF`. Each
//! record targets a 24-bit byte offset of the output image and either writes
//! literal bytes or repeats one fill byte a given number of times. The
//! records are applied in stream order on top of a copy of the base image.

pub mod args;
pub mod ips;

pub use args::Args;
pub use ips::apply_patch;
pub use ips::Error;
pub use ips::Record;
