//! Verification and aggregation of signed oracle payloads.
//!
//! A payload carries signed data packages followed by a trailer; the library
//! walks it backward, checks every signature against an allow-list and returns
//! the median of the values that distinct authorised signers gave for one feed.

mod crypto;
pub mod error;
pub mod format;
pub mod hex;
pub mod median;
pub mod oracle;
pub mod package;
mod signers;

pub use error::OracleError;
pub use hex::{decode_hex, encode_hex};
pub use median::aggregate_values;
pub use oracle::get_oracle_value;
