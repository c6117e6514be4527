//! Forcing a byte stream to a chosen CRC32 (IEEE 802.3) by appending four bytes.
//!
//! `crc` models the checksum and computes it incrementally, `forge` derives the
//! four-byte suffix, `patch` decides whether a suffix may be appended, and
//! `hex` reads checksums written in hexadecimal.

pub mod crc;
pub mod forge;
pub mod hex;
pub mod patch;

pub use crc::{checksum_in_chunks, crc32_update, finalize_crc32, StreamingChecksum};
pub use forge::calculate_new_bytes;
pub use hex::parse_u32_hex;
pub use patch::{check_suffix, prepare_patch, verify_suffix, PatchError};
