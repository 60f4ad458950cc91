//! A codec between a WTF-8-style byte encoding and the UTF-16 code units
//! used by a host platform's wide-string ABI.
//!
//! Unlike strict UTF-8, the byte encoding can carry lone (unpaired) surrogate
//! halves, so any wide-character sequence has a byte representation. The byte
//! form is canonical: a high surrogate encoded in three bytes must never be
//! followed directly by a three-byte low surrogate, because that pair has a
//! unique four-byte encoding as a single combined scalar value. The checked
//! conversion accepts exactly the byte sequences that survive a round trip
//! through the wide form unchanged.

pub mod code_points;
pub mod convert;
pub mod error;
pub mod laws;
pub mod model;
pub mod wide;
