use vstd::prelude::*;

verus! {

/// Why a byte sequence cannot be decoded. Every condition is reported as a
/// per-item value; none is fatal to the caller, which may stop or resume.
#[derive(Clone, Copy, Debug, PartialEq, Eq, Structural)]
pub enum EncodingError {
    /// A byte that cannot continue the current sequence nor begin one.
    Byte(u8),
    /// The input ended in the middle of a multi-byte sequence.
    End,
    /// A structurally complete sequence whose value is not allowed here:
    /// an overlong or out-of-range encoding, or a low surrogate directly
    /// after a high surrogate.
    CodePoint(u32),
}

} // verus!
