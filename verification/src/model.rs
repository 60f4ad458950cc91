//! The mathematical model of the codec: what the byte encoding of a scalar
//! value is, what the wide (UTF-16) form of a scalar value is, and what one
//! decoding step over a byte sequence produces.

use vstd::prelude::*;

use crate::error::EncodingError;

verus! {

/// Scalar values 0xD800..=0xDBFF: the high (leading) surrogate range.
pub open spec fn is_high_surrogate(c: int) -> bool {
    0xD800 <= c <= 0xDBFF
}

/// Scalar values 0xDC00..=0xDFFF: the low (trailing) surrogate range.
pub open spec fn is_low_surrogate(c: int) -> bool {
    0xDC00 <= c <= 0xDFFF
}

/// How many bytes the encoding of scalar value `c` occupies.
pub open spec fn wtf8_len(c: u32) -> int {
    if c < 0x80 {
        1
    } else if c < 0x800 {
        2
    } else if c < 0x10000 {
        3
    } else {
        4
    }
}

/// The canonical byte encoding of one scalar value: the shortest form whose
/// leading byte class matches the value's magnitude, each continuation byte
/// carrying six payload bits above a fixed tag.
pub open spec fn wtf8_encode_scalar(c: u32) -> Seq<u8>
    recommends
        c <= 0x10FFFF,
{
    let v = c as int;
    if v < 0x80 {
        seq![c as u8]
    } else if v < 0x800 {
        seq![(0xC0 + v / 64) as u8, (0x80 + v % 64) as u8]
    } else if v < 0x10000 {
        seq![(0xE0 + v / 0x1000) as u8, (0x80 + (v / 64) % 64) as u8, (0x80 + v % 64) as u8]
    } else {
        seq![
            (0xF0 + v / 0x40000) as u8,
            (0x80 + (v / 0x1000) % 64) as u8,
            (0x80 + (v / 64) % 64) as u8,
            (0x80 + v % 64) as u8,
        ]
    }
}

/// The byte encoding of a whole scalar-value sequence.
pub open spec fn wtf8_encode_seq(s: Seq<u32>) -> Seq<u8>
    decreases s.len(),
{
    if s.len() == 0 {
        Seq::empty()
    } else {
        wtf8_encode_scalar(s[0]) + wtf8_encode_seq(s.skip(1))
    }
}

/// The high surrogate of the pair that represents `c` in wide form.
pub open spec fn high_surrogate_of(c: u32) -> u16
    recommends
        0x10000 <= c <= 0x10FFFF,
{
    (0xD800 + (c - 0x10000) / 0x400) as u16
}

/// The low surrogate of the pair that represents `c` in wide form.
pub open spec fn low_surrogate_of(c: u32) -> u16
    recommends
        0x10000 <= c <= 0x10FFFF,
{
    (0xDC00 + (c - 0x10000) % 0x400) as u16
}

/// The scalar value represented by a high/low surrogate pair.
pub open spec fn combine_surrogates(h: u16, l: u16) -> u32
    recommends
        is_high_surrogate(h as int),
        is_low_surrogate(l as int),
{
    (0x10000 + (h - 0xD800) * 0x400 + (l - 0xDC00)) as u32
}

/// The wide form of one scalar value: itself when it fits in one unit
/// (lone surrogates included), a surrogate pair above the BMP.
pub open spec fn utf16_encode_scalar(c: u32) -> Seq<u16>
    recommends
        c <= 0x10FFFF,
{
    if c < 0x10000 {
        seq![c as u16]
    } else {
        seq![high_surrogate_of(c), low_surrogate_of(c)]
    }
}

/// The wide form of a whole scalar-value sequence.
pub open spec fn utf16_encode_seq(s: Seq<u32>) -> Seq<u16>
    decreases s.len(),
{
    if s.len() == 0 {
        Seq::empty()
    } else {
        utf16_encode_scalar(s[0]) + utf16_encode_seq(s.skip(1))
    }
}

/// The surrogate-tolerant decoding of a wide sequence: an adjacent high/low
/// pair combines into one scalar value; any other unit stands for itself.
pub open spec fn utf16_decode_seq(w: Seq<u16>) -> Seq<u32>
    decreases w.len(),
{
    if w.len() == 0 {
        Seq::empty()
    } else if is_high_surrogate(w[0] as int) && w.len() >= 2 && is_low_surrogate(w[1] as int) {
        seq![combine_surrogates(w[0], w[1])] + utf16_decode_seq(w.skip(2))
    } else {
        seq![w[0] as u32] + utf16_decode_seq(w.skip(1))
    }
}

/// A continuation byte: its top two bits are the tag `10`.
pub open spec fn is_cont_byte(b: u8) -> bool {
    (b as int) / 64 == 2
}

/// The checks made once a multi-byte sequence of length `len` has been
/// assembled into the value `v`, given whether the previous decoded value
/// was a high surrogate. The sequence's bytes are all consumed.
pub open spec fn decode_finish(input: Seq<u8>, prev_surrogate: bool, v: int, len: int) -> (
    Option<Result<u32, EncodingError>>,
    Seq<u8>,
    bool,
)
    recommends
        0 <= v < 0x200000,
        2 <= len <= input.len(),
{
    if len == 3 && v < 0x800 {
        (Some(Err(EncodingError::CodePoint(v as u32))), input.skip(len), false)
    } else if len == 4 && !(0x10000 <= v <= 0x10FFFF) {
        (Some(Err(EncodingError::CodePoint(v as u32))), input.skip(len), false)
    } else if len == 3 && prev_surrogate && is_low_surrogate(v) {
        (Some(Err(EncodingError::CodePoint(v as u32))), input.skip(len), false)
    } else {
        (Some(Ok(v as u32)), input.skip(len), len == 3 && is_high_surrogate(v))
    }
}

/// Reading the continuation bytes of a sequence of length `len` whose leading
/// byte, already consumed as `input[0]`, contributed the payload `acc0`.
/// A missing byte ends the input; a byte without the continuation tag is
/// reported and left in place, so that decoding can resume at it.
pub open spec fn decode_tail(input: Seq<u8>, prev_surrogate: bool, acc0: int, len: int) -> (
    Option<Result<u32, EncodingError>>,
    Seq<u8>,
    bool,
)
    recommends
        0 <= acc0 < 32,
        2 <= len <= 4,
        input.len() >= 1,
{
    if input.len() < 2 {
        (Some(Err(EncodingError::End)), Seq::empty(), false)
    } else if !is_cont_byte(input[1]) {
        (Some(Err(EncodingError::Byte(input[1]))), input.skip(1), false)
    } else {
        let acc1 = acc0 * 64 + (input[1] as int) % 64;
        if len == 2 {
            decode_finish(input, prev_surrogate, acc1, 2)
        } else if input.len() < 3 {
            (Some(Err(EncodingError::End)), Seq::empty(), false)
        } else if !is_cont_byte(input[2]) {
            (Some(Err(EncodingError::Byte(input[2]))), input.skip(2), false)
        } else {
            let acc2 = acc1 * 64 + (input[2] as int) % 64;
            if len == 3 {
                decode_finish(input, prev_surrogate, acc2, 3)
            } else if input.len() < 4 {
                (Some(Err(EncodingError::End)), Seq::empty(), false)
            } else if !is_cont_byte(input[3]) {
                (Some(Err(EncodingError::Byte(input[3]))), input.skip(3), false)
            } else {
                decode_finish(input, prev_surrogate, acc2 * 64 + (input[3] as int) % 64, 4)
            }
        }
    }
}

/// One decoding step: the item produced (none at the end of the input), the
/// input left for the next step, and whether the item was a lone high
/// surrogate, which the next step must know to reject its low counterpart.
pub open spec fn decode_one(input: Seq<u8>, prev_surrogate: bool) -> (
    Option<Result<u32, EncodingError>>,
    Seq<u8>,
    bool,
) {
    if input.len() == 0 {
        (None, input, false)
    } else {
        let b0 = input[0];
        if b0 < 0x80 {
            (Some(Ok(b0 as u32)), input.skip(1), false)
        } else if b0 < 0xC2 {
            (Some(Err(EncodingError::Byte(b0))), input.skip(1), false)
        } else if b0 < 0xE0 {
            decode_tail(input, prev_surrogate, (b0 as int) % 32, 2)
        } else if b0 < 0xF0 {
            decode_tail(input, prev_surrogate, (b0 as int) % 16, 3)
        } else if b0 < 0xF5 {
            decode_tail(input, prev_surrogate, (b0 as int) % 8, 4)
        } else {
            (Some(Err(EncodingError::Byte(b0))), input.skip(1), false)
        }
    }
}

/// A decoding step on a non-empty input always consumes at least one byte.
pub proof fn lemma_decode_one_consumes(input: Seq<u8>, prev_surrogate: bool)
    requires
        input.len() >= 1,
    ensures
        decode_one(input, prev_surrogate).1.len() < input.len(),
{
}

/// Every item the decoder produces on `input`, in order, starting from the
/// given surrogate state.
pub open spec fn decoded_items(input: Seq<u8>, prev_surrogate: bool) -> Seq<
    Result<u32, EncodingError>,
>
    decreases input.len(),
{
    let step = decode_one(input, prev_surrogate);
    if input.len() == 0 {
        Seq::empty()
    } else {
        proof {
            lemma_decode_one_consumes(input, prev_surrogate);
        }
        seq![step.0->Some_0] + decoded_items(step.1, step.2)
    }
}

/// The first error among decoded items, if any.
pub open spec fn first_error_of<T>(items: Seq<Result<T, EncodingError>>) -> Option<EncodingError>
    decreases items.len(),
{
    if items.len() == 0 {
        None
    } else {
        match items[0] {
            Ok(_) => first_error_of(items.skip(1)),
            Err(e) => Some(e),
        }
    }
}

/// The values of the successfully decoded items, in order.
pub open spec fn ok_values(items: Seq<Result<u32, EncodingError>>) -> Seq<u32>
    decreases items.len(),
{
    if items.len() == 0 {
        Seq::empty()
    } else {
        match items[0] {
            Ok(c) => seq![c] + ok_values(items.skip(1)),
            Err(_) => ok_values(items.skip(1)),
        }
    }
}

/// Decoded items turned into wide-unit items: a value above the BMP becomes
/// its surrogate pair, any other value its single unit, and an error stays
/// an error.
pub open spec fn wide_items_of(items: Seq<Result<u32, EncodingError>>) -> Seq<
    Result<u16, EncodingError>,
>
    decreases items.len(),
{
    if items.len() == 0 {
        Seq::empty()
    } else {
        let head: Seq<Result<u16, EncodingError>> = match items[0] {
            Ok(c) => if c >= 0x10000 {
                seq![Ok(high_surrogate_of(c)), Ok(low_surrogate_of(c))]
            } else {
                seq![Ok(c as u16)]
            },
            Err(e) => seq![Err(e)],
        };
        head + wide_items_of(items.skip(1))
    }
}

/// The values of the successfully produced wide units, in order.
pub open spec fn ok_units(items: Seq<Result<u16, EncodingError>>) -> Seq<u16>
    decreases items.len(),
{
    if items.len() == 0 {
        Seq::empty()
    } else {
        match items[0] {
            Ok(u) => seq![u] + ok_units(items.skip(1)),
            Err(_) => ok_units(items.skip(1)),
        }
    }
}

/// The full stream of wide-unit items that encoding `input` produces.
pub open spec fn wide_items(input: Seq<u8>) -> Seq<Result<u16, EncodingError>> {
    wide_items_of(decoded_items(input, false))
}

/// The wide units that encoding `input` produces, errors skipped.
pub open spec fn encoded_wide(input: Seq<u8>) -> Seq<u16> {
    ok_units(wide_items(input))
}

/// The first error that decoding `input` reports, if any.
pub open spec fn decode_error(input: Seq<u8>) -> Option<EncodingError> {
    first_error_of(wide_items(input))
}

/// The byte form of a wide sequence: decode it surrogate-tolerantly, then
/// encode each scalar value canonically. This always succeeds.
pub open spec fn wide_to_bytes(w: Seq<u16>) -> Seq<u8> {
    wtf8_encode_seq(utf16_decode_seq(w))
}

/// Prepending one element and skipping it again changes nothing.
pub proof fn lemma_cons_skip<A>(a: A, s: Seq<A>)
    ensures
        (seq![a] + s).len() == s.len() + 1,
        (seq![a] + s)[0] == a,
        (seq![a] + s).skip(1) == s,
{
    assert((seq![a] + s).skip(1) =~= s);
}

/// Skipping the head of a concatenation skips the head of its first part.
pub proof fn lemma_add_skip1<A>(s: Seq<A>, t: Seq<A>)
    requires
        s.len() >= 1,
    ensures
        (s + t).skip(1) == s.skip(1) + t,
{
    assert((s + t).skip(1) =~= s.skip(1) + t);
}

/// A value the decoder accepts always lies in the encodable range.
pub proof fn lemma_decode_one_ok_bound(input: Seq<u8>, prev_surrogate: bool)
    ensures
        decode_one(input, prev_surrogate).0 matches Some(Ok(c)) ==> c <= 0x10FFFF,
{
}

} // verus!
