//! The properties that hold the codec together: an accepted decoding step
//! consumes exactly the canonical encoding of its value, an error-free byte
//! sequence survives the round trip through the wide form unchanged, and the
//! sequences the checked conversion rejects are pinned down.

use vstd::prelude::*;

use crate::error::EncodingError;
use crate::model::combine_surrogates;
use crate::model::decode_error;
use crate::model::decode_one;
use crate::model::decoded_items;
use crate::model::encoded_wide;
use crate::model::first_error_of;
use crate::model::high_surrogate_of;
use crate::model::is_high_surrogate;
use crate::model::is_low_surrogate;
use crate::model::lemma_cons_skip;
use crate::model::lemma_decode_one_consumes;
use crate::model::low_surrogate_of;
use crate::model::ok_units;
use crate::model::ok_values;
use crate::model::utf16_decode_seq;
use crate::model::utf16_encode_scalar;
use crate::model::utf16_encode_seq;
use crate::model::wide_items;
use crate::model::wide_items_of;
use crate::model::wide_to_bytes;
use crate::model::wtf8_encode_scalar;
use crate::model::wtf8_encode_seq;

verus! {

/// Scalar sequences as an error-free decoding produces them: every value in
/// the encodable range, and no low surrogate directly after a high one (nor
/// first, when the step before the sequence already produced a high one).
pub open spec fn wf_scalars(s: Seq<u32>, prev_surrogate: bool) -> bool
    decreases s.len(),
{
    s.len() == 0 || (s[0] <= 0x10FFFF && !(prev_surrogate && is_low_surrogate(s[0] as int))
        && wf_scalars(s.skip(1), is_high_surrogate(s[0] as int)))
}

/// A two-byte sequence with a valid leading and continuation byte assembles
/// to a value whose canonical encoding is that very sequence.
proof fn lemma_reconstruct2(b0: u8, c1: u8)
    requires
        0xC2 <= b0 < 0xE0,
        (c1 as int) / 64 == 2,
    ensures
        ({
            let v = ((b0 as int) % 32) * 64 + (c1 as int) % 64;
            0x80 <= v < 0x800 && wtf8_encode_scalar(v as u32) == seq![b0, c1]
        }),
{
    let v = ((b0 as int) % 32) * 64 + (c1 as int) % 64;
    assert(wtf8_encode_scalar(v as u32) =~= seq![b0, c1]);
}

/// The three-byte analogue, for values at or above the two-byte range.
proof fn lemma_reconstruct3(b0: u8, c1: u8, c2: u8)
    requires
        0xE0 <= b0 < 0xF0,
        (c1 as int) / 64 == 2,
        (c2 as int) / 64 == 2,
        ((b0 as int) % 16) * 0x1000 + ((c1 as int) % 64) * 64 + (c2 as int) % 64 >= 0x800,
    ensures
        ({
            let v = ((b0 as int) % 16) * 0x1000 + ((c1 as int) % 64) * 64 + (c2 as int) % 64;
            v < 0x10000 && wtf8_encode_scalar(v as u32) == seq![b0, c1, c2]
        }),
{
    let v = ((b0 as int) % 16) * 0x1000 + ((c1 as int) % 64) * 64 + (c2 as int) % 64;
    assert(wtf8_encode_scalar(v as u32) =~= seq![b0, c1, c2]);
}

/// The four-byte analogue, for values in the supplementary range.
proof fn lemma_reconstruct4(b0: u8, c1: u8, c2: u8, c3: u8)
    requires
        0xF0 <= b0 < 0xF5,
        (c1 as int) / 64 == 2,
        (c2 as int) / 64 == 2,
        (c3 as int) / 64 == 2,
        0x10000 <= ((b0 as int) % 8) * 0x40000 + ((c1 as int) % 64) * 0x1000 + ((c2 as int) % 64)
            * 64 + (c3 as int) % 64 <= 0x10FFFF,
    ensures
        ({
            let v = ((b0 as int) % 8) * 0x40000 + ((c1 as int) % 64) * 0x1000 + ((c2 as int) % 64)
                * 64 + (c3 as int) % 64;
            wtf8_encode_scalar(v as u32) == seq![b0, c1, c2, c3]
        }),
{
    let p0 = (b0 as int) % 8;
    let p1 = (c1 as int) % 64;
    let p2 = (c2 as int) % 64;
    let p3 = (c3 as int) % 64;
    let v = p0 * 0x40000 + p1 * 0x1000 + p2 * 64 + p3;
    vstd::arithmetic::div_mod::lemma_fundamental_div_mod_converse(
        v,
        0x40000,
        p0,
        p1 * 0x1000 + p2 * 64 + p3,
    );
    vstd::arithmetic::div_mod::lemma_fundamental_div_mod_converse(
        v,
        0x1000,
        p0 * 64 + p1,
        p2 * 64 + p3,
    );
    vstd::arithmetic::div_mod::lemma_fundamental_div_mod_converse(p0 * 64 + p1, 64, p0, p1);
    vstd::arithmetic::div_mod::lemma_fundamental_div_mod_converse(
        v,
        64,
        (p0 * 64 + p1) * 64 + p2,
        p3,
    );
    vstd::arithmetic::div_mod::lemma_fundamental_div_mod_converse(
        (p0 * 64 + p1) * 64 + p2,
        64,
        p0 * 64 + p1,
        p2,
    );
    assert(wtf8_encode_scalar(v as u32) =~= seq![b0, c1, c2, c3]);
}

/// An accepted decoding step consumes exactly the canonical encoding of the
/// value it yields, leaves the surrogate state high exactly when that value
/// is a lone high surrogate, and never yields a low surrogate while the
/// state is high.
pub proof fn lemma_decode_one_ok(input: Seq<u8>, prev_surrogate: bool)
    ensures
        ({
            let step = decode_one(input, prev_surrogate);
            step.0 matches Some(Ok(c)) ==> {
                &&& c <= 0x10FFFF
                &&& !(prev_surrogate && is_low_surrogate(c as int))
                &&& step.2 == is_high_surrogate(c as int)
                &&& input == wtf8_encode_scalar(c) + step.1
            }
        }),
{
    let step = decode_one(input, prev_surrogate);
    match step.0 {
        Some(Ok(c)) => {
            let b0 = input[0];
            if b0 < 0x80 {
                assert(wtf8_encode_scalar(c) + step.1 =~= input);
            } else if b0 < 0xE0 {
                lemma_reconstruct2(b0, input[1]);
                assert(wtf8_encode_scalar(c) + step.1 =~= input);
            } else if b0 < 0xF0 {
                lemma_reconstruct3(b0, input[1], input[2]);
                assert(wtf8_encode_scalar(c) + step.1 =~= input);
            } else {
                lemma_reconstruct4(b0, input[1], input[2], input[3]);
                assert(wtf8_encode_scalar(c) + step.1 =~= input);
            }
        },
        _ => {},
    }
}

/// When decoding reports no error, the input is exactly the canonical byte
/// encoding of the decoded scalar values, and those values are well formed
/// with respect to the starting surrogate state.
proof fn lemma_no_error_decodes(input: Seq<u8>, prev_surrogate: bool)
    requires
        first_error_of(decoded_items(input, prev_surrogate)) is None,
    ensures
        wf_scalars(ok_values(decoded_items(input, prev_surrogate)), prev_surrogate),
        wtf8_encode_seq(ok_values(decoded_items(input, prev_surrogate))) == input,
    decreases input.len(),
{
    let items = decoded_items(input, prev_surrogate);
    if input.len() == 0 {
        assert(wtf8_encode_seq(ok_values(items)) =~= input);
    } else {
        lemma_decode_one_consumes(input, prev_surrogate);
        let step = decode_one(input, prev_surrogate);
        let item = step.0->Some_0;
        let rest_items = decoded_items(step.1, step.2);
        lemma_cons_skip(item, rest_items);
        match item {
            Err(_) => {
                assert(false);
            },
            Ok(c) => {
                lemma_decode_one_ok(input, prev_surrogate);
                lemma_no_error_decodes(step.1, step.2);
                lemma_cons_skip(c, ok_values(rest_items));
                assert(ok_values(items) == seq![c] + ok_values(rest_items));
                assert(wtf8_encode_seq(seq![c] + ok_values(rest_items)) == wtf8_encode_scalar(c)
                    + wtf8_encode_seq(ok_values(rest_items)));
            },
        }
    }
}

/// Errors and values pass through the unit-splitting stage unchanged: the
/// first error is the same on both sides, and the units of the successful
/// items are the wide encoding of the successful values.
proof fn lemma_wide_items_flatten(items: Seq<Result<u32, EncodingError>>)
    ensures
        first_error_of(wide_items_of(items)) == first_error_of(items),
        ok_units(wide_items_of(items)) == utf16_encode_seq(ok_values(items)),
    decreases items.len(),
{
    if items.len() == 0 {
        assert(ok_units(wide_items_of(items)) =~= utf16_encode_seq(ok_values(items)));
    } else {
        lemma_wide_items_flatten(items.skip(1));
        let rest_wide = wide_items_of(items.skip(1));
        match items[0] {
            Ok(c) => {
                lemma_cons_skip(c, ok_values(items.skip(1)));
                if c >= 0x10000 {
                    let hi = high_surrogate_of(c);
                    let lo = low_surrogate_of(c);
                    let w = seq![Ok::<u16, EncodingError>(hi), Ok::<u16, EncodingError>(lo)]
                        + rest_wide;
                    assert(w.skip(1) =~= seq![Ok::<u16, EncodingError>(lo)] + rest_wide);
                    lemma_cons_skip(Ok::<u16, EncodingError>(lo), rest_wide);
                    assert(ok_units(seq![Ok::<u16, EncodingError>(lo)] + rest_wide) == seq![lo]
                        + ok_units(rest_wide));
                    assert(ok_units(w) == seq![hi] + (seq![lo] + ok_units(rest_wide)));
                    assert(ok_units(w) =~= utf16_encode_scalar(c) + ok_units(rest_wide));
                    assert(first_error_of(seq![Ok::<u16, EncodingError>(lo)] + rest_wide)
                        == first_error_of(rest_wide));
                    assert(first_error_of(w) == first_error_of(rest_wide));
                } else {
                    lemma_cons_skip(Ok::<u16, EncodingError>(c as u16), rest_wide);
                    assert(ok_units(wide_items_of(items)) =~= utf16_encode_scalar(c) + ok_units(
                        rest_wide,
                    ));
                }
                assert(utf16_encode_seq(ok_values(items)) == utf16_encode_scalar(c)
                    + utf16_encode_seq(ok_values(items.skip(1))));
            },
            Err(e) => {
                lemma_cons_skip(Err::<u16, EncodingError>(e), rest_wide);
            },
        }
    }
}

/// Decoding the wide encoding of a well-formed scalar sequence gives the
/// sequence back: surrogate pairs recombine, and a lone high surrogate is
/// never followed by a unit that could capture it.
proof fn lemma_utf16_round_trip(s: Seq<u32>, prev_surrogate: bool)
    requires
        wf_scalars(s, prev_surrogate),
    ensures
        utf16_decode_seq(utf16_encode_seq(s)) == s,
    decreases s.len(),
{
    reveal_with_fuel(wf_scalars, 2);
    if s.len() == 0 {
        assert(utf16_decode_seq(utf16_encode_seq(s)) =~= s);
    } else {
        let c = s[0];
        let s1 = s.skip(1);
        let w1 = utf16_encode_seq(s1);
        lemma_utf16_round_trip(s1, is_high_surrogate(c as int));
        if c < 0x10000 {
            let w = seq![c as u16] + w1;
            assert(utf16_encode_seq(s) == w);
            lemma_cons_skip(c as u16, w1);
            if is_high_surrogate(c as int) && w.len() >= 2 {
                assert(s1.len() > 0);
                assert(w1 == utf16_encode_scalar(s1[0]) + utf16_encode_seq(s1.skip(1)));
                if s1[0] < 0x10000 {
                    assert(w1[0] == s1[0] as u16);
                    assert(!is_low_surrogate(s1[0] as int));
                } else {
                    assert(w1[0] == high_surrogate_of(s1[0]));
                }
                assert(!is_low_surrogate(w[1] as int));
            }
            assert(utf16_decode_seq(w) == seq![c] + utf16_decode_seq(w1));
            assert(seq![c] + s1 =~= s);
        } else {
            let hi = high_surrogate_of(c);
            let lo = low_surrogate_of(c);
            let w = seq![hi, lo] + w1;
            assert(utf16_encode_seq(s) == w);
            vstd::arithmetic::div_mod::lemma_fundamental_div_mod(c - 0x10000, 0x400);
            assert(is_high_surrogate(w[0] as int));
            assert(is_low_surrogate(w[1] as int));
            assert(combine_surrogates(hi, lo) == c);
            assert(w.skip(2) =~= w1);
            assert(utf16_decode_seq(w) == seq![c] + utf16_decode_seq(w1));
            assert(seq![c] + s1 =~= s);
        }
    }
}

/// The round-trip law: any byte sequence that the checked conversion
/// accepts — one whose decoding reports no error — is reproduced exactly by
/// converting its wide form back to bytes.
pub proof fn lemma_accepted_round_trip(input: Seq<u8>)
    requires
        decode_error(input) is None,
    ensures
        wide_to_bytes(encoded_wide(input)) == input,
{
    let items = decoded_items(input, false);
    lemma_wide_items_flatten(items);
    lemma_no_error_decodes(input, false);
    lemma_utf16_round_trip(ok_values(items), false);
}

/// Decoding at the start of a three-byte encoding of `v` yields `v` itself —
/// unless `v` is a low surrogate while the step before produced a lone high
/// surrogate, which is rejected as an invalid code point with the whole
/// three-byte sequence consumed.
pub proof fn lemma_decode_one_encoded3(v: u32, tail: Seq<u8>, prev_surrogate: bool)
    requires
        0x800 <= v < 0x10000,
    ensures
        ({
            let input = wtf8_encode_scalar(v) + tail;
            if prev_surrogate && is_low_surrogate(v as int) {
                decode_one(input, prev_surrogate) == (
                    Some(Err::<u32, EncodingError>(EncodingError::CodePoint(v))),
                    tail,
                    false,
                )
            } else {
                decode_one(input, prev_surrogate) == (
                    Some(Ok::<u32, EncodingError>(v)),
                    tail,
                    is_high_surrogate(v as int),
                )
            }
        }),
{
    let input = wtf8_encode_scalar(v) + tail;
    let vi = v as int;
    vstd::arithmetic::div_mod::lemma_fundamental_div_mod(vi, 64);
    vstd::arithmetic::div_mod::lemma_fundamental_div_mod(vi / 64, 64);
    vstd::arithmetic::div_mod::lemma_div_denominator(vi, 64, 64);
    assert(vi == (vi / 0x1000) * 0x1000 + ((vi / 64) % 64) * 64 + vi % 64);
    assert(input[0] == (0xE0 + vi / 0x1000) as u8);
    assert((input[0] as int) % 16 == vi / 0x1000);
    assert((input[1] as int) / 64 == 2 && (input[1] as int) % 64 == (vi / 64) % 64);
    assert((input[2] as int) / 64 == 2 && (input[2] as int) % 64 == vi % 64);
    assert(input.skip(3) =~= tail);
}

/// The canonical-pair law: a three-byte-encoded high surrogate directly
/// followed by a three-byte-encoded low surrogate is rejected — the first
/// step accepts the high half and arms the surrogate state, and the next
/// step reports the low half as an invalid code point.
pub proof fn lemma_surrogate_pair_rejected(h: u32, l: u32, rest: Seq<u8>, prev_surrogate: bool)
    requires
        is_high_surrogate(h as int),
        is_low_surrogate(l as int),
    ensures
        ({
            let tail = wtf8_encode_scalar(l) + rest;
            &&& decode_one(wtf8_encode_scalar(h) + tail, prev_surrogate) == (
                Some(Ok::<u32, EncodingError>(h)),
                tail,
                true,
            )
            &&& decode_one(tail, true) == (Some(Err::<u32, EncodingError>(EncodingError::CodePoint(l))), rest, false)
        }),
{
    let tail = wtf8_encode_scalar(l) + rest;
    lemma_decode_one_encoded3(h, tail, prev_surrogate);
    lemma_decode_one_encoded3(l, rest, true);
}

/// The lone-surrogate law: the three-byte encoding of a single unpaired
/// high or low surrogate is accepted, becomes that one wide unit, and
/// converts back to the same three bytes.
pub proof fn lemma_lone_surrogate_round_trip(c: u32)
    requires
        is_high_surrogate(c as int) || is_low_surrogate(c as int),
    ensures
        decode_error(wtf8_encode_scalar(c)) is None,
        encoded_wide(wtf8_encode_scalar(c)) == seq![c as u16],
        wide_to_bytes(encoded_wide(wtf8_encode_scalar(c))) == wtf8_encode_scalar(c),
{
    let enc = wtf8_encode_scalar(c);
    lemma_decode_one_encoded3(c, Seq::empty(), false);
    assert(enc + Seq::<u8>::empty() =~= enc);
    let step = decode_one(enc, false);
    assert(step == (Some(Ok::<u32, EncodingError>(c)), Seq::<u8>::empty(), is_high_surrogate(c as int)));
    let rest_items = decoded_items(step.1, step.2);
    assert(rest_items =~= Seq::<Result<u32, EncodingError>>::empty());
    lemma_cons_skip(Ok::<u32, EncodingError>(c), rest_items);
    let items = decoded_items(enc, false);
    assert(items == seq![Ok::<u32, EncodingError>(c)] + rest_items);
    let rest_wide = wide_items_of(rest_items);
    assert(rest_wide =~= Seq::<Result<u16, EncodingError>>::empty());
    lemma_cons_skip(Ok::<u16, EncodingError>(c as u16), rest_wide);
    assert(wide_items(enc) == seq![Ok::<u16, EncodingError>(c as u16)] + rest_wide);
    assert(first_error_of(rest_wide) is None);
    assert(ok_units(rest_wide) =~= Seq::<u16>::empty());
    assert(first_error_of(wide_items(enc)) == first_error_of(rest_wide));
    assert(ok_units(wide_items(enc)) == seq![c as u16] + ok_units(rest_wide));
    assert(ok_units(wide_items(enc)) =~= seq![c as u16]);
    lemma_accepted_round_trip(enc);
}

/// The overlong law for three-byte sequences: a structurally complete
/// three-byte sequence whose value is below 0x800 is rejected as an invalid
/// code point, the whole sequence consumed.
pub proof fn lemma_overlong3_rejected(b0: u8, c1: u8, c2: u8, rest: Seq<u8>, prev_surrogate: bool)
    requires
        0xE0 <= b0 < 0xF0,
        (c1 as int) / 64 == 2,
        (c2 as int) / 64 == 2,
        ((b0 as int) % 16) * 0x1000 + ((c1 as int) % 64) * 64 + (c2 as int) % 64 < 0x800,
    ensures
        ({
            let v = ((b0 as int) % 16) * 0x1000 + ((c1 as int) % 64) * 64 + (c2 as int) % 64;
            decode_one(seq![b0, c1, c2] + rest, prev_surrogate) == (
                Some(Err::<u32, EncodingError>(EncodingError::CodePoint(v as u32))),
                rest,
                false,
            )
        }),
{
    let input = seq![b0, c1, c2] + rest;
    assert(input[0] == b0 && input[1] == c1 && input[2] == c2);
    assert(input.skip(3) =~= rest);
}

/// The overlong and out-of-range law for four-byte sequences: a structurally
/// complete four-byte sequence whose value falls outside 0x10000..=0x10FFFF
/// is rejected as an invalid code point, the whole sequence consumed.
pub proof fn lemma_overlong4_rejected(
    b0: u8,
    c1: u8,
    c2: u8,
    c3: u8,
    rest: Seq<u8>,
    prev_surrogate: bool,
)
    requires
        0xF0 <= b0 < 0xF5,
        (c1 as int) / 64 == 2,
        (c2 as int) / 64 == 2,
        (c3 as int) / 64 == 2,
        !(0x10000 <= ((b0 as int) % 8) * 0x40000 + ((c1 as int) % 64) * 0x1000 + ((c2 as int) % 64)
            * 64 + (c3 as int) % 64 <= 0x10FFFF),
    ensures
        ({
            let v = ((b0 as int) % 8) * 0x40000 + ((c1 as int) % 64) * 0x1000 + ((c2 as int) % 64)
                * 64 + (c3 as int) % 64;
            decode_one(seq![b0, c1, c2, c3] + rest, prev_surrogate) == (
                Some(Err::<u32, EncodingError>(EncodingError::CodePoint(v as u32))),
                rest,
                false,
            )
        }),
{
    let input = seq![b0, c1, c2, c3] + rest;
    assert(input[0] == b0 && input[1] == c1 && input[2] == c2 && input[3] == c3);
    assert(input.skip(4) =~= rest);
}

/// The resynchronization law: a byte that cannot continue the multi-byte
/// sequence a valid leading byte opened is reported once as an invalid byte
/// and left at the head of the remaining input, so the step after the error
/// retries it as a fresh leading byte — one bad byte never swallows what
/// follows it.
pub proof fn lemma_resynchronization(b0: u8, b1: u8, rest: Seq<u8>, prev_surrogate: bool)
    requires
        0xC2 <= b0 < 0xF5,
        (b1 as int) / 64 != 2,
    ensures
        decode_one(seq![b0, b1] + rest, prev_surrogate) == (
            Some(Err::<u32, EncodingError>(EncodingError::Byte(b1))),
            seq![b1] + rest,
            false,
        ),
{
    let input = seq![b0, b1] + rest;
    assert(input[0] == b0 && input[1] == b1);
    assert(input.skip(1) =~= seq![b1] + rest);
}

/// The idempotence law: encoding, decoding and encoding again yields the
/// wide sequence of the first encoding, for any accepted input.
pub proof fn lemma_encode_idempotent(input: Seq<u8>)
    requires
        decode_error(input) is None,
    ensures
        encoded_wide(wide_to_bytes(encoded_wide(input))) == encoded_wide(input),
{
    lemma_accepted_round_trip(input);
}

} // verus!
