//! The conversion entry points: checked and unchecked byte-to-wide
//! conversion, and the wide-to-byte conversion that always succeeds.

use vstd::prelude::*;

use crate::error::EncodingError;
use crate::laws::lemma_accepted_round_trip;
use crate::model::decode_error;
use crate::model::encoded_wide;
use crate::model::first_error_of;
use crate::model::ok_units;
use crate::model::wide_items;
use crate::model::wide_to_bytes;
use crate::wide::DecodeWide;
use crate::wide::EncodeWide;

verus! {

/// An element-for-element copy of a vector of plain values.
fn clone_vec<T: Copy>(v: &Vec<T>) -> (r: Vec<T>)
    ensures
        r@ == v@,
{
    let mut out: Vec<T> = Vec::new();
    let mut i: usize = 0;
    while i < v.len()
        invariant
            i <= v@.len(),
            out@ == v@.take(i as int),
        decreases v@.len() - i,
    {
        out.push(*v.get(i).unwrap());
        i = i + 1;
        proof {
            assert(out@ =~= v@.take(i as int));
        }
    }
    proof {
        assert(v@.take(v@.len() as int) =~= v@);
    }
    out
}

/// Whether two byte sequences hold the same bytes.
fn eq_bytes(a: &Vec<u8>, b: &Vec<u8>) -> (r: bool)
    ensures
        r == (a@ == b@),
{
    if a.len() != b.len() {
        return false;
    }
    let mut i: usize = 0;
    while i < a.len()
        invariant
            i <= a@.len(),
            a@.len() == b@.len(),
            forall|j: int| 0 <= j < i ==> a@[j] == b@[j],
        decreases a@.len() - i,
    {
        if a[i] != b[i] {
            return false;
        }
        i = i + 1;
    }
    proof {
        assert(a@ =~= b@);
    }
    true
}

/// Turns a wide sequence into its byte form. Any wide sequence has one:
/// surrogate pairs become one four-byte scalar value, every other unit —
/// lone surrogates included — its own one- to three-byte encoding.
pub fn decode_utf16(encoded_string: &Vec<u16>) -> (r: Vec<u8>)
    ensures
        r@ == wide_to_bytes(encoded_string@),
{
    let mut decoder = DecodeWide::new(clone_vec(encoded_string));
    let mut string: Vec<u8> = Vec::new();
    loop
        invariant
            decoder.wf(),
            string@ + decoder.remaining() == wide_to_bytes(encoded_string@),
        ensures
            string@ == wide_to_bytes(encoded_string@),
        decreases decoder.remaining().len(),
    {
        let ghost rem0 = decoder.remaining();
        match decoder.next() {
            None => {
                proof {
                    assert(string@ =~= string@ + rem0);
                }
                break;
            },
            Some(b) => {
                string.push(b);
                proof {
                    assert(string@ + decoder.remaining() =~= wide_to_bytes(encoded_string@));
                }
            },
        }
    }
    string
}

/// Turns a byte sequence into wide units without validating it: whatever
/// the decoder rejects is passed over. On an input free of decoding errors
/// this is the faithful wide form of the bytes.
pub fn encode_utf16(string: &Vec<u8>) -> (r: Vec<u16>)
    ensures
        r@ == encoded_wide(string@),
{
    let mut encoder = EncodeWide::new(clone_vec(string));
    let mut encoded: Vec<u16> = Vec::new();
    let ghost full = wide_items(string@);
    loop
        invariant
            encoder.wf(),
            ok_units(full) == encoded@ + ok_units(encoder.remaining()),
        ensures
            encoded@ == ok_units(full),
        decreases encoder.remaining().len(),
    {
        let ghost rem0 = encoder.remaining();
        match encoder.next() {
            None => {
                proof {
                    assert(encoded@ =~= encoded@ + ok_units(rem0));
                }
                break;
            },
            Some(item) => match item {
                Ok(u) => {
                    encoded.push(u);
                    proof {
                        assert(ok_units(rem0) == seq![u] + ok_units(rem0.skip(1)));
                        assert(encoded@ + ok_units(encoder.remaining()) =~= ok_units(full));
                    }
                },
                Err(_) => {
                },
            },
        }
    }
    encoded
}

/// The checked conversion: encode the bytes to wide form, turn that form
/// back into bytes, and accept only if the round trip reproduced the input.
/// It succeeds exactly on the inputs whose decoding reports no error, and
/// on any other input it returns the first error the decoder reports.
pub fn from_bytes(string: &Vec<u8>) -> (r: Result<Vec<u16>, EncodingError>)
    ensures
        match r {
            Ok(encoded) => decode_error(string@) is None && encoded@ == encoded_wide(string@)
                && wide_to_bytes(encoded@) == string@,
            Err(e) => decode_error(string@) == Some(e),
        },
{
    let mut encoder = EncodeWide::new(clone_vec(string));
    let mut encoded: Vec<u16> = Vec::new();
    let ghost full = wide_items(string@);
    loop
        invariant
            encoder.wf(),
            full == wide_items(string@),
            ok_units(full) == encoded@ + ok_units(encoder.remaining()),
            first_error_of(full) == first_error_of(encoder.remaining()),
        ensures
            encoded@ == ok_units(full),
            first_error_of(full) is None,
        decreases encoder.remaining().len(),
    {
        let ghost rem0 = encoder.remaining();
        match encoder.next() {
            None => {
                proof {
                    assert(encoded@ =~= encoded@ + ok_units(rem0));
                }
                break;
            },
            Some(item) => match item {
                Ok(u) => {
                    encoded.push(u);
                    proof {
                        assert(ok_units(rem0) == seq![u] + ok_units(rem0.skip(1)));
                        assert(first_error_of(rem0) == first_error_of(rem0.skip(1)));
                        assert(encoded@ + ok_units(encoder.remaining()) =~= ok_units(full));
                    }
                },
                Err(e) => {
                    proof {
                        assert(rem0[0] == Err::<u16, EncodingError>(e));
                        assert(first_error_of(rem0) == Some(e));
                    }
                    return Err(e);
                },
            },
        }
    }
    let decoded = decode_utf16(&encoded);
    proof {
        lemma_accepted_round_trip(string@);
    }
    if eq_bytes(&decoded, string) {
        Ok(encoded)
    } else {
        // Never reached: an error-free encoding converts back to its input.
        proof {
            assert(false);
        }
        Err(EncodingError::End)
    }
}

/// The checked conversion on an owned byte sequence.
pub fn from_vec(string: Vec<u8>) -> (r: Result<Vec<u16>, EncodingError>)
    ensures
        match r {
            Ok(encoded) => decode_error(string@) is None && encoded@ == encoded_wide(string@)
                && wide_to_bytes(encoded@) == string@,
            Err(e) => decode_error(string@) == Some(e),
        },
{
    from_bytes(&string)
}

/// The unchecked conversion: the same transform without the round-trip
/// check. The caller's obligation is an input whose decoding reports no
/// error; the result is this exact wide sequence either way, but only under
/// that obligation does converting it back reproduce the input.
pub fn from_bytes_unchecked(string: &Vec<u8>) -> (r: Vec<u16>)
    ensures
        r@ == encoded_wide(string@),
        decode_error(string@) is None ==> wide_to_bytes(r@) == string@,
{
    let encoded = encode_utf16(string);
    proof {
        if decode_error(string@) is None {
            lemma_accepted_round_trip(string@);
        }
    }
    encoded
}

} // verus!
