//! The two lazy converters between the byte form and the wide form: one that
//! turns bytes into UTF-16 code units while validating them, and one that
//! turns code units back into bytes, which always succeeds.

use vstd::prelude::*;

use crate::code_points::CodePoints;
use crate::error::EncodingError;
use crate::model::decode_one;
use crate::model::decoded_items;
use crate::model::high_surrogate_of;
use crate::model::lemma_add_skip1;
use crate::model::lemma_cons_skip;
use crate::model::lemma_decode_one_consumes;
use crate::model::lemma_decode_one_ok_bound;
use crate::model::low_surrogate_of;
use crate::model::utf16_decode_seq;
use crate::model::wide_items;
use crate::model::wide_items_of;
use crate::model::wide_to_bytes;
use crate::model::wtf8_encode_scalar;
use crate::model::wtf8_encode_seq;
use crate::model::wtf8_len;

verus! {

/// Turns a byte sequence into wide units, one item per call: each scalar
/// value the byte decoder yields becomes one unit, or a surrogate pair whose
/// low half is buffered and handed out on the following call.
pub struct EncodeWide {
    iter: CodePoints,
    surrogate: Option<u16>,
}

impl EncodeWide {
    pub closed spec fn wf(self) -> bool {
        self.iter.wf()
    }

    /// The wide-unit items not yet produced, a buffered low surrogate first.
    pub closed spec fn remaining(self) -> Seq<Result<u16, EncodingError>> {
        (match self.surrogate {
            Some(u) => seq![Ok(u)],
            None => Seq::empty(),
        }) + wide_items_of(decoded_items(self.iter.input(), self.iter.surrogate_flag()))
    }

    /// How many bytes of the underlying source are left.
    pub closed spec fn source_remaining(self) -> int {
        self.iter.source_remaining()
    }

    pub fn new(string: Vec<u8>) -> (r: EncodeWide)
        ensures
            r.wf(),
            r.remaining() == wide_items(string@),
            r.source_remaining() == string@.len(),
    {
        let ew = EncodeWide { iter: CodePoints::new(string), surrogate: None };
        proof {
            assert(ew.remaining() =~= wide_items_of(
                decoded_items(ew.iter.input(), ew.iter.surrogate_flag()),
            ));
        }
        ew
    }

    /// One conversion step: the head of `remaining`, or nothing at the end.
    #[verifier::rlimit(60)]
    pub fn next(&mut self) -> (r: Option<Result<u16, EncodingError>>)
        requires
            old(self).wf(),
        ensures
            final(self).wf(),
            old(self).remaining().len() == 0 ==> r is None && final(self).remaining() == old(self).remaining(),
            old(self).remaining().len() > 0 ==> r == Some(old(self).remaining()[0]) && final(self).remaining() == old(self).remaining().skip(1),
            final(self).source_remaining() <= old(self).source_remaining(),
    {
        let ghost rem0 = self.remaining();
        if self.surrogate.is_some() {
            let u = self.surrogate.unwrap();
            self.surrogate = None;
            proof {
                lemma_cons_skip(
                    Ok::<u16, EncodingError>(u),
                    wide_items_of(decoded_items(self.iter.input(), self.iter.surrogate_flag())),
                );
                assert(self.remaining() =~= rem0.skip(1));
            }
            return Some(Ok(u));
        }
        let ghost in0 = self.iter.input();
        let ghost sur0 = self.iter.surrogate_flag();
        let item = self.iter.next();
        proof {
            lemma_decode_one_ok_bound(in0, sur0);
            if in0.len() > 0 {
                lemma_decode_one_consumes(in0, sur0);
                let step = decode_one(in0, sur0);
                lemma_cons_skip(step.0->Some_0, decoded_items(step.1, step.2));
            }
        }
        match item {
            None => {
                proof {
                    assert(rem0 =~= Seq::<Result<u16, EncodingError>>::empty());
                    assert(self.remaining() =~= rem0);
                }
                None
            },
            Some(decoded) => match decoded {
                Ok(c) => {
                    if c >= 0x10000 {
                        let offset = c - 0x10000;
                        let lo = (offset % 0x400) as u16 + 0xDC00;
                        let hi = (offset / 0x400) as u16 + 0xD800;
                        self.surrogate = Some(lo);
                        proof {
                            assert(hi == high_surrogate_of(c));
                            assert(lo == low_surrogate_of(c));
                            assert(rem0[0] == Ok::<u16, EncodingError>(hi));
                            assert(self.remaining() =~= rem0.skip(1));
                        }
                        Some(Ok(hi))
                    } else {
                        proof {
                            assert(rem0[0] == Ok::<u16, EncodingError>(c as u16));
                            assert(self.remaining() =~= rem0.skip(1));
                        }
                        Some(Ok(c as u16))
                    }
                },
                Err(e) => {
                    proof {
                        assert(rem0[0] == Err::<u16, EncodingError>(e));
                        assert(self.remaining() =~= rem0.skip(1));
                    }
                    Some(Err(e))
                },
            },
        }
    }

    /// A size estimate for the units still to come: at least one unit per
    /// three source bytes (rounding up), at most one per byte.
    pub fn size_hint(&self) -> (r: (usize, Option<usize>))
        requires
            self.wf(),
        ensures
            self.source_remaining() + 2 <= usize::MAX ==> r.0 == (self.source_remaining() + 2)
                / 3,
            self.source_remaining() + 2 > usize::MAX ==> r.0 == usize::MAX as int / 3,
            r.1 == Some((self.source_remaining()) as usize),
    {
        let rem = self.iter.inner_iter();
        let lower = if rem <= usize::MAX - 2 {
            (rem + 2) / 3
        } else {
            usize::MAX / 3
        };
        (lower, Some(rem))
    }
}

/// Turns a wide sequence back into bytes, one byte per call: each scalar
/// value of the surrogate-tolerant UTF-16 decoding is emitted as its leading
/// byte and then, on later calls, its continuation bytes, tracked by a
/// remaining-shift counter.
pub struct DecodeWide {
    units: Vec<u16>,
    index: usize,
    code_point: Option<u32>,
    shift: u8,
}

impl DecodeWide {
    pub closed spec fn wf(self) -> bool {
        self.index <= self.units@.len() && match self.code_point {
            None => self.shift == 0,
            Some(c) => c <= 0x10FFFF && (self.shift == 0 || self.shift == 6 || self.shift == 12
                || self.shift == 18) && (self.shift as int) / 6 <= wtf8_len(c) - 1,
        }
    }

    /// The continuation bytes of the current scalar value still to emit.
    pub closed spec fn pending(self) -> Seq<u8> {
        match self.code_point {
            None => Seq::empty(),
            Some(c) => wtf8_encode_scalar(c).skip(wtf8_len(c) - (self.shift as int) / 6),
        }
    }

    /// The bytes not yet produced.
    pub closed spec fn remaining(self) -> Seq<u8> {
        self.pending() + wide_to_bytes(self.units@.skip(self.index as int))
    }

    pub fn new(string: Vec<u16>) -> (r: DecodeWide)
        ensures
            r.wf(),
            r.remaining() == wide_to_bytes(string@),
    {
        let dw = DecodeWide { units: string, index: 0, code_point: None, shift: 0 };
        proof {
            assert(dw.units@.skip(0) =~= dw.units@);
            assert(dw.remaining() =~= wide_to_bytes(dw.units@));
        }
        dw
    }

    /// One conversion step: the head of `remaining`, or nothing at the end.
    #[verifier::rlimit(60)]
    pub fn next(&mut self) -> (r: Option<u8>)
        requires
            old(self).wf(),
        ensures
            final(self).wf(),
            old(self).remaining().len() == 0 ==> r is None && final(self).remaining() == old(self).remaining(),
            old(self).remaining().len() > 0 ==> r == Some(old(self).remaining()[0]) && final(self).remaining() == old(self).remaining().skip(1),
    {
        let ghost rem0 = self.remaining();
        if self.code_point.is_some() && self.shift >= 6 {
            let c = self.code_point.unwrap();
            self.shift = self.shift - 6;
            let b: u8 = if self.shift == 12 {
                (((c / 0x1000) % 64) + 0x80) as u8
            } else if self.shift == 6 {
                (((c / 64) % 64) + 0x80) as u8
            } else {
                ((c % 64) + 0x80) as u8
            };
            proof {
                let enc = wtf8_encode_scalar(c);
                let len = wtf8_len(c);
                assert(old(self).pending() == enc.skip(len - (self.shift as int) / 6 - 1));
                assert(old(self).pending().len() >= 1);
                assert(old(self).pending()[0] == enc[len - (self.shift as int) / 6 - 1]);
                assert(b == enc[len - (self.shift as int) / 6 - 1]);
                assert(self.pending() =~= old(self).pending().skip(1));
                lemma_add_skip1(old(self).pending(), wide_to_bytes(
                    self.units@.skip(self.index as int),
                ));
                assert(self.remaining() =~= rem0.skip(1));
            }
            return Some(b);
        }
        proof {
            assert(self.pending() =~= Seq::<u8>::empty());
            assert(rem0 =~= wide_to_bytes(self.units@.skip(self.index as int)));
        }
        if self.index >= self.units.len() {
            proof {
                assert(self.units@.skip(self.index as int).len() == 0);
                assert(rem0.len() == 0);
            }
            return None;
        }
        let ghost i0 = self.index as int;
        let u = self.units[self.index];
        let c: u32;
        if 0xD800 <= u && u <= 0xDBFF && self.index + 1 < self.units.len() && {
            let u2 = self.units[self.index + 1];
            0xDC00 <= u2 && u2 <= 0xDFFF
        } {
            let u2 = self.units[self.index + 1];
            c = 0x10000 + (u as u32 - 0xD800) * 0x400 + (u2 as u32 - 0xDC00);
            self.index = self.index + 2;
            proof {
                let w = self.units@.skip(i0);
                assert(w[0] == u && w[1] == u2);
                assert(c == crate::model::combine_surrogates(u, u2));
                assert(w.skip(2) =~= self.units@.skip(self.index as int));
                assert(utf16_decode_seq(w) == seq![c] + utf16_decode_seq(
                    self.units@.skip(self.index as int),
                ));
            }
        } else {
            c = u as u32;
            self.index = self.index + 1;
            proof {
                let w = self.units@.skip(i0);
                assert(w[0] == u);
                assert(w.skip(1) =~= self.units@.skip(self.index as int));
                assert(utf16_decode_seq(w) == seq![c] + utf16_decode_seq(
                    self.units@.skip(self.index as int),
                ));
            }
        }
        self.code_point = Some(c);
        proof {
            let rest = utf16_decode_seq(self.units@.skip(self.index as int));
            lemma_cons_skip(c, rest);
            assert(wtf8_encode_seq(seq![c] + rest) == wtf8_encode_scalar(c) + wtf8_encode_seq(
                rest,
            ));
            assert(rem0 == wtf8_encode_scalar(c) + wide_to_bytes(
                self.units@.skip(self.index as int),
            ));
            lemma_add_skip1(wtf8_encode_scalar(c), wide_to_bytes(
                self.units@.skip(self.index as int),
            ));
        }
        if c < 0x80 {
            self.shift = 0;
            proof {
                assert(self.pending() =~= wtf8_encode_scalar(c).skip(1));
                assert(self.remaining() =~= rem0.skip(1));
            }
            Some(c as u8)
        } else if c < 0x800 {
            self.shift = 6;
            proof {
                assert(self.pending() =~= wtf8_encode_scalar(c).skip(1));
                assert(self.remaining() =~= rem0.skip(1));
            }
            Some(((c / 64) + 0xC0) as u8)
        } else if c < 0x10000 {
            self.shift = 12;
            proof {
                assert(self.pending() =~= wtf8_encode_scalar(c).skip(1));
                assert(self.remaining() =~= rem0.skip(1));
            }
            Some(((c / 0x1000) + 0xE0) as u8)
        } else {
            self.shift = 18;
            proof {
                assert(self.pending() =~= wtf8_encode_scalar(c).skip(1));
                assert(self.remaining() =~= rem0.skip(1));
            }
            Some(((c / 0x40000) + 0xF0) as u8)
        }
    }
}

} // verus!
