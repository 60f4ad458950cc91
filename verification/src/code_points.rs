//! A cursor that turns a byte sequence into scalar values, one decoding step
//! at a time, validating the multi-byte structure as it goes.

use vstd::prelude::*;

use crate::error::EncodingError;
use crate::model::decode_one;

verus! {

/// Decodes a byte sequence into scalar values (lone surrogates allowed),
/// one item per call. A byte that cannot continue a multi-byte sequence is
/// reported once and kept in a single-slot lookahead, so the step after the
/// error retries it as a fresh leading byte instead of losing it.
pub struct CodePoints {
    bytes: Vec<u8>,
    index: usize,
    lookahead: Option<u8>,
    surrogate: bool,
}

impl CodePoints {
    /// The bytes not yet decoded, the buffered lookahead byte first.
    pub closed spec fn input(self) -> Seq<u8> {
        (match self.lookahead {
            Some(b) => seq![b],
            None => Seq::empty(),
        }) + self.bytes@.skip(self.index as int)
    }

    /// Whether the item most recently produced was a lone high surrogate,
    /// whose directly following low counterpart must be rejected.
    pub closed spec fn surrogate_flag(self) -> bool {
        self.surrogate
    }

    /// The cursor never points past the end of its bytes.
    pub closed spec fn wf(self) -> bool {
        self.index <= self.bytes@.len()
    }

    /// How many bytes of the underlying source are left, the lookahead slot
    /// not counted.
    pub closed spec fn source_remaining(self) -> int {
        self.bytes@.len() - self.index
    }

    pub fn new(string: Vec<u8>) -> (r: CodePoints)
        ensures
            r.wf(),
            r.input() == string@,
            !r.surrogate_flag(),
            r.source_remaining() == string@.len(),
    {
        let cp = CodePoints { bytes: string, index: 0, lookahead: None, surrogate: false };
        proof {
            assert(cp.input() =~= cp.bytes@);
        }
        cp
    }

    /// The length of the byte source still to be pulled, as the underlying
    /// iterator would report it.
    pub fn inner_iter(&self) -> (r: usize)
        requires
            self.wf(),
        ensures
            r == self.source_remaining(),
    {
        self.bytes.len() - self.index
    }

    /// Pulls one byte from the source proper, never from the lookahead slot.
    fn pull(&mut self) -> (r: Option<u8>)
        requires
            old(self).wf(),
            old(self).lookahead is None,
        ensures
            final(self).wf(),
            final(self).lookahead is None,
            final(self).surrogate == old(self).surrogate,
            final(self).bytes@ == old(self).bytes@,
            match r {
                None => final(self).index == old(self).index && old(self).index
                    == old(self).bytes@.len(),
                Some(b) => old(self).index < old(self).bytes@.len() && b == old(
                    self,
                ).bytes@[old(self).index as int] && final(self).index == old(self).index + 1,
            },
    {
        if self.index < self.bytes.len() {
            let b = self.bytes[self.index];
            self.index = self.index + 1;
            Some(b)
        } else {
            None
        }
    }

    /// One decoding step, exactly as `decode_one` describes it on the bytes
    /// not yet decoded: the produced item, the bytes left for the next step,
    /// and the new surrogate state.
    #[verifier::rlimit(60)]
    pub fn next(&mut self) -> (r: Option<Result<u32, EncodingError>>)
        requires
            old(self).wf(),
        ensures
            final(self).wf(),
            (r, final(self).input(), final(self).surrogate_flag()) == decode_one(
                old(self).input(),
                old(self).surrogate_flag(),
            ),
            final(self).source_remaining() <= old(self).source_remaining(),
    {
        let ghost input0 = self.input();
        let ghost prev0 = self.surrogate;
        let prev_surrogate = self.surrogate;
        self.surrogate = false;

        let b0: u8;
        match self.lookahead {
            Some(b) => {
                b0 = b;
                self.lookahead = None;
            },
            None => {
                if self.index >= self.bytes.len() {
                    proof {
                        assert(input0.len() == 0);
                    }
                    return None;
                }
                b0 = self.bytes[self.index];
                self.index = self.index + 1;
            },
        }
        proof {
            assert(input0.len() >= 1);
            assert(input0[0] == b0);
            assert(self.bytes@.skip(self.index as int) =~= input0.skip(1));
        }

        if b0 < 0x80 {
            return Some(Ok(b0 as u32));
        }
        if b0 < 0xC2 {
            return Some(Err(EncodingError::Byte(b0)));
        }
        let acc0: u32;
        let len: usize;
        if b0 < 0xE0 {
            acc0 = (b0 % 32) as u32;
            len = 2;
        } else if b0 < 0xF0 {
            acc0 = (b0 % 16) as u32;
            len = 3;
        } else if b0 < 0xF5 {
            acc0 = (b0 % 8) as u32;
            len = 4;
        } else {
            return Some(Err(EncodingError::Byte(b0)));
        }

        let mut acc: u32;
        let c1 = match self.pull() {
            None => {
                proof {
                    assert(self.input() =~= Seq::<u8>::empty());
                }
                return Some(Err(EncodingError::End));
            },
            Some(b) => b,
        };
        proof {
            assert(input0.skip(1)[0] == c1);
            assert(self.bytes@.skip(self.index as int) =~= input0.skip(2));
        }
        if c1 / 64 != 2 {
            self.lookahead = Some(c1);
            proof {
                assert(self.input() =~= input0.skip(1));
            }
            return Some(Err(EncodingError::Byte(c1)));
        }
        acc = acc0 * 64 + (c1 % 64) as u32;

        if len >= 3 {
            let c2 = match self.pull() {
                None => {
                    proof {
                        assert(self.input() =~= Seq::<u8>::empty());
                    }
                    return Some(Err(EncodingError::End));
                },
                Some(b) => b,
            };
            proof {
                assert(input0.skip(2)[0] == c2);
                assert(input0[2] == c2);
                assert(self.bytes@.skip(self.index as int) =~= input0.skip(3));
            }
            if c2 / 64 != 2 {
                self.lookahead = Some(c2);
                proof {
                    assert(self.input() =~= input0.skip(2));
                }
                return Some(Err(EncodingError::Byte(c2)));
            }
            acc = acc * 64 + (c2 % 64) as u32;

            if len == 4 {
                let c3 = match self.pull() {
                    None => {
                        proof {
                            assert(self.input() =~= Seq::<u8>::empty());
                        }
                        return Some(Err(EncodingError::End));
                    },
                    Some(b) => b,
                };
                proof {
                    assert(input0.skip(3)[0] == c3);
                    assert(input0[3] == c3);
                    assert(self.bytes@.skip(self.index as int) =~= input0.skip(4));
                }
                if c3 / 64 != 2 {
                    self.lookahead = Some(c3);
                    proof {
                        assert(self.input() =~= input0.skip(3));
                    }
                    return Some(Err(EncodingError::Byte(c3)));
                }
                acc = acc * 64 + (c3 % 64) as u32;
            }
        }
        proof {
            assert(self.input() =~= input0.skip(len as int));
            assert(decode_one(input0, prev0) == crate::model::decode_finish(
                input0,
                prev0,
                acc as int,
                len as int,
            ));
        }

        if len == 3 && acc < 0x800 {
            return Some(Err(EncodingError::CodePoint(acc)));
        }
        if len == 4 && !(0x10000 <= acc && acc <= 0x10FFFF) {
            return Some(Err(EncodingError::CodePoint(acc)));
        }
        if len == 3 && prev_surrogate && 0xDC00 <= acc && acc <= 0xDFFF {
            return Some(Err(EncodingError::CodePoint(acc)));
        }
        if len == 3 && 0xD800 <= acc && acc <= 0xDBFF {
            self.surrogate = true;
        }
        Some(Ok(acc))
    }
}

} // verus!
