//! Walking an array frame as a row of typed command arguments.
//!
//! `Parse` wraps the elements of an `Array` frame and hands them out one by
//! one as strings, byte strings or integers, exactly as the commands expect
//! them. Text arguments must be valid UTF-8; they are kept as their bytes.

use vstd::prelude::*;

use crate::decimal::spec_atoi_u64;
use crate::frame::{frames_view, frame_view, Frame, FrameView};
use vstd::utf8::{
    pop_first_scalar, valid_first_scalar, valid_leading_and_continuation_bytes_first_codepoint,
    valid_utf8,
};

verus! {

/// Error encountered while pulling command arguments out of a frame.
#[derive(Debug, PartialEq, Eq, Structural)]
pub enum ParseError {
    /// The frame's elements are fully consumed.
    EndOfStream,
    /// The decoded frame is not an array.
    NotArray,
    /// The next element is not of the type the command expects.
    WrongType,
    /// The next element cannot be read as an unsigned decimal.
    BadNumber,
    /// The next element is text but not valid UTF-8.
    BadString,
    /// Elements are left over after the command's arguments.
    Leftover,
}

/// Whether `s` is a valid UTF-8 encoding.
pub fn check_utf8(s: &[u8]) -> (r: bool)
    ensures
        r == valid_utf8(s@),
{
    let n = s.len();
    let mut i: usize = 0;
    proof {
        assert(s@.skip(0) =~= s@);
    }
    while i < n
        invariant
            i <= n,
            n == s@.len(),
            valid_utf8(s@) == valid_utf8(s@.skip(i as int)),
        decreases n - i,
    {
        let ghost tail = s@.skip(i as int);
        proof {
            assert forall|k: int| 0 <= k < tail.len() implies tail[k] == s@[i + k] by {}
        }
        let b0 = s[i];
        let rem = n - i;
        let w: usize;
        if b0 < 0x80 {
            proof {
                assert(tail[0] == b0);
                assert((((b0 & 0x7f) as u32) < 0xd800)) by (bit_vector);
                assert(valid_first_scalar(tail));
            }
            w = 1;
        } else if 0xc2 <= b0 && b0 <= 0xdf {
            // two bytes; a leading byte below 0xc2 gives an overlong encoding
            if rem >= 2 && 0x80 <= s[i + 1] && s[i + 1] <= 0xbf {
                proof {
                    assert(tail[0] == b0);
                    assert(tail[1] == s@[i + 1]);
                    let b1 = s@[i + 1];
                    let cp = vstd::utf8::codepoint_width_2(b0, b1);
                    assert(0x80 <= cp && cp <= 0x7ff) by (bit_vector)
                        requires
                            cp == (((b0 & 0x1f) as u32) << 6) | ((b1 & 0x3f) as u32),
                            0xc2 <= b0 <= 0xdf,
                    ;
                    assert(valid_first_scalar(tail));
                }
                w = 2;
            } else {
                return false;
            }
        } else if 0xc0 <= b0 && b0 <= 0xc1 {
            // necessarily an overlong two-byte encoding
            proof {
                if rem >= 2 && 0x80 <= s@[i + 1] && s@[i + 1] <= 0xbf {
                    let b1 = s@[i + 1];
                    let cp = vstd::utf8::codepoint_width_2(b0, b1);
                    assert(cp < 0x80) by (bit_vector)
                        requires
                            cp == (((b0 & 0x1f) as u32) << 6) | ((b1 & 0x3f) as u32),
                            0xc0 <= b0 <= 0xc1,
                    ;
                }
            }
            return false;
        } else if 0xe0 <= b0 && b0 <= 0xef {
            if rem >= 3 && 0x80 <= s[i + 1] && s[i + 1] <= 0xbf && 0x80 <= s[i + 2] && s[i + 2]
                <= 0xbf {
                let cp: u32 = (((b0 & 0x0f) as u32) << 12) | (((s[i + 1] & 0x3f) as u32) << 6) | ((
                s[i + 2] & 0x3f) as u32);
                if cp >= 0x800 && !(0xd800 <= cp && cp <= 0xdfff) {
                    proof {
                        assert(tail[0] == b0);
                        assert(tail[1] == s@[i + 1]);
                        assert(tail[2] == s@[i + 2]);
                        assert(cp == vstd::utf8::codepoint_width_3(b0, s@[i + 1], s@[i + 2]));
                        assert(valid_first_scalar(tail));
                    }
                    w = 3;
                } else {
                    proof {
                        assert(tail[0] == b0);
                        assert(tail[1] == s@[i + 1]);
                        assert(tail[2] == s@[i + 2]);
                        assert(cp == vstd::utf8::codepoint_width_3(b0, s@[i + 1], s@[i + 2]));
                    }
                    return false;
                }
            } else {
                return false;
            }
        } else if 0xf0 <= b0 && b0 <= 0xf4 {
            if rem >= 4 && 0x80 <= s[i + 1] && s[i + 1] <= 0xbf && 0x80 <= s[i + 2] && s[i + 2]
                <= 0xbf && 0x80 <= s[i + 3] && s[i + 3] <= 0xbf {
                let cp: u32 = (((b0 & 0x07) as u32) << 18) | (((s[i + 1] & 0x3f) as u32) << 12) | ((
                (s[i + 2] & 0x3f) as u32) << 6) | ((s[i + 3] & 0x3f) as u32);
                if 0x10000 <= cp && cp <= 0x10ffff {
                    proof {
                        assert(tail[0] == b0);
                        assert(tail[1] == s@[i + 1]);
                        assert(tail[2] == s@[i + 2]);
                        assert(tail[3] == s@[i + 3]);
                        assert(cp == vstd::utf8::codepoint_width_4(
                            b0,
                            s@[i + 1],
                            s@[i + 2],
                            s@[i + 3],
                        ));
                        assert(valid_first_scalar(tail));
                    }
                    w = 4;
                } else {
                    proof {
                        assert(tail[0] == b0);
                        assert(tail[1] == s@[i + 1]);
                        assert(tail[2] == s@[i + 2]);
                        assert(tail[3] == s@[i + 3]);
                        assert(cp == vstd::utf8::codepoint_width_4(
                            b0,
                            s@[i + 1],
                            s@[i + 2],
                            s@[i + 3],
                        ));
                    }
                    return false;
                }
            } else {
                return false;
            }
        } else {
            // 0x80..=0xbf cannot lead a scalar; 0xf5..=0xf7 always encode
            // past the last scalar; 0xf8..=0xff lead nothing
            proof {
                assert(tail[0] == b0);
                if valid_leading_and_continuation_bytes_first_codepoint(tail) {
                    assert(vstd::utf8::is_leading_byte_width_4(b0));
                    let b1 = tail[1];
                    let b2 = tail[2];
                    let b3 = tail[3];
                    let cp = vstd::utf8::codepoint_width_4(b0, b1, b2, b3);
                    assert(cp > 0x10ffff) by (bit_vector)
                        requires
                            cp == (((b0 & 0x07) as u32) << 18) | (((b1 & 0x3f) as u32) << 12) | ((
                            (b2 & 0x3f) as u32) << 6) | ((b3 & 0x3f) as u32),
                            0xf5 <= b0 <= 0xf7,
                    ;
                }
            }
            return false;
        }
        proof {
            assert(valid_first_scalar(tail));
            assert(pop_first_scalar(tail) =~= s@.skip(i + w));
        }
        i = i + w;
    }
    proof {
        assert(s@.skip(n as int) =~= Seq::<u8>::empty());
    }
    true
}

/// A cursor over the elements of an array frame.
#[derive(Debug)]
pub struct Parse {
    pub parts: Vec<Frame>,
    pub pos: usize,
}

impl Parse {
    /// The elements being walked.
    pub open spec fn elems(self) -> Seq<FrameView> {
        frames_view(self.parts@)
    }

    /// How many elements have been consumed.
    pub open spec fn cursor(self) -> int {
        self.pos as int
    }

    /// Wrap the elements of an array frame; any other frame is refused.
    pub fn new(frame: Frame) -> (r: Result<Parse, ParseError>)
        ensures
            match r {
                Ok(p) => frame@ is Array && p.elems() == frame@->Array_0 && p.cursor() == 0,
                Err(e) => !(frame@ is Array) && e == ParseError::NotArray,
            },
    {
        match frame {
            Frame::Array(parts) => Ok(Parse { parts, pos: 0 }),
            _ => Err(ParseError::NotArray),
        }
    }

    /// The next element, advancing the cursor.
    pub fn next(&mut self) -> (r: Result<&Frame, ParseError>)
        ensures
            final(self).parts == old(self).parts,
            old(self).cursor() < old(self).elems().len() ==> {
                &&& r is Ok
                &&& frame_view(*r->Ok_0) == old(self).elems()[old(self).cursor()]
                &&& final(self).cursor() == old(self).cursor() + 1
            },
            old(self).cursor() >= old(self).elems().len() ==> r == Err::<&Frame, ParseError>(
                ParseError::EndOfStream,
            ) && *final(self) == *old(self),
    {
        proof {
            crate::frame::lemma_frames_view_len(self.parts@);
        }
        if self.pos < self.parts.len() {
            let f = &self.parts[self.pos];
            self.pos = self.pos + 1;
            Ok(f)
        } else {
            Err(ParseError::EndOfStream)
        }
    }

    /// The next element as text: a simple string, or a bulk string holding
    /// valid UTF-8. The cursor advances whenever an element was there.
    pub fn next_string(&mut self) -> (r: Result<Vec<u8>, ParseError>)
        ensures
            final(self).parts == old(self).parts,
            old(self).cursor() >= old(self).elems().len() ==> r == Err::<Vec<u8>, ParseError>(
                ParseError::EndOfStream,
            ) && *final(self) == *old(self),
            old(self).cursor() < old(self).elems().len() ==> {
                &&& final(self).cursor() == old(self).cursor() + 1
                &&& match old(self).elems()[old(self).cursor()] {
                    FrameView::Simple(t) => if valid_utf8(t) {
                        r is Ok && r->Ok_0@ == t
                    } else {
                        r == Err::<Vec<u8>, ParseError>(ParseError::BadString)
                    },
                    FrameView::Bulk(b) => if valid_utf8(b) {
                        r is Ok && r->Ok_0@ == b
                    } else {
                        r == Err::<Vec<u8>, ParseError>(ParseError::BadString)
                    },
                    _ => r == Err::<Vec<u8>, ParseError>(ParseError::WrongType),
                }
            },
    {
        let f = self.next()?;
        match f {
            Frame::Simple(t) => {
                if check_utf8(t.as_slice()) {
                    Ok(vstd::slice::slice_to_vec(t.as_slice()))
                } else {
                    Err(ParseError::BadString)
                }
            },
            Frame::Bulk(b) => {
                if check_utf8(b.as_slice()) {
                    Ok(vstd::slice::slice_to_vec(b.as_slice()))
                } else {
                    Err(ParseError::BadString)
                }
            },
            _ => Err(ParseError::WrongType),
        }
    }

    /// The next element as raw bytes: a simple or bulk string.
    pub fn next_bytes(&mut self) -> (r: Result<Vec<u8>, ParseError>)
        ensures
            final(self).parts == old(self).parts,
            old(self).cursor() >= old(self).elems().len() ==> r == Err::<Vec<u8>, ParseError>(
                ParseError::EndOfStream,
            ) && *final(self) == *old(self),
            old(self).cursor() < old(self).elems().len() ==> {
                &&& final(self).cursor() == old(self).cursor() + 1
                &&& match old(self).elems()[old(self).cursor()] {
                    FrameView::Simple(t) => r is Ok && r->Ok_0@ == t,
                    FrameView::Bulk(b) => r is Ok && r->Ok_0@ == b,
                    _ => r == Err::<Vec<u8>, ParseError>(ParseError::WrongType),
                }
            },
    {
        let f = self.next()?;
        match f {
            Frame::Simple(t) => Ok(vstd::slice::slice_to_vec(t.as_slice())),
            Frame::Bulk(b) => Ok(vstd::slice::slice_to_vec(b.as_slice())),
            _ => Err(ParseError::WrongType),
        }
    }

    /// The next element as an unsigned integer: an integer frame, or a
    /// string read as a decimal.
    pub fn next_int(&mut self) -> (r: Result<u64, ParseError>)
        ensures
            final(self).parts == old(self).parts,
            old(self).cursor() >= old(self).elems().len() ==> r == Err::<u64, ParseError>(
                ParseError::EndOfStream,
            ) && *final(self) == *old(self),
            old(self).cursor() < old(self).elems().len() ==> {
                &&& final(self).cursor() == old(self).cursor() + 1
                &&& match old(self).elems()[old(self).cursor()] {
                    FrameView::Integer(v) => r == Ok::<u64, ParseError>(v),
                    FrameView::Simple(t) => match spec_atoi_u64(t) {
                        Some(v) => r == Ok::<u64, ParseError>(v),
                        None => r == Err::<u64, ParseError>(ParseError::BadNumber),
                    },
                    FrameView::Bulk(b) => match spec_atoi_u64(b) {
                        Some(v) => r == Ok::<u64, ParseError>(v),
                        None => r == Err::<u64, ParseError>(ParseError::BadNumber),
                    },
                    _ => r == Err::<u64, ParseError>(ParseError::WrongType),
                }
            },
    {
        let f = self.next()?;
        match f {
            Frame::Integer(v) => Ok(*v),
            Frame::Simple(t) => match crate::decimal::atoi_u64(t.as_slice()) {
                Some(v) => Ok(v),
                None => Err(ParseError::BadNumber),
            },
            Frame::Bulk(b) => match crate::decimal::atoi_u64(b.as_slice()) {
                Some(v) => Ok(v),
                None => Err(ParseError::BadNumber),
            },
            _ => Err(ParseError::WrongType),
        }
    }

    /// Assert that every element has been consumed.
    pub fn finish(&mut self) -> (r: Result<(), ParseError>)
        ensures
            *final(self) == *old(self),
            r is Ok <==> old(self).cursor() >= old(self).elems().len(),
            r is Err ==> r == Err::<(), ParseError>(ParseError::Leftover),
    {
        proof {
            crate::frame::lemma_frames_view_len(self.parts@);
        }
        if self.pos < self.parts.len() {
            Err(ParseError::Leftover)
        } else {
            Ok(())
        }
    }
}

} // verus!
