//! RESP frames and their wire encoding.
//!
//! A frame is one value of the Redis serialization protocol. The spec-level
//! functions in this module define the exact byte encoding; the executable
//! encoder and the two-phase decoder (`check`, then `parse`) are proved
//! against them.

use vstd::prelude::*;

use crate::decimal::{spec_dec, spec_atoi_u64};

verus! {

/// A frame in the Redis protocol.
///
/// Text payloads (`Simple`, `Error`) are kept as raw bytes; the protocol
/// only requires that they contain no CR and no LF.
#[derive(Debug)]
pub enum Frame {
    Null,
    Simple(Vec<u8>),
    Integer(u64),
    Bulk(Vec<u8>),
    Array(Vec<Frame>),
    Error(Vec<u8>),
}

/// The mathematical shape of a frame: the same tree over `Seq<u8>`.
pub enum FrameView {
    Null,
    Simple(Seq<u8>),
    Integer(u64),
    Bulk(Seq<u8>),
    Array(Seq<FrameView>),
    Error(Seq<u8>),
}

pub open spec fn frame_view(f: Frame) -> FrameView
    decreases f, 0nat,
{
    match f {
        Frame::Null => FrameView::Null,
        Frame::Simple(s) => FrameView::Simple(s@),
        Frame::Integer(n) => FrameView::Integer(n),
        Frame::Bulk(b) => FrameView::Bulk(b@),
        Frame::Array(v) => FrameView::Array(frames_view(v@)),
        Frame::Error(s) => FrameView::Error(s@),
    }
}

pub open spec fn frames_view(s: Seq<Frame>) -> Seq<FrameView>
    decreases s, 1nat,
{
    if s.len() == 0 {
        Seq::empty()
    } else {
        seq![frame_view(s[0])] + frames_view(s.subrange(1, s.len() as int))
    }
}

impl View for Frame {
    type V = FrameView;

    open spec fn view(&self) -> FrameView {
        frame_view(*self)
    }
}

pub proof fn lemma_frames_view_len(s: Seq<Frame>)
    ensures
        frames_view(s).len() == s.len(),
        forall|i: int| 0 <= i < s.len() ==> #[trigger] frames_view(s)[i] == frame_view(s[i]),
    decreases s.len(),
{
    if s.len() > 0 {
        lemma_frames_view_len(s.subrange(1, s.len() as int));
    }
}

/// A payload that may stand on a `\r\n`-terminated line: no CR, no LF.
pub open spec fn line_ok(s: Seq<u8>) -> bool {
    forall|i: int| 0 <= i < s.len() ==> s[i] != 13u8 && s[i] != 10u8
}

/// Well-formed frames: every `Simple` and `Error` payload is CR/LF-free,
/// and every length fits the wire's unsigned decimal. The encoder emits
/// such frames unambiguously; every frame built from executable values is
/// of this kind.
pub open spec fn frame_wf(f: FrameView) -> bool
    decreases f, 0nat,
{
    match f {
        FrameView::Null => true,
        FrameView::Simple(s) => line_ok(s),
        FrameView::Integer(_) => true,
        FrameView::Bulk(b) => b.len() <= u64::MAX,
        FrameView::Array(xs) => xs.len() <= u64::MAX && frames_wf(xs),
        FrameView::Error(s) => line_ok(s),
    }
}

pub open spec fn frames_wf(xs: Seq<FrameView>) -> bool
    decreases xs, 1nat,
{
    if xs.len() == 0 {
        true
    } else {
        frame_wf(xs[0]) && frames_wf(xs.subrange(1, xs.len() as int))
    }
}

pub open spec fn crlf() -> Seq<u8> {
    seq![13u8, 10u8]
}

/// The wire encoding of a frame.
pub open spec fn spec_encode(f: FrameView) -> Seq<u8>
    decreases f, 0nat,
{
    match f {
        FrameView::Simple(s) => seq![43u8] + s + crlf(),
        FrameView::Error(s) => seq![45u8] + s + crlf(),
        FrameView::Integer(n) => seq![58u8] + spec_dec(n as nat) + crlf(),
        FrameView::Null => seq![36u8, 45u8, 49u8, 13u8, 10u8],
        FrameView::Bulk(b) => seq![36u8] + spec_dec(b.len()) + crlf() + b + crlf(),
        FrameView::Array(xs) => seq![42u8] + spec_dec(xs.len()) + crlf() + spec_encode_seq(xs),
    }
}

pub open spec fn spec_encode_seq(xs: Seq<FrameView>) -> Seq<u8>
    decreases xs, 1nat,
{
    if xs.len() == 0 {
        Seq::empty()
    } else {
        spec_encode(xs[0]) + spec_encode_seq(xs.subrange(1, xs.len() as int))
    }
}

/// Error encountered while decoding a frame.
#[derive(Debug, PartialEq, Eq, Structural)]
pub enum Error {
    /// Not enough data is available to decode a message.
    Incomplete,
    /// A leading type byte other than `+ - : $ *`.
    InvalidTypeByte(u8),
    /// A malformed number or null-bulk marker.
    InvalidFormat,
}

/// A CRLF pair stands at `j`.
pub open spec fn crlf_at(s: Seq<u8>, j: int) -> bool {
    s[j] == 13u8 && s[j + 1] == 10u8
}

/// The index of the first CRLF whose two bytes lie fully before the end of
/// `s`, at or after `pos`; `None` when there is none.
pub open spec fn spec_find_line(s: Seq<u8>, pos: int) -> Option<int>
    decreases s.len() - pos,
{
    if pos + 1 >= s.len() {
        None
    } else if crlf_at(s, pos) {
        Some(pos)
    } else {
        spec_find_line(s, pos + 1)
    }
}

pub proof fn lemma_find_line(s: Seq<u8>, pos: int)
    requires
        0 <= pos,
    ensures
        match spec_find_line(s, pos) {
            Some(i) => {
                &&& pos <= i
                &&& i + 2 <= s.len()
                &&& crlf_at(s, i)
                &&& forall|j: int| pos <= j < i ==> !#[trigger] crlf_at(s, j)
            },
            None => forall|j: int| pos <= j < s.len() - 1 ==> !#[trigger] crlf_at(s, j),
        },
    decreases s.len() - pos,
{
    if pos + 1 >= s.len() {
    } else if crlf_at(s, pos) {
    } else {
        lemma_find_line(s, pos + 1);
    }
}

/// What the decimal reader does at `pos`: take the line up to the next CRLF,
/// read it as a decimal, and stand after the CRLF.
pub enum SpecNum {
    Done(u64, int),
    Fail(Error),
}

pub open spec fn spec_get_decimal(s: Seq<u8>, pos: int) -> SpecNum {
    match spec_find_line(s, pos) {
        None => SpecNum::Fail(Error::Incomplete),
        Some(i) => match spec_atoi_u64(s.subrange(pos, i)) {
            None => SpecNum::Fail(Error::InvalidFormat),
            Some(v) => SpecNum::Done(v, i + 2),
        },
    }
}

/// Outcome of walking one frame without building it: the position after the
/// frame, or the failure.
pub enum SpecCheck {
    Done(int),
    Fail(Error),
}

/// Outcome of decoding one frame: its shape and the position after it.
pub enum SpecParse {
    Done(FrameView, int),
    Fail(Error),
}

/// Outcome of decoding a row of frames.
pub enum SpecParseSeq {
    Done(Seq<FrameView>, int),
    Fail(Error),
}

/// The check walk over one frame starting at `pos`.
///
/// The bounds guards on recursive positions always hold (the walkers only
/// move forward, within the buffer); they stand in the definition so that
/// termination is evident.
pub open spec fn spec_check(s: Seq<u8>, pos: int) -> SpecCheck
    decreases s.len() - pos, 0nat,
{
    if pos < 0 || pos >= s.len() {
        SpecCheck::Fail(Error::Incomplete)
    } else {
        let t = s[pos];
        let p = pos + 1;
        if t == 43 || t == 45 {
            match spec_find_line(s, p) {
                Some(i) => SpecCheck::Done(i + 2),
                None => SpecCheck::Fail(Error::Incomplete),
            }
        } else if t == 58 {
            match spec_get_decimal(s, p) {
                SpecNum::Done(_, q) => SpecCheck::Done(q),
                SpecNum::Fail(e) => SpecCheck::Fail(e),
            }
        } else if t == 36 {
            if p >= s.len() {
                SpecCheck::Fail(Error::Incomplete)
            } else if s[p] == 45 {
                if s.len() - p >= 4 {
                    SpecCheck::Done(p + 4)
                } else {
                    SpecCheck::Fail(Error::Incomplete)
                }
            } else {
                match spec_get_decimal(s, p) {
                    SpecNum::Done(len, q) => if s.len() - q >= len + 2 {
                        SpecCheck::Done(q + len + 2)
                    } else {
                        SpecCheck::Fail(Error::Incomplete)
                    },
                    SpecNum::Fail(e) => SpecCheck::Fail(e),
                }
            }
        } else if t == 42 {
            match spec_get_decimal(s, p) {
                SpecNum::Done(n, q) => if pos < q <= s.len() {
                    spec_check_n(s, q, n as nat)
                } else {
                    SpecCheck::Fail(Error::Incomplete)
                },
                SpecNum::Fail(e) => SpecCheck::Fail(e),
            }
        } else {
            SpecCheck::Fail(Error::InvalidTypeByte(t))
        }
    }
}

/// The check walk over `n` frames in a row starting at `pos`.
pub open spec fn spec_check_n(s: Seq<u8>, pos: int, n: nat) -> SpecCheck
    decreases s.len() - pos, n,
{
    if n == 0 {
        SpecCheck::Done(pos)
    } else {
        match spec_check(s, pos) {
            SpecCheck::Done(q) => if pos < q <= s.len() {
                spec_check_n(s, q, (n - 1) as nat)
            } else {
                SpecCheck::Fail(Error::Incomplete)
            },
            SpecCheck::Fail(e) => SpecCheck::Fail(e),
        }
    }
}

/// The decode of one frame starting at `pos`.
pub open spec fn spec_parse(s: Seq<u8>, pos: int) -> SpecParse
    decreases s.len() - pos, 0nat,
{
    if pos < 0 || pos >= s.len() {
        SpecParse::Fail(Error::Incomplete)
    } else {
        let t = s[pos];
        let p = pos + 1;
        if t == 43 {
            match spec_find_line(s, p) {
                Some(i) => SpecParse::Done(FrameView::Simple(s.subrange(p, i)), i + 2),
                None => SpecParse::Fail(Error::Incomplete),
            }
        } else if t == 45 {
            match spec_find_line(s, p) {
                Some(i) => SpecParse::Done(FrameView::Error(s.subrange(p, i)), i + 2),
                None => SpecParse::Fail(Error::Incomplete),
            }
        } else if t == 58 {
            match spec_get_decimal(s, p) {
                SpecNum::Done(v, q) => SpecParse::Done(FrameView::Integer(v), q),
                SpecNum::Fail(e) => SpecParse::Fail(e),
            }
        } else if t == 36 {
            if p >= s.len() {
                SpecParse::Fail(Error::Incomplete)
            } else if s[p] == 45 {
                match spec_find_line(s, p) {
                    Some(i) => if s.subrange(p, i) == seq![45u8, 49u8] {
                        SpecParse::Done(FrameView::Null, i + 2)
                    } else {
                        SpecParse::Fail(Error::InvalidFormat)
                    },
                    None => SpecParse::Fail(Error::Incomplete),
                }
            } else {
                match spec_get_decimal(s, p) {
                    SpecNum::Done(len, q) => if s.len() - q >= len + 2 {
                        SpecParse::Done(FrameView::Bulk(s.subrange(q, q + len)), q + len + 2)
                    } else {
                        SpecParse::Fail(Error::Incomplete)
                    },
                    SpecNum::Fail(e) => SpecParse::Fail(e),
                }
            }
        } else if t == 42 {
            match spec_get_decimal(s, p) {
                SpecNum::Done(n, q) => if pos < q <= s.len() {
                    match spec_parse_n(s, q, n as nat) {
                        SpecParseSeq::Done(fs, r) => SpecParse::Done(FrameView::Array(fs), r),
                        SpecParseSeq::Fail(e) => SpecParse::Fail(e),
                    }
                } else {
                    SpecParse::Fail(Error::Incomplete)
                },
                SpecNum::Fail(e) => SpecParse::Fail(e),
            }
        } else {
            SpecParse::Fail(Error::InvalidTypeByte(t))
        }
    }
}

/// The decode of `n` frames in a row starting at `pos`.
pub open spec fn spec_parse_n(s: Seq<u8>, pos: int, n: nat) -> SpecParseSeq
    decreases s.len() - pos, n,
{
    if n == 0 {
        SpecParseSeq::Done(Seq::empty(), pos)
    } else {
        match spec_parse(s, pos) {
            SpecParse::Done(f, q) => if pos < q <= s.len() {
                match spec_parse_n(s, q, (n - 1) as nat) {
                    SpecParseSeq::Done(fs, r) => SpecParseSeq::Done(seq![f] + fs, r),
                    SpecParseSeq::Fail(e) => SpecParseSeq::Fail(e),
                }
            } else {
                SpecParseSeq::Fail(Error::Incomplete)
            },
            SpecParse::Fail(e) => SpecParseSeq::Fail(e),
        }
    }
}

/// The byte at `pos`, without advancing.
pub fn peek_u8(src: &[u8], pos: usize) -> (r: Result<u8, Error>)
    ensures
        pos < src@.len() ==> r == Ok::<u8, Error>(src@[pos as int]),
        pos >= src@.len() ==> r == Err::<u8, Error>(Error::Incomplete),
{
    if pos < src.len() {
        Ok(src[pos])
    } else {
        Err(Error::Incomplete)
    }
}

/// The byte at the cursor, advancing past it.
pub fn get_u8(src: &[u8], pos: &mut usize) -> (r: Result<u8, Error>)
    ensures
        old(pos) < src@.len() ==> r == Ok::<u8, Error>(src@[*old(pos) as int]) && *final(pos) == *old(pos) + 1,
        old(pos) >= src@.len() ==> r == Err::<u8, Error>(Error::Incomplete) && *final(pos) == *old(pos),
{
    if *pos < src.len() {
        let b = src[*pos];
        *pos = *pos + 1;
        Ok(b)
    } else {
        Err(Error::Incomplete)
    }
}

/// Advance the cursor by `n` bytes, if that many remain.
pub fn skip(src: &[u8], pos: &mut usize, n: usize) -> (r: Result<(), Error>)
    ensures
        *old(pos) <= src@.len() && src@.len() - *old(pos) >= n ==> r == Ok::<(), Error>(()) && *final(pos) == *old(pos) + n,
        !(*old(pos) <= src@.len() && src@.len() - *old(pos) >= n) ==> r == Err::<(), Error>(
            Error::Incomplete,
        ) && *final(pos) == *old(pos),
{
    if *pos <= src.len() && src.len() - *pos >= n {
        *pos = *pos + n;
        Ok(())
    } else {
        Err(Error::Incomplete)
    }
}

/// The line from the cursor up to the next CRLF; the cursor moves past the
/// CRLF. Fails with `Incomplete` when no full CRLF is in the buffer yet.
pub fn get_line<'a>(src: &'a [u8], pos: &mut usize) -> (r: Result<&'a [u8], Error>)
    ensures
        match spec_find_line(src@, *old(pos) as int) {
            Some(i) => {
                &&& r is Ok
                &&& r->Ok_0@ == src@.subrange(*old(pos) as int, i)
                &&& *final(pos) == i + 2
                &&& *old(pos) <= i
                &&& i + 2 <= src@.len()
            },
            None => r == Err::<&'a [u8], Error>(Error::Incomplete),
        },
{
    let start = *pos;
    if start >= src.len() {
        return Err(Error::Incomplete);
    }
    let mut i = start;
    while i < src.len() - 1 && !(src[i] == 13 && src[i + 1] == 10)
        invariant
            start <= i,
            src@.len() >= 1,
            i <= src@.len(),
            spec_find_line(src@, start as int) == spec_find_line(src@, i as int),
        decreases src@.len() - i,
    {
        i = i + 1;
    }
    if i < src.len() - 1 {
        *pos = i + 2;
        Ok(vstd::slice::slice_subrange(src, start, i))
    } else {
        proof {
            assert(spec_find_line(src@, i as int) is None);
        }
        Err(Error::Incomplete)
    }
}

/// Read a line and interpret it as an unsigned decimal.
pub fn get_decimal(src: &[u8], pos: &mut usize) -> (r: Result<u64, Error>)
    ensures
        match spec_get_decimal(src@, *old(pos) as int) {
            SpecNum::Done(v, q) => {
                &&& r == Ok::<u64, Error>(v)
                &&& *final(pos) == q
                &&& *old(pos) + 2 <= *final(pos) <= src@.len()
            },
            SpecNum::Fail(e) => r == Err::<u64, Error>(e),
        },
{
    let line = get_line(src, pos)?;
    match crate::decimal::atoi_u64(line) {
        Some(v) => Ok(v),
        None => Err(Error::InvalidFormat),
    }
}

/// Prefix a row of decoded frames onto a row-decode outcome.
pub open spec fn parse_seq_prepend(fs: Seq<FrameView>, r: SpecParseSeq) -> SpecParseSeq {
    match r {
        SpecParseSeq::Done(gs, p) => SpecParseSeq::Done(fs + gs, p),
        SpecParseSeq::Fail(e) => SpecParseSeq::Fail(e),
    }
}

pub proof fn lemma_frames_view_push(s: Seq<Frame>, f: Frame)
    ensures
        frames_view(s.push(f)) == frames_view(s) + seq![frame_view(f)],
    decreases s.len(),
{
    lemma_frames_view_len(s);
    lemma_frames_view_len(s.push(f));
    if s.len() == 0 {
        assert(s.push(f)[0] == f);
        assert(s.push(f).subrange(1, s.push(f).len() as int) =~= Seq::<Frame>::empty());
        assert(frames_view(Seq::<Frame>::empty()) =~= Seq::<FrameView>::empty());
        assert(frames_view(s.push(f)) =~= frames_view(s) + seq![frame_view(f)]);
    } else {
        let t = s.subrange(1, s.len() as int);
        lemma_frames_view_push(t, f);
        lemma_frames_view_len(t);
        assert(s.push(f).subrange(1, s.push(f).len() as int) =~= t.push(f));
        assert(s.push(f)[0] == s[0]);
        assert(frames_view(s.push(f)) =~= frames_view(s) + seq![frame_view(f)]);
    }
}

pub proof fn lemma_encode_seq_push(xs: Seq<FrameView>, x: FrameView)
    ensures
        spec_encode_seq(xs.push(x)) == spec_encode_seq(xs) + spec_encode(x),
    decreases xs.len(),
{
    if xs.len() == 0 {
        assert(xs.push(x)[0] == x);
        assert(xs.push(x).subrange(1, xs.push(x).len() as int) =~= Seq::<FrameView>::empty());
        assert(spec_encode_seq(Seq::<FrameView>::empty()) =~= Seq::<u8>::empty());
        assert(spec_encode_seq(xs.push(x)) =~= spec_encode_seq(xs) + spec_encode(x));
    } else {
        let t = xs.subrange(1, xs.len() as int);
        lemma_encode_seq_push(t, x);
        assert(xs.push(x).subrange(1, xs.push(x).len() as int) =~= t.push(x));
        assert(xs.push(x)[0] == xs[0]);
        assert(spec_encode_seq(xs.push(x)) == spec_encode(xs[0]) + spec_encode_seq(t.push(x)));
        assert(spec_encode(xs[0]) + (spec_encode_seq(t) + spec_encode(x)) =~= (spec_encode(xs[0])
            + spec_encode_seq(t)) + spec_encode(x));
        assert(spec_encode_seq(xs) == spec_encode(xs[0]) + spec_encode_seq(t));
    }
}

impl Frame {
    /// An empty array frame.
    pub fn array() -> (f: Frame)
        ensures
            f@ == FrameView::Array(Seq::<FrameView>::empty()),
    {
        let f = Frame::Array(Vec::new());
        proof {
            assert(frames_view(Seq::<Frame>::empty()) =~= Seq::<FrameView>::empty());
        }
        f
    }

    /// Push a bulk frame into the array. `self` must be an `Array` frame.
    pub fn push_bulk(&mut self, bytes: Vec<u8>)
        requires
            old(self)@ is Array,
        ensures
            final(self)@ == FrameView::Array(old(self)@->Array_0.push(FrameView::Bulk(bytes@))),
    {
        let ghost b = bytes@;
        match self {
            Frame::Array(vec) => {
                let ghost v0 = vec@;
                vec.push(Frame::Bulk(bytes));
                proof {
                    lemma_frames_view_push(v0, Frame::Bulk(bytes));
                    assert(frames_view(v0) + seq![FrameView::Bulk(b)] =~= frames_view(v0).push(
                        FrameView::Bulk(b),
                    ));
                }
            },
            _ => {
                vstd::pervasive::unreached()
            },
        }
    }

    /// Push an integer frame into the array. `self` must be an `Array` frame.
    pub fn push_int(&mut self, value: u64)
        requires
            old(self)@ is Array,
        ensures
            final(self)@ == FrameView::Array(old(self)@->Array_0.push(FrameView::Integer(value))),
    {
        match self {
            Frame::Array(vec) => {
                let ghost v0 = vec@;
                vec.push(Frame::Integer(value));
                proof {
                    lemma_frames_view_push(v0, Frame::Integer(value));
                    assert(frames_view(v0) + seq![FrameView::Integer(value)] =~= frames_view(
                        v0,
                    ).push(FrameView::Integer(value)));
                }
            },
            _ => {
                vstd::pervasive::unreached()
            },
        }
    }

    /// Push a simple-string frame into the array. `self` must be an `Array`
    /// frame.
    pub fn push_simple(&mut self, value: Vec<u8>)
        requires
            old(self)@ is Array,
        ensures
            final(self)@ == FrameView::Array(old(self)@->Array_0.push(FrameView::Simple(value@))),
    {
        let ghost b = value@;
        match self {
            Frame::Array(vec) => {
                let ghost v0 = vec@;
                vec.push(Frame::Simple(value));
                proof {
                    lemma_frames_view_push(v0, Frame::Simple(value));
                    assert(frames_view(v0) + seq![FrameView::Simple(b)] =~= frames_view(v0).push(
                        FrameView::Simple(b),
                    ));
                }
            },
            _ => {
                vstd::pervasive::unreached()
            },
        }
    }

    /// Check whether an entire frame stands in `src` at the cursor, moving
    /// the cursor past it.
    #[verifier::loop_isolation(false)]
    pub fn check(src: &[u8], pos: &mut usize) -> (r: Result<(), Error>)
        ensures
            match spec_check(src@, *old(pos) as int) {
                SpecCheck::Done(q) => r == Ok::<(), Error>(()) && *final(pos) == q,
                SpecCheck::Fail(e) => r == Err::<(), Error>(e),
            },
            r is Ok ==> *old(pos) < *final(pos) <= src@.len(),
        decreases src@.len() - *pos,
    {
        let t = get_u8(src, pos)?;
        if t == 43 || t == 45 {
            get_line(src, pos)?;
            Ok(())
        } else if t == 58 {
            let _ = get_decimal(src, pos)?;
            Ok(())
        } else if t == 36 {
            if peek_u8(src, *pos)? == 45 {
                skip(src, pos, 4)
            } else {
                let len = get_decimal(src, pos)?;
                let rem = src.len() - *pos;
                match len.checked_add(2) {
                    Some(n) => {
                        if n <= rem as u64 {
                            *pos = *pos + (n as usize);
                            Ok(())
                        } else {
                            Err(Error::Incomplete)
                        }
                    },
                    None => Err(Error::Incomplete),
                }
            }
        } else if t == 42 {
            let n = get_decimal(src, pos)?;
            let ghost pos0 = *old(pos) as int;
            let ghost q0 = *pos as int;
            let mut k: u64 = 0;
            while k < n
                invariant
                    k <= n,
                    pos0 < q0 <= *pos as int <= src@.len(),
                    spec_check_n(src@, q0, n as nat) == spec_check_n(
                        src@,
                        *pos as int,
                        (n - k) as nat,
                    ),
                decreases n - k,
            {
                Frame::check(src, pos)?;
                k = k + 1;
            }
            Ok(())
        } else {
            Err(Error::InvalidTypeByte(t))
        }
    }

    /// Decode one frame from `src` at the cursor, moving the cursor past it.
    #[verifier::loop_isolation(false)]
    pub fn parse(src: &[u8], pos: &mut usize) -> (r: Result<Frame, Error>)
        ensures
            match spec_parse(src@, *old(pos) as int) {
                SpecParse::Done(fv, q) => r is Ok && r->Ok_0@ == fv && *final(pos) == q,
                SpecParse::Fail(e) => r is Err && r->Err_0 == e,
            },
            r is Ok ==> *old(pos) < *final(pos) <= src@.len(),
        decreases src@.len() - *pos,
    {
        let t = get_u8(src, pos)?;
        if t == 43 {
            let line = get_line(src, pos)?;
            Ok(Frame::Simple(vstd::slice::slice_to_vec(line)))
        } else if t == 45 {
            let line = get_line(src, pos)?;
            Ok(Frame::Error(vstd::slice::slice_to_vec(line)))
        } else if t == 58 {
            let v = get_decimal(src, pos)?;
            Ok(Frame::Integer(v))
        } else if t == 36 {
            if peek_u8(src, *pos)? == 45 {
                let line = get_line(src, pos)?;
                if line.len() == 2 && line[0] == 45 && line[1] == 49 {
                    proof {
                        assert(line@ =~= seq![45u8, 49u8]);
                    }
                    Ok(Frame::Null)
                } else {
                    proof {
                        assert(line@ != seq![45u8, 49u8]);
                    }
                    Err(Error::InvalidFormat)
                }
            } else {
                let len = get_decimal(src, pos)?;
                let rem = src.len() - *pos;
                match len.checked_add(2) {
                    Some(n) => {
                        if n <= rem as u64 {
                            let data = vstd::slice::slice_to_vec(
                                vstd::slice::slice_subrange(src, *pos, *pos + (len as usize)),
                            );
                            *pos = *pos + (n as usize);
                            Ok(Frame::Bulk(data))
                        } else {
                            Err(Error::Incomplete)
                        }
                    },
                    None => Err(Error::Incomplete),
                }
            }
        } else if t == 42 {
            let n = get_decimal(src, pos)?;
            let ghost pos0 = *old(pos) as int;
            let ghost q0 = *pos as int;
            let mut out: Vec<Frame> = Vec::new();
            let mut k: u64 = 0;
            proof {
                assert(frames_view(out@) =~= Seq::<FrameView>::empty());
            }
            while k < n
                invariant
                    k <= n,
                    out@.len() == k,
                    pos0 < q0 <= *pos as int <= src@.len(),
                    spec_parse_n(src@, q0, n as nat) == parse_seq_prepend(
                        frames_view(out@),
                        spec_parse_n(src@, *pos as int, (n - k) as nat),
                    ),
                decreases n - k,
            {
                let ghost fv_out = frames_view(out@);
                let f = Frame::parse(src, pos)?;
                proof {
                    lemma_frames_view_push(out@, f);
                }
                out.push(f);
                k = k + 1;
                proof {
                    match spec_parse_n(src@, *pos as int, (n - k) as nat) {
                        SpecParseSeq::Done(gs, p) => {
                            assert((fv_out + seq![f@]) + gs =~= fv_out + (seq![f@] + gs));
                        },
                        SpecParseSeq::Fail(_) => {},
                    }
                }
            }
            proof {
                match spec_parse_n(src@, q0, n as nat) {
                    SpecParseSeq::Done(gs, p) => {
                        assert(frames_view(out@) + Seq::<FrameView>::empty() =~= frames_view(
                            out@,
                        ));
                    },
                    SpecParseSeq::Fail(_) => {},
                }
            }
            Ok(Frame::Array(out))
        } else {
            Err(Error::InvalidTypeByte(t))
        }
    }

    /// Serialize this frame into its wire bytes.
    #[verifier::loop_isolation(false)]
    pub fn encode(&self) -> (out: Vec<u8>)
        ensures
            out@ == spec_encode(self@),
        decreases self,
    {
        match self {
            Frame::Simple(s) => {
                let mut out: Vec<u8> = Vec::new();
                out.push(43);
                out.extend_from_slice(s.as_slice());
                out.push(13);
                out.push(10);
                proof {
                    assert(out@ =~= spec_encode(self@));
                }
                out
            },
            Frame::Error(s) => {
                let mut out: Vec<u8> = Vec::new();
                out.push(45);
                out.extend_from_slice(s.as_slice());
                out.push(13);
                out.push(10);
                proof {
                    assert(out@ =~= spec_encode(self@));
                }
                out
            },
            Frame::Integer(n) => {
                let mut out: Vec<u8> = Vec::new();
                out.push(58);
                let d = crate::decimal::format_decimal(*n);
                out.extend_from_slice(d.as_slice());
                out.push(13);
                out.push(10);
                proof {
                    assert(out@ =~= spec_encode(self@));
                }
                out
            },
            Frame::Null => {
                let mut out: Vec<u8> = Vec::new();
                out.push(36);
                out.push(45);
                out.push(49);
                out.push(13);
                out.push(10);
                proof {
                    assert(out@ =~= spec_encode(self@));
                }
                out
            },
            Frame::Bulk(b) => {
                let mut out: Vec<u8> = Vec::new();
                out.push(36);
                let d = crate::decimal::format_decimal(b.len() as u64);
                out.extend_from_slice(d.as_slice());
                out.push(13);
                out.push(10);
                out.extend_from_slice(b.as_slice());
                out.push(13);
                out.push(10);
                proof {
                    assert(out@ =~= spec_encode(self@));
                }
                out
            },
            Frame::Array(v) => {
                let mut out: Vec<u8> = Vec::new();
                out.push(42);
                let d = crate::decimal::format_decimal(v.len() as u64);
                out.extend_from_slice(d.as_slice());
                out.push(13);
                out.push(10);
                let ghost header = out@;
                let ghost xs = frames_view(v@);
                proof {
                    lemma_frames_view_len(v@);
                    assert(xs.subrange(0, 0) =~= Seq::<FrameView>::empty());
                }
                let mut i: usize = 0;
                while i < v.len()
                    invariant
                        i <= v@.len(),
                        xs == frames_view(v@),
                        xs.len() == v@.len(),
                        forall|j: int| 0 <= j < v@.len() ==> #[trigger] xs[j] == frame_view(
                            v@[j],
                        ),
                        header == seq![42u8] + spec_dec(v@.len() as nat) + crlf(),
                        out@ == header + spec_encode_seq(xs.subrange(0, i as int)),
                    decreases v@.len() - i,
                {
                    let e = &v[i];
                    proof {
                        let fs = *self;
                        assert(decreases_to!(fs => fs->Array_0));
                        assert(decreases_to!(fs->Array_0 => fs->Array_0@));
                        assert(decreases_to!(fs->Array_0@ => fs->Array_0@[i as int]));
                        assert(fs->Array_0@[i as int] == v@[i as int]);
                    }
                    let eb = e.encode();
                    out.extend_from_slice(eb.as_slice());
                    proof {
                        lemma_encode_seq_push(xs.subrange(0, i as int), xs[i as int]);
                        assert(xs.subrange(0, i + 1) =~= xs.subrange(0, i as int).push(
                            xs[i as int],
                        ));
                    }
                    i = i + 1;
                }
                proof {
                    assert(xs.subrange(0, v@.len() as int) =~= xs);
                }
                out
            },
        }
    }
}

} // verus!
