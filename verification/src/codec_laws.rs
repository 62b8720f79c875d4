//! Laws of the frame codec.
//!
//! For every well-formed frame, the check walk accepts exactly its encoding
//! (with anything after it untouched), every strict prefix of the encoding is
//! reported `Incomplete`, decoding the encoding yields the frame back, and a
//! successful decode consumes exactly what the check walk measured.

use vstd::prelude::*;

use crate::decimal::{is_digit, lemma_atoi_of_dec, lemma_spec_dec, spec_dec};
use crate::frame::{
    crlf_at, frame_wf, frames_wf, lemma_find_line, line_ok, spec_check, spec_check_n, spec_encode,
    spec_encode_seq, spec_find_line, spec_get_decimal, spec_parse, spec_parse_n, Error, FrameView,
    SpecCheck, SpecNum, SpecParse, SpecParseSeq,
};

verus! {

/// Indexing through a known subrange of `s`.
proof fn lemma_subrange_index(s: Seq<u8>, pos: int, e: Seq<u8>)
    requires
        0 <= pos,
        pos + e.len() <= s.len(),
        s.subrange(pos, pos + e.len() as int) == e,
    ensures
        forall|k: int| 0 <= k < e.len() ==> s[pos + k] == #[trigger] e[k],
{
    assert forall|k: int| 0 <= k < e.len() implies s[pos + k] == #[trigger] e[k] by {
        assert(s.subrange(pos, pos + e.len() as int)[k] == s[pos + k]);
    }
}

/// No CRLF in the scanned range means the scan fails.
proof fn lemma_find_line_none(s: Seq<u8>, pos: int)
    requires
        0 <= pos,
        forall|j: int| pos <= j < s.len() - 1 ==> !#[trigger] crlf_at(s, j),
    ensures
        spec_find_line(s, pos) is None,
    decreases s.len() - pos,
{
    if pos + 1 >= s.len() {
    } else {
        lemma_find_line_none(s, pos + 1);
    }
}

/// The scan finds the CRLF that terminates a CR/LF-free line laid out at
/// `pos`.
proof fn lemma_find_line_at(s: Seq<u8>, pos: int, line: Seq<u8>)
    requires
        0 <= pos,
        pos + line.len() + 2 <= s.len(),
        forall|k: int| 0 <= k < line.len() ==> s[pos + k] == #[trigger] line[k],
        line_ok(line),
        s[pos + line.len()] == 13u8,
        s[pos + line.len() + 1] == 10u8,
    ensures
        spec_find_line(s, pos) == Some(pos + line.len() as int),
    decreases line.len(),
{
    if line.len() == 0 {
        assert(crlf_at(s, pos));
    } else {
        assert(s[pos] == line[0]);
        assert(!crlf_at(s, pos));
        let tail = line.subrange(1, line.len() as int);
        assert forall|k: int| 0 <= k < tail.len() implies s[pos + 1 + k] == #[trigger] tail[k] by {
            assert(s[pos + (k + 1)] == line[k + 1]);
        }
        lemma_find_line_at(s, pos + 1, tail);
    }
}

/// Every encoding is at least one byte long.
proof fn lemma_encode_len(f: FrameView)
    ensures
        spec_encode(f).len() >= 1,
{
}

/// Reading the decimal laid out at `pos` yields its value and stands after
/// the terminating CRLF.
proof fn lemma_getdec_at(s: Seq<u8>, pos: int, n: u64)
    requires
        0 <= pos,
        pos + spec_dec(n as nat).len() + 2 <= s.len(),
        forall|k: int|
            0 <= k < spec_dec(n as nat).len() ==> s[pos + k] == #[trigger] spec_dec(n as nat)[k],
        s[pos + spec_dec(n as nat).len()] == 13u8,
        s[pos + spec_dec(n as nat).len() + 1] == 10u8,
    ensures
        spec_get_decimal(s, pos) == SpecNum::Done(n, pos + spec_dec(n as nat).len() + 2),
{
    let d = spec_dec(n as nat);
    lemma_spec_dec(n as nat);
    assert(line_ok(d)) by {
        assert forall|i: int| 0 <= i < d.len() implies d[i] != 13u8 && d[i] != 10u8 by {
            assert(is_digit(d[i]));
        }
    }
    lemma_find_line_at(s, pos, d);
    assert(s.subrange(pos, pos + d.len() as int) =~= d);
    lemma_atoi_of_dec(n);
}

/// The check walk accepts a full encoding laid out at `pos`, whatever
/// follows it, and stands exactly after it.
pub proof fn lemma_check_encode(f: FrameView, s: Seq<u8>, pos: int)
    requires
        frame_wf(f),
        0 <= pos,
        pos + spec_encode(f).len() <= s.len(),
        s.subrange(pos, pos + spec_encode(f).len() as int) == spec_encode(f),
    ensures
        spec_check(s, pos) == SpecCheck::Done(pos + spec_encode(f).len() as int),
    decreases f, 0nat,
{
    let e = spec_encode(f);
    lemma_subrange_index(s, pos, e);
    match f {
        FrameView::Simple(t) => {
            assert(e[0] == 43u8);
            assert(s[pos + 0] == e[0]);
            assert forall|k: int| 0 <= k < t.len() implies s[pos + 1 + k] == #[trigger] t[k] by {
                assert(e[1 + k] == t[k]);
            }
            assert(s[pos + 1 + t.len()] == 13u8) by {
                assert(e[1 + t.len() as int] == 13u8);
            }
            assert(s[pos + 1 + t.len() + 1] == 10u8) by {
                assert(e[1 + t.len() as int + 1] == 10u8);
            }
            lemma_find_line_at(s, pos + 1, t);
        },
        FrameView::Error(t) => {
            assert(e[0] == 45u8);
            assert(s[pos + 0] == e[0]);
            assert forall|k: int| 0 <= k < t.len() implies s[pos + 1 + k] == #[trigger] t[k] by {
                assert(e[1 + k] == t[k]);
            }
            assert(s[pos + 1 + t.len()] == 13u8) by {
                assert(e[1 + t.len() as int] == 13u8);
            }
            assert(s[pos + 1 + t.len() + 1] == 10u8) by {
                assert(e[1 + t.len() as int + 1] == 10u8);
            }
            lemma_find_line_at(s, pos + 1, t);
        },
        FrameView::Integer(n) => {
            let d = spec_dec(n as nat);
            assert(e[0] == 58u8);
            assert(s[pos + 0] == e[0]);
            assert forall|k: int| 0 <= k < d.len() implies s[pos + 1 + k] == #[trigger] d[k] by {
                assert(e[1 + k] == d[k]);
            }
            assert(s[pos + 1 + d.len()] == 13u8) by {
                assert(e[1 + d.len() as int] == 13u8);
            }
            assert(s[pos + 1 + d.len() + 1] == 10u8) by {
                assert(e[1 + d.len() as int + 1] == 10u8);
            }
            lemma_getdec_at(s, pos + 1, n);
        },
        FrameView::Null => {
            assert(e[0] == 36u8);
            assert(s[pos + 0] == e[0]);
            assert(e[1] == 45u8);
            assert(s[pos + 1] == e[1]);
        },
        FrameView::Bulk(b) => {
            let d = spec_dec(b.len());
            lemma_spec_dec(b.len());
            assert(e[0] == 36u8);
            assert(s[pos + 0] == e[0]);
            assert forall|k: int| 0 <= k < d.len() implies s[pos + 1 + k] == #[trigger] d[k] by {
                assert(e[1 + k] == d[k]);
            }
            assert(s[pos + 1] == d[0]);
            assert(is_digit(d[0]));
            assert(s[pos + 1 + d.len()] == 13u8) by {
                assert(e[1 + d.len() as int] == 13u8);
            }
            assert(s[pos + 1 + d.len() + 1] == 10u8) by {
                assert(e[1 + d.len() as int + 1] == 10u8);
            }
            lemma_getdec_at(s, pos + 1, b.len() as u64);
            let q = pos + 1 + d.len() + 2;
            assert(s.len() - q >= b.len() + 2);
            assert(q + b.len() + 2 == pos + e.len());
        },
        FrameView::Array(xs) => {
            let d = spec_dec(xs.len());
            lemma_spec_dec(xs.len());
            assert(e[0] == 42u8);
            assert(s[pos + 0] == e[0]);
            assert forall|k: int| 0 <= k < d.len() implies s[pos + 1 + k] == #[trigger] d[k] by {
                assert(e[1 + k] == d[k]);
            }
            assert(s[pos + 1 + d.len()] == 13u8) by {
                assert(e[1 + d.len() as int] == 13u8);
            }
            assert(s[pos + 1 + d.len() + 1] == 10u8) by {
                assert(e[1 + d.len() as int + 1] == 10u8);
            }
            lemma_getdec_at(s, pos + 1, xs.len() as u64);
            let q = pos + 1 + d.len() + 2;
            let m = spec_encode_seq(xs);
            assert(q + m.len() == pos + e.len());
            assert(s.subrange(q, q + m.len() as int) =~= m) by {
                assert forall|k: int| 0 <= k < m.len() implies s.subrange(q, q + m.len() as int)[k]
                    == m[k] by {
                    assert(s[q + k] == e[1 + d.len() + 2 + k]);
                    assert(e[1 + d.len() + 2 + k] == m[k]);
                }
            }
            lemma_check_encode_seq(xs, s, q);
        },
    }
}

/// The check walk accepts a row of full encodings laid out at `pos`.
pub proof fn lemma_check_encode_seq(xs: Seq<FrameView>, s: Seq<u8>, pos: int)
    requires
        frames_wf(xs),
        0 <= pos,
        pos + spec_encode_seq(xs).len() <= s.len(),
        s.subrange(pos, pos + spec_encode_seq(xs).len() as int) == spec_encode_seq(xs),
    ensures
        spec_check_n(s, pos, xs.len()) == SpecCheck::Done(pos + spec_encode_seq(xs).len() as int),
    decreases xs, 1nat,
{
    if xs.len() == 0 {
    } else {
        let e0 = spec_encode(xs[0]);
        let rest = xs.subrange(1, xs.len() as int);
        let m = spec_encode_seq(xs);
        lemma_subrange_index(s, pos, m);
        assert(m == e0 + spec_encode_seq(rest));
        assert(s.subrange(pos, pos + e0.len() as int) =~= e0) by {
            assert forall|k: int| 0 <= k < e0.len() implies s.subrange(pos, pos + e0.len() as int)[k]
                == e0[k] by {
                assert(s[pos + k] == m[k]);
                assert(m[k] == e0[k]);
            }
        }
        lemma_check_encode(xs[0], s, pos);
        lemma_encode_len(xs[0]);
        let p1 = pos + e0.len() as int;
        let m1 = spec_encode_seq(rest);
        assert(s.subrange(p1, p1 + m1.len() as int) =~= m1) by {
            assert forall|k: int| 0 <= k < m1.len() implies s.subrange(p1, p1 + m1.len() as int)[k]
                == m1[k] by {
                assert(s[pos + (e0.len() + k)] == m[e0.len() + k]);
                assert(m[e0.len() + k] == m1[k]);
            }
        }
        lemma_check_encode_seq(rest, s, p1);
    }
}

/// Decoding a full encoding laid out at `pos` yields the frame back,
/// whatever follows it, and stands exactly after it.
pub proof fn lemma_parse_encode(f: FrameView, s: Seq<u8>, pos: int)
    requires
        frame_wf(f),
        0 <= pos,
        pos + spec_encode(f).len() <= s.len(),
        s.subrange(pos, pos + spec_encode(f).len() as int) == spec_encode(f),
    ensures
        spec_parse(s, pos) == SpecParse::Done(f, pos + spec_encode(f).len() as int),
    decreases f, 0nat,
{
    let e = spec_encode(f);
    lemma_subrange_index(s, pos, e);
    match f {
        FrameView::Simple(t) => {
            assert(e[0] == 43u8);
            assert(s[pos + 0] == e[0]);
            assert forall|k: int| 0 <= k < t.len() implies s[pos + 1 + k] == #[trigger] t[k] by {
                assert(e[1 + k] == t[k]);
            }
            assert(s[pos + 1 + t.len()] == 13u8) by {
                assert(e[1 + t.len() as int] == 13u8);
            }
            assert(s[pos + 1 + t.len() + 1] == 10u8) by {
                assert(e[1 + t.len() as int + 1] == 10u8);
            }
            lemma_find_line_at(s, pos + 1, t);
            assert(s.subrange(pos + 1, pos + 1 + t.len() as int) =~= t);
        },
        FrameView::Error(t) => {
            assert(e[0] == 45u8);
            assert(s[pos + 0] == e[0]);
            assert forall|k: int| 0 <= k < t.len() implies s[pos + 1 + k] == #[trigger] t[k] by {
                assert(e[1 + k] == t[k]);
            }
            assert(s[pos + 1 + t.len()] == 13u8) by {
                assert(e[1 + t.len() as int] == 13u8);
            }
            assert(s[pos + 1 + t.len() + 1] == 10u8) by {
                assert(e[1 + t.len() as int + 1] == 10u8);
            }
            lemma_find_line_at(s, pos + 1, t);
            assert(s.subrange(pos + 1, pos + 1 + t.len() as int) =~= t);
        },
        FrameView::Integer(n) => {
            let d = spec_dec(n as nat);
            assert(e[0] == 58u8);
            assert(s[pos + 0] == e[0]);
            assert forall|k: int| 0 <= k < d.len() implies s[pos + 1 + k] == #[trigger] d[k] by {
                assert(e[1 + k] == d[k]);
            }
            assert(s[pos + 1 + d.len()] == 13u8) by {
                assert(e[1 + d.len() as int] == 13u8);
            }
            assert(s[pos + 1 + d.len() + 1] == 10u8) by {
                assert(e[1 + d.len() as int + 1] == 10u8);
            }
            lemma_getdec_at(s, pos + 1, n);
        },
        FrameView::Null => {
            assert(e[0] == 36u8);
            assert(s[pos + 0] == e[0]);
            assert(e[1] == 45u8);
            assert(s[pos + 1] == e[1]);
            assert(e[2] == 49u8);
            assert(s[pos + 2] == e[2]);
            assert(e[3] == 13u8);
            assert(s[pos + 3] == e[3]);
            assert(e[4] == 10u8);
            assert(s[pos + 4] == e[4]);
            let marker = seq![45u8, 49u8];
            assert forall|k: int|
                0 <= k < marker.len() implies s[pos + 1 + k] == #[trigger] marker[k] by {
                if k == 0 {
                    assert(s[pos + 1] == 45u8);
                } else {
                    assert(s[pos + 2] == 49u8);
                }
            }
            assert(line_ok(marker));
            lemma_find_line_at(s, pos + 1, marker);
            assert(s.subrange(pos + 1, pos + 3) =~= marker);
        },
        FrameView::Bulk(b) => {
            let d = spec_dec(b.len());
            lemma_spec_dec(b.len());
            assert(e[0] == 36u8);
            assert(s[pos + 0] == e[0]);
            assert forall|k: int| 0 <= k < d.len() implies s[pos + 1 + k] == #[trigger] d[k] by {
                assert(e[1 + k] == d[k]);
            }
            assert(s[pos + 1] == d[0]);
            assert(is_digit(d[0]));
            assert(s[pos + 1 + d.len()] == 13u8) by {
                assert(e[1 + d.len() as int] == 13u8);
            }
            assert(s[pos + 1 + d.len() + 1] == 10u8) by {
                assert(e[1 + d.len() as int + 1] == 10u8);
            }
            lemma_getdec_at(s, pos + 1, b.len() as u64);
            let q = pos + 1 + d.len() + 2;
            assert(s.len() - q >= b.len() + 2);
            assert(s.subrange(q as int, q + b.len() as int) =~= b) by {
                assert forall|k: int|
                    0 <= k < b.len() implies s.subrange(q as int, q + b.len() as int)[k] == b[k] by {
                    assert(s[pos + (1 + d.len() + 2 + k)] == e[1 + d.len() + 2 + k]);
                    assert(e[1 + d.len() as int + 2 + k] == b[k]);
                }
            }
            assert(q + b.len() + 2 == pos + e.len());
        },
        FrameView::Array(xs) => {
            let d = spec_dec(xs.len());
            lemma_spec_dec(xs.len());
            assert(e[0] == 42u8);
            assert(s[pos + 0] == e[0]);
            assert forall|k: int| 0 <= k < d.len() implies s[pos + 1 + k] == #[trigger] d[k] by {
                assert(e[1 + k] == d[k]);
            }
            assert(s[pos + 1 + d.len()] == 13u8) by {
                assert(e[1 + d.len() as int] == 13u8);
            }
            assert(s[pos + 1 + d.len() + 1] == 10u8) by {
                assert(e[1 + d.len() as int + 1] == 10u8);
            }
            lemma_getdec_at(s, pos + 1, xs.len() as u64);
            let q = pos + 1 + d.len() + 2;
            let m = spec_encode_seq(xs);
            assert(q + m.len() == pos + e.len());
            assert(s.subrange(q, q + m.len() as int) =~= m) by {
                assert forall|k: int| 0 <= k < m.len() implies s.subrange(q, q + m.len() as int)[k]
                    == m[k] by {
                    assert(s[pos + (1 + d.len() + 2 + k)] == e[1 + d.len() + 2 + k]);
                    assert(e[1 + d.len() as int + 2 + k] == m[k]);
                }
            }
            lemma_parse_encode_seq(xs, s, q);
        },
    }
}

/// Decoding a row of full encodings laid out at `pos` yields the frames
/// back.
pub proof fn lemma_parse_encode_seq(xs: Seq<FrameView>, s: Seq<u8>, pos: int)
    requires
        frames_wf(xs),
        0 <= pos,
        pos + spec_encode_seq(xs).len() <= s.len(),
        s.subrange(pos, pos + spec_encode_seq(xs).len() as int) == spec_encode_seq(xs),
    ensures
        spec_parse_n(s, pos, xs.len()) == SpecParseSeq::Done(
            xs,
            pos + spec_encode_seq(xs).len() as int,
        ),
    decreases xs, 1nat,
{
    if xs.len() == 0 {
        assert(xs =~= Seq::<FrameView>::empty());
    } else {
        let e0 = spec_encode(xs[0]);
        let rest = xs.subrange(1, xs.len() as int);
        let m = spec_encode_seq(xs);
        lemma_subrange_index(s, pos, m);
        assert(m == e0 + spec_encode_seq(rest));
        assert(s.subrange(pos, pos + e0.len() as int) =~= e0) by {
            assert forall|k: int| 0 <= k < e0.len() implies s.subrange(pos, pos + e0.len() as int)[k]
                == e0[k] by {
                assert(s[pos + k] == m[k]);
                assert(m[k] == e0[k]);
            }
        }
        lemma_parse_encode(xs[0], s, pos);
        lemma_encode_len(xs[0]);
        let p1 = pos + e0.len() as int;
        let m1 = spec_encode_seq(rest);
        assert(s.subrange(p1, p1 + m1.len() as int) =~= m1) by {
            assert forall|k: int| 0 <= k < m1.len() implies s.subrange(p1, p1 + m1.len() as int)[k]
                == m1[k] by {
                assert(s[pos + (e0.len() + k)] == m[e0.len() + k]);
                assert(m[e0.len() as int + k] == m1[k]);
            }
        }
        lemma_parse_encode_seq(rest, s, p1);
        assert(seq![xs[0]] + rest =~= xs);
    }
}

/// Whenever a decode succeeds, the check walk succeeds too and measures
/// exactly the bytes the decode consumed.
pub proof fn lemma_parse_check(s: Seq<u8>, pos: int)
    requires
        0 <= pos,
    ensures
        forall|f: FrameView, q: int|
            spec_parse(s, pos) == SpecParse::Done(f, q) ==> spec_check(s, pos) == SpecCheck::Done(
                q,
            ),
    decreases s.len() - pos, 0nat,
{
    if pos >= s.len() {
    } else {
        let t = s[pos];
        let p = pos + 1;
        if t == 36 {
            if p < s.len() && s[p] == 45 {
                match spec_find_line(s, p) {
                    Some(i) => {
                        lemma_find_line(s, p);
                        if s.subrange(p, i) == seq![45u8, 49u8] {
                            assert(i - p == 2);
                            assert(s.len() - p >= 4);
                        }
                    },
                    None => {},
                }
            }
        } else if t == 42 {
            match spec_get_decimal(s, p) {
                SpecNum::Done(n, q) => {
                    if pos < q <= s.len() {
                        lemma_parse_check_n(s, q, n as nat);
                    }
                },
                SpecNum::Fail(_) => {},
            }
        }
    }
}

proof fn lemma_parse_check_n(s: Seq<u8>, pos: int, n: nat)
    requires
        0 <= pos,
    ensures
        forall|fs: Seq<FrameView>, q: int|
            spec_parse_n(s, pos, n) == SpecParseSeq::Done(fs, q) ==> spec_check_n(s, pos, n)
                == SpecCheck::Done(q),
    decreases s.len() - pos, n, 2nat,
{
    if n == 0 {
    } else {
        lemma_parse_check(s, pos);
        match spec_parse(s, pos) {
            SpecParse::Done(f, q) => {
                if pos < q <= s.len() {
                    lemma_parse_check_n(s, q, (n - 1) as nat);
                }
            },
            SpecParse::Fail(_) => {},
        }
    }
}

/// A strict prefix of an encoding, with nothing after it, is reported
/// `Incomplete` by the check walk.
pub proof fn lemma_check_prefix(f: FrameView, s: Seq<u8>, pos: int)
    requires
        frame_wf(f),
        0 <= pos <= s.len(),
        s.len() - pos < spec_encode(f).len(),
        forall|k: int| 0 <= k < s.len() - pos ==> s[pos + k] == #[trigger] spec_encode(f)[k],
    ensures
        spec_check(s, pos) == SpecCheck::Fail(Error::Incomplete),
    decreases f, 0nat,
{
    let e = spec_encode(f);
    let r = s.len() - pos;
    if r == 0 {
        return ;
    }
    match f {
        FrameView::Simple(t) => {
            assert(e[0] == 43u8);
            assert(s[pos + 0] == e[0]);
            assert forall|j: int| pos + 1 <= j < s.len() - 1 implies !#[trigger] crlf_at(s, j) by {
                let idx = j - pos;
                assert(s[pos + idx] == e[idx]);
                if idx <= t.len() {
                    assert(e[idx] == t[idx - 1]);
                    assert(s[j] != 13u8);
                } else {
                    assert(idx == t.len() + 1);
                    assert(j + 1 - pos < r);
                    assert(r <= t.len() + 2);
                    assert(false);
                }
            }
            lemma_find_line_none(s, pos + 1);
        },
        FrameView::Error(t) => {
            assert(e[0] == 45u8);
            assert(s[pos + 0] == e[0]);
            assert forall|j: int| pos + 1 <= j < s.len() - 1 implies !#[trigger] crlf_at(s, j) by {
                let idx = j - pos;
                assert(s[pos + idx] == e[idx]);
                if idx <= t.len() {
                    assert(e[idx] == t[idx - 1]);
                    assert(s[j] != 13u8);
                } else {
                    assert(idx == t.len() + 1);
                    assert(j + 1 - pos < r);
                    assert(r <= t.len() + 2);
                    assert(false);
                }
            }
            lemma_find_line_none(s, pos + 1);
        },
        FrameView::Integer(n) => {
            let d = spec_dec(n as nat);
            lemma_spec_dec(n as nat);
            assert(e[0] == 58u8);
            assert(s[pos + 0] == e[0]);
            assert forall|j: int| pos + 1 <= j < s.len() - 1 implies !#[trigger] crlf_at(s, j) by {
                let idx = j - pos;
                assert(s[pos + idx] == e[idx]);
                if idx <= d.len() {
                    assert(e[idx] == d[idx - 1]);
                    assert(is_digit(d[idx - 1]));
                    assert(s[j] != 13u8);
                } else {
                    assert(idx == d.len() + 1);
                    assert(j + 1 - pos < r);
                    assert(r <= d.len() + 2);
                    assert(false);
                }
            }
            lemma_find_line_none(s, pos + 1);
        },
        FrameView::Null => {
            assert(e[0] == 36u8);
            assert(s[pos + 0] == e[0]);
            if r >= 2 {
                assert(e[1] == 45u8);
                assert(s[pos + 1] == e[1]);
                assert(s.len() - (pos + 1) < 4);
            }
        },
        FrameView::Bulk(b) => {
            let d = spec_dec(b.len());
            lemma_spec_dec(b.len());
            assert(e[0] == 36u8);
            assert(s[pos + 0] == e[0]);
            if r >= 2 {
                assert(e[1] == d[0]);
                assert(s[pos + 1] == e[1]);
                assert(is_digit(d[0]));
                if r <= 1 + d.len() + 1 {
                    assert forall|j: int|
                        pos + 1 <= j < s.len() - 1 implies !#[trigger] crlf_at(s, j) by {
                        let idx = j - pos;
                        assert(s[pos + idx] == e[idx]);
                        if idx <= d.len() {
                            assert(e[idx] == d[idx - 1]);
                            assert(is_digit(d[idx - 1]));
                            assert(s[j] != 13u8);
                        } else {
                            assert(idx == d.len() + 1);
                            assert(j + 1 - pos < r);
                            assert(false);
                        }
                    }
                    lemma_find_line_none(s, pos + 1);
                } else {
                    assert forall|k: int|
                        0 <= k < d.len() implies s[pos + 1 + k] == #[trigger] d[k] by {
                        assert(s[pos + (1 + k)] == e[1 + k]);
                        assert(e[1 + k] == d[k]);
                    }
                    assert(s[pos + 1 + d.len()] == 13u8) by {
                        assert(s[pos + (1 + d.len())] == e[1 + d.len() as int]);
                        assert(e[1 + d.len() as int] == 13u8);
                    }
                    assert(s[pos + 1 + d.len() + 1] == 10u8) by {
                        assert(s[pos + (1 + d.len() + 1)] == e[1 + d.len() as int + 1]);
                        assert(e[1 + d.len() as int + 1] == 10u8);
                    }
                    lemma_getdec_at(s, pos + 1, b.len() as u64);
                    let q = pos + 1 + d.len() + 2;
                    assert(s.len() - q < b.len() + 2);
                }
            }
        },
        FrameView::Array(xs) => {
            let d = spec_dec(xs.len());
            lemma_spec_dec(xs.len());
            let m = spec_encode_seq(xs);
            assert(e[0] == 42u8);
            assert(s[pos + 0] == e[0]);
            if r < 1 + d.len() + 2 {
                assert forall|j: int|
                    pos + 1 <= j < s.len() - 1 implies !#[trigger] crlf_at(s, j) by {
                    let idx = j - pos;
                    assert(s[pos + idx] == e[idx]);
                    if idx <= d.len() {
                        assert(e[idx] == d[idx - 1]);
                        assert(is_digit(d[idx - 1]));
                        assert(s[j] != 13u8);
                    } else {
                        assert(idx == d.len() + 1);
                        assert(j + 1 - pos < r);
                        assert(false);
                    }
                }
                lemma_find_line_none(s, pos + 1);
            } else {
                assert forall|k: int| 0 <= k < d.len() implies s[pos + 1 + k] == #[trigger] d[k] by {
                    assert(s[pos + (1 + k)] == e[1 + k]);
                    assert(e[1 + k] == d[k]);
                }
                assert(s[pos + 1 + d.len()] == 13u8) by {
                    assert(s[pos + (1 + d.len())] == e[1 + d.len() as int]);
                    assert(e[1 + d.len() as int] == 13u8);
                }
                assert(s[pos + 1 + d.len() + 1] == 10u8) by {
                    assert(s[pos + (1 + d.len() + 1)] == e[1 + d.len() as int + 1]);
                    assert(e[1 + d.len() as int + 1] == 10u8);
                }
                lemma_getdec_at(s, pos + 1, xs.len() as u64);
                let q = pos + 1 + d.len() + 2;
                assert forall|k: int| 0 <= k < s.len() - q implies s[q + k] == #[trigger] m[k] by {
                    assert(s[pos + (1 + d.len() + 2 + k)] == e[1 + d.len() + 2 + k]);
                    assert(e[1 + d.len() as int + 2 + k] == m[k]);
                }
                lemma_check_prefix_seq(xs, s, q);
            }
        },
    }
}

/// A strict prefix of a row of encodings, with nothing after it, is
/// reported `Incomplete` by the check walk over the row.
pub proof fn lemma_check_prefix_seq(xs: Seq<FrameView>, s: Seq<u8>, pos: int)
    requires
        frames_wf(xs),
        0 <= pos <= s.len(),
        s.len() - pos < spec_encode_seq(xs).len(),
        forall|k: int| 0 <= k < s.len() - pos ==> s[pos + k] == #[trigger] spec_encode_seq(xs)[k],
    ensures
        spec_check_n(s, pos, xs.len()) == SpecCheck::Fail(Error::Incomplete),
    decreases xs, 1nat,
{
    let m = spec_encode_seq(xs);
    let r = s.len() - pos;
    if xs.len() == 0 {
        assert(false);
    } else {
        let e0 = spec_encode(xs[0]);
        let rest = xs.subrange(1, xs.len() as int);
        let m1 = spec_encode_seq(rest);
        assert(m == e0 + m1);
        if r < e0.len() {
            assert forall|k: int| 0 <= k < r implies s[pos + k] == #[trigger] e0[k] by {
                assert(s[pos + k] == m[k]);
                assert(m[k] == e0[k]);
            }
            lemma_check_prefix(xs[0], s, pos);
        } else {
            assert(s.subrange(pos, pos + e0.len() as int) =~= e0) by {
                assert forall|k: int|
                    0 <= k < e0.len() implies s.subrange(pos, pos + e0.len() as int)[k]
                    == e0[k] by {
                    assert(s[pos + k] == m[k]);
                    assert(m[k] == e0[k]);
                }
            }
            lemma_check_encode(xs[0], s, pos);
            lemma_encode_len(xs[0]);
            let p1 = pos + e0.len() as int;
            assert forall|k: int| 0 <= k < s.len() - p1 implies s[p1 + k] == #[trigger] m1[k] by {
                assert(s[pos + (e0.len() + k)] == m[e0.len() + k]);
                assert(m[e0.len() as int + k] == m1[k]);
            }
            lemma_check_prefix_seq(rest, s, p1);
        }
    }
}

/// Round trip: decoding the encoding of any well-formed frame yields the
/// frame again and consumes the whole encoding.
pub proof fn lemma_round_trip(f: FrameView)
    requires
        frame_wf(f),
    ensures
        spec_parse(spec_encode(f), 0) == SpecParse::Done(f, spec_encode(f).len() as int),
{
    let e = spec_encode(f);
    assert(e.subrange(0, e.len() as int) =~= e);
    lemma_parse_encode(f, e, 0);
}

/// The check walk accepts a full encoding and measures its exact length.
pub proof fn lemma_check_complete(f: FrameView)
    requires
        frame_wf(f),
    ensures
        spec_check(spec_encode(f), 0) == SpecCheck::Done(spec_encode(f).len() as int),
{
    let e = spec_encode(f);
    assert(e.subrange(0, e.len() as int) =~= e);
    lemma_check_encode(f, e, 0);
}

/// Incomplete stability: the check walk reports `Incomplete` on every
/// strict prefix of a well-formed frame's encoding.
pub proof fn lemma_prefix_incomplete(f: FrameView, i: int)
    requires
        frame_wf(f),
        0 <= i < spec_encode(f).len(),
    ensures
        spec_check(spec_encode(f).take(i), 0) == SpecCheck::Fail(Error::Incomplete),
{
    let e = spec_encode(f);
    let p = e.take(i);
    assert forall|k: int| 0 <= k < p.len() - 0 implies p[0 + k] == #[trigger] e[k] by {
        assert(p[k] == e[k]);
    }
    lemma_check_prefix(f, p, 0);
}

} // verus!
