//! Set the value of a key, with an optional expiration.

use vstd::prelude::*;

use crate::commands::{arg_bytes, arg_int, arg_string, lower_bytes, CommandError, SpecCommand};
use crate::db::Store;
use crate::frame::{Frame, FrameView};
use crate::parse::{Parse, ParseError};

verus! {

/// Set the value of a key; `expire` is a time to live in milliseconds.
#[derive(Debug)]
pub struct SetCmd {
    pub key: Vec<u8>,
    pub value: Vec<u8>,
    pub expire: Option<u64>,
}

/// The bytes of `ex`, `px` and `OK`.
pub open spec fn kw_ex() -> Seq<u8> {
    seq![101u8, 120u8]
}

pub open spec fn kw_px() -> Seq<u8> {
    seq![112u8, 120u8]
}

pub open spec fn ok_bytes() -> Seq<u8> {
    seq![79u8, 75u8]
}

/// Seconds become milliseconds; a count too large to represent saturates.
pub open spec fn secs_to_ms(secs: u64) -> u64 {
    if secs > u64::MAX / 1000 {
        u64::MAX
    } else {
        (secs * 1000) as u64
    }
}

/// The instant at which an entry set at `now` with this many milliseconds
/// to live expires; the clock saturates rather than wraps.
pub open spec fn at_instant(now: u64, ms: u64) -> u64 {
    if now + ms > u64::MAX {
        u64::MAX
    } else {
        (now + ms) as u64
    }
}

/// The SET grammar after the verb: a key, a value, then optionally `EX
/// seconds` or `PX milliseconds` (the keyword is matched
/// case-insensitively); any other trailing token is refused.
pub open spec fn spec_parse_set(xs: Seq<FrameView>) -> SpecCommand {
    if xs.len() < 2 {
        SpecCommand::Fail(CommandError::Parse(ParseError::EndOfStream))
    } else {
        match arg_string(xs[1]) {
            Err(e) => SpecCommand::Fail(CommandError::Parse(e)),
            Ok(k) => if xs.len() < 3 {
                SpecCommand::Fail(CommandError::Parse(ParseError::EndOfStream))
            } else {
                match arg_bytes(xs[2]) {
                    Err(e) => SpecCommand::Fail(CommandError::Parse(e)),
                    Ok(v) => if xs.len() == 3 {
                    SpecCommand::SetCmd(k, v, None)
                } else {
                    match arg_string(xs[3]) {
                        Err(e) => SpecCommand::Fail(CommandError::Parse(e)),
                        Ok(opt) => if lower_bytes(opt) == kw_ex() {
                            if xs.len() < 5 {
                                SpecCommand::Fail(CommandError::Parse(ParseError::EndOfStream))
                            } else {
                                match arg_int(xs[4]) {
                                    Err(e) => SpecCommand::Fail(CommandError::Parse(e)),
                                    Ok(secs) => if xs.len() == 5 {
                                        SpecCommand::SetCmd(k, v, Some(secs_to_ms(secs)))
                                    } else {
                                        SpecCommand::Fail(
                                            CommandError::Parse(ParseError::Leftover),
                                        )
                                    },
                                }
                            }
                        } else if lower_bytes(opt) == kw_px() {
                            if xs.len() < 5 {
                                SpecCommand::Fail(CommandError::Parse(ParseError::EndOfStream))
                            } else {
                                match arg_int(xs[4]) {
                                    Err(e) => SpecCommand::Fail(CommandError::Parse(e)),
                                    Ok(ms) => if xs.len() == 5 {
                                        SpecCommand::SetCmd(k, v, Some(ms))
                                    } else {
                                        SpecCommand::Fail(
                                            CommandError::Parse(ParseError::Leftover),
                                        )
                                    },
                                }
                            }
                        } else {
                            SpecCommand::Fail(CommandError::UnsupportedSetOption)
                        },
                    }
                },
                }
            },
        }
    }
}


impl SetCmd {
    pub fn new(key: Vec<u8>, value: Vec<u8>, expire: Option<u64>) -> (s: SetCmd)
        ensures
            s.key@ == key@,
            s.value@ == value@,
            s.expire == expire,
    {
        SetCmd { key, value, expire }
    }

    pub fn key(&self) -> (r: &Vec<u8>)
        ensures
            r@ == self.key@,
    {
        &self.key
    }

    pub fn value(&self) -> (r: &Vec<u8>)
        ensures
            r@ == self.value@,
    {
        &self.value
    }

    pub fn expire(&self) -> (r: Option<u64>)
        ensures
            r == self.expire,
    {
        self.expire
    }

    /// Parse the arguments of a SET out of a received frame.
    #[verifier::rlimit(50)]
    pub fn parse_frames(parse: &mut Parse) -> (r: Result<SetCmd, CommandError>)
        requires
            old(parse).cursor() == 1,
        ensures
            final(parse).parts == old(parse).parts,
            match r {
                Ok(s) => spec_parse_set(old(parse).elems()) == SpecCommand::SetCmd(
                    s.key@,
                    s.value@,
                    s.expire,
                ) && final(parse).cursor() == old(parse).elems().len(),
                Err(e) => spec_parse_set(old(parse).elems()) == SpecCommand::Fail(e),
            },
    {
        let ghost xs = parse.elems();
        let key = match parse.next_string() {
            Ok(k) => k,
            Err(e) => {
                return Err(CommandError::Parse(e));
            },
        };
        let value = match parse.next_bytes() {
            Ok(v) => v,
            Err(e) => {
                return Err(CommandError::Parse(e));
            },
        };
        let mut expire: Option<u64> = None;
        match parse.next_string() {
            Ok(opt) => {
                let lowered = crate::commands::to_lowercase(opt.as_slice());
                let is_ex = lowered.len() == 2 && lowered[0] == 101 && lowered[1] == 120;
                let is_px = lowered.len() == 2 && lowered[0] == 112 && lowered[1] == 120;
                proof {
                    assert(is_ex == (lowered@ =~= kw_ex()));
                    assert(is_px == (lowered@ =~= kw_px()));
                }
                if is_ex {
                    let secs = match parse.next_int() {
                        Ok(n) => n,
                        Err(e) => {
                            return Err(CommandError::Parse(e));
                        },
                    };
                    if secs > u64::MAX / 1000 {
                        expire = Some(u64::MAX);
                    } else {
                        expire = Some(secs * 1000);
                    }
                } else if is_px {
                    let ms = match parse.next_int() {
                        Ok(n) => n,
                        Err(e) => {
                            return Err(CommandError::Parse(e));
                        },
                    };
                    expire = Some(ms);
                } else {
                    return Err(CommandError::UnsupportedSetOption);
                }
            },
            Err(ParseError::EndOfStream) => {},
            Err(e) => {
                return Err(CommandError::Parse(e));
            },
        }
        // a token after the expiration option is refused by `finish`, which
        // the caller runs; flag it here so the contract is exact
        proof {
            crate::frame::lemma_frames_view_len(parse.parts@);
        }
        if parse.pos < parse.parts.len() {
            proof {
                assert(spec_parse_set(xs) == SpecCommand::Fail(
                    CommandError::Parse(ParseError::Leftover),
                ));
            }
            return Err(CommandError::Parse(ParseError::Leftover));
        }
        proof {
            assert(spec_parse_set(xs) == SpecCommand::SetCmd(key@, value@, expire));
        }
        Ok(SetCmd { key, value, expire })
    }

    /// Apply the SET to the store, answering `OK`; the flag reports
    /// whether the eviction task must be woken.
    pub fn apply(self, db: &mut Store, now: u64) -> (r: (Frame, bool))
        requires
            old(db).wf(),
        ensures
            final(db).wf(),
            final(db).entries_map() == old(db).entries_map().insert(
                self.key@,
                (crate::db::EntryView {
                    data: self.value@,
                    expires_at: match self.expire {
                        Some(d) => Some(at_instant(now, d)),
                        None => None,
                    },
                }),
            ),
            final(db).pub_sub == old(db).pub_sub,
            final(db).shutdown == old(db).shutdown,
            r.0@ == FrameView::Simple(ok_bytes()),
            r.1 == (match self.expire {
                Some(d) => match old(db).next_expiration() {
                    None => true,
                    Some(m) => at_instant(now, d) < m,
                },
                None => false,
            }),
    {
        let expire = match self.expire {
            Some(d) => {
                if d > u64::MAX - now {
                    Some(u64::MAX - now)
                } else {
                    Some(d)
                }
            },
            None => None,
        };
        let notify = db.set(self.key, self.value, expire, now);
        let mut ok: Vec<u8> = Vec::new();
        ok.push(79);
        ok.push(75);
        proof {
            assert(ok@ =~= ok_bytes());
        }
        (Frame::Simple(ok), notify)
    }

    /// The request frame a client sends for this command; an expiration
    /// rides as `px milliseconds`.
    pub fn into_frame(self) -> (f: Frame)
        ensures
            f@ == (match self.expire {
                None => FrameView::Array(
                    seq![
                        FrameView::Bulk(crate::commands::verb_set()),
                        FrameView::Bulk(self.key@),
                        FrameView::Bulk(self.value@),
                    ],
                ),
                Some(ms) => FrameView::Array(
                    seq![
                        FrameView::Bulk(crate::commands::verb_set()),
                        FrameView::Bulk(self.key@),
                        FrameView::Bulk(self.value@),
                        FrameView::Bulk(kw_px()),
                        FrameView::Integer(ms),
                    ],
                ),
            }),
    {
        let ghost k = self.key@;
        let ghost v = self.value@;
        let mut frame = Frame::array();
        frame.push_bulk(crate::commands::verb_vec(1));
        frame.push_bulk(self.key);
        frame.push_bulk(self.value);
        match self.expire {
            Some(ms) => {
                let mut px: Vec<u8> = Vec::new();
                px.push(112);
                px.push(120);
                proof {
                    assert(px@ =~= kw_px());
                }
                frame.push_bulk(px);
                frame.push_int(ms);
                proof {
                    assert(Seq::<FrameView>::empty().push(
                        FrameView::Bulk(crate::commands::verb_set()),
                    ).push(FrameView::Bulk(k)).push(FrameView::Bulk(v)).push(
                        FrameView::Bulk(kw_px()),
                    ).push(FrameView::Integer(ms)) =~= seq![
                        FrameView::Bulk(crate::commands::verb_set()),
                        FrameView::Bulk(k),
                        FrameView::Bulk(v),
                        FrameView::Bulk(kw_px()),
                        FrameView::Integer(ms),
                    ]);
                }
            },
            None => {
                proof {
                    assert(Seq::<FrameView>::empty().push(
                        FrameView::Bulk(crate::commands::verb_set()),
                    ).push(FrameView::Bulk(k)).push(FrameView::Bulk(v)) =~= seq![
                        FrameView::Bulk(crate::commands::verb_set()),
                        FrameView::Bulk(k),
                        FrameView::Bulk(v),
                    ]);
                }
            },
        }
        frame
    }
}

} // verus!
