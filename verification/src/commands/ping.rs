//! Liveness probe.

use vstd::prelude::*;

use crate::commands::{arg_bytes, CommandError, SpecCommand};
use crate::frame::{Frame, FrameView};
use crate::parse::{Parse, ParseError};

verus! {

/// Answers `PONG` when no argument is given, else echoes the argument.
#[derive(Debug)]
pub struct Ping {
    pub msg: Option<Vec<u8>>,
}

/// The bytes of `PONG`.
pub open spec fn pong_bytes() -> Seq<u8> {
    seq![80u8, 79u8, 78u8, 71u8]
}

/// The PING grammar after the verb: at most one payload element.
pub open spec fn spec_parse_ping(xs: Seq<FrameView>) -> SpecCommand {
    if xs.len() < 2 {
        SpecCommand::Ping(None)
    } else {
        match crate::commands::arg_bytes(xs[1]) {
            Err(e) => SpecCommand::Fail(CommandError::Parse(e)),
            Ok(m) => if xs.len() == 2 {
                SpecCommand::Ping(Some(m))
            } else {
                SpecCommand::Fail(CommandError::Parse(ParseError::Leftover))
            },
        }
    }
}

impl Ping {
    pub fn new(msg: Option<Vec<u8>>) -> (p: Ping)
        ensures
            p.msg == msg,
    {
        Ping { msg }
    }

    /// Parse the arguments of a PING out of a received frame.
    pub fn parse_frames(parse: &mut Parse) -> (r: Result<Ping, CommandError>)
        requires
            old(parse).cursor() == 1,
        ensures
            final(parse).parts == old(parse).parts,
            match r {
                Ok(p) => {
                    &&& (p.msg is None ==> old(parse).elems().len() < 2 && *final(parse) == *old(
                        parse,
                    ) && spec_parse_ping(old(parse).elems()) == SpecCommand::Ping(None))
                    &&& (p.msg matches Some(m) ==> {
                        &&& old(parse).elems().len() >= 2
                        &&& arg_bytes(old(parse).elems()[1]) == Ok::<Seq<u8>, ParseError>(m@)
                        &&& final(parse).cursor() == 2
                        &&& (old(parse).elems().len() == 2 ==> spec_parse_ping(old(parse).elems())
                            == SpecCommand::Ping(Some(m@)))
                        &&& (old(parse).elems().len() > 2 ==> spec_parse_ping(old(parse).elems())
                            == SpecCommand::Fail(CommandError::Parse(ParseError::Leftover)))
                    })
                },
                Err(e) => spec_parse_ping(old(parse).elems()) == SpecCommand::Fail(e),
            },
    {
        match parse.next_bytes() {
            Ok(m) => Ok(Ping { msg: Some(m) }),
            Err(ParseError::EndOfStream) => Ok(Ping { msg: None }),
            Err(e) => Err(CommandError::Parse(e)),
        }
    }

    /// Apply the PING: `PONG`, or the echoed payload.
    pub fn apply(self) -> (resp: Frame)
        ensures
            resp@ == (match self.msg {
                Some(m) => FrameView::Bulk(m@),
                None => FrameView::Simple(pong_bytes()),
            }),
    {
        match self.msg {
            Some(m) => Frame::Bulk(m),
            None => {
                let mut pong: Vec<u8> = Vec::new();
                pong.push(80);
                pong.push(79);
                pong.push(78);
                pong.push(71);
                proof {
                    assert(pong@ =~= pong_bytes());
                }
                Frame::Simple(pong)
            },
        }
    }

    /// The request frame a client sends for this command.
    pub fn into_frame(self) -> (f: Frame)
        ensures
            f@ == (match self.msg {
                None => FrameView::Array(
                    seq![FrameView::Bulk(crate::commands::verb_ping())],
                ),
                Some(m) => FrameView::Array(
                    seq![
                        FrameView::Bulk(crate::commands::verb_ping()),
                        FrameView::Bulk(m@),
                    ],
                ),
            }),
    {
        let mut frame = Frame::array();
        frame.push_bulk(crate::commands::verb_vec(5));
        match self.msg {
            Some(m) => {
                let ghost gm = m@;
                frame.push_bulk(m);
                proof {
                    assert(Seq::<FrameView>::empty().push(
                        FrameView::Bulk(crate::commands::verb_ping()),
                    ).push(FrameView::Bulk(gm)) =~= seq![
                        FrameView::Bulk(crate::commands::verb_ping()),
                        FrameView::Bulk(gm),
                    ]);
                }
            },
            None => {
                proof {
                    assert(Seq::<FrameView>::empty().push(
                        FrameView::Bulk(crate::commands::verb_ping()),
                    ) =~= seq![FrameView::Bulk(crate::commands::verb_ping())]);
                }
            },
        }
        frame
    }
}

} // verus!
