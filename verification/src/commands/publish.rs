//! Post a message to a channel.

use vstd::prelude::*;

use crate::commands::{arg_bytes, arg_string, CommandError, SpecCommand};
use crate::db::Store;
use crate::frame::{Frame, FrameView};
use crate::parse::{Parse, ParseError};

verus! {

/// Post a message to the given channel.
#[derive(Debug)]
pub struct Publish {
    pub channel: Vec<u8>,
    pub message: Vec<u8>,
}

/// The PUBLISH grammar after the verb: a channel name, then the message.
pub open spec fn spec_parse_publish(xs: Seq<FrameView>) -> SpecCommand {
    if xs.len() < 2 {
        SpecCommand::Fail(CommandError::Parse(ParseError::EndOfStream))
    } else {
        match arg_string(xs[1]) {
            Err(e) => SpecCommand::Fail(CommandError::Parse(e)),
            Ok(ch) => if xs.len() < 3 {
                SpecCommand::Fail(CommandError::Parse(ParseError::EndOfStream))
            } else {
                match arg_bytes(xs[2]) {
                    Err(e) => SpecCommand::Fail(CommandError::Parse(e)),
                    Ok(m) => if xs.len() == 3 {
                        SpecCommand::Publish(ch, m)
                    } else {
                        SpecCommand::Fail(CommandError::Parse(ParseError::Leftover))
                    },
                }
            },
        }
    }
}

impl Publish {
    pub fn new(channel: Vec<u8>, message: Vec<u8>) -> (p: Publish)
        ensures
            p.channel@ == channel@,
            p.message@ == message@,
    {
        Publish { channel, message }
    }

    /// Parse the arguments of a PUBLISH out of a received frame.
    pub fn parse_frame(parse: &mut Parse) -> (r: Result<Publish, CommandError>)
        requires
            old(parse).cursor() == 1,
        ensures
            final(parse).parts == old(parse).parts,
            match r {
                Ok(p) => {
                    &&& old(parse).elems().len() >= 3
                    &&& arg_string(old(parse).elems()[1]) == Ok::<Seq<u8>, ParseError>(p.channel@)
                    &&& arg_bytes(old(parse).elems()[2]) == Ok::<Seq<u8>, ParseError>(p.message@)
                    &&& final(parse).cursor() == 3
                    &&& (old(parse).elems().len() == 3 ==> spec_parse_publish(old(parse).elems())
                        == SpecCommand::Publish(p.channel@, p.message@))
                    &&& (old(parse).elems().len() > 3 ==> spec_parse_publish(old(parse).elems())
                        == SpecCommand::Fail(CommandError::Parse(ParseError::Leftover)))
                },
                Err(e) => spec_parse_publish(old(parse).elems()) == SpecCommand::Fail(e),
            },
    {
        let channel = match parse.next_string() {
            Ok(ch) => ch,
            Err(e) => {
                return Err(CommandError::Parse(e));
            },
        };
        let message = match parse.next_bytes() {
            Ok(m) => m,
            Err(e) => {
                return Err(CommandError::Parse(e));
            },
        };
        Ok(Publish { channel, message })
    }

    /// Apply the PUBLISH to the store: the reply counts the subscribers
    /// that were handed the message.
    pub fn apply(self, db: &Store) -> (resp: Frame)
        requires
            db.wf(),
        ensures
            resp@ is Integer,
            !db.has_channel(self.channel@) ==> resp@ == FrameView::Integer(0),
    {
        let count = db.publish(self.channel.as_slice(), self.message);
        Frame::Integer(count as u64)
    }

    /// The request frame a client sends for this command.
    pub fn into_frame(self) -> (f: Frame)
        ensures
            f@ == FrameView::Array(
                seq![
                    FrameView::Bulk(crate::commands::verb_publish()),
                    FrameView::Bulk(self.channel@),
                    FrameView::Bulk(self.message@),
                ],
            ),
    {
        let ghost ch = self.channel@;
        let ghost m = self.message@;
        let mut frame = Frame::array();
        frame.push_bulk(crate::commands::verb_vec(2));
        frame.push_bulk(self.channel);
        frame.push_bulk(self.message);
        proof {
            assert(Seq::<FrameView>::empty().push(
                FrameView::Bulk(crate::commands::verb_publish()),
            ).push(FrameView::Bulk(ch)).push(FrameView::Bulk(m)) =~= seq![
                FrameView::Bulk(crate::commands::verb_publish()),
                FrameView::Bulk(ch),
                FrameView::Bulk(m),
            ]);
        }
        frame
    }
}

} // verus!
