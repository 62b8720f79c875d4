//! Get the value of a key.

use vstd::prelude::*;

use crate::commands::{arg_string, CommandError, SpecCommand};
use crate::db::Store;
use crate::frame::{Frame, FrameView};
use crate::parse::{Parse, ParseError};

verus! {

/// Get the value of a key.
#[derive(Debug)]
pub struct Get {
    pub key: Vec<u8>,
}

/// The GET grammar after the verb: exactly one text element, the key.
pub open spec fn spec_parse_get(xs: Seq<FrameView>) -> SpecCommand {
    if xs.len() < 2 {
        SpecCommand::Fail(CommandError::Parse(ParseError::EndOfStream))
    } else {
        match arg_string(xs[1]) {
            Err(e) => SpecCommand::Fail(CommandError::Parse(e)),
            Ok(k) => if xs.len() == 2 {
                SpecCommand::Get(k)
            } else {
                SpecCommand::Fail(CommandError::Parse(ParseError::Leftover))
            },
        }
    }
}

impl Get {
    pub fn new(key: Vec<u8>) -> (g: Get)
        ensures
            g.key@ == key@,
    {
        Get { key }
    }

    pub fn key(&self) -> (r: &Vec<u8>)
        ensures
            r@ == self.key@,
    {
        &self.key
    }

    /// Parse the arguments of a GET out of a received frame.
    pub fn parse_frames(parse: &mut Parse) -> (r: Result<Get, CommandError>)
        requires
            old(parse).cursor() == 1,
        ensures
            final(parse).parts == old(parse).parts,
            match r {
                Ok(g) => {
                    &&& old(parse).elems().len() >= 2
                    &&& arg_string(old(parse).elems()[1]) == Ok::<Seq<u8>, ParseError>(g.key@)
                    &&& final(parse).cursor() == 2
                    &&& (old(parse).elems().len() == 2 ==> spec_parse_get(old(parse).elems())
                        == SpecCommand::Get(g.key@))
                    &&& (old(parse).elems().len() > 2 ==> spec_parse_get(old(parse).elems())
                        == SpecCommand::Fail(CommandError::Parse(ParseError::Leftover)))
                },
                Err(e) => spec_parse_get(old(parse).elems()) == SpecCommand::Fail(e),
            },
    {
        match parse.next_string() {
            Ok(key) => Ok(Get { key }),
            Err(e) => Err(CommandError::Parse(e)),
        }
    }

    /// Apply the GET to the store: the value as a bulk frame, or null.
    pub fn apply(self, db: &Store) -> (resp: Frame)
        requires
            db.wf(),
        ensures
            resp@ == (if db.entries_map().contains_key(self.key@) {
                FrameView::Bulk(db.entries_map()[self.key@].data)
            } else {
                FrameView::Null
            }),
    {
        match db.get(self.key.as_slice()) {
            Some(value) => Frame::Bulk(value),
            None => Frame::Null,
        }
    }

    /// The request frame a client sends for this command.
    pub fn into_frame(self) -> (f: Frame)
        ensures
            f@ == FrameView::Array(
                seq![
                    FrameView::Bulk(crate::commands::verb_get()),
                    FrameView::Bulk(self.key@),
                ],
            ),
    {
        let ghost k = self.key@;
        let mut frame = Frame::array();
        frame.push_bulk(crate::commands::verb_vec(0));
        frame.push_bulk(self.key);
        proof {
            assert(Seq::<FrameView>::empty().push(FrameView::Bulk(crate::commands::verb_get()))
                .push(FrameView::Bulk(k)) =~= seq![
                FrameView::Bulk(crate::commands::verb_get()),
                FrameView::Bulk(k),
            ]);
        }
        frame
    }
}

} // verus!
