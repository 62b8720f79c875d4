//! The supported commands: parse, apply, and re-encode.
//!
//! A request is an array frame whose first element names the verb,
//! case-insensitively. Each verb has a record type with `parse_frames` (from
//! an open `Parse` after the verb is consumed), `apply` (the server-side
//! effect, as a pure transformation of the store), and `into_frame` (the
//! request frame a client would send).

mod get;
pub use get::Get;

mod set;
pub use set::SetCmd;

mod publish;
pub use publish::Publish;

mod subscribe;
pub use subscribe::views_of;
pub use subscribe::SessionReply;
pub use subscribe::SubscribeSession;
pub use subscribe::Subscribe;
pub use subscribe::Unsubscribe;

mod ping;
pub use ping::Ping;

mod unknown;
pub use unknown::Unknown;

use vstd::prelude::*;

use crate::db::Store;
use crate::commands::get::spec_parse_get;
use crate::frame::{Frame, FrameView};
use crate::parse::{Parse, ParseError};
use vstd::utf8::valid_utf8;

verus! {

/// Error encountered while turning a frame into a command or applying it.
#[derive(Debug, PartialEq, Eq, Structural)]
pub enum CommandError {
    /// The frame does not fit the command grammar.
    Parse(ParseError),
    /// `SET` was given a trailing token other than an expiration option.
    UnsupportedSetOption,
    /// `UNSUBSCRIBE` arrived outside subscribe mode.
    UnsubscribeUnsupported,
}

/// ASCII lowercasing of one byte.
pub open spec fn lower_byte(b: u8) -> u8 {
    if 65 <= b <= 90 {
        (b + 32) as u8
    } else {
        b
    }
}

/// ASCII lowercasing of a byte string.
pub open spec fn lower_bytes(s: Seq<u8>) -> Seq<u8> {
    Seq::new(s.len(), |i: int| lower_byte(s[i]))
}

/// ASCII lowercasing, executable.
pub fn to_lowercase(s: &[u8]) -> (r: Vec<u8>)
    ensures
        r@ == lower_bytes(s@),
{
    let mut out: Vec<u8> = Vec::new();
    let mut i: usize = 0;
    while i < s.len()
        invariant
            i <= s@.len(),
            out@.len() == i,
            forall|j: int| 0 <= j < i ==> out@[j] == lower_byte(s@[j]),
        decreases s@.len() - i,
    {
        let b = s[i];
        if 65 <= b && b <= 90 {
            out.push(b + 32);
        } else {
            out.push(b);
        }
        i = i + 1;
    }
    proof {
        assert(out@ =~= lower_bytes(s@));
    }
    out
}

/// The verbs, as the byte strings `get`, `set`, `publish`, `subscribe`,
/// `unsubscribe` and `ping`.
pub open spec fn verb_get() -> Seq<u8> {
    seq![103u8, 101u8, 116u8]
}

pub open spec fn verb_set() -> Seq<u8> {
    seq![115u8, 101u8, 116u8]
}

pub open spec fn verb_publish() -> Seq<u8> {
    seq![112u8, 117u8, 98u8, 108u8, 105u8, 115u8, 104u8]
}

pub open spec fn verb_subscribe() -> Seq<u8> {
    seq![115u8, 117u8, 98u8, 115u8, 99u8, 114u8, 105u8, 98u8, 101u8]
}

pub open spec fn verb_unsubscribe() -> Seq<u8> {
    seq![117u8, 110u8, 115u8, 117u8, 98u8, 115u8, 99u8, 114u8, 105u8, 98u8, 101u8]
}

pub open spec fn verb_ping() -> Seq<u8> {
    seq![112u8, 105u8, 110u8, 103u8]
}

/// Reading one element as text, as `next_string` does.
pub open spec fn arg_string(e: FrameView) -> Result<Seq<u8>, ParseError> {
    match e {
        FrameView::Simple(t) => if valid_utf8(t) {
            Ok(t)
        } else {
            Err(ParseError::BadString)
        },
        FrameView::Bulk(b) => if valid_utf8(b) {
            Ok(b)
        } else {
            Err(ParseError::BadString)
        },
        _ => Err(ParseError::WrongType),
    }
}

/// Reading one element as raw bytes, as `next_bytes` does.
pub open spec fn arg_bytes(e: FrameView) -> Result<Seq<u8>, ParseError> {
    match e {
        FrameView::Simple(t) => Ok(t),
        FrameView::Bulk(b) => Ok(b),
        _ => Err(ParseError::WrongType),
    }
}

/// Reading one element as an unsigned integer, as `next_int` does.
pub open spec fn arg_int(e: FrameView) -> Result<u64, ParseError> {
    match e {
        FrameView::Integer(v) => Ok(v),
        FrameView::Simple(t) => match crate::decimal::spec_atoi_u64(t) {
            Some(v) => Ok(v),
            None => Err(ParseError::BadNumber),
        },
        FrameView::Bulk(b) => match crate::decimal::spec_atoi_u64(b) {
            Some(v) => Ok(v),
            None => Err(ParseError::BadNumber),
        },
        _ => Err(ParseError::WrongType),
    }
}

/// All elements from `c` on, each read as text.
pub open spec fn spec_strings_from(xs: Seq<FrameView>, c: int) -> Result<Seq<Seq<u8>>, ParseError>
    decreases xs.len() - c,
{
    if c < 0 || c >= xs.len() {
        Ok(Seq::empty())
    } else {
        match arg_string(xs[c]) {
            Ok(s) => match spec_strings_from(xs, c + 1) {
                Ok(rest) => Ok(seq![s] + rest),
                Err(e) => Err(e),
            },
            Err(e) => Err(e),
        }
    }
}

/// Enumeration of supported commands.
pub enum Command {
    Get(Get),
    SetCmd(SetCmd),
    Publish(Publish),
    Subscribe(Subscribe),
    Unsubscribe(Unsubscribe),
    Ping(Ping),
    Unknown(Unknown),
}

/// What `Command::from_frame` yields on a given frame.
pub enum SpecCommand {
    Get(Seq<u8>),
    SetCmd(Seq<u8>, Seq<u8>, Option<u64>),
    Publish(Seq<u8>, Seq<u8>),
    Subscribe(Seq<Seq<u8>>),
    Unsubscribe(Seq<Seq<u8>>),
    Ping(Option<Seq<u8>>),
    Unknown(Seq<u8>),
    Fail(CommandError),
}

/// The command a frame stands for: an array whose first element names the
/// verb case-insensitively, with the verb's arguments after it and nothing
/// left over. An unrecognized verb is an `Unknown` command rather than an
/// error.
pub open spec fn spec_from_frame(f: FrameView) -> SpecCommand {
    if !(f is Array) {
        SpecCommand::Fail(CommandError::Parse(ParseError::NotArray))
    } else {
        let xs = f->Array_0;
        if xs.len() == 0 {
            SpecCommand::Fail(CommandError::Parse(ParseError::EndOfStream))
        } else {
            match arg_string(xs[0]) {
                Err(e) => SpecCommand::Fail(CommandError::Parse(e)),
                Ok(raw) => {
                    let name = lower_bytes(raw);
                    if name == verb_get() {
                        crate::commands::get::spec_parse_get(xs)
                    } else if name == verb_set() {
                        crate::commands::set::spec_parse_set(xs)
                    } else if name == verb_publish() {
                        crate::commands::publish::spec_parse_publish(xs)
                    } else if name == verb_subscribe() {
                        crate::commands::subscribe::spec_parse_subscribe(xs)
                    } else if name == verb_unsubscribe() {
                        crate::commands::subscribe::spec_parse_unsubscribe(xs)
                    } else if name == verb_ping() {
                        crate::commands::ping::spec_parse_ping(xs)
                    } else {
                        SpecCommand::Unknown(name)
                    }
                },
            }
        }
    }
}

/// The verb a parsed command answers to; for an unknown command the name
/// the client sent, lowercased.
pub open spec fn spec_command_name(c: SpecCommand) -> Seq<u8> {
    match c {
        SpecCommand::Get(_) => verb_get(),
        SpecCommand::SetCmd(_, _, _) => verb_set(),
        SpecCommand::Publish(_, _) => verb_publish(),
        SpecCommand::Subscribe(_) => verb_subscribe(),
        SpecCommand::Unsubscribe(_) => verb_unsubscribe(),
        SpecCommand::Ping(_) => verb_ping(),
        SpecCommand::Unknown(n) => n,
        SpecCommand::Fail(_) => Seq::empty(),
    }
}

/// What applying a command yields: a reply frame (with the
/// wake-the-eviction-task bit), or entry into subscribe mode.
pub enum Applied {
    Reply { frame: Frame, notify: bool },
    Subscribe { channels: Vec<Vec<u8>> },
}

impl Command {
    /// Parse a command out of a received frame.
    #[verifier::rlimit(100)]
    pub fn from_frame(frame: Frame) -> (r: Result<Command, CommandError>)
        ensures
            match spec_from_frame(frame@) {
                SpecCommand::Get(k) => r matches Ok(Command::Get(g)) && g.key@ == k,
                SpecCommand::SetCmd(k, v, e) => r matches Ok(Command::SetCmd(s)) && s.key@ == k
                    && s.value@ == v && s.expire == e,
                SpecCommand::Publish(ch, m) => r matches Ok(Command::Publish(p)) && p.channel@ == ch
                    && p.message@ == m,
                SpecCommand::Subscribe(chs) => r matches Ok(Command::Subscribe(s))
                    && views_of(s.channels@) == chs,
                SpecCommand::Unsubscribe(chs) => r matches Ok(Command::Unsubscribe(u))
                    && views_of(u.channels@) == chs,
                SpecCommand::Ping(m) => r matches Ok(Command::Ping(p)) && (match m {
                    Some(b) => p.msg matches Some(v) && v@ == b,
                    None => p.msg is None,
                }),
                SpecCommand::Unknown(n) => r matches Ok(Command::Unknown(u)) && u.command_name@
                    == n,
                SpecCommand::Fail(e) => r == Err::<Command, CommandError>(e),
            },
    {
        let mut parse = match Parse::new(frame) {
            Ok(p) => p,
            Err(e) => {
                return Err(CommandError::Parse(e));
            },
        };
        let raw = match parse.next_string() {
            Ok(s) => s,
            Err(e) => {
                return Err(CommandError::Parse(e));
            },
        };
        let name = to_lowercase(raw.as_slice());
        let command = if keyword(name.as_slice(), 0) {
            Command::Get(Get::parse_frames(&mut parse)?)
        } else if keyword(name.as_slice(), 1) {
            Command::SetCmd(SetCmd::parse_frames(&mut parse)?)
        } else if keyword(name.as_slice(), 2) {
            Command::Publish(Publish::parse_frame(&mut parse)?)
        } else if keyword(name.as_slice(), 3) {
            Command::Subscribe(Subscribe::parse_frame(&mut parse)?)
        } else if keyword(name.as_slice(), 4) {
            Command::Unsubscribe(Unsubscribe::parse_frame(&mut parse)?)
        } else if keyword(name.as_slice(), 5) {
            Command::Ping(Ping::parse_frames(&mut parse)?)
        } else {
            return Ok(Command::Unknown(Unknown::new(name)));
        };
        match parse.finish() {
            Ok(_) => Ok(command),
            Err(e) => Err(CommandError::Parse(e)),
        }
    }

    /// The verb this command answers to; for an unknown command, the name
    /// the client sent, lowercased.
    pub fn get_name(&self) -> (r: Vec<u8>)
        ensures
            r@ == match self {
                Command::Get(_) => verb_get(),
                Command::SetCmd(_) => verb_set(),
                Command::Publish(_) => verb_publish(),
                Command::Subscribe(_) => verb_subscribe(),
                Command::Unsubscribe(_) => verb_unsubscribe(),
                Command::Ping(_) => verb_ping(),
                Command::Unknown(u) => u.command_name@,
            },
    {
        match self {
            Command::Get(_) => verb_vec(0),
            Command::SetCmd(_) => verb_vec(1),
            Command::Publish(_) => verb_vec(2),
            Command::Subscribe(_) => verb_vec(3),
            Command::Unsubscribe(_) => verb_vec(4),
            Command::Ping(_) => verb_vec(5),
            Command::Unknown(u) => vstd::slice::slice_to_vec(u.get_name().as_slice()),
        }
    }

    /// Apply the command to the store: every verb but SUBSCRIBE yields one
    /// reply frame; SUBSCRIBE switches the connection into subscribe mode;
    /// UNSUBSCRIBE is not legal here.
    pub fn apply(self, db: &mut Store, now: u64) -> (r: Result<Applied, CommandError>)
        requires
            old(db).wf(),
        ensures
            final(db).wf(),
            final(db).shutdown == old(db).shutdown,
            match self {
                Command::Get(g) => {
                    &&& *final(db) == *old(db)
                    &&& (r matches Ok(Applied::Reply { frame, notify }) && !notify && frame@ == (
                    if old(db).entries_map().contains_key(g.key@) {
                        FrameView::Bulk(old(db).entries_map()[g.key@].data)
                    } else {
                        FrameView::Null
                    }))
                },
                Command::SetCmd(s) => {
                    &&& final(db).entries_map() == old(db).entries_map().insert(
                        s.key@,
                        (crate::db::EntryView {
                            data: s.value@,
                            expires_at: match s.expire {
                                Some(d) => Some(crate::commands::set::at_instant(now, d)),
                                None => None,
                            },
                        }),
                    )
                    &&& final(db).pub_sub == old(db).pub_sub
                    &&& (r matches Ok(Applied::Reply { frame, notify }) && frame@
                        == FrameView::Simple(crate::commands::set::ok_bytes()) && notify == (
                    match s.expire {
                        Some(d) => match old(db).next_expiration() {
                            None => true,
                            Some(m) => crate::commands::set::at_instant(now, d) < m,
                        },
                        None => false,
                    }))
                },
                Command::Publish(p) => {
                    &&& *final(db) == *old(db)
                    &&& (r matches Ok(Applied::Reply { frame, notify }) && !notify && frame@
                        is Integer)
                    &&& (!old(db).has_channel(p.channel@) ==> (r matches Ok(Applied::Reply {
                        frame,
                        notify,
                    }) && frame@ == FrameView::Integer(0)))
                },
                Command::Subscribe(s) => {
                    &&& *final(db) == *old(db)
                    &&& (r matches Ok(Applied::Subscribe { channels }) && channels == s.channels)
                },
                Command::Unsubscribe(_) => {
                    &&& *final(db) == *old(db)
                    &&& r == Err::<Applied, CommandError>(CommandError::UnsubscribeUnsupported)
                },
                Command::Ping(p) => {
                    &&& *final(db) == *old(db)
                    &&& (r matches Ok(Applied::Reply { frame, notify }) && !notify && frame@ == (
                    match p.msg {
                        Some(m) => FrameView::Bulk(m@),
                        None => FrameView::Simple(crate::commands::ping::pong_bytes()),
                    }))
                },
                Command::Unknown(u) => {
                    &&& *final(db) == *old(db)
                    &&& (r matches Ok(Applied::Reply { frame, notify }) && !notify && frame@
                        == FrameView::Error(
                        crate::commands::unknown::unknown_msg(u.command_name@),
                    ))
                },
            },
    {
        match self {
            Command::Get(cmd) => {
                let frame = cmd.apply(db);
                Ok(Applied::Reply { frame, notify: false })
            },
            Command::SetCmd(cmd) => {
                let (frame, notify) = cmd.apply(db, now);
                Ok(Applied::Reply { frame, notify })
            },
            Command::Publish(cmd) => {
                let frame = cmd.apply(db);
                Ok(Applied::Reply { frame, notify: false })
            },
            Command::Subscribe(cmd) => Ok(Applied::Subscribe { channels: cmd.into_channels() }),
            Command::Unsubscribe(_) => Err(CommandError::UnsubscribeUnsupported),
            Command::Ping(cmd) => {
                let frame = cmd.apply();
                Ok(Applied::Reply { frame, notify: false })
            },
            Command::Unknown(cmd) => {
                let frame = cmd.apply();
                Ok(Applied::Reply { frame, notify: false })
            },
        }
    }
}

/// The verb at `which` in the order GET, SET, PUBLISH, SUBSCRIBE,
/// UNSUBSCRIBE, PING.
pub open spec fn spec_verb(which: int) -> Seq<u8> {
    if which == 0 {
        verb_get()
    } else if which == 1 {
        verb_set()
    } else if which == 2 {
        verb_publish()
    } else if which == 3 {
        verb_subscribe()
    } else if which == 4 {
        verb_unsubscribe()
    } else {
        verb_ping()
    }
}

fn verb_vec(which: usize) -> (r: Vec<u8>)
    requires
        which <= 5,
    ensures
        r@ == spec_verb(which as int),
{
    let mut v: Vec<u8> = Vec::new();
    if which == 0 {
        v.push(103);
        v.push(101);
        v.push(116);
        proof {
            assert(v@ =~= verb_get());
        }
    } else if which == 1 {
        v.push(115);
        v.push(101);
        v.push(116);
        proof {
            assert(v@ =~= verb_set());
        }
    } else if which == 2 {
        v.push(112);
        v.push(117);
        v.push(98);
        v.push(108);
        v.push(105);
        v.push(115);
        v.push(104);
        proof {
            assert(v@ =~= verb_publish());
        }
    } else if which == 3 {
        v.push(115);
        v.push(117);
        v.push(98);
        v.push(115);
        v.push(99);
        v.push(114);
        v.push(105);
        v.push(98);
        v.push(101);
        proof {
            assert(v@ =~= verb_subscribe());
        }
    } else if which == 4 {
        v.push(117);
        v.push(110);
        v.push(115);
        v.push(117);
        v.push(98);
        v.push(115);
        v.push(99);
        v.push(114);
        v.push(105);
        v.push(98);
        v.push(101);
        proof {
            assert(v@ =~= verb_unsubscribe());
        }
    } else {
        v.push(112);
        v.push(105);
        v.push(110);
        v.push(103);
        proof {
            assert(v@ =~= verb_ping());
        }
    }
    v
}

/// Whether `name` is the verb at `which`.
fn keyword(name: &[u8], which: usize) -> (r: bool)
    requires
        which <= 5,
    ensures
        r == (name@ == spec_verb(which as int)),
{
    let v = verb_vec(which);
    crate::db::bytes_eq(name, v.as_slice())
}

} // verus!
