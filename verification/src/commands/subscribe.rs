//! Subscribing to channels, and the subscribe-mode state machine.
//!
//! Applying a SUBSCRIBE switches a connection into subscribe mode. The
//! decisions of that mode live in `SubscribeSession`: which channels are
//! pending, which are materialized, and what reply frames each event earns.
//! The caller runs the waiting (socket reads, broadcast receivers, the
//! shutdown signal) and feeds events in.

use vstd::prelude::*;

use crate::commands::{spec_strings_from, Command, CommandError, SpecCommand};
use crate::frame::{Frame, FrameView};
use crate::parse::{Parse, ParseError};

verus! {

/// The views of a list of byte strings.
pub open spec fn views_of(s: Seq<Vec<u8>>) -> Seq<Seq<u8>> {
    Seq::new(s.len(), |i: int| s[i]@)
}

/// Subscribe the client to one or more channels.
#[derive(Debug)]
pub struct Subscribe {
    pub channels: Vec<Vec<u8>>,
}

/// Unsubscribe the client from one or more channels; an empty list means
/// all currently subscribed.
#[derive(Debug)]
pub struct Unsubscribe {
    pub channels: Vec<Vec<u8>>,
}

/// The SUBSCRIBE grammar after the verb: one or more channel names.
pub open spec fn spec_parse_subscribe(xs: Seq<FrameView>) -> SpecCommand {
    if xs.len() < 2 {
        SpecCommand::Fail(CommandError::Parse(ParseError::EndOfStream))
    } else {
        match spec_strings_from(xs, 1) {
            Ok(chs) => SpecCommand::Subscribe(chs),
            Err(e) => SpecCommand::Fail(CommandError::Parse(e)),
        }
    }
}

/// The UNSUBSCRIBE grammar after the verb: any number of channel names.
pub open spec fn spec_parse_unsubscribe(xs: Seq<FrameView>) -> SpecCommand {
    match spec_strings_from(xs, 1) {
        Ok(chs) => SpecCommand::Unsubscribe(chs),
        Err(e) => SpecCommand::Fail(CommandError::Parse(e)),
    }
}

/// Collect every remaining element as a channel name.
#[verifier::loop_isolation(false)]
fn strings_to_end(parse: &mut Parse, mut acc: Vec<Vec<u8>>) -> (r: Result<
    Vec<Vec<u8>>,
    ParseError,
>)
    ensures
        final(parse).parts == old(parse).parts,
        match spec_strings_from(old(parse).elems(), old(parse).cursor()) {
            Ok(rest) => (r matches Ok(v) && views_of(v@) == views_of(acc@) + rest
                && final(parse).cursor() >= old(parse).elems().len()),
            Err(e) => r == Err::<Vec<Vec<u8>>, ParseError>(e),
        },
    decreases old(parse).elems().len() - old(parse).cursor(),
{
    let ghost xs = parse.elems();
    let ghost c = parse.pos as int;
    proof {
        crate::frame::lemma_frames_view_len(parse.parts@);
    }
    if parse.pos >= parse.parts.len() {
        proof {
            assert(views_of(acc@) + Seq::<Seq<u8>>::empty() =~= views_of(acc@));
        }
        return Ok(acc);
    }
    match parse.next_string() {
        Ok(s) => {
            let ghost a0 = acc@;
            let ghost sv = s@;
            acc.push(s);
            proof {
                assert(views_of(acc@) =~= views_of(a0) + seq![sv]);
            }
            let r = strings_to_end(parse, acc);
            proof {
                match spec_strings_from(xs, c) {
                    Ok(_) => {
                        match spec_strings_from(xs, c + 1) {
                            Ok(rest) => {
                                assert((views_of(a0) + seq![sv]) + rest =~= views_of(a0) + (
                                seq![sv] + rest));
                            },
                            Err(_) => {},
                        }
                    },
                    Err(_) => {},
                }
            }
            r
        },
        Err(e) => Err(e),
    }
}

impl Subscribe {
    pub fn new(channels: Vec<Vec<u8>>) -> (s: Subscribe)
        ensures
            s.channels == channels,
    {
        Subscribe { channels }
    }

    /// Parse the arguments of a SUBSCRIBE out of a received frame.
    pub fn parse_frame(parse: &mut Parse) -> (r: Result<Subscribe, CommandError>)
        requires
            old(parse).cursor() == 1,
        ensures
            final(parse).parts == old(parse).parts,
            match spec_parse_subscribe(old(parse).elems()) {
                SpecCommand::Subscribe(chs) => (r matches Ok(s) && views_of(s.channels@) == chs
                    && final(parse).cursor() >= old(parse).elems().len()),
                SpecCommand::Fail(e) => r == Err::<Subscribe, CommandError>(e),
                _ => false,
            },
    {
        let ghost xs = parse.elems();
        proof {
            crate::frame::lemma_frames_view_len(parse.parts@);
        }
        if parse.pos >= parse.parts.len() {
            return Err(CommandError::Parse(ParseError::EndOfStream));
        }
        match strings_to_end(parse, Vec::new()) {
            Ok(channels) => {
                proof {
                    match spec_strings_from(xs, 1) {
                        Ok(chs) => {
                            assert(views_of(Seq::<Vec<u8>>::empty()) + chs =~= chs);
                        },
                        Err(_) => {},
                    }
                }
                Ok(Subscribe { channels })
            },
            Err(e) => Err(CommandError::Parse(e)),
        }
    }

    /// The channels this command subscribes to.
    pub fn into_channels(self) -> (r: Vec<Vec<u8>>)
        ensures
            r == self.channels,
    {
        self.channels
    }

    /// The request frame a client sends for this command.
    pub fn into_frame(self) -> (f: Frame)
        ensures
            f@ is Array,
            f@->Array_0.len() == 1 + self.channels@.len(),
            f@->Array_0[0] == FrameView::Bulk(crate::commands::verb_subscribe()),
            forall|i: int|
                0 <= i < self.channels@.len() ==> f@->Array_0[i + 1] == FrameView::Bulk(
                    views_of(self.channels@)[i],
                ),
    {
        let ghost chs = self.channels@;
        let mut frame = Frame::array();
        frame.push_bulk(crate::commands::verb_vec(3));
        let mut rest = self.channels;
        let n = rest.len();
        let mut i: usize = 0;
        // move the channel names into the frame front to back
        while i < n
            invariant
                i <= n,
                n == chs.len(),
                rest@ == chs.skip(i as int),
                frame@ is Array,
                frame@->Array_0.len() == 1 + i,
                frame@->Array_0[0] == FrameView::Bulk(crate::commands::verb_subscribe()),
                forall|j: int|
                    0 <= j < i ==> frame@->Array_0[j + 1] == FrameView::Bulk(
                        #[trigger] views_of(chs)[j],
                    ),
            decreases n - i,
        {
            let ch = rest.remove(0);
            proof {
                assert(chs.skip(i as int).remove(0) =~= chs.skip(i as int + 1));
                assert(chs.skip(i as int)[0] == chs[i as int]);
            }
            frame.push_bulk(ch);
            i = i + 1;
        }
        frame
    }
}

impl Unsubscribe {
    pub fn new(channels: Vec<Vec<u8>>) -> (u: Unsubscribe)
        ensures
            u.channels == channels,
    {
        Unsubscribe { channels }
    }

    /// Parse the arguments of an UNSUBSCRIBE out of a received frame.
    pub fn parse_frame(parse: &mut Parse) -> (r: Result<Unsubscribe, CommandError>)
        requires
            old(parse).cursor() == 1,
        ensures
            final(parse).parts == old(parse).parts,
            match spec_parse_unsubscribe(old(parse).elems()) {
                SpecCommand::Unsubscribe(chs) => (r matches Ok(u) && views_of(u.channels@) == chs
                    && final(parse).cursor() >= old(parse).elems().len()),
                SpecCommand::Fail(e) => r == Err::<Unsubscribe, CommandError>(e),
                _ => false,
            },
    {
        let ghost xs = parse.elems();
        match strings_to_end(parse, Vec::new()) {
            Ok(channels) => {
                proof {
                    match spec_strings_from(xs, 1) {
                        Ok(chs) => {
                            assert(views_of(Seq::<Vec<u8>>::empty()) + chs =~= chs);
                        },
                        Err(_) => {},
                    }
                }
                Ok(Unsubscribe { channels })
            },
            Err(e) => Err(CommandError::Parse(e)),
        }
    }

    /// The channels this command unsubscribes from.
    pub fn into_channels(self) -> (r: Vec<Vec<u8>>)
        ensures
            r == self.channels,
    {
        self.channels
    }

    /// The request frame a client sends for this command.
    pub fn into_frame(self) -> (f: Frame)
        ensures
            f@ is Array,
            f@->Array_0.len() == 1 + self.channels@.len(),
            f@->Array_0[0] == FrameView::Bulk(crate::commands::verb_unsubscribe()),
            forall|i: int|
                0 <= i < self.channels@.len() ==> f@->Array_0[i + 1] == FrameView::Bulk(
                    views_of(self.channels@)[i],
                ),
    {
        let ghost chs = self.channels@;
        let mut frame = Frame::array();
        frame.push_bulk(crate::commands::verb_vec(4));
        let mut rest = self.channels;
        let n = rest.len();
        let mut i: usize = 0;
        while i < n
            invariant
                i <= n,
                n == chs.len(),
                rest@ == chs.skip(i as int),
                frame@ is Array,
                frame@->Array_0.len() == 1 + i,
                frame@->Array_0[0] == FrameView::Bulk(crate::commands::verb_unsubscribe()),
                forall|j: int|
                    0 <= j < i ==> frame@->Array_0[j + 1] == FrameView::Bulk(
                        #[trigger] views_of(chs)[j],
                    ),
            decreases n - i,
        {
            let ch = rest.remove(0);
            proof {
                assert(chs.skip(i as int).remove(0) =~= chs.skip(i as int + 1));
                assert(chs.skip(i as int)[0] == chs[i as int]);
            }
            frame.push_bulk(ch);
            i = i + 1;
        }
        frame
    }
}

/// The bytes of `message`.
pub open spec fn kw_message() -> Seq<u8> {
    seq![109u8, 101u8, 115u8, 115u8, 97u8, 103u8, 101u8]
}

/// The reply confirming one subscription, carrying the number of channels
/// now subscribed.
pub open spec fn subscribe_frame(ch: Seq<u8>, n: u64) -> FrameView {
    FrameView::Array(
        seq![
            FrameView::Bulk(crate::commands::verb_subscribe()),
            FrameView::Bulk(ch),
            FrameView::Integer(n),
        ],
    )
}

/// The reply confirming one unsubscription, carrying the number of
/// channels left.
pub open spec fn unsubscribe_frame(ch: Seq<u8>, n: u64) -> FrameView {
    FrameView::Array(
        seq![
            FrameView::Bulk(crate::commands::verb_unsubscribe()),
            FrameView::Bulk(ch),
            FrameView::Integer(n),
        ],
    )
}

/// The frame delivering one published message to a subscriber.
pub open spec fn message_frame(ch: Seq<u8>, msg: Seq<u8>) -> FrameView {
    FrameView::Array(
        seq![
            FrameView::Bulk(kw_message()),
            FrameView::Bulk(ch),
            FrameView::Bulk(msg),
        ],
    )
}

/// Create the reply to one subscription.
pub fn make_subscribe_frame(channel_name: Vec<u8>, num_subs: u64) -> (f: Frame)
    ensures
        f@ == subscribe_frame(channel_name@, num_subs),
{
    let ghost ch = channel_name@;
    let mut frame = Frame::array();
    frame.push_bulk(crate::commands::verb_vec(3));
    frame.push_bulk(channel_name);
    frame.push_int(num_subs);
    proof {
        assert(Seq::<FrameView>::empty().push(
            FrameView::Bulk(crate::commands::verb_subscribe()),
        ).push(FrameView::Bulk(ch)).push(FrameView::Integer(num_subs)) =~= seq![
            FrameView::Bulk(crate::commands::verb_subscribe()),
            FrameView::Bulk(ch),
            FrameView::Integer(num_subs),
        ]);
    }
    frame
}

/// Create the reply to one unsubscription.
pub fn make_unsubscribe_frame(channel_name: Vec<u8>, num_subs: u64) -> (f: Frame)
    ensures
        f@ == unsubscribe_frame(channel_name@, num_subs),
{
    let ghost ch = channel_name@;
    let mut frame = Frame::array();
    frame.push_bulk(crate::commands::verb_vec(4));
    frame.push_bulk(channel_name);
    frame.push_int(num_subs);
    proof {
        assert(Seq::<FrameView>::empty().push(
            FrameView::Bulk(crate::commands::verb_unsubscribe()),
        ).push(FrameView::Bulk(ch)).push(FrameView::Integer(num_subs)) =~= seq![
            FrameView::Bulk(crate::commands::verb_unsubscribe()),
            FrameView::Bulk(ch),
            FrameView::Integer(num_subs),
        ]);
    }
    frame
}

/// Create the frame telling the client about a message on a subscribed
/// channel.
pub fn make_message_frame(channel_name: Vec<u8>, msg: Vec<u8>) -> (f: Frame)
    ensures
        f@ == message_frame(channel_name@, msg@),
{
    let ghost ch = channel_name@;
    let ghost m = msg@;
    let mut kw: Vec<u8> = Vec::new();
    kw.push(109);
    kw.push(101);
    kw.push(115);
    kw.push(115);
    kw.push(97);
    kw.push(103);
    kw.push(101);
    proof {
        assert(kw@ =~= kw_message());
    }
    let mut frame = Frame::array();
    frame.push_bulk(kw);
    frame.push_bulk(channel_name);
    frame.push_bulk(msg);
    proof {
        assert(Seq::<FrameView>::empty().push(FrameView::Bulk(kw_message())).push(
            FrameView::Bulk(ch),
        ).push(FrameView::Bulk(m)) =~= seq![
            FrameView::Bulk(kw_message()),
            FrameView::Bulk(ch),
            FrameView::Bulk(m),
        ]);
    }
    frame
}

/// One directive from the subscribe-mode state machine to its runner.
pub enum SessionReply {
    /// Stop listening on this channel and write the frame.
    Unsubscribed(Vec<u8>, Frame),
    /// Write the frame.
    Reply(Frame),
}

/// `s` without the first occurrence of `x`, if any.
pub open spec fn remove_first(s: Seq<Seq<u8>>, x: Seq<u8>) -> Seq<Seq<u8>>
    decreases s.len(),
{
    if s.len() == 0 {
        s
    } else if s[0] == x {
        s.subrange(1, s.len() as int)
    } else {
        seq![s[0]] + remove_first(s.subrange(1, s.len() as int), x)
    }
}

/// Folding an UNSUBSCRIBE over the subscribed channels: each target is
/// dropped in turn, and each reply carries the count left after that drop.
pub open spec fn spec_unsubscribe(subs: Seq<Seq<u8>>, targets: Seq<Seq<u8>>) -> (
    Seq<Seq<u8>>,
    Seq<FrameView>,
)
    decreases targets.len(),
{
    if targets.len() == 0 {
        (subs, Seq::empty())
    } else {
        let s1 = remove_first(subs, targets[0]);
        let rest = spec_unsubscribe(s1, targets.subrange(1, targets.len() as int));
        (rest.0, seq![unsubscribe_frame(targets[0], s1.len() as u64)] + rest.1)
    }
}

proof fn lemma_remove_first_absent(s: Seq<Seq<u8>>, x: Seq<u8>)
    requires
        forall|j: int| 0 <= j < s.len() ==> s[j] != x,
    ensures
        remove_first(s, x) == s,
    decreases s.len(),
{
    if s.len() > 0 {
        let t = s.subrange(1, s.len() as int);
        assert forall|j: int| 0 <= j < t.len() implies t[j] != x by {
            assert(t[j] == s[j + 1]);
        }
        lemma_remove_first_absent(t, x);
        assert(seq![s[0]] + t =~= s);
    }
}

proof fn lemma_remove_first_at(s: Seq<Seq<u8>>, x: Seq<u8>, i: int)
    requires
        0 <= i < s.len(),
        s[i] == x,
        forall|j: int| 0 <= j < i ==> s[j] != x,
    ensures
        remove_first(s, x) == s.remove(i),
    decreases i,
{
    if i == 0 {
        assert(s.remove(0) =~= s.subrange(1, s.len() as int));
    } else {
        let t = s.subrange(1, s.len() as int);
        assert(t[i - 1] == x);
        assert forall|j: int| 0 <= j < i - 1 implies t[j] != x by {
            assert(t[j] == s[j + 1]);
        }
        lemma_remove_first_at(t, x, i - 1);
        assert(remove_first(s, x) == seq![s[0]] + t.remove(i - 1));
        assert(seq![s[0]] + t.remove(i - 1) =~= s.remove(i));
    }
}

/// The in-connection state of subscribe mode: the channels already
/// materialized, in the order they were added, and the channels still
/// pending. The runner holds the actual receivers, keyed the same way.
pub struct SubscribeSession {
    pub subscribed: Vec<Vec<u8>>,
    pub pending: Vec<Vec<u8>>,
}

impl SubscribeSession {
    /// Enter subscribe mode with these channels pending.
    pub fn new(channels: Vec<Vec<u8>>) -> (s: SubscribeSession)
        ensures
            views_of(s.subscribed@) == Seq::<Seq<u8>>::empty(),
            s.pending == channels,
    {
        let s = SubscribeSession { subscribed: Vec::new(), pending: channels };
        proof {
            assert(views_of(s.subscribed@) =~= Seq::<Seq<u8>>::empty());
        }
        s
    }

    /// The next channel waiting to be materialized, if any.
    pub fn pop_pending(&mut self) -> (r: Option<Vec<u8>>)
        ensures
            final(self).subscribed == old(self).subscribed,
            old(self).pending@.len() == 0 ==> r is None && *final(self) == *old(self),
            old(self).pending@.len() > 0 ==> (r matches Some(ch) && ch == old(self).pending@[0]
                && final(self).pending@ == old(self).pending@.skip(1)),
    {
        if self.pending.len() == 0 {
            None
        } else {
            let ch = self.pending.remove(0);
            proof {
                assert(old(self).pending@.remove(0) =~= old(self).pending@.skip(1));
            }
            Some(ch)
        }
    }

    /// Record that a channel is materialized and build its confirmation,
    /// counting the channels now subscribed. Confirming a channel already
    /// held leaves the set unchanged.
    #[verifier::loop_isolation(false)]
    pub fn confirm(&mut self, channel: Vec<u8>) -> (f: Frame)
        ensures
            final(self).pending == old(self).pending,
            views_of(old(self).subscribed@).contains(channel@) ==> final(self).subscribed == old(
                self,
            ).subscribed && f@ == subscribe_frame(
                channel@,
                views_of(old(self).subscribed@).len() as u64,
            ),
            !views_of(old(self).subscribed@).contains(channel@) ==> views_of(
                final(self).subscribed@,
            ) == views_of(old(self).subscribed@).push(channel@) && f@ == subscribe_frame(
                channel@,
                (views_of(old(self).subscribed@).len() + 1) as u64,
            ),
    {
        let ghost subs0 = views_of(self.subscribed@);
        let n = self.subscribed.len();
        let mut i: usize = 0;
        let mut found = false;
        while i < n && !found
            invariant
                i <= n,
                found ==> i < n && subs0[i as int] == channel@,
                !found ==> forall|j: int| 0 <= j < i ==> subs0[j] != channel@,
            decreases n - i, if found { 0int } else { 1int },
        {
            if crate::db::bytes_eq(self.subscribed[i].as_slice(), channel.as_slice()) {
                found = true;
            } else {
                i = i + 1;
            }
        }
        let count: u64;
        if found {
            count = self.subscribed.len() as u64;
            proof {
                assert(subs0.contains(channel@));
            }
        } else {
            let ghost chv = channel@;
            let copy = vstd::slice::slice_to_vec(channel.as_slice());
            self.subscribed.push(copy);
            count = self.subscribed.len() as u64;
            proof {
                if subs0.contains(chv) {
                    let j = choose|j: int| 0 <= j < subs0.len() && subs0[j] == chv;
                    assert(false);
                }
                assert(views_of(self.subscribed@) =~= subs0.push(chv));
            }
        }
        make_subscribe_frame(channel, count)
    }

    /// The frame delivering a message that arrived on a subscribed channel.
    pub fn on_message(&self, channel: Vec<u8>, msg: Vec<u8>) -> (f: Frame)
        ensures
            f@ == message_frame(channel@, msg@),
    {
        make_message_frame(channel, msg)
    }

    /// React to a frame the client sent while in subscribe mode: SUBSCRIBE
    /// extends the pending list, UNSUBSCRIBE drops channels (all of them
    /// when none is named) and answers one frame per channel, and every
    /// other command earns an unknown-command error without leaving the
    /// mode. A frame that is no command at all ends the connection.
    #[verifier::loop_isolation(false)]
    #[verifier::rlimit(50)]
    pub fn handle_frame(&mut self, frame: Frame) -> (r: Result<Vec<SessionReply>, CommandError>)
        ensures
            match crate::commands::spec_from_frame(frame@) {
                SpecCommand::Subscribe(chs) => (r matches Ok(rs) && rs@.len() == 0
                    && final(self).subscribed == old(self).subscribed
                    && views_of(final(self).pending@) == views_of(old(self).pending@) + chs),
                SpecCommand::Unsubscribe(chs) => {
                    let targets = if chs.len() == 0 {
                        views_of(old(self).subscribed@)
                    } else {
                        chs
                    };
                    let outcome = spec_unsubscribe(views_of(old(self).subscribed@), targets);
                    &&& final(self).pending == old(self).pending
                    &&& views_of(final(self).subscribed@) == outcome.0
                    &&& (r matches Ok(rs) && rs@.len() == targets.len() && (forall|i: int|
                        0 <= i < targets.len() ==> ((#[trigger] rs@[i]) matches
                            SessionReply::Unsubscribed(ch, f) && ch@ == targets[i] && f@
                            == outcome.1[i])))
                },
                SpecCommand::Fail(e) => r == Err::<Vec<SessionReply>, CommandError>(e)
                    && *final(self) == *old(self),
                _ => (*final(self) == *old(self) && (r matches Ok(rs) && rs@.len() == 1 && (rs@[0]
                    matches SessionReply::Reply(f) && f@ == FrameView::Error(
                    crate::commands::unknown::unknown_msg(
                        crate::commands::spec_command_name(
                            crate::commands::spec_from_frame(frame@),
                        ),
                    ),
                )))),
            },
    {
        match Command::from_frame(frame)? {
            Command::Subscribe(sub) => {
                let ghost pend0 = views_of(self.pending@);
                let mut more = sub.into_channels();
                let ghost morev = views_of(more@);
                self.pending.append(&mut more);
                proof {
                    assert(views_of(self.pending@) =~= pend0 + morev);
                }
                Ok(Vec::new())
            },
            Command::Unsubscribe(uns) => {
                let mut targets = uns.into_channels();
                if targets.is_empty() {
                    // an empty list means everything currently subscribed
                    let n = self.subscribed.len();
                    let mut i: usize = 0;
                    while i < n
                        invariant
                            i <= n,
                            targets@.len() == i,
                            forall|j: int|
                                0 <= j < i ==> (#[trigger] targets@[j])@ == self.subscribed@[j]@,
                        decreases n - i,
                    {
                        targets.push(vstd::slice::slice_to_vec(self.subscribed[i].as_slice()));
                        i = i + 1;
                    }
                    proof {
                        assert(views_of(targets@) =~= views_of(self.subscribed@));
                    }
                }
                let ghost tviews = views_of(targets@);
                let ghost subs0 = views_of(self.subscribed@);
                let ghost outcome = spec_unsubscribe(subs0, tviews);
                let mut replies: Vec<SessionReply> = Vec::new();
                let total = targets.len();
                let mut k: usize = 0;
                proof {
                    assert(tviews.skip(0) =~= tviews);
                }
                while k < total
                    invariant
                        k <= total,
                        total == targets@.len(),
                        tviews == views_of(targets@),
                        replies@.len() == k,
                        self.pending == old(self).pending,
                        outcome.0 == spec_unsubscribe(
                            views_of(self.subscribed@),
                            tviews.skip(k as int),
                        ).0,
                        outcome.1.skip(k as int) == spec_unsubscribe(
                            views_of(self.subscribed@),
                            tviews.skip(k as int),
                        ).1,
                        outcome.1.len() >= k,
                        forall|i: int|
                            0 <= i < k ==> ((#[trigger] replies@[i]) matches
                                SessionReply::Unsubscribed(ch, f) && ch@ == tviews[i] && f@
                                == outcome.1[i]),
                    decreases total - k,
                {
                    let ghost cur = views_of(self.subscribed@);
                    let tb = vstd::slice::slice_to_vec(targets[k].as_slice());
                    // drop the first occurrence, if the channel is held
                    let m = self.subscribed.len();
                    let mut j: usize = 0;
                    let mut hit = false;
                    while j < m && !hit
                        invariant
                            j <= m,
                            m == self.subscribed@.len(),
                            cur == views_of(self.subscribed@),
                            hit ==> j < m && cur[j as int] == tb@,
                            forall|l: int| 0 <= l < j ==> cur[l] != tb@,
                        decreases m - j, if hit { 0int } else { 1int },
                    {
                        if crate::db::bytes_eq(self.subscribed[j].as_slice(), tb.as_slice()) {
                            hit = true;
                        } else {
                            j = j + 1;
                        }
                    }
                    if hit {
                        self.subscribed.remove(j);
                        proof {
                            lemma_remove_first_at(cur, tb@, j as int);
                            assert(views_of(self.subscribed@) =~= cur.remove(j as int));
                        }
                    } else {
                        proof {
                            lemma_remove_first_absent(cur, tb@);
                        }
                    }
                    let ghost s1 = remove_first(cur, tviews[k as int]);
                    let cnt = self.subscribed.len() as u64;
                    let tb2 = vstd::slice::slice_to_vec(tb.as_slice());
                    let f = make_unsubscribe_frame(tb2, cnt);
                    let ghost rep0 = replies@;
                    replies.push(SessionReply::Unsubscribed(tb, f));
                    k = k + 1;
                    proof {
                        assert(tviews.skip(k - 1).subrange(1, tviews.skip(k - 1).len() as int)
                            =~= tviews.skip(k as int));
                        assert(tviews.skip(k - 1)[0] == tviews[k - 1]);
                        assert(outcome.1.skip(k - 1)[0] == outcome.1[k - 1]);
                        assert(outcome.1.skip(k - 1).subrange(
                            1,
                            outcome.1.skip(k - 1).len() as int,
                        ) =~= outcome.1.skip(k as int));
                    }
                }
                proof {
                    assert(tviews.skip(total as int) =~= Seq::<Seq<u8>>::empty());
                    assert(outcome.1.skip(total as int).len() == 0);
                }
                Ok(replies)
            },
            other => {
                let name = other.get_name();
                let cmd = crate::commands::Unknown::new(name);
                let f = cmd.apply();
                let mut replies: Vec<SessionReply> = Vec::new();
                replies.push(SessionReply::Reply(f));
                Ok(replies)
            },
        }
    }
}

} // verus!
