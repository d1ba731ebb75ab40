//! A tunnel from a client, shared by many entries.
//!
//! An entry is one connection to a destination. Messages of the client are handed to the entries;
//! what the entries have for the client goes back through the tunnel. `S` is the program's handle
//! on the channel of an entry.
use vstd::prelude::*;

use crate::bytes;
use crate::bytes::read_be32;
use crate::clock::{get_time, Timespec};
use crate::entries;
use crate::entries::EntryTable;
use crate::protocol::{CsFrame, CsFrameView, ScFrame, ScFrameView};
use crate::server::config::{Config, ConfigView};

verus! {

/// How many messages the channel of a tunnel holds.
pub const TUNNEL_CAPACITY: usize = 10000;

/// How many messages the channel of an entry holds.
pub const ENTRY_CAPACITY: usize = 1000;

/// The channels hold ten thousand and a thousand messages.
pub proof fn law_sizes()
    ensures
        TUNNEL_CAPACITY == 10 * 1000,
        ENTRY_CAPACITY == 1000,
{
}

/// What an entry is told.
#[derive(Debug)]
pub enum EntryMessage {
    ConnectIp(Vec<u8>),
    ConnectDomainName(Vec<u8>, u16),
    Data(Vec<u8>),
    Eof,
    Close,
}

/// What an [`EntryMessage`] says.
#[verifier::ext_equal]
pub enum EntryMessageView {
    ConnectIp(Seq<u8>),
    ConnectDomainName(Seq<u8>, u16),
    Data(Seq<u8>),
    Eof,
    Close,
}

impl View for EntryMessage {
    type V = EntryMessageView;

    open spec fn view(&self) -> EntryMessageView {
        match self {
            EntryMessage::ConnectIp(buf) => EntryMessageView::ConnectIp(buf@),
            EntryMessage::ConnectDomainName(name, port) => EntryMessageView::ConnectDomainName(
                name@,
                *port,
            ),
            EntryMessage::Data(buf) => EntryMessageView::Data(buf@),
            EntryMessage::Eof => EntryMessageView::Eof,
            EntryMessage::Close => EntryMessageView::Close,
        }
    }
}

/// An [`EntryMessage`] says what it holds.
pub proof fn law_entry_message_says_what_it_holds(value: EntryMessage)
    ensures
        match value {
            EntryMessage::ConnectIp(buf) => value@ == EntryMessageView::ConnectIp(buf@),
            EntryMessage::ConnectDomainName(name, port) => value@
                == EntryMessageView::ConnectDomainName(name@, port),
            EntryMessage::Data(buf) => value@ == EntryMessageView::Data(buf@),
            EntryMessage::Eof => value@ == EntryMessageView::Eof,
            EntryMessage::Close => value@ == EntryMessageView::Close,
        },
{
}

/// A message for the client, or about the tunnel to it.
#[derive(Debug)]
pub enum Sc {
    EntryClose(u32),
    Eof(u32),
    ConnectOk(u32, Vec<u8>),
    Data(u32, Vec<u8>),
    Heartbeat,
    CloseTunnel,
}

/// A message in the tunnel: of the client, or for the client.
#[derive(Debug)]
pub enum Message {
    CS(CsFrame),
    SC(Sc),
}

/// What a [`Sc`] says.
#[verifier::ext_equal]
pub enum ScView {
    EntryClose(u32),
    Eof(u32),
    ConnectOk(u32, Seq<u8>),
    Data(u32, Seq<u8>),
    Heartbeat,
    CloseTunnel,
}

/// What a [`Message`] says.
#[verifier::ext_equal]
pub enum MessageView {
    CS(CsFrameView),
    SC(ScView),
}

impl View for Sc {
    type V = ScView;

    open spec fn view(&self) -> ScView {
        match self {
            Sc::EntryClose(id) => ScView::EntryClose(*id),
            Sc::Eof(id) => ScView::Eof(*id),
            Sc::ConnectOk(id, buf) => ScView::ConnectOk(*id, buf@),
            Sc::Data(id, buf) => ScView::Data(*id, buf@),
            Sc::Heartbeat => ScView::Heartbeat,
            Sc::CloseTunnel => ScView::CloseTunnel,
        }
    }
}

/// A [`Sc`] says what it holds.
pub proof fn law_sc_says_what_it_holds(value: Sc)
    ensures
        match value {
            Sc::EntryClose(id) => value@ == ScView::EntryClose(id),
            Sc::Eof(id) => value@ == ScView::Eof(id),
            Sc::ConnectOk(id, buf) => value@ == ScView::ConnectOk(id, buf@),
            Sc::Data(id, buf) => value@ == ScView::Data(id, buf@),
            Sc::Heartbeat => value@ == ScView::Heartbeat,
            Sc::CloseTunnel => value@ == ScView::CloseTunnel,
        },
{
}

impl View for Message {
    type V = MessageView;

    open spec fn view(&self) -> MessageView {
        match self {
            Message::CS(cs) => MessageView::CS(cs@),
            Message::SC(sc) => MessageView::SC(sc@),
        }
    }
}

/// A [`Message`] says what it holds.
pub proof fn law_message_says_what_it_holds(value: Message)
    ensures
        match value {
            Message::CS(cs) => value@ == MessageView::CS(cs@),
            Message::SC(sc) => value@ == MessageView::SC(sc@),
        },
{
}

/// What the tunnel knows of an entry.
#[derive(Debug)]
pub struct EntryInternal<S> {
    /// The channel of the entry.
    pub sender: S,
}

impl<S> View for EntryInternal<S> {
    type V = S;

    open spec fn view(&self) -> S {
        self.sender
    }
}

/// An [`EntryInternal`] says what it holds.
pub proof fn law_entry_internal_says_what_it_holds<S>(value: EntryInternal<S>)
    ensures
        value@ == value.sender,
{
}

/// The entries that a tunnel knows, by id.
pub type EntryMap<S> = EntryTable<EntryInternal<S>>;

/// What is to be done about a message, in this order.
#[derive(Debug)]
pub struct Plan {
    /// Make a channel for this entry, and open the entry with it.
    pub open: Option<u32>,
    /// Tell this entry so.
    pub deliver: Option<(u32, EntryMessage)>,
    /// Write this frame to the client, with its payload encrypted. If that fails, the rest of the
    /// plan is dropped.
    pub send: Option<ScFrame>,
    /// Remove this entry from the entries of the tunnel, if it is there.
    pub forget: Option<u32>,
}

/// What a [`Plan`] says.
#[verifier::ext_equal]
pub struct PlanView {
    pub open: Option<u32>,
    pub deliver: Option<(u32, EntryMessageView)>,
    pub send: Option<ScFrameView>,
    pub forget: Option<u32>,
}

impl View for Plan {
    type V = PlanView;

    open spec fn view(&self) -> PlanView {
        PlanView {
            open: self.open,
            deliver: match self.deliver {
                Some((id, message)) => Some((id, message@)),
                None => None,
            },
            send: match self.send {
                Some(frame) => Some(frame@),
                None => None,
            },
            forget: self.forget,
        }
    }
}

/// A [`Plan`] says what it holds.
pub proof fn law_plan_says_what_it_holds(value: Plan)
    ensures
        value@.open == value.open,
        value.deliver matches Some((id, message)) ==> value@.deliver == Some((id, message@)),
        value.deliver is None ==> value@.deliver is None,
        value.send matches Some(frame) ==> value@.send == Some(frame@),
        value.send is None ==> value@.send is None,
        value@.forget == value.forget,
{
}

impl MessageView {
    /// The entry that the message is about.
    pub open spec fn subject(self) -> Option<u32> {
        match self {
            MessageView::CS(CsFrameView::EntryOpen(id)) => Some(id),
            MessageView::CS(CsFrameView::EntryClose(id)) => Some(id),
            MessageView::CS(CsFrameView::ConnectIp4(id, _)) => Some(id),
            MessageView::CS(CsFrameView::ConnectDomainName(id, _, _)) => Some(id),
            MessageView::CS(CsFrameView::Eof(id)) => Some(id),
            MessageView::CS(CsFrameView::Data(id, _)) => Some(id),
            MessageView::CS(CsFrameView::Heartbeat) => None,
            MessageView::SC(ScView::EntryClose(id)) => Some(id),
            MessageView::SC(ScView::Eof(id)) => Some(id),
            MessageView::SC(ScView::ConnectOk(id, _)) => Some(id),
            MessageView::SC(ScView::Data(id, _)) => Some(id),
            MessageView::SC(ScView::Heartbeat) => None,
            MessageView::SC(ScView::CloseTunnel) => None,
        }
    }

    /// What the entry is told, if it is known.
    pub open spec fn news(self) -> Option<EntryMessageView> {
        match self {
            MessageView::CS(CsFrameView::EntryClose(_)) => Some(EntryMessageView::Close),
            MessageView::CS(CsFrameView::Eof(_)) => Some(EntryMessageView::Eof),
            MessageView::CS(CsFrameView::ConnectDomainName(_, name, port)) => Some(
                EntryMessageView::ConnectDomainName(name, port),
            ),
            MessageView::CS(CsFrameView::ConnectIp4(_, address)) => Some(
                EntryMessageView::ConnectIp(address),
            ),
            MessageView::CS(CsFrameView::Data(_, buf)) => Some(EntryMessageView::Data(buf)),
            MessageView::SC(ScView::EntryClose(_)) => Some(EntryMessageView::Close),
            _ => None,
        }
    }

    /// The frame that the client gets; where `known` is whether the message's entry is known.
    pub open spec fn frame(self, known: bool) -> Option<ScFrameView> {
        match self {
            MessageView::CS(CsFrameView::Heartbeat) => Some(ScFrameView::Heartbeat),
            MessageView::SC(ScView::EntryClose(id)) => if known {
                Some(ScFrameView::EntryClose(id))
            } else {
                None
            },
            MessageView::SC(ScView::Eof(id)) => Some(ScFrameView::Eof(id)),
            MessageView::SC(ScView::ConnectOk(id, buf)) => Some(ScFrameView::ConnectOk(id, buf)),
            MessageView::SC(ScView::Data(id, buf)) => Some(ScFrameView::Data(id, buf)),
            _ => None,
        }
    }

    /// The message opens its entry.
    pub open spec fn opens(self) -> bool {
        self matches MessageView::CS(CsFrameView::EntryOpen(_))
    }

    /// The message ends its entry.
    pub open spec fn closes(self) -> bool {
        ||| self matches MessageView::CS(CsFrameView::EntryClose(_))
        ||| self matches MessageView::SC(ScView::EntryClose(_))
    }

    /// What is to be done about the message where the entries `known` are known.
    pub open spec fn plan<S>(self, known: Map<u32, S>) -> PlanView {
        match self.subject() {
            None => PlanView { open: None, deliver: None, send: self.frame(false), forget: None },
            Some(id) => PlanView {
                open: if self.opens() {
                    Some(id)
                } else {
                    None
                },
                deliver: match self.news() {
                    Some(news) if known.contains_key(id) => Some((id, news)),
                    _ => None,
                },
                send: self.frame(known.contains_key(id)),
                forget: if self.closes() {
                    Some(id)
                } else {
                    None
                },
            },
        }
    }

    /// The entries that are known when the plan was carried out to its end, with the channel
    /// `fresh` for the entry that it opens.
    pub open spec fn settled<S>(self, known: Map<u32, S>, fresh: S) -> Map<u32, S> {
        let plan = self.plan(known);
        let opened = match plan.open {
            Some(id) => known.insert(id, fresh),
            None => known,
        };
        entries::forgotten(opened, plan.forget, true)
    }
}

/// Only an entry that is known is told anything, and only the entry that a message is about.
pub proof fn law_only_known_entries_are_told<S>(message: MessageView, known: Map<u32, S>)
    ensures
        message.plan(known).deliver matches Some((id, _)) ==> known.contains_key(id)
            && message.subject() == Some(id),
{
}

/// A message about one entry leaves every other entry as it is.
pub proof fn law_entries_do_not_disturb_each_other<S>(
    message: MessageView,
    known: Map<u32, S>,
    fresh: S,
    other: u32,
)
    requires
        message.subject() != Some(other),
    ensures
        message.settled(known, fresh).contains_key(other) == known.contains_key(other),
        known.contains_key(other) ==> message.settled(known, fresh)[other] == known[other],
{
}

/// Once an entry is opened, it is known by its channel until a message closes it, and gets what the
/// client says about it.
pub proof fn law_opened_entry_is_served<S>(
    known: Map<u32, S>,
    id: u32,
    sender: S,
    message: MessageView,
    fresh: S,
)
    ensures
        ({
            let after = MessageView::CS(CsFrameView::EntryOpen(id)).settled(known, sender);
            &&& after.contains_key(id)
            &&& after[id] == sender
            &&& (message.subject() == Some(id) && message.news() is Some ==> message.plan(
                after,
            ).deliver == Some((id, message.news()->0)))
            &&& (!((message.closes() || message.opens()) && message.subject() == Some(id))
                ==> message.settled(after, fresh).contains_key(id) && message.settled(
                after,
                fresh,
            )[id] == sender)
        }),
{
}

/// A closed entry is forgotten: whatever comes about it later, short of its opening, it is told
/// nothing.
pub proof fn law_closed_entry_is_forgotten<S>(
    closing: MessageView,
    known: Map<u32, S>,
    fresh: S,
    id: u32,
    later: MessageView,
)
    requires
        closing.closes(),
        closing.subject() == Some(id),
        later.subject() == Some(id),
        !later.opens(),
    ensures
        !closing.settled(known, fresh).contains_key(id),
        later.plan(closing.settled(known, fresh)).deliver is None,
        !later.settled(closing.settled(known, fresh), fresh).contains_key(id),
{
}

/// The client is told at most once that an entry closed: closing it again, or closing it after the
/// client closed it, writes nothing and changes nothing.
pub proof fn law_close_is_sent_once<S>(
    closing: MessageView,
    known: Map<u32, S>,
    fresh: S,
    id: u32,
)
    requires
        closing.closes(),
        closing.subject() == Some(id),
    ensures
        ({
            let after = closing.settled(known, fresh);
            let again = MessageView::SC(ScView::EntryClose(id));
            &&& again.plan(after).send is None
            &&& again.plan(after).deliver is None
            &&& again.settled(after, fresh) == after
        }),
{
    let after = closing.settled(known, fresh);
    assert(MessageView::SC(ScView::EntryClose(id)).settled(after, fresh) =~= after);
}

/// Of what the client says, the heartbeat alone is answered at once, by a heartbeat.
pub proof fn law_heartbeats_are_answered<S>(cs: CsFrameView, known: Map<u32, S>)
    ensures
        MessageView::CS(cs).plan(known).send == (if cs is Heartbeat {
            Some(ScFrameView::Heartbeat)
        } else {
            None
        }),
{
}

/// What the entry `id` is told while `messages` are taken in and their plans carried out, with the
/// channels `fresh` for the entries that they open.
pub open spec fn told<S>(
    known: Map<u32, S>,
    messages: Seq<MessageView>,
    fresh: Seq<S>,
    id: u32,
) -> Seq<EntryMessageView>
    decreases messages.len(),
{
    if messages.len() == 0 {
        Seq::empty()
    } else {
        let first = match messages[0].plan(known).deliver {
            Some((i, news)) if i == id => seq![news],
            _ => Seq::empty(),
        };
        first + told(messages[0].settled(known, fresh[0]), messages.skip(1), fresh.skip(1), id)
    }
}

/// What `messages` have to tell the entry `id`.
pub open spec fn news_about(messages: Seq<MessageView>, id: u32) -> Seq<EntryMessageView>
    decreases messages.len(),
{
    if messages.len() == 0 {
        Seq::empty()
    } else {
        let first = if messages[0].subject() == Some(id) && messages[0].news() is Some {
            seq![messages[0].news()->0]
        } else {
            Seq::empty()
        };
        first + news_about(messages.skip(1), id)
    }
}

/// However the messages of many entries are mixed, an entry that stays open is told all that the
/// messages have to tell it, in their order, and nothing else.
pub proof fn law_entry_is_told_its_news<S>(
    known: Map<u32, S>,
    messages: Seq<MessageView>,
    fresh: Seq<S>,
    id: u32,
)
    requires
        known.contains_key(id),
        forall|i: int|
            0 <= i < messages.len() ==> !((#[trigger] messages[i]).closes()
                && messages[i].subject() == Some(id)),
    ensures
        told(known, messages, fresh, id) == news_about(messages, id),
    decreases messages.len(),
{
    if messages.len() > 0 {
        let rest = messages.skip(1);
        let after = messages[0].settled(known, fresh[0]);
        assert forall|i: int| 0 <= i < rest.len() implies !((#[trigger] rest[i]).closes()
            && rest[i].subject() == Some(id)) by {
            assert(rest[i] == messages[i + 1]);
        }
        assert(after.contains_key(id));
        law_entry_is_told_its_news(after, rest, fresh.skip(1), id);
    }
}

/// What `messages` have to tell the entry `id`, up to and with the first that closes it.
pub open spec fn heard(messages: Seq<MessageView>, id: u32) -> Seq<EntryMessageView>
    decreases messages.len(),
{
    if messages.len() == 0 {
        Seq::empty()
    } else if messages[0].closes() && messages[0].subject() == Some(id) {
        seq![EntryMessageView::Close]
    } else {
        let first = if messages[0].subject() == Some(id) && messages[0].news() is Some {
            seq![messages[0].news()->0]
        } else {
            Seq::empty()
        };
        first + heard(messages.skip(1), id)
    }
}

/// The message opens the entry `id`.
pub open spec fn reopens(message: MessageView, id: u32) -> bool {
    message == MessageView::CS(CsFrameView::EntryOpen(id))
}

proof fn lemma_unknown_is_told_nothing<S>(
    known: Map<u32, S>,
    messages: Seq<MessageView>,
    fresh: Seq<S>,
    id: u32,
)
    requires
        !known.contains_key(id),
        forall|i: int| 0 <= i < messages.len() ==> !reopens(#[trigger] messages[i], id),
    ensures
        told(known, messages, fresh, id) == Seq::<EntryMessageView>::empty(),
    decreases messages.len(),
{
    if messages.len() > 0 {
        let rest = messages.skip(1);
        assert(!reopens(messages[0], id));
        assert forall|i: int| 0 <= i < rest.len() implies !reopens(#[trigger] rest[i], id) by {
            assert(rest[i] == messages[i + 1]);
        }
        lemma_unknown_is_told_nothing(
            messages[0].settled(known, fresh[0]),
            rest,
            fresh.skip(1),
            id,
        );
    }
}

/// The whole life of an entry: however the messages of many entries are mixed, an entry that is not
/// opened anew is told all that the messages have to tell it, in their order, up to and with its
/// close, and nothing else.
pub proof fn law_entry_is_told_until_its_close<S>(
    known: Map<u32, S>,
    messages: Seq<MessageView>,
    fresh: Seq<S>,
    id: u32,
)
    requires
        known.contains_key(id),
        forall|i: int| 0 <= i < messages.len() ==> !reopens(#[trigger] messages[i], id),
    ensures
        told(known, messages, fresh, id) == heard(messages, id),
    decreases messages.len(),
{
    if messages.len() > 0 {
        let rest = messages.skip(1);
        let after = messages[0].settled(known, fresh[0]);
        assert(!reopens(messages[0], id));
        assert forall|i: int| 0 <= i < rest.len() implies !reopens(#[trigger] rest[i], id) by {
            assert(rest[i] == messages[i + 1]);
        }
        if messages[0].closes() && messages[0].subject() == Some(id) {
            lemma_unknown_is_told_nothing(after, rest, fresh.skip(1), id);
            assert(told(known, messages, fresh, id) =~= seq![EntryMessageView::Close]);
        } else {
            assert(after.contains_key(id));
            law_entry_is_told_until_its_close(after, rest, fresh.skip(1), id);
        }
    }
}

/// What the entry `id` is to hear while `messages` go by, if it is `open` before them: from its
/// opening to its close, by whichever side, all that the client says for it.
pub open spec fn hears(open: bool, messages: Seq<MessageView>, id: u32) -> Seq<EntryMessageView>
    decreases messages.len(),
{
    if messages.len() == 0 {
        Seq::empty()
    } else {
        let later = messages.skip(1);
        match messages[0] {
            MessageView::CS(CsFrameView::EntryOpen(i)) if i == id => hears(true, later, id),
            MessageView::CS(CsFrameView::EntryClose(i)) if i == id && open => seq![
                EntryMessageView::Close,
            ] + hears(false, later, id),
            MessageView::SC(ScView::EntryClose(i)) if i == id && open => seq![
                EntryMessageView::Close,
            ] + hears(false, later, id),
            MessageView::CS(CsFrameView::Data(i, buf)) if i == id && open => seq![
                EntryMessageView::Data(buf),
            ] + hears(open, later, id),
            MessageView::CS(CsFrameView::Eof(i)) if i == id && open => seq![
                EntryMessageView::Eof,
            ] + hears(open, later, id),
            MessageView::CS(CsFrameView::ConnectIp4(i, buf)) if i == id && open => seq![
                EntryMessageView::ConnectIp(buf),
            ] + hears(open, later, id),
            MessageView::CS(CsFrameView::ConnectDomainName(i, name, port)) if i == id && open => {
                seq![EntryMessageView::ConnectDomainName(name, port)] + hears(open, later, id)
            },
            _ => hears(open, later, id),
        }
    }
}

/// Whether the entry `id` is open after `messages`, if it is `open` before them: its opening opens
/// it, a close by whichever side closes it, and nothing else does either.
pub open spec fn stays_open(open: bool, messages: Seq<MessageView>, id: u32) -> bool
    decreases messages.len(),
{
    if messages.len() == 0 {
        open
    } else {
        let later = messages.skip(1);
        match messages[0] {
            MessageView::CS(CsFrameView::EntryOpen(i)) if i == id => stays_open(true, later, id),
            MessageView::CS(CsFrameView::EntryClose(i)) if i == id => stays_open(false, later, id),
            MessageView::SC(ScView::EntryClose(i)) if i == id => stays_open(false, later, id),
            _ => stays_open(open, later, id),
        }
    }
}

/// The entries that are known when `messages` were taken in and their plans carried out.
pub open spec fn known_after<S>(
    known: Map<u32, S>,
    messages: Seq<MessageView>,
    fresh: Seq<S>,
) -> Map<u32, S>
    decreases messages.len(),
{
    if messages.len() == 0 {
        known
    } else {
        known_after(messages[0].settled(known, fresh[0]), messages.skip(1), fresh.skip(1))
    }
}

/// However the messages of many entries are mixed, each entry, whatever its id, hears exactly what
/// it is to hear, and is known exactly from its opening to its close.
pub proof fn law_each_entry_hears_its_own<S>(
    known: Map<u32, S>,
    messages: Seq<MessageView>,
    fresh: Seq<S>,
    id: u32,
)
    ensures
        told(known, messages, fresh, id) == hears(known.contains_key(id), messages, id),
        known_after(known, messages, fresh).contains_key(id) == stays_open(
            known.contains_key(id),
            messages,
            id,
        ),
    decreases messages.len(),
{
    if messages.len() > 0 {
        let after = messages[0].settled(known, fresh[0]);
        law_each_entry_hears_its_own(after, messages.skip(1), fresh.skip(1), id);
        assert(told(known, messages, fresh, id) =~= hears(known.contains_key(id), messages, id));
    }
}

/// A write that fails forgets no entry; one that succeeds forgets the entry that is to be forgotten
/// and no other.
pub proof fn law_only_writes_forget<S>(known: Map<u32, S>, forget: Option<u32>, id: u32)
    ensures
        entries::forgotten(known, forget, false) == known,
        entries::forgotten(known, forget, true).contains_key(id) <==> known.contains_key(id)
            && forget != Some(id),
        known.contains_key(id) && forget != Some(id) ==> entries::forgotten(known, forget, true)[id]
            == known[id],
{
}

/// An entry is opened with the channel that was made for it, and keeps it until it is opened anew
/// or closed.
pub proof fn law_entry_keeps_its_channel<S>(
    known: Map<u32, S>,
    message: MessageView,
    fresh: S,
    id: u32,
)
    ensures
        message == MessageView::CS(CsFrameView::EntryOpen(id)) ==> message.settled(known, fresh)
            == known.insert(id, fresh),
        message != MessageView::CS(CsFrameView::EntryOpen(id)) && message.settled(
            known,
            fresh,
        ).contains_key(id) ==> known.contains_key(id) && message.settled(known, fresh)[id]
            == known[id],
{
    assert(message == MessageView::CS(CsFrameView::EntryOpen(id)) ==> message.settled(known, fresh)
        =~= known.insert(id, fresh));
}

/// The plan to tell an entry something, if it is known.
fn tell<S>(entry_map: &EntryMap<S>, id: u32, message: EntryMessage) -> (plan: Plan)
    ensures
        plan@ == (PlanView {
            open: None,
            deliver: if entry_map@.contains_key(id) {
                Some((id, message@))
            } else {
                None
            },
            send: None,
            forget: None,
        }),
{
    if entry_map.contains(id) {
        Plan { open: None, deliver: Some((id, message)), send: None, forget: None }
    } else {
        Plan { open: None, deliver: None, send: None, forget: None }
    }
}

/// The plan to write a frame to the client.
fn send(frame: ScFrame) -> (plan: Plan)
    ensures
        plan@ == (PlanView { open: None, deliver: None, send: Some(frame@), forget: None }),
{
    Plan { open: None, deliver: None, send: Some(frame), forget: None }
}

/// Takes in a message of the tunnel at the time `now`. A message of the client shows that the
/// client is alive.
pub fn process_message_at<S>(
    msg: Message,
    now: Timespec,
    alive_time: &mut Timespec,
    entry_map: &EntryMap<S>,
) -> (plan: Plan)
    ensures
        plan@ == msg@.plan(entry_map@),
        *final(alive_time) == (if msg@ is CS {
            now
        } else {
            *old(alive_time)
        }),
{
    match msg {
        Message::CS(cs) => {
            *alive_time = now;
            match cs {
                CsFrame::Heartbeat => send(ScFrame::Heartbeat),
                CsFrame::EntryOpen(id) => {
                    Plan { open: Some(id), deliver: None, send: None, forget: None }
                },
                CsFrame::EntryClose(id) => {
                    let mut plan: Plan = tell(entry_map, id, EntryMessage::Close);
                    plan.forget = Some(id);
                    plan
                },
                CsFrame::Eof(id) => tell(entry_map, id, EntryMessage::Eof),
                CsFrame::ConnectDomainName(id, domain_name, port) => tell(
                    entry_map,
                    id,
                    EntryMessage::ConnectDomainName(domain_name, port),
                ),
                CsFrame::ConnectIp4(id, address) => tell(
                    entry_map,
                    id,
                    EntryMessage::ConnectIp(address),
                ),
                CsFrame::Data(id, buf) => tell(entry_map, id, EntryMessage::Data(buf)),
            }
        },
        Message::SC(sc) => match sc {
            Sc::EntryClose(id) => {
                let mut plan: Plan = tell(entry_map, id, EntryMessage::Close);
                if entry_map.contains(id) {
                    plan.send = Some(ScFrame::EntryClose(id));
                }
                plan.forget = Some(id);
                plan
            },
            Sc::Eof(id) => send(ScFrame::Eof(id)),
            Sc::ConnectOk(id, buf) => send(ScFrame::ConnectOk(id, buf)),
            Sc::Data(id, buf) => send(ScFrame::Data(id, buf)),
            Sc::Heartbeat => Plan { open: None, deliver: None, send: None, forget: None },
            Sc::CloseTunnel => Plan { open: None, deliver: None, send: None, forget: None },
        },
    }
}

/// Takes in a message of the tunnel at the current time; see [`process_message_at`].
pub fn process_tunnel_message<S>(
    msg: Message,
    alive_time: &mut Timespec,
    entry_map: &EntryMap<S>,
) -> (plan: Plan)
    ensures
        plan@ == msg@.plan(entry_map@),
        msg@ is CS ==> final(alive_time).wf(),
        msg@ is SC ==> *final(alive_time) == *old(alive_time),
{
    let now: Timespec = get_time();
    process_message_at(msg, now, alive_time, entry_map)
}

/// One turn of the loop that writes to the client: what to do about the next message of the tunnel.
/// There is nothing more to do when there is no message any more, or when the tunnel is closed.
pub fn tunnel_to_client_stream<S>(
    next: Option<Message>,
    alive_time: &mut Timespec,
    entry_map: &EntryMap<S>,
) -> (plan: Option<Plan>)
    ensures
        match next {
            Some(msg) if msg@ != MessageView::SC(ScView::CloseTunnel) => {
                &&& plan matches Some(plan) && plan@ == msg@.plan(entry_map@)
                &&& (msg@ is CS ==> final(alive_time).wf())
                &&& (msg@ is SC ==> *final(alive_time) == *old(alive_time))
            },
            _ => plan is None && *final(alive_time) == *old(alive_time),
        },
{
    match next {
        Some(Message::SC(Sc::CloseTunnel)) => None,
        Some(msg) => Some(process_tunnel_message(msg, alive_time, entry_map)),
        None => None,
    }
}

/// Opens the entry `id` of the tunnel `tunnel_id` with the channel `sender`.
pub fn open_entry<S>(
    tunnel_id: u32,
    id: u32,
    sender: S,
    entry_map: &mut EntryMap<S>,
) -> (entry: Entry)
    ensures
        entry@ == (EntryView { id, tunnel_id }),
        final(entry_map)@ == old(entry_map)@.insert(id, sender),
{
    entry_map.insert(id, EntryInternal { sender });
    Entry { id, tunnel_id }
}

/// The last part of a plan, after its write: forgets the entry that the plan forgets. `written` is
/// whether the frame of the plan was written; a plan without a frame counts as written.
pub fn settle<S>(forget: Option<u32>, written: bool, entry_map: &mut EntryMap<S>)
    ensures
        final(entry_map)@ == entries::forgotten(old(entry_map)@, forget, written),
{
    if written {
        if let Some(id) = forget {
            let _ = entry_map.remove(id);
        }
    }
}

/// One connection to a destination.
#[derive(Debug)]
pub struct Entry {
    id: u32,
    tunnel_id: u32,
}

/// What an [`Entry`] says.
#[verifier::ext_equal]
pub struct EntryView {
    pub id: u32,
    pub tunnel_id: u32,
}

impl View for Entry {
    type V = EntryView;

    closed spec fn view(&self) -> EntryView {
        EntryView { id: self.id, tunnel_id: self.tunnel_id }
    }
}

impl Entry {
    /// The message that the destination was reached, from the address in `buf`.
    pub fn connect_ok(&self, buf: Vec<u8>) -> (message: Message)
        ensures
            message@ == MessageView::SC(ScView::ConnectOk(self@.id, buf@)),
    {
        Message::SC(Sc::ConnectOk(self.id, buf))
    }

    /// The message that carries `buf` to the other end.
    pub fn write(&self, buf: Vec<u8>) -> (message: Message)
        ensures
            message@ == MessageView::SC(ScView::Data(self@.id, buf@)),
    {
        Message::SC(Sc::Data(self.id, buf))
    }

    /// The message that the destination sends nothing more.
    pub fn eof(&self) -> (message: Message)
        ensures
            message@ == MessageView::SC(ScView::Eof(self@.id)),
    {
        Message::SC(Sc::Eof(self.id))
    }

    /// The message that the entry ends.
    pub fn close(&self) -> (message: Message)
        ensures
            message@ == MessageView::SC(ScView::EntryClose(self@.id)),
    {
        Message::SC(Sc::EntryClose(self.id))
    }

    /// What the entry is told, given what its channel brought: an entry whose channel is gone is
    /// closed.
    pub fn read(&self, received: Option<EntryMessage>) -> (message: EntryMessage)
        ensures
            message == (match received {
                Some(msg) => msg,
                None => EntryMessage::Close,
            }),
    {
        match received {
            Some(msg) => msg,
            None => EntryMessage::Close,
        }
    }
}

/// The server's end of a tunnel.
#[derive(Debug)]
pub struct TcpTunnel {
    config: Config,
}

impl View for TcpTunnel {
    type V = ConfigView;

    closed spec fn view(&self) -> ConfigView {
        self.config@
    }
}

/// What happened to a tunnel's connection.
#[derive(Debug)]
pub enum TaskEvent {
    /// The id of the tunnel could not be read.
    TunnelIdFailed,
    /// The four bytes of the tunnel's id were read.
    TunnelId([u8; 4]),
    /// Reading from the client has ended.
    ReadEnded,
    /// Writing to the client has ended.
    WriteEnded,
    /// Both have ended.
    BothEnded,
}

/// What is to be done about a tunnel's connection.
#[derive(Debug)]
pub enum TaskAction {
    /// Give the connection up.
    Return,
    /// Read from the client and write to it, as the tunnel of this id.
    Serve(u32),
    /// Put this message into the tunnel, and shut the connection down.
    SendAndShutdown(Message),
    /// Shut the connection down.
    Shutdown,
    /// Tell these entries that they are closed.
    CloseEntries(Vec<u32>),
}

impl TcpTunnel {
    /// The server's end of a tunnel that a client has connected.
    pub fn new(config: &Config) -> (tunnel: TcpTunnel)
        ensures
            tunnel@ == config@,
    {
        TcpTunnel { config: config.clone() }
    }

    /// The settings of the server.
    pub fn config(&self) -> (config: &Config)
        ensures
            config@ == self@,
    {
        &self.config
    }

    /// What is to be done next about the connection; it starts with the id of the tunnel.
    pub fn task<S>(&self, event: TaskEvent, entry_map: &EntryMap<S>) -> (action: TaskAction)
        ensures
            match event {
                TaskEvent::TunnelIdFailed => action is Return,
                TaskEvent::TunnelId(b) => action matches TaskAction::Serve(id) && id
                    == bytes::be32_value(b@),
                TaskEvent::ReadEnded => action matches TaskAction::SendAndShutdown(message)
                    && message@ == MessageView::SC(ScView::CloseTunnel),
                TaskEvent::WriteEnded => action is Shutdown,
                TaskEvent::BothEnded => action matches TaskAction::CloseEntries(ids)
                    && ids@.no_duplicates() && ids@.to_set() == entry_map@.dom(),
            },
    {
        match event {
            TaskEvent::TunnelIdFailed => TaskAction::Return,
            TaskEvent::TunnelId(b) => TaskAction::Serve(read_be32(b.as_slice())),
            TaskEvent::ReadEnded => TaskAction::SendAndShutdown(Message::SC(Sc::CloseTunnel)),
            TaskEvent::WriteEnded => TaskAction::Shutdown,
            TaskEvent::BothEnded => TaskAction::CloseEntries(entry_map.ids()),
        }
    }
}

} // verus!
