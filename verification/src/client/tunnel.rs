//! A tunnel to the server, shared by many entries.
//!
//! An entry is one local connection. Its program puts messages for the server into the tunnel; the
//! tunnel hands messages of the server to the entries. `S` is the program's handle on the channel
//! of an entry.
use vstd::prelude::*;
use vstd::utf8;

use crate::bytes;
use crate::bytes::{push_be32, push_bytes};
use crate::client::config::{Config, ConfigView};
use crate::clock::{get_time, Timespec};
use crate::entries;
use crate::entries::EntryTable;
use crate::protocol::{CsFrame, CsFrameView, ScFrame, ScFrameView};
use crate::text::from_utf8;

verus! {

/// How many messages the channel of a tunnel holds.
pub const TUNNEL_CAPACITY: usize = 10000;

/// How many messages the channel of an entry holds.
pub const ENTRY_CAPACITY: usize = 999;

/// How long to wait after a failed connect, in milliseconds.
pub const RECONNECT_DELAY_MS: u64 = 1000;

/// The channels hold ten thousand and a thousand less one messages, and a failed connect is tried
/// again after a second.
pub proof fn law_sizes_and_delay()
    ensures
        TUNNEL_CAPACITY == 10 * 1000,
        ENTRY_CAPACITY == 1000 - 1,
        RECONNECT_DELAY_MS == 1000,
{
}

/// What an entry is told.
#[derive(Debug)]
pub enum EntryMessage {
    ConnectOk(Vec<u8>),
    Data(Vec<u8>),
    Eof,
    Close,
}

/// What an [`EntryMessage`] says.
#[verifier::ext_equal]
pub enum EntryMessageView {
    ConnectOk(Seq<u8>),
    Data(Seq<u8>),
    Eof,
    Close,
}

impl View for EntryMessage {
    type V = EntryMessageView;

    open spec fn view(&self) -> EntryMessageView {
        match self {
            EntryMessage::ConnectOk(buf) => EntryMessageView::ConnectOk(buf@),
            EntryMessage::Data(buf) => EntryMessageView::Data(buf@),
            EntryMessage::Eof => EntryMessageView::Eof,
            EntryMessage::Close => EntryMessageView::Close,
        }
    }
}

/// An [`EntryMessage`] says what it holds.
pub proof fn law_entry_message_says_what_it_holds(value: EntryMessage)
    ensures
        match value {
            EntryMessage::ConnectOk(buf) => value@ == EntryMessageView::ConnectOk(buf@),
            EntryMessage::Data(buf) => value@ == EntryMessageView::Data(buf@),
            EntryMessage::Eof => value@ == EntryMessageView::Eof,
            EntryMessage::Close => value@ == EntryMessageView::Close,
        },
{
}

/// A message for the server.
#[derive(Debug)]
pub enum Cs<S> {
    EntryOpen(u32, S),
    EntryClose(u32),
    ConnectIp4(u32, Vec<u8>),
    ConnectDomainName(u32, Vec<u8>, u16),
    Eof(u32),
    Data(u32, Vec<u8>),
    Heartbeat,
}

/// A message in the tunnel: for the server, or of the server.
#[derive(Debug)]
pub enum Message<S> {
    CS(Cs<S>),
    SC(ScFrame),
}

/// What a [`Cs`] says.
#[verifier::ext_equal]
pub enum CsView<S> {
    EntryOpen(u32, S),
    EntryClose(u32),
    ConnectIp4(u32, Seq<u8>),
    ConnectDomainName(u32, Seq<u8>, u16),
    Eof(u32),
    Data(u32, Seq<u8>),
    Heartbeat,
}

/// What a [`Message`] says.
#[verifier::ext_equal]
pub enum MessageView<S> {
    CS(CsView<S>),
    SC(ScFrameView),
}

impl<S> View for Cs<S> {
    type V = CsView<S>;

    open spec fn view(&self) -> CsView<S> {
        match self {
            Cs::EntryOpen(id, sender) => CsView::EntryOpen(*id, *sender),
            Cs::EntryClose(id) => CsView::EntryClose(*id),
            Cs::ConnectIp4(id, buf) => CsView::ConnectIp4(*id, buf@),
            Cs::ConnectDomainName(id, buf, port) => CsView::ConnectDomainName(*id, buf@, *port),
            Cs::Eof(id) => CsView::Eof(*id),
            Cs::Data(id, buf) => CsView::Data(*id, buf@),
            Cs::Heartbeat => CsView::Heartbeat,
        }
    }
}

/// A [`Cs`] says what it holds.
pub proof fn law_cs_says_what_it_holds<S>(value: Cs<S>)
    ensures
        match value {
            Cs::EntryOpen(id, sender) => value@ == CsView::<S>::EntryOpen(id, sender),
            Cs::EntryClose(id) => value@ == CsView::<S>::EntryClose(id),
            Cs::ConnectIp4(id, buf) => value@ == CsView::<S>::ConnectIp4(id, buf@),
            Cs::ConnectDomainName(id, buf, port) => value@ == CsView::<S>::ConnectDomainName(
                id,
                buf@,
                port,
            ),
            Cs::Eof(id) => value@ == CsView::<S>::Eof(id),
            Cs::Data(id, buf) => value@ == CsView::<S>::Data(id, buf@),
            Cs::Heartbeat => value@ == CsView::<S>::Heartbeat,
        },
{
}

impl<S> View for Message<S> {
    type V = MessageView<S>;

    open spec fn view(&self) -> MessageView<S> {
        match self {
            Message::CS(cs) => MessageView::CS(cs@),
            Message::SC(sc) => MessageView::SC(sc@),
        }
    }
}

/// A [`Message`] says what it holds.
pub proof fn law_message_says_what_it_holds<S>(value: Message<S>)
    ensures
        match value {
            Message::CS(cs) => value@ == MessageView::<S>::CS(cs@),
            Message::SC(sc) => value@ == MessageView::<S>::SC(sc@),
        },
{
}

/// What the tunnel knows of an entry.
#[derive(Debug)]
pub struct EntryInternal<S> {
    /// The domain name that the entry wants to reach; empty without one.
    pub host: String,
    /// The port that goes with the domain name.
    pub port: u16,
    /// The channel of the entry.
    pub sender: S,
}

/// What an [`EntryInternal`] says.
#[verifier::ext_equal]
pub struct EntryView<S> {
    pub host: Seq<char>,
    pub port: u16,
    pub sender: S,
}

impl<S> View for EntryInternal<S> {
    type V = EntryView<S>;

    open spec fn view(&self) -> EntryView<S> {
        EntryView { host: self.host@, port: self.port, sender: self.sender }
    }
}

/// An [`EntryInternal`] says what it holds.
pub proof fn law_entry_internal_says_what_it_holds<S>(value: EntryInternal<S>)
    ensures
        value@.host == value.host@,
        value@.port == value.port,
        value@.sender == value.sender,
{
}

/// The entries that a tunnel knows, by id.
pub type EntryMap<S> = EntryTable<EntryInternal<S>>;

/// What is to be done about a message, in this order.
#[derive(Debug)]
pub struct Plan {
    /// Tell this entry so.
    pub deliver: Option<(u32, EntryMessage)>,
    /// Write this frame to the server, with its payload encrypted. If that fails, the rest of the
    /// plan is dropped.
    pub send: Option<CsFrame>,
    /// Remove this entry from the entries of the tunnel, if it is there.
    pub forget: Option<u32>,
}

/// What a [`Plan`] says.
#[verifier::ext_equal]
pub struct PlanView {
    pub deliver: Option<(u32, EntryMessageView)>,
    pub send: Option<CsFrameView>,
    pub forget: Option<u32>,
}

impl View for Plan {
    type V = PlanView;

    open spec fn view(&self) -> PlanView {
        PlanView {
            deliver: match self.deliver {
                Some((id, message)) => Some((id, message@)),
                None => None,
            },
            send: match self.send {
                Some(frame) => Some(frame@),
                None => None,
            },
            forget: self.forget,
        }
    }
}

/// A [`Plan`] says what it holds.
pub proof fn law_plan_says_what_it_holds(value: Plan)
    ensures
        value.deliver matches Some((id, message)) ==> value@.deliver == Some((id, message@)),
        value.deliver is None ==> value@.deliver is None,
        value.send matches Some(frame) ==> value@.send == Some(frame@),
        value.send is None ==> value@.send is None,
        value@.forget == value.forget,
{
}

/// The text that `b` encodes; no text where it encodes none.
pub open spec fn text_or_empty(b: Seq<u8>) -> Seq<char> {
    if utf8::valid_utf8(b) {
        utf8::decode_utf8(b)
    } else {
        Seq::empty()
    }
}

impl<S> MessageView<S> {
    /// An IPv4 destination comes as text.
    pub open spec fn wf(self) -> bool {
        self matches MessageView::CS(CsView::ConnectIp4(_, buf)) ==> utf8::valid_utf8(buf)
    }

    /// The entry that the message is about.
    pub open spec fn subject(self) -> Option<u32> {
        match self {
            MessageView::CS(CsView::EntryOpen(id, _)) => Some(id),
            MessageView::CS(CsView::EntryClose(id)) => Some(id),
            MessageView::CS(CsView::ConnectIp4(id, _)) => Some(id),
            MessageView::CS(CsView::ConnectDomainName(id, _, _)) => Some(id),
            MessageView::CS(CsView::Eof(id)) => Some(id),
            MessageView::CS(CsView::Data(id, _)) => Some(id),
            MessageView::CS(CsView::Heartbeat) => None,
            MessageView::SC(ScFrameView::EntryClose(id)) => Some(id),
            MessageView::SC(ScFrameView::Eof(id)) => Some(id),
            MessageView::SC(ScFrameView::ConnectOk(id, _)) => Some(id),
            MessageView::SC(ScFrameView::Data(id, _)) => Some(id),
            MessageView::SC(ScFrameView::Heartbeat) => None,
        }
    }

    /// What the entry is told, if it is known.
    pub open spec fn news(self) -> Option<EntryMessageView> {
        match self {
            MessageView::CS(CsView::EntryClose(_)) => Some(EntryMessageView::Close),
            MessageView::SC(ScFrameView::EntryClose(_)) => Some(EntryMessageView::Close),
            MessageView::SC(ScFrameView::Eof(_)) => Some(EntryMessageView::Eof),
            MessageView::SC(ScFrameView::ConnectOk(_, buf)) => Some(
                EntryMessageView::ConnectOk(buf),
            ),
            MessageView::SC(ScFrameView::Data(_, buf)) => Some(EntryMessageView::Data(buf)),
            _ => None,
        }
    }

    /// The frame that the server gets; where `known` is whether the message's entry is known.
    pub open spec fn frame(self, known: bool) -> Option<CsFrameView> {
        match self {
            MessageView::CS(CsView::Heartbeat) => Some(CsFrameView::Heartbeat),
            MessageView::CS(CsView::EntryOpen(id, _)) => Some(CsFrameView::EntryOpen(id)),
            MessageView::CS(CsView::ConnectIp4(id, buf)) => Some(CsFrameView::ConnectIp4(id, buf)),
            MessageView::CS(CsView::ConnectDomainName(id, buf, port)) => Some(
                CsFrameView::ConnectDomainName(id, buf, port),
            ),
            MessageView::CS(CsView::Eof(id)) => Some(CsFrameView::Eof(id)),
            MessageView::CS(CsView::Data(id, buf)) => Some(CsFrameView::Data(id, buf)),
            MessageView::CS(CsView::EntryClose(id)) => if known {
                Some(CsFrameView::EntryClose(id))
            } else {
                None
            },
            MessageView::SC(_) => None,
        }
    }

    /// The message ends its entry.
    pub open spec fn closes(self) -> bool {
        ||| self matches MessageView::CS(CsView::EntryClose(_))
        ||| self matches MessageView::SC(ScFrameView::EntryClose(_))
    }

    /// What is to be done about the message where the entries `known` are known.
    pub open spec fn plan(self, known: Map<u32, EntryView<S>>) -> PlanView {
        match self.subject() {
            None => PlanView { deliver: None, send: self.frame(false), forget: None },
            Some(id) => PlanView {
                deliver: match self.news() {
                    Some(news) if known.contains_key(id) => Some((id, news)),
                    _ => None,
                },
                send: self.frame(known.contains_key(id)),
                forget: if self.closes() {
                    Some(id)
                } else {
                    None
                },
            },
        }
    }

    /// The entries that are known when the message was taken in, before its plan is carried out:
    /// an opened entry is among them, and a domain name is noted.
    pub open spec fn noted(self, known: Map<u32, EntryView<S>>) -> Map<u32, EntryView<S>> {
        match self {
            MessageView::CS(CsView::EntryOpen(id, sender)) => known.insert(
                id,
                EntryView { host: Seq::empty(), port: 0, sender },
            ),
            MessageView::CS(CsView::ConnectDomainName(id, buf, port)) => if known.contains_key(
                id,
            ) {
                known.insert(
                    id,
                    EntryView { host: text_or_empty(buf), port, sender: known[id].sender },
                )
            } else {
                known
            },
            _ => known,
        }
    }

    /// The entries that are known when the plan was carried out, to its end.
    pub open spec fn settled(self, known: Map<u32, EntryView<S>>) -> Map<u32, EntryView<S>> {
        entries::forgotten(self.noted(known), self.plan(known).forget, true)
    }
}

/// Only an entry that is known is told anything, and only the entry that a message is about.
pub proof fn law_only_known_entries_are_told<S>(
    message: MessageView<S>,
    known: Map<u32, EntryView<S>>,
)
    ensures
        message.plan(known).deliver matches Some((id, _)) ==> known.contains_key(id)
            && message.subject() == Some(id),
{
}

/// A message about one entry leaves every other entry as it is.
pub proof fn law_entries_do_not_disturb_each_other<S>(
    message: MessageView<S>,
    known: Map<u32, EntryView<S>>,
    other: u32,
)
    requires
        message.subject() != Some(other),
    ensures
        message.settled(known).contains_key(other) == known.contains_key(other),
        known.contains_key(other) ==> message.settled(known)[other] == known[other],
{
}

/// Once an entry is opened, it is known by its channel until a message closes it, and gets what the
/// server says about it.
pub proof fn law_opened_entry_is_served<S>(
    known: Map<u32, EntryView<S>>,
    id: u32,
    sender: S,
    message: MessageView<S>,
)
    ensures
        ({
            let after = MessageView::CS(CsView::EntryOpen(id, sender)).settled(known);
            &&& after.contains_key(id)
            &&& after[id].sender == sender
            &&& (message.subject() == Some(id) && message.news() is Some ==> message.plan(
                after,
            ).deliver == Some((id, message.news()->0)))
            &&& (!(message.closes() && message.subject() == Some(id)) && !(message matches
                MessageView::CS(CsView::EntryOpen(i, _)) && i == id) ==> message.settled(
                after,
            ).contains_key(id) && message.settled(after)[id].sender == sender)
        }),
{
}

/// A closed entry is forgotten: whatever comes about it later, short of its opening, it is told
/// nothing.
pub proof fn law_closed_entry_is_forgotten<S>(
    closing: MessageView<S>,
    known: Map<u32, EntryView<S>>,
    id: u32,
    later: MessageView<S>,
)
    requires
        closing.closes(),
        closing.subject() == Some(id),
        later.subject() == Some(id),
        !(later matches MessageView::CS(CsView::EntryOpen(_, _))),
    ensures
        !closing.settled(known).contains_key(id),
        later.plan(closing.settled(known)).deliver is None,
        !later.settled(closing.settled(known)).contains_key(id),
{
}

/// The server is told once that an entry closed: closing it again writes nothing and changes
/// nothing, and neither does closing it after the server closed it.
pub proof fn law_close_is_sent_once<S>(
    closing: MessageView<S>,
    known: Map<u32, EntryView<S>>,
    id: u32,
)
    requires
        closing.closes(),
        closing.subject() == Some(id),
    ensures
        ({
            let after = closing.settled(known);
            let again = MessageView::<S>::CS(CsView::EntryClose(id));
            &&& again.plan(after).send is None
            &&& again.plan(after).deliver is None
            &&& again.settled(after) == after
        }),
{
    let after = closing.settled(known);
    assert(MessageView::<S>::CS(CsView::EntryClose(id)).settled(after) =~= after);
}

/// What the entry `id` is told while `messages` are taken in and their plans carried out.
pub open spec fn told<S>(
    known: Map<u32, EntryView<S>>,
    messages: Seq<MessageView<S>>,
    id: u32,
) -> Seq<EntryMessageView>
    decreases messages.len(),
{
    if messages.len() == 0 {
        Seq::empty()
    } else {
        let first = match messages[0].plan(known).deliver {
            Some((i, news)) if i == id => seq![news],
            _ => Seq::empty(),
        };
        first + told(messages[0].settled(known), messages.skip(1), id)
    }
}

/// What `messages` have to tell the entry `id`.
pub open spec fn news_about<S>(messages: Seq<MessageView<S>>, id: u32) -> Seq<EntryMessageView>
    decreases messages.len(),
{
    if messages.len() == 0 {
        Seq::empty()
    } else {
        let first = if messages[0].subject() == Some(id) && messages[0].news() is Some {
            seq![messages[0].news()->0]
        } else {
            Seq::empty()
        };
        first + news_about(messages.skip(1), id)
    }
}

/// However the messages of many entries are mixed, an entry that stays open is told all that the
/// messages have to tell it, in their order, and nothing else.
pub proof fn law_entry_is_told_its_news<S>(
    known: Map<u32, EntryView<S>>,
    messages: Seq<MessageView<S>>,
    id: u32,
)
    requires
        known.contains_key(id),
        forall|i: int|
            0 <= i < messages.len() ==> !((#[trigger] messages[i]).closes()
                && messages[i].subject() == Some(id)),
    ensures
        told(known, messages, id) == news_about(messages, id),
    decreases messages.len(),
{
    if messages.len() > 0 {
        let rest = messages.skip(1);
        assert forall|i: int| 0 <= i < rest.len() implies !((#[trigger] rest[i]).closes()
            && rest[i].subject() == Some(id)) by {
            assert(rest[i] == messages[i + 1]);
        }
        assert(messages[0].settled(known).contains_key(id));
        law_entry_is_told_its_news(messages[0].settled(known), rest, id);
    }
}

/// What `messages` have to tell the entry `id`, up to and with the first that closes it.
pub open spec fn heard<S>(messages: Seq<MessageView<S>>, id: u32) -> Seq<EntryMessageView>
    decreases messages.len(),
{
    if messages.len() == 0 {
        Seq::empty()
    } else if messages[0].closes() && messages[0].subject() == Some(id) {
        seq![EntryMessageView::Close]
    } else {
        let first = if messages[0].subject() == Some(id) && messages[0].news() is Some {
            seq![messages[0].news()->0]
        } else {
            Seq::empty()
        };
        first + heard(messages.skip(1), id)
    }
}

/// The message opens the entry `id`.
pub open spec fn reopens<S>(message: MessageView<S>, id: u32) -> bool {
    message matches MessageView::CS(CsView::EntryOpen(i, _)) && i == id
}

proof fn lemma_unknown_is_told_nothing<S>(
    known: Map<u32, EntryView<S>>,
    messages: Seq<MessageView<S>>,
    id: u32,
)
    requires
        !known.contains_key(id),
        forall|i: int| 0 <= i < messages.len() ==> !reopens(#[trigger] messages[i], id),
    ensures
        told(known, messages, id) == Seq::<EntryMessageView>::empty(),
    decreases messages.len(),
{
    if messages.len() > 0 {
        let rest = messages.skip(1);
        assert(!reopens(messages[0], id));
        assert forall|i: int| 0 <= i < rest.len() implies !reopens(#[trigger] rest[i], id) by {
            assert(rest[i] == messages[i + 1]);
        }
        lemma_unknown_is_told_nothing(messages[0].settled(known), rest, id);
    }
}

/// The whole life of an entry: however the messages of many entries are mixed, an entry that is not
/// opened anew is told all that the messages have to tell it, in their order, up to and with its
/// close, and nothing else.
pub proof fn law_entry_is_told_until_its_close<S>(
    known: Map<u32, EntryView<S>>,
    messages: Seq<MessageView<S>>,
    id: u32,
)
    requires
        known.contains_key(id),
        forall|i: int| 0 <= i < messages.len() ==> !reopens(#[trigger] messages[i], id),
    ensures
        told(known, messages, id) == heard(messages, id),
    decreases messages.len(),
{
    if messages.len() > 0 {
        let rest = messages.skip(1);
        let after = messages[0].settled(known);
        assert(!reopens(messages[0], id));
        assert forall|i: int| 0 <= i < rest.len() implies !reopens(#[trigger] rest[i], id) by {
            assert(rest[i] == messages[i + 1]);
        }
        if messages[0].closes() && messages[0].subject() == Some(id) {
            lemma_unknown_is_told_nothing(after, rest, id);
            assert(told(known, messages, id) =~= seq![EntryMessageView::Close]);
        } else {
            assert(after.contains_key(id));
            law_entry_is_told_until_its_close(after, rest, id);
        }
    }
}

/// What the entry `id` is to hear while `messages` go by, if it is `open` before them: from its
/// opening to its close, by whichever side, all that the server says for it.
pub open spec fn hears<S>(open: bool, messages: Seq<MessageView<S>>, id: u32) -> Seq<
    EntryMessageView,
>
    decreases messages.len(),
{
    if messages.len() == 0 {
        Seq::empty()
    } else {
        let later = messages.skip(1);
        match messages[0] {
            MessageView::CS(CsView::EntryOpen(i, _)) if i == id => hears(true, later, id),
            MessageView::CS(CsView::EntryClose(i)) if i == id && open => seq![
                EntryMessageView::Close,
            ] + hears(false, later, id),
            MessageView::SC(ScFrameView::EntryClose(i)) if i == id && open => seq![
                EntryMessageView::Close,
            ] + hears(false, later, id),
            MessageView::SC(ScFrameView::Data(i, buf)) if i == id && open => seq![
                EntryMessageView::Data(buf),
            ] + hears(open, later, id),
            MessageView::SC(ScFrameView::Eof(i)) if i == id && open => seq![
                EntryMessageView::Eof,
            ] + hears(open, later, id),
            MessageView::SC(ScFrameView::ConnectOk(i, buf)) if i == id && open => seq![
                EntryMessageView::ConnectOk(buf),
            ] + hears(open, later, id),
            _ => hears(open, later, id),
        }
    }
}

/// Whether the entry `id` is open after `messages`, if it is `open` before them: its opening opens
/// it, a close by whichever side closes it, and nothing else does either.
pub open spec fn stays_open<S>(open: bool, messages: Seq<MessageView<S>>, id: u32) -> bool
    decreases messages.len(),
{
    if messages.len() == 0 {
        open
    } else {
        let later = messages.skip(1);
        match messages[0] {
            MessageView::CS(CsView::EntryOpen(i, _)) if i == id => stays_open(true, later, id),
            MessageView::CS(CsView::EntryClose(i)) if i == id => stays_open(false, later, id),
            MessageView::SC(ScFrameView::EntryClose(i)) if i == id => stays_open(false, later, id),
            _ => stays_open(open, later, id),
        }
    }
}

/// The entries that are known when `messages` were taken in and their plans carried out.
pub open spec fn known_after<S>(
    known: Map<u32, EntryView<S>>,
    messages: Seq<MessageView<S>>,
) -> Map<u32, EntryView<S>>
    decreases messages.len(),
{
    if messages.len() == 0 {
        known
    } else {
        known_after(messages[0].settled(known), messages.skip(1))
    }
}

/// However the messages of many entries are mixed, each entry, whatever its id, hears exactly what
/// it is to hear, and is known exactly from its opening to its close.
pub proof fn law_each_entry_hears_its_own<S>(
    known: Map<u32, EntryView<S>>,
    messages: Seq<MessageView<S>>,
    id: u32,
)
    ensures
        told(known, messages, id) == hears(known.contains_key(id), messages, id),
        known_after(known, messages).contains_key(id) == stays_open(
            known.contains_key(id),
            messages,
            id,
        ),
    decreases messages.len(),
{
    if messages.len() > 0 {
        let after = messages[0].settled(known);
        law_each_entry_hears_its_own(after, messages.skip(1), id);
        assert(told(known, messages, id) =~= hears(known.contains_key(id), messages, id));
    }
}

/// A write that fails forgets no entry; one that succeeds forgets the entry that is to be forgotten
/// and no other.
pub proof fn law_only_writes_forget<S>(known: Map<u32, EntryView<S>>, forget: Option<u32>, id: u32)
    ensures
        entries::forgotten(known, forget, false) == known,
        entries::forgotten(known, forget, true).contains_key(id) <==> known.contains_key(id)
            && forget != Some(id),
        known.contains_key(id) && forget != Some(id) ==> entries::forgotten(known, forget, true)[id]
            == known[id],
{
}

/// An entry keeps its channel until it is opened anew or closed. A name that it asks for is noted
/// with its port: the text whose bytes the name is, and no text where there is none.
pub proof fn law_entry_keeps_its_channel<S>(
    known: Map<u32, EntryView<S>>,
    message: MessageView<S>,
    id: u32,
    sender: S,
    name: Seq<u8>,
    port: u16,
)
    ensures
        message == MessageView::CS(CsView::EntryOpen(id, sender)) ==> message.settled(known)
            == known.insert(id, EntryView { host: Seq::empty(), port: 0, sender }),
        !reopens(message, id) && message.settled(known).contains_key(id) ==> known.contains_key(id)
            && message.settled(known)[id].sender == known[id].sender,
        message == MessageView::<S>::CS(CsView::ConnectDomainName(id, name, port))
            && known.contains_key(id) ==> {
            let entry = message.settled(known)[id];
            &&& entry.port == port
            &&& utf8::valid_utf8(name) ==> utf8::encode_utf8(entry.host) == name
            &&& !utf8::valid_utf8(name) ==> entry.host.len() == 0
        },
        !reopens(message, id) && known.contains_key(id) && message.settled(known).contains_key(id)
            && !(message matches MessageView::CS(CsView::ConnectDomainName(i, _, _)) && i == id)
            ==> message.settled(known)[id] == known[id],
{
    assert(message == MessageView::CS(CsView::EntryOpen(id, sender)) ==> message.settled(known)
        =~= known.insert(id, EntryView { host: Seq::empty(), port: 0, sender }));
    if utf8::valid_utf8(name) {
        utf8::decode_utf8_encode_utf8(name);
    }
}

/// Nothing that the server says is sent back to it.
pub proof fn law_server_messages_are_not_echoed<S>(
    sc: ScFrameView,
    known: Map<u32, EntryView<S>>,
)
    ensures
        MessageView::<S>::SC(sc).plan(known).send is None,
{
}

/// Takes in a message of the tunnel at the time `now`. A message of the server shows that the
/// server is alive.
pub fn process_message_at<S>(
    msg: Message<S>,
    now: Timespec,
    alive_time: &mut Timespec,
    entry_map: &mut EntryMap<S>,
) -> (plan: Plan)
    requires
        msg@.wf(),
    ensures
        plan@ == msg@.plan(old(entry_map)@),
        final(entry_map)@ == msg@.noted(old(entry_map)@),
        *final(alive_time) == (if msg@ is SC {
            now
        } else {
            *old(alive_time)
        }),
{
    match msg {
        Message::CS(cs) => match cs {
            Cs::Heartbeat => Plan { deliver: None, send: Some(CsFrame::Heartbeat), forget: None },
            Cs::EntryOpen(id, sender) => {
                entry_map.insert(id, EntryInternal { host: String::new(), port: 0, sender });
                Plan { deliver: None, send: Some(CsFrame::EntryOpen(id)), forget: None }
            },
            Cs::ConnectIp4(id, buf) => {
                Plan { deliver: None, send: Some(CsFrame::ConnectIp4(id, buf)), forget: None }
            },
            Cs::ConnectDomainName(id, buf, port) => {
                if let Some(entry) = entry_map.remove(id) {
                    let name: Vec<u8> = buf.clone();
                    assert(name@ =~= buf@);
                    let host: String = match from_utf8(name) {
                        Some(host) => host,
                        None => String::new(),
                    };
                    entry_map.insert(id, EntryInternal { host, port, sender: entry.sender });
                }
                assert(entry_map@ =~= msg@.noted(old(entry_map)@));
                Plan {
                    deliver: None,
                    send: Some(CsFrame::ConnectDomainName(id, buf, port)),
                    forget: None,
                }
            },
            Cs::Eof(id) => Plan { deliver: None, send: Some(CsFrame::Eof(id)), forget: None },
            Cs::Data(id, buf) => {
                Plan { deliver: None, send: Some(CsFrame::Data(id, buf)), forget: None }
            },
            Cs::EntryClose(id) => {
                if entry_map.contains(id) {
                    Plan {
                        deliver: Some((id, EntryMessage::Close)),
                        send: Some(CsFrame::EntryClose(id)),
                        forget: Some(id),
                    }
                } else {
                    Plan { deliver: None, send: None, forget: Some(id) }
                }
            },
        },
        Message::SC(sc) => {
            *alive_time = now;
            match sc {
                ScFrame::Heartbeat => Plan { deliver: None, send: None, forget: None },
                ScFrame::EntryClose(id) => {
                    let mut plan: Plan = tell(entry_map, id, EntryMessage::Close);
                    plan.forget = Some(id);
                    plan
                },
                ScFrame::Eof(id) => tell(entry_map, id, EntryMessage::Eof),
                ScFrame::ConnectOk(id, buf) => tell(entry_map, id, EntryMessage::ConnectOk(buf)),
                ScFrame::Data(id, buf) => tell(entry_map, id, EntryMessage::Data(buf)),
            }
        },
    }
}

/// The plan to tell an entry something, if it is known.
fn tell<S>(entry_map: &EntryMap<S>, id: u32, message: EntryMessage) -> (plan: Plan)
    ensures
        plan@ == (PlanView {
            deliver: if entry_map@.contains_key(id) {
                Some((id, message@))
            } else {
                None
            },
            send: None,
            forget: None,
        }),
{
    if entry_map.contains(id) {
        Plan { deliver: Some((id, message)), send: None, forget: None }
    } else {
        Plan { deliver: None, send: None, forget: None }
    }
}

/// Takes in a message of the tunnel at the current time; see [`process_message_at`].
pub fn process_tunnel_message<S>(
    msg: Message<S>,
    alive_time: &mut Timespec,
    entry_map: &mut EntryMap<S>,
) -> (plan: Plan)
    requires
        msg@.wf(),
    ensures
        plan@ == msg@.plan(old(entry_map)@),
        final(entry_map)@ == msg@.noted(old(entry_map)@),
        msg@ is SC ==> final(alive_time).wf(),
        msg@ is CS ==> *final(alive_time) == *old(alive_time),
{
    let now: Timespec = get_time();
    process_message_at(msg, now, alive_time, entry_map)
}

/// The last part of a plan, after its write: forgets the entry that the plan forgets. `written` is
/// whether the frame of the plan was written; a plan without a frame counts as written.
pub fn settle<S>(forget: Option<u32>, written: bool, entry_map: &mut EntryMap<S>)
    ensures
        final(entry_map)@ == entries::forgotten(old(entry_map)@, forget, written),
{
    if written {
        if let Some(id) = forget {
            let _ = entry_map.remove(id);
        }
    }
}

/// The bytes with which the client opens its stream, behind the id of the tunnel: the counter of
/// its cipher, and the agreed bytes, encrypted.
pub fn opening(ctr: &[u8], sealed_verify_data: &[u8]) -> (out: Vec<u8>)
    ensures
        out@ == ctr@ + sealed_verify_data@,
{
    let mut out: Vec<u8> = Vec::new();
    push_bytes(&mut out, ctr);
    push_bytes(&mut out, sealed_verify_data);
    assert(out@ =~= ctr@ + sealed_verify_data@);
    out
}

/// One turn of the loop that writes to the server: what to do about the next message of the tunnel.
/// There is nothing more to do when there is no message any more.
pub fn tunnel_to_server_stream<S>(
    next: Option<Message<S>>,
    alive_time: &mut Timespec,
    entry_map: &mut EntryMap<S>,
) -> (plan: Option<Plan>)
    requires
        next matches Some(msg) ==> msg@.wf(),
    ensures
        match next {
            Some(msg) => {
                &&& plan matches Some(plan) && plan@ == msg@.plan(old(entry_map)@)
                &&& final(entry_map)@ == msg@.noted(old(entry_map)@)
                &&& (msg@ is SC ==> final(alive_time).wf())
                &&& (msg@ is CS ==> *final(alive_time) == *old(alive_time))
            },
            None => {
                &&& plan is None
                &&& final(entry_map)@ == old(entry_map)@
                &&& *final(alive_time) == *old(alive_time)
            },
        },
{
    match next {
        Some(msg) => Some(process_tunnel_message(msg, alive_time, entry_map)),
        None => None,
    }
}

/// The end of a tunnel at which entries are opened.
#[derive(Debug)]
pub struct Tunnel {
    entry_id_current: u32,
}

impl View for Tunnel {
    type V = u32;

    /// The id of the entry that is opened next.
    closed spec fn view(&self) -> u32 {
        self.entry_id_current
    }
}

/// A tunnel whose next entry has the id `before` opens the entry `id`, and then its next entry has
/// the id `after`.
pub open spec fn opens(before: u32, id: u32, after: u32) -> bool {
    id == before && after == before + 1
}

/// No two entries that a tunnel opens have the same id.
pub proof fn law_entry_ids_differ(next: Seq<u32>, ids: Seq<u32>)
    requires
        next.len() == ids.len() + 1,
        forall|i: int| 0 <= i < ids.len() ==> opens(next[i], #[trigger] ids[i], next[i + 1]),
    ensures
        ids.no_duplicates(),
{
    assert forall|i: int, j: int| 0 <= i < j < ids.len() implies ids[i] != ids[j] by {
        lemma_ids_grow(next, ids, i, j);
    }
}

proof fn lemma_ids_grow(next: Seq<u32>, ids: Seq<u32>, i: int, j: int)
    requires
        next.len() == ids.len() + 1,
        forall|k: int| 0 <= k < ids.len() ==> opens(next[k], #[trigger] ids[k], next[k + 1]),
        0 <= i < j < ids.len(),
    ensures
        ids[i] < ids[j],
    decreases j - i,
{
    assert(opens(next[j - 1], ids[j - 1], next[j]));
    assert(opens(next[j], ids[j], next[j + 1]));
    if i < j - 1 {
        lemma_ids_grow(next, ids, i, j - 1);
    }
}

impl Tunnel {
    /// Whether the tunnel has no ids left.
    pub fn is_exhausted(&self) -> (exhausted: bool)
        ensures
            exhausted == (self@ == u32::MAX),
    {
        self.entry_id_current == u32::MAX
    }

    /// Opens an entry with the channel `entry_sender`: returns it, and the message that has to go
    /// into the tunnel first.
    pub fn open_entry<S>(&mut self, entry_sender: S) -> (out: (Entry, Message<S>))
        requires
            old(self)@ < u32::MAX,
        ensures
            opens(old(self)@, out.0@, final(self)@),
            out.1@ == MessageView::CS(CsView::EntryOpen(out.0@, entry_sender)),
    {
        let entry_id: u32 = self.entry_id_current;
        self.entry_id_current = entry_id + 1;
        (Entry { id: entry_id }, Message::CS(Cs::EntryOpen(entry_id, entry_sender)))
    }
}

/// One local connection in a tunnel.
#[derive(Debug)]
pub struct Entry {
    id: u32,
}

impl View for Entry {
    type V = u32;

    /// The id of the entry.
    closed spec fn view(&self) -> u32 {
        self.id
    }
}

impl Entry {
    /// The message that carries `buf` to the other end.
    pub fn write<S>(&self, buf: Vec<u8>) -> (message: Message<S>)
        ensures
            message@ == MessageView::<S>::CS(CsView::Data(self@, buf@)),
    {
        Message::CS(Cs::Data(self.id, buf))
    }

    /// The message that asks for a connection to an IPv4 address, given as text.
    pub fn connect_ip4<S>(&self, address: Vec<u8>) -> (message: Message<S>)
        ensures
            message@ == MessageView::<S>::CS(CsView::ConnectIp4(self@, address@)),
    {
        Message::CS(Cs::ConnectIp4(self.id, address))
    }

    /// The message that asks for a connection to a port of a named host.
    pub fn connect_domain_name<S>(&self, domain_name: Vec<u8>, port: u16) -> (message: Message<S>)
        ensures
            message@ == MessageView::<S>::CS(
                CsView::ConnectDomainName(self@, domain_name@, port),
            ),
    {
        Message::CS(Cs::ConnectDomainName(self.id, domain_name, port))
    }

    /// The message that the local program sends nothing more.
    pub fn eof<S>(&self) -> (message: Message<S>)
        ensures
            message@ == MessageView::<S>::CS(CsView::Eof(self@)),
    {
        Message::CS(Cs::Eof(self.id))
    }

    /// The message that the entry ends.
    pub fn close<S>(&self) -> (message: Message<S>)
        ensures
            message@ == MessageView::<S>::CS(CsView::EntryClose(self@)),
    {
        Message::CS(Cs::EntryClose(self.id))
    }

    /// What the entry is told, given what its channel brought: an entry whose channel is gone is
    /// closed.
    pub fn read(&self, received: Option<EntryMessage>) -> (message: EntryMessage)
        ensures
            message == (match received {
                Some(msg) => msg,
                None => EntryMessage::Close,
            }),
    {
        match received {
            Some(msg) => msg,
            None => EntryMessage::Close,
        }
    }
}

/// The end of a tunnel that keeps the connection to the server.
#[derive(Debug)]
pub struct TcpTunnel {
    config: Config,
    tunnel_id: u32,
}

/// What a [`TcpTunnel`] says.
#[verifier::ext_equal]
pub struct TcpTunnelView {
    pub config: ConfigView,
    pub tunnel_id: u32,
}

impl View for TcpTunnel {
    type V = TcpTunnelView;

    closed spec fn view(&self) -> TcpTunnelView {
        TcpTunnelView { config: self.config@, tunnel_id: self.tunnel_id }
    }
}

/// What happened to a tunnel's connection.
#[derive(Debug)]
pub enum TaskEvent {
    /// The server could not be reached.
    ConnectFailed,
    /// The server was reached.
    Connected,
    /// The id of the tunnel could not be written.
    AnnounceFailed,
    /// The id of the tunnel was written.
    Announced,
    /// Reading from the server and writing to it have both ended.
    Broken,
}

/// What is to be done about a tunnel's connection.
#[derive(Debug)]
pub enum TaskAction {
    /// Wait so many milliseconds, and start again.
    Sleep(u64),
    /// Start again.
    Return,
    /// Write these bytes.
    Write(Vec<u8>),
    /// Read from the server and write to it until both have ended.
    Serve,
    /// Tell these entries that they are closed, and start again.
    CloseEntries(Vec<u32>),
}

impl TcpTunnel {
    /// A new tunnel: the end at which entries are opened, and the end that keeps the connection.
    /// The first entry has the id 1.
    pub fn new(config: &Config, tunnel_id: u32) -> (ends: (Tunnel, TcpTunnel))
        ensures
            ends.0@ == 1,
            ends.1@ == (TcpTunnelView { config: config@, tunnel_id }),
    {
        (Tunnel { entry_id_current: 1 }, TcpTunnel { config: config.clone(), tunnel_id })
    }

    /// The settings of the client.
    pub fn config(&self) -> (config: &Config)
        ensures
            config@ == self@.config,
    {
        &self.config
    }

    /// What is to be done next about the connection; a connection starts with a connect to the
    /// server.
    pub fn task<S>(&self, event: TaskEvent, entry_map: &EntryMap<S>) -> (action: TaskAction)
        ensures
            match event {
                TaskEvent::ConnectFailed => action == TaskAction::Sleep(RECONNECT_DELAY_MS),
                TaskEvent::Connected => action matches TaskAction::Write(out) && out@
                    == bytes::be32(self@.tunnel_id),
                TaskEvent::AnnounceFailed => action == TaskAction::Return,
                TaskEvent::Announced => action == TaskAction::Serve,
                TaskEvent::Broken => action matches TaskAction::CloseEntries(ids)
                    && ids@.no_duplicates() && ids@.to_set() == entry_map@.dom(),
            },
    {
        match event {
            TaskEvent::ConnectFailed => TaskAction::Sleep(RECONNECT_DELAY_MS),
            TaskEvent::Connected => {
                let mut out: Vec<u8> = Vec::new();
                push_be32(&mut out, self.tunnel_id);
                assert(out@ =~= bytes::be32(self.tunnel_id));
                TaskAction::Write(out)
            },
            TaskEvent::AnnounceFailed => TaskAction::Return,
            TaskEvent::Announced => TaskAction::Serve,
            TaskEvent::Broken => TaskAction::CloseEntries(entry_map.ids()),
        }
    }
}

} // verus!
