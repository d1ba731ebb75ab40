//! One local connection: what it asks for, and how its bytes are relayed.
use vstd::prelude::*;

use crate::address;
use crate::address::SocketAddr;
use crate::client::socks5;
use crate::client::socks5::{
    write_dest_connected, write_dest_unreached, Destination, DestinationView,
};
use crate::client::tunnel::{CsView, Entry, EntryMessage, EntryMessageView, Message, MessageView};
use crate::relay;
use crate::relay::{cut, Drain, DrainView, Pump, PumpView, Reading, Shutdown};

verus! {

/// What is to be done after a read for the entry `id`.
pub open spec fn pumped<S>(id: u32, reading: Reading) -> PumpView<MessageView<S>> {
    match reading.read {
        Some(0) => PumpView {
            shutdown: Some(Shutdown::Read),
            message: MessageView::CS(CsView::Eof(id)),
            more: false,
        },
        Some(n) => PumpView {
            shutdown: None,
            message: MessageView::CS(CsView::Data(id, relay::filled(reading.buf, n))),
            more: true,
        },
        None => PumpView {
            shutdown: Some(Shutdown::Both),
            message: MessageView::CS(CsView::EntryClose(id)),
            more: false,
        },
    }
}

/// The messages that a run of reads for the entry `id` puts into the tunnel.
pub open spec fn messages_of<S>(id: u32, reads: Seq<Reading>) -> Seq<MessageView<S>>
    decreases reads.len(),
{
    if reads.len() == 0 {
        Seq::empty()
    } else {
        let pump = pumped::<S>(id, reads[0]);
        if pump.more {
            seq![pump.message] + messages_of::<S>(id, reads.skip(1))
        } else {
            seq![pump.message]
        }
    }
}

/// What a read from the local program brings goes into the tunnel under the id of the entry, byte
/// by byte, and reading goes on. The end of what the local program sends is passed on, and only
/// reading ends; a failure closes the entry and the connection.
pub proof fn law_reads_are_passed_on<S>(id: u32, buf: Seq<u8>, n: usize)
    requires
        0 < n <= buf.len(),
    ensures
        ({
            let pump = pumped::<S>(id, Reading { read: Some(n), buf });
            &&& pump.shutdown is None
            &&& pump.more
            &&& pump.message matches MessageView::CS(CsView::Data(to, data))
            &&& to == id
            &&& data.len() == n
            &&& forall|i: int| 0 <= i < n ==> #[trigger] data[i] == buf[i]
        }),
        ({
            let pump = pumped::<S>(id, Reading { read: Some(0), buf });
            &&& pump.shutdown == Some(Shutdown::Read)
            &&& !pump.more
            &&& pump.message == MessageView::<S>::CS(CsView::Eof(id))
        }),
        ({
            let pump = pumped::<S>(id, Reading { read: None, buf });
            &&& pump.shutdown == Some(Shutdown::Both)
            &&& !pump.more
            &&& pump.message == MessageView::<S>::CS(CsView::EntryClose(id))
        }),
{
    relay::law_read_keeps_its_bytes(buf, n);
}

/// What is to be done after a read from the local program into `buf`, which brought this many
/// bytes or failed. No bytes are the end of what the program sends.
pub fn local_stream_to_entry<S>(entry: &Entry, read: Option<usize>, buf: Vec<u8>) -> (pump: Pump<
    Message<S>,
>)
    ensures
        pump@ == pumped::<S>(entry@, (Reading { read, buf: buf@ })),
{
    match read {
        Some(0) => Pump { shutdown: Some(Shutdown::Read), message: entry.eof(), more: false },
        Some(n) => Pump { shutdown: None, message: entry.write(cut(buf, n)), more: true },
        None => Pump { shutdown: Some(Shutdown::Both), message: entry.close(), more: false },
    }
}

/// What happened on the way of bytes to the local program.
#[derive(Debug)]
pub enum DrainEvent {
    /// The entry was told this.
    Told(EntryMessage),
    /// The bytes of the last message were written, or could not be.
    Written(bool),
}

/// What an entry that is told `message` does about it.
pub open spec fn told(message: EntryMessageView) -> DrainView {
    match message {
        EntryMessageView::Data(buf) => DrainView::Write(buf),
        EntryMessageView::Eof => DrainView::Stop(Shutdown::Write),
        _ => DrainView::Stop(Shutdown::Both),
    }
}

/// Data that an entry which relays is told is written to the local program as it is; at the end of
/// the data only writing ends, and at anything else the connection.
pub proof fn law_data_is_written(data: Seq<u8>, message: EntryMessageView)
    ensures
        told(EntryMessageView::Data(data)) == DrainView::Write(data),
        told(message) is Write <==> message is Data,
        told(message) == DrainView::Stop(Shutdown::Write) <==> message is Eof,
        told(message) == DrainView::Stop(Shutdown::Both) <==> !(message is Data || message is Eof),
{
}

/// The bytes that an entry which relays writes to the local program while it is told `messages`, if
/// no write fails: up to the first message that stops it.
pub open spec fn drained(messages: Seq<EntryMessageView>) -> Seq<u8>
    decreases messages.len(),
{
    if messages.len() == 0 {
        Seq::empty()
    } else {
        match told(messages[0]) {
            DrainView::Write(buf) => buf + (if relay::written(true) is Wait {
                drained(messages.skip(1))
            } else {
                Seq::empty()
            }),
            _ => Seq::empty(),
        }
    }
}

/// What is to be done next about bytes for the local program.
pub fn entry_to_local_stream(event: DrainEvent) -> (drain: Drain)
    ensures
        drain@ == (match event {
            DrainEvent::Told(message) => told(message@),
            DrainEvent::Written(ok) => relay::written(ok),
        }),
{
    match event {
        DrainEvent::Told(EntryMessage::Data(buf)) => Drain::Write(buf),
        DrainEvent::Told(EntryMessage::Eof) => Drain::Stop(Shutdown::Write),
        DrainEvent::Told(_) => Drain::Stop(Shutdown::Both),
        DrainEvent::Written(true) => Drain::Wait,
        DrainEvent::Written(false) => Drain::Stop(Shutdown::Both),
    }
}

/// How far a local connection has come.
#[derive(Clone, Copy, Debug, PartialEq, Eq, Structural)]
pub enum EntryRun {
    /// The local program has to say where it wants to connect.
    AwaitDestination,
    /// The server has to say whether the destination was reached.
    AwaitAnswer,
    /// The text of the server's address has to be resolved.
    AwaitAddress,
    /// The local program is being answered: it is connected, or not.
    AwaitReply(bool),
    /// Bytes are relayed both ways.
    Relaying,
    /// The entry is closed.
    Done,
}

/// What happened to a local connection.
#[derive(Debug)]
pub enum RunEvent {
    /// The local program said where it wants to connect; nothing, if the dialogue failed.
    Destination(Option<Destination>),
    /// The entry was told this.
    Answer(EntryMessage),
    /// The text resolved to this address, or to none.
    Address(Option<SocketAddr>),
    /// The answer was written, or could not be.
    Replied(bool),
    /// Both ways have ended.
    Relayed,
}

/// What is to be done about a local connection.
#[derive(Debug)]
pub enum RunAction<S> {
    /// Put this message into the tunnel.
    Send(Message<S>),
    /// Resolve this text to an address.
    Resolve(Vec<u8>),
    /// Write this answer to the local program.
    Reply(Vec<u8>),
    /// Relay bytes both ways until both have ended.
    Relay,
}

/// Where a local connection stands, and what is to be done about it.
#[derive(Debug)]
pub struct RunStep<S> {
    pub next: EntryRun,
    /// Shut this half of the connection to the local program down before the action.
    pub shutdown: Option<Shutdown>,
    pub action: RunAction<S>,
}

/// What a [`RunEvent`] says.
#[verifier::ext_equal]
pub enum RunEventView {
    Destination(Option<DestinationView>),
    Answer(EntryMessageView),
    Address(Option<SocketAddr>),
    Replied(bool),
    Relayed,
}

/// What a [`RunAction`] says.
#[verifier::ext_equal]
pub enum RunActionView<S> {
    Send(MessageView<S>),
    Resolve(Seq<u8>),
    Reply(Seq<u8>),
    Relay,
}

/// What a [`RunStep`] says.
#[verifier::ext_equal]
pub struct RunStepView<S> {
    pub next: EntryRun,
    pub shutdown: Option<Shutdown>,
    pub action: RunActionView<S>,
}

impl View for RunEvent {
    type V = RunEventView;

    open spec fn view(&self) -> RunEventView {
        match self {
            RunEvent::Destination(Some(destination)) => RunEventView::Destination(
                Some(destination@),
            ),
            RunEvent::Destination(None) => RunEventView::Destination(None),
            RunEvent::Answer(message) => RunEventView::Answer(message@),
            RunEvent::Address(address) => RunEventView::Address(*address),
            RunEvent::Replied(ok) => RunEventView::Replied(*ok),
            RunEvent::Relayed => RunEventView::Relayed,
        }
    }
}

/// A [`RunEvent`] says what it holds.
pub proof fn law_run_event_says_what_it_holds(value: RunEvent)
    ensures
        match value {
            RunEvent::Destination(Some(destination)) => value@ == RunEventView::Destination(
                Some(destination@),
            ),
            RunEvent::Destination(None) => value@ == RunEventView::Destination(None),
            RunEvent::Answer(message) => value@ == RunEventView::Answer(message@),
            RunEvent::Address(address) => value@ == RunEventView::Address(address),
            RunEvent::Replied(ok) => value@ == RunEventView::Replied(ok),
            RunEvent::Relayed => value@ == RunEventView::Relayed,
        },
{
}

impl<S> View for RunAction<S> {
    type V = RunActionView<S>;

    open spec fn view(&self) -> RunActionView<S> {
        match self {
            RunAction::Send(message) => RunActionView::Send(message@),
            RunAction::Resolve(text) => RunActionView::Resolve(text@),
            RunAction::Reply(out) => RunActionView::Reply(out@),
            RunAction::Relay => RunActionView::Relay,
        }
    }
}

/// A [`RunAction`] says what it holds.
pub proof fn law_run_action_says_what_it_holds<S>(value: RunAction<S>)
    ensures
        match value {
            RunAction::Send(message) => value@ == RunActionView::<S>::Send(message@),
            RunAction::Resolve(text) => value@ == RunActionView::<S>::Resolve(text@),
            RunAction::Reply(out) => value@ == RunActionView::<S>::Reply(out@),
            RunAction::Relay => value@ == RunActionView::<S>::Relay,
        },
{
}

impl<S> View for RunStep<S> {
    type V = RunStepView<S>;

    open spec fn view(&self) -> RunStepView<S> {
        RunStepView { next: self.next, shutdown: self.shutdown, action: self.action@ }
    }
}

/// A [`RunStep`] says what it holds.
pub proof fn law_run_step_says_what_it_holds<S>(value: RunStep<S>)
    ensures
        value@.next == value.next,
        value@.shutdown == value.shutdown,
        value@.action == value.action@,
{
}

impl EntryRun {
    /// `event` is what the connection waits for.
    pub open spec fn expects(self, event: RunEventView) -> bool {
        match self {
            EntryRun::AwaitDestination => event is Destination,
            EntryRun::AwaitAnswer => event is Answer,
            EntryRun::AwaitAddress => event is Address,
            EntryRun::AwaitReply(_) => event is Replied,
            EntryRun::Relaying => event is Relayed,
            EntryRun::Done => false,
        }
    }

    /// Where the connection of the entry `id` stands after `event`, and what is to be done.
    pub open spec fn step<S>(self, id: u32, event: RunEventView) -> RunStepView<S> {
        match event {
            RunEventView::Destination(Some(DestinationView::Ip4 { ip, port })) => RunStepView {
                next: EntryRun::AwaitAnswer,
                shutdown: None,
                action: RunActionView::Send(
                    MessageView::CS(CsView::ConnectIp4(id, address::dotted(ip, port))),
                ),
            },
            RunEventView::Destination(
                Some(DestinationView::DomainName { name, port }),
            ) => RunStepView {
                next: EntryRun::AwaitAnswer,
                shutdown: None,
                action: RunActionView::Send(
                    MessageView::CS(CsView::ConnectDomainName(id, name, port)),
                ),
            },
            RunEventView::Destination(_) => closed(id, None),
            RunEventView::Answer(EntryMessageView::ConnectOk(text)) => RunStepView {
                next: EntryRun::AwaitAddress,
                shutdown: None,
                action: RunActionView::Resolve(text),
            },
            RunEventView::Answer(_) => replied(false, socks5::unreached_reply()),
            RunEventView::Address(Some(dest)) => replied(
                true,
                socks5::dest_result(dest, socks5::REP_SUCCESS),
            ),
            RunEventView::Address(None) => replied(false, socks5::unreached_reply()),
            RunEventView::Replied(ok) => if ok && self == EntryRun::AwaitReply(true) {
                RunStepView {
                    next: EntryRun::Relaying,
                    shutdown: None,
                    action: RunActionView::Relay,
                }
            } else {
                closed(id, Some(Shutdown::Both))
            },
            RunEventView::Relayed => closed(id, None),
        }
    }
}

/// The end of a local connection.
pub open spec fn closed<S>(id: u32, shutdown: Option<Shutdown>) -> RunStepView<S> {
    RunStepView {
        next: EntryRun::Done,
        shutdown,
        action: RunActionView::Send(MessageView::CS(CsView::EntryClose(id))),
    }
}

/// The answer to the local program.
pub open spec fn replied<S>(connected: bool, out: Seq<u8>) -> RunStepView<S> {
    RunStepView {
        next: EntryRun::AwaitReply(connected),
        shutdown: None,
        action: RunActionView::Reply(out),
    }
}

/// However a local connection goes, it ends by closing its entry, and not before its end.
pub proof fn law_connection_ends_with_close<S>(run: EntryRun, id: u32, event: RunEventView)
    requires
        run.expects(event),
    ensures
        ({
            let step = run.step::<S>(id, event);
            step.next is Done <==> step.action == RunActionView::<S>::Send(
                MessageView::CS(CsView::EntryClose(id)),
            )
        }),
{
}

/// Bytes are relayed only after the server reached the destination and the local program was told
/// so.
pub proof fn law_relay_needs_success<S>(run: EntryRun, id: u32, event: RunEventView)
    requires
        run.expects(event),
    ensures
        run.step::<S>(id, event).next is Relaying <==> run == EntryRun::AwaitReply(true) && event
            == RunEventView::Replied(true),
        run.step::<S>(id, event).next == EntryRun::AwaitReply(true) <==> event is Address && event
            != RunEventView::Address(None),
{
}

/// A local program whose destination was not reached is told so.
pub proof fn law_failure_is_answered<S>(run: EntryRun, id: u32, event: RunEventView)
    requires
        run.expects(event),
        run.step::<S>(id, event).next == EntryRun::AwaitReply(false),
    ensures
        run.step::<S>(id, event).action == RunActionView::<S>::Reply(socks5::unreached_reply()),
{
}

/// What a local connection puts into the tunnel, the tunnel takes.
pub proof fn law_messages_are_taken<S>(run: EntryRun, id: u32, event: RunEventView)
    ensures
        run.step::<S>(id, event).action matches RunActionView::Send(message) ==> message.wf(),
{
    if let RunEventView::Destination(Some(DestinationView::Ip4 { ip, port })) = event {
        address::law_dotted_is_utf8(ip, port);
    }
}

/// A local program that asked for a named host is answered for by a connect to that name and that
/// port, and one that asked for an address by a connect to the text that spells it; then the answer
/// of the server is awaited.
pub proof fn law_destination_is_asked_for<S>(id: u32, name: Seq<u8>, ip: Seq<u8>, port: u16)
    ensures
        EntryRun::AwaitDestination.step::<S>(
            id,
            RunEventView::Destination(Some(DestinationView::DomainName { name, port })),
        ) == (RunStepView {
            next: EntryRun::AwaitAnswer,
            shutdown: None,
            action: RunActionView::Send(
                MessageView::<S>::CS(CsView::ConnectDomainName(id, name, port)),
            ),
        }),
        ({
            let step = EntryRun::AwaitDestination.step::<S>(
                id,
                RunEventView::Destination(Some(DestinationView::Ip4 { ip, port })),
            );
            &&& step.next == EntryRun::AwaitAnswer
            &&& step.shutdown is None
            &&& step.action matches RunActionView::Send(
                MessageView::CS(CsView::ConnectIp4(to, text)),
            )
            &&& to == id
            &&& address::is_text_of(text, ip, port)
        }),
{
    address::law_text_spells_address(ip, port);
}

/// The local program is told where its destination was reached from, as the server said; or, byte
/// by byte, that it was not reached.
pub proof fn law_answer_is_passed_on<S>(
    id: u32,
    answer: EntryMessageView,
    text: Seq<u8>,
    dest: SocketAddr,
)
    ensures
        EntryRun::AwaitAnswer.step::<S>(
            id,
            RunEventView::Answer(EntryMessageView::ConnectOk(text)),
        ) == (RunStepView {
            next: EntryRun::AwaitAddress,
            shutdown: None,
            action: RunActionView::<S>::Resolve(text),
        }),
        !(answer is ConnectOk) ==> EntryRun::AwaitAnswer.step::<S>(id, RunEventView::Answer(answer))
            == (RunStepView {
            next: EntryRun::AwaitReply(false),
            shutdown: None,
            action: RunActionView::<S>::Reply(seq![5u8, 1, 0, 1, 0, 0, 0, 0, 0, 0]),
        }),
        EntryRun::AwaitAddress.step::<S>(id, RunEventView::Address(None)) == (RunStepView {
            next: EntryRun::AwaitReply(false),
            shutdown: None,
            action: RunActionView::<S>::Reply(seq![5u8, 1, 0, 1, 0, 0, 0, 0, 0, 0]),
        }),
        ({
            let step = EntryRun::AwaitAddress.step::<S>(id, RunEventView::Address(Some(dest)));
            let (ip, port, kind) = match dest {
                SocketAddr::V4(v4) => (v4.ip@, v4.port, 1u8),
                SocketAddr::V6(v6) => (v6.ip@, v6.port, 4u8),
            };
            let n = ip.len() as int;
            &&& step.next == EntryRun::AwaitReply(true)
            &&& step.shutdown is None
            &&& step.action matches RunActionView::Reply(a)
            &&& a.len() == 4 + n + 2
            &&& a[0] == 5 && a[1] == 0 && a[2] == 0 && a[3] == kind
            &&& forall|i: int| 0 <= i < n ==> #[trigger] a[4 + i] == ip[i]
            &&& a[4 + n] * 256 + a[5 + n] == port
        }),
{
    socks5::law_answer_layout(dest, 0);
}

/// The connection to the local program is shut down, both ways, where it ends after an answer and
/// before any byte was relayed, and nowhere else.
pub proof fn law_only_failed_connections_are_shut_down<S>(
    run: EntryRun,
    id: u32,
    event: RunEventView,
)
    requires
        run.expects(event),
    ensures
        run.step::<S>(id, event).shutdown == (if event is Replied && !(event
            == RunEventView::Replied(true) && run == EntryRun::AwaitReply(true)) {
            Some(Shutdown::Both)
        } else {
            None
        }),
        event is Relayed ==> run.step::<S>(id, event).next is Done,
        event is Destination && !(event matches RunEventView::Destination(
            Some(d),
        ) && d != DestinationView::Unknown) ==> run.step::<S>(id, event).next is Done,
        event == RunEventView::Replied(true) && run == EntryRun::AwaitReply(true) ==> run.step::<S>(
            id,
            event,
        ).action == RunActionView::<S>::Relay,
{
}

fn close_entry<S>(entry: &Entry, shutdown: Option<Shutdown>) -> (step: RunStep<S>)
    ensures
        step@ == closed::<S>(entry@, shutdown),
{
    RunStep { next: EntryRun::Done, shutdown, action: RunAction::Send(entry.close()) }
}

fn reply<S>(connected: bool, out: Vec<u8>) -> (step: RunStep<S>)
    ensures
        step@ == replied::<S>(connected, out@),
{
    RunStep {
        next: EntryRun::AwaitReply(connected),
        shutdown: None,
        action: RunAction::Reply(out),
    }
}

/// One step of a local connection, from the dialogue with the local program to the closing of the
/// entry.
pub fn run_entry<S>(entry: &Entry, run: EntryRun, event: RunEvent) -> (step: RunStep<S>)
    requires
        run.expects(event@),
    ensures
        step@ == run.step::<S>(entry@, event@),
{
    match event {
        RunEvent::Destination(Some(Destination::Ip4 { address })) => {
            let buf: Vec<u8> = address.to_text();
            RunStep {
                next: EntryRun::AwaitAnswer,
                shutdown: None,
                action: RunAction::Send(entry.connect_ip4(buf)),
            }
        },
        RunEvent::Destination(Some(Destination::DomainName { name, port })) => {
            RunStep {
                next: EntryRun::AwaitAnswer,
                shutdown: None,
                action: RunAction::Send(entry.connect_domain_name(name, port)),
            }
        },
        RunEvent::Destination(_) => close_entry(entry, None),
        RunEvent::Answer(EntryMessage::ConnectOk(buf)) => {
            RunStep {
                next: EntryRun::AwaitAddress,
                shutdown: None,
                action: RunAction::Resolve(buf),
            }
        },
        RunEvent::Answer(_) => reply(false, write_dest_unreached()),
        RunEvent::Address(Some(dest)) => reply(true, write_dest_connected(dest)),
        RunEvent::Address(None) => reply(false, write_dest_unreached()),
        RunEvent::Replied(ok) => {
            let connected: bool = match run {
                EntryRun::AwaitReply(connected) => connected,
                _ => false,
            };
            if ok && connected {
                RunStep { next: EntryRun::Relaying, shutdown: None, action: RunAction::Relay }
            } else {
                close_entry(entry, Some(Shutdown::Both))
            }
        },
        RunEvent::Relayed => close_entry(entry, None),
    }
}

} // verus!
