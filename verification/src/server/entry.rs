//! One connection to a destination: how it is made, and how its bytes are relayed.
use vstd::prelude::*;
use vstd::utf8;

use crate::relay;
use crate::relay::{cut, Drain, DrainView, Pump, PumpView, Reading, Shutdown};
use crate::server::tunnel::{Entry, EntryMessage, EntryMessageView, Message, MessageView, ScView};
use crate::text::from_utf8;

verus! {

/// What is to be done after a read for the entry `id`.
pub open spec fn pumped(id: u32, reading: Reading) -> PumpView<MessageView> {
    match reading.read {
        Some(0) => PumpView {
            shutdown: Some(Shutdown::Read),
            message: MessageView::SC(ScView::Eof(id)),
            more: false,
        },
        Some(n) => PumpView {
            shutdown: None,
            message: MessageView::SC(ScView::Data(id, relay::filled(reading.buf, n))),
            more: true,
        },
        None => PumpView {
            shutdown: Some(Shutdown::Both),
            message: MessageView::SC(ScView::EntryClose(id)),
            more: false,
        },
    }
}

/// The messages that a run of reads for the entry `id` puts into the tunnel.
pub open spec fn messages_of(id: u32, reads: Seq<Reading>) -> Seq<MessageView>
    decreases reads.len(),
{
    if reads.len() == 0 {
        Seq::empty()
    } else {
        let pump = pumped(id, reads[0]);
        if pump.more {
            seq![pump.message] + messages_of(id, reads.skip(1))
        } else {
            seq![pump.message]
        }
    }
}

/// What a read from the destination brings goes into the tunnel under the id of the entry, byte by
/// byte, and reading goes on. The end of what the destination sends is passed on, and only reading
/// ends; a failure closes the entry and the connection.
pub proof fn law_reads_are_passed_on(id: u32, buf: Seq<u8>, n: usize)
    requires
        0 < n <= buf.len(),
    ensures
        ({
            let pump = pumped(id, Reading { read: Some(n), buf });
            &&& pump.shutdown is None
            &&& pump.more
            &&& pump.message matches MessageView::SC(ScView::Data(to, data))
            &&& to == id
            &&& data.len() == n
            &&& forall|i: int| 0 <= i < n ==> #[trigger] data[i] == buf[i]
        }),
        ({
            let pump = pumped(id, Reading { read: Some(0), buf });
            &&& pump.shutdown == Some(Shutdown::Read)
            &&& !pump.more
            &&& pump.message == MessageView::SC(ScView::Eof(id))
        }),
        ({
            let pump = pumped(id, Reading { read: None, buf });
            &&& pump.shutdown == Some(Shutdown::Both)
            &&& !pump.more
            &&& pump.message == MessageView::SC(ScView::EntryClose(id))
        }),
{
    relay::law_read_keeps_its_bytes(buf, n);
}

/// What is to be done after a read from the destination into `buf`, which brought this many bytes
/// or failed. No bytes are the end of what the destination sends.
pub fn dest_stream_to_entry(entry: &Entry, read: Option<usize>, buf: Vec<u8>) -> (pump: Pump<
    Message,
>)
    ensures
        pump@ == pumped(entry@.id, (Reading { read, buf: buf@ })),
{
    match read {
        Some(0) => Pump { shutdown: Some(Shutdown::Read), message: entry.eof(), more: false },
        Some(n) => Pump { shutdown: None, message: entry.write(cut(buf, n)), more: true },
        None => Pump { shutdown: Some(Shutdown::Both), message: entry.close(), more: false },
    }
}

/// What happened on the way of bytes to the destination.
#[derive(Debug)]
pub enum DrainEvent {
    /// The entry was told this.
    Told(EntryMessage),
    /// The bytes of the last message were written, or could not be.
    Written(bool),
}

/// What an entry that is told `message` does about it.
pub open spec fn told(message: EntryMessageView) -> DrainView {
    match message {
        EntryMessageView::Data(buf) => DrainView::Write(buf),
        EntryMessageView::Eof => DrainView::Stop(Shutdown::Write),
        _ => DrainView::Stop(Shutdown::Both),
    }
}

/// Data that an entry which relays is told is written to the destination as it is; at the end of
/// the data only writing ends, and at anything else the connection.
pub proof fn law_data_is_written(data: Seq<u8>, message: EntryMessageView)
    ensures
        told(EntryMessageView::Data(data)) == DrainView::Write(data),
        told(message) is Write <==> message is Data,
        told(message) == DrainView::Stop(Shutdown::Write) <==> message is Eof,
        told(message) == DrainView::Stop(Shutdown::Both) <==> !(message is Data || message is Eof),
{
}

/// The bytes that an entry which relays writes to the destination while it is told `messages`, if
/// no write fails: up to the first message that stops it.
pub open spec fn drained(messages: Seq<EntryMessageView>) -> Seq<u8>
    decreases messages.len(),
{
    if messages.len() == 0 {
        Seq::empty()
    } else {
        match told(messages[0]) {
            DrainView::Write(buf) => buf + (if relay::written(true) is Wait {
                drained(messages.skip(1))
            } else {
                Seq::empty()
            }),
            _ => Seq::empty(),
        }
    }
}

/// What is to be done next about bytes for the destination.
pub fn entry_to_dest_stream(event: DrainEvent) -> (drain: Drain)
    ensures
        drain@ == (match event {
            DrainEvent::Told(message) => told(message@),
            DrainEvent::Written(ok) => relay::written(ok),
        }),
{
    match event {
        DrainEvent::Told(EntryMessage::Data(buf)) => Drain::Write(buf),
        DrainEvent::Told(EntryMessage::Eof) => Drain::Stop(Shutdown::Write),
        DrainEvent::Told(_) => Drain::Stop(Shutdown::Both),
        DrainEvent::Written(true) => Drain::Wait,
        DrainEvent::Written(false) => Drain::Stop(Shutdown::Both),
    }
}

/// How far an entry has come.
#[derive(Clone, Copy, Debug, PartialEq, Eq, Structural)]
pub enum EntryRun {
    /// The client has to say where to connect.
    AwaitTarget,
    /// The connect has to succeed or fail.
    AwaitConnect,
    /// The local address of the connection has to be found.
    AwaitLocalAddress,
    /// Bytes are relayed both ways, until both have ended.
    Relaying,
    /// The entry is closed.
    Done,
}

/// What happened to an entry.
#[derive(Debug)]
pub enum RunEvent {
    /// The entry was told this.
    Told(EntryMessage),
    /// The destination was reached, or not.
    Connected(bool),
    /// The text of the connection's local address; nothing, if it could not be found.
    LocalAddress(Option<Vec<u8>>),
    /// Both ways have ended.
    Relayed,
}

/// Where to connect.
#[derive(Debug)]
pub enum Target {
    /// To an address and a port.
    Address(String),
    /// To a port of a named host.
    Host(String, u16),
}

/// What is to be done about an entry.
#[derive(Debug)]
pub enum RunAction {
    /// Connect.
    Connect(Target),
    /// Find the local address of the connection.
    FindLocalAddress,
    /// Put this message into the tunnel.
    Send(Message),
}

/// Where an entry stands, and what is to be done about it.
#[derive(Debug)]
pub struct RunStep {
    pub next: EntryRun,
    pub action: RunAction,
}

/// What a [`RunEvent`] says.
#[verifier::ext_equal]
pub enum RunEventView {
    Told(EntryMessageView),
    Connected(bool),
    LocalAddress(Option<Seq<u8>>),
    Relayed,
}

/// What a [`RunAction`] says.
#[verifier::ext_equal]
pub enum RunActionView {
    ConnectAddress(Seq<char>),
    ConnectHost(Seq<char>, u16),
    FindLocalAddress,
    Send(MessageView),
}

/// What a [`RunStep`] says.
#[verifier::ext_equal]
pub struct RunStepView {
    pub next: EntryRun,
    pub action: RunActionView,
}

impl View for RunEvent {
    type V = RunEventView;

    open spec fn view(&self) -> RunEventView {
        match self {
            RunEvent::Told(message) => RunEventView::Told(message@),
            RunEvent::Connected(ok) => RunEventView::Connected(*ok),
            RunEvent::LocalAddress(Some(text)) => RunEventView::LocalAddress(Some(text@)),
            RunEvent::LocalAddress(None) => RunEventView::LocalAddress(None),
            RunEvent::Relayed => RunEventView::Relayed,
        }
    }
}

/// A [`RunEvent`] says what it holds.
pub proof fn law_run_event_says_what_it_holds(value: RunEvent)
    ensures
        match value {
            RunEvent::Told(message) => value@ == RunEventView::Told(message@),
            RunEvent::Connected(ok) => value@ == RunEventView::Connected(ok),
            RunEvent::LocalAddress(Some(text)) => value@ == RunEventView::LocalAddress(Some(text@)),
            RunEvent::LocalAddress(None) => value@ == RunEventView::LocalAddress(None),
            RunEvent::Relayed => value@ == RunEventView::Relayed,
        },
{
}

impl View for RunAction {
    type V = RunActionView;

    open spec fn view(&self) -> RunActionView {
        match self {
            RunAction::Connect(Target::Address(address)) => RunActionView::ConnectAddress(address@),
            RunAction::Connect(Target::Host(name, port)) => RunActionView::ConnectHost(
                name@,
                *port,
            ),
            RunAction::FindLocalAddress => RunActionView::FindLocalAddress,
            RunAction::Send(message) => RunActionView::Send(message@),
        }
    }
}

/// A [`RunAction`] says what it holds.
pub proof fn law_run_action_says_what_it_holds(value: RunAction)
    ensures
        match value {
            RunAction::Connect(Target::Address(address)) => value@
                == RunActionView::ConnectAddress(address@),
            RunAction::Connect(Target::Host(name, port)) => value@ == RunActionView::ConnectHost(
                name@,
                port,
            ),
            RunAction::FindLocalAddress => value@ == RunActionView::FindLocalAddress,
            RunAction::Send(message) => value@ == RunActionView::Send(message@),
        },
{
}

impl View for RunStep {
    type V = RunStepView;

    open spec fn view(&self) -> RunStepView {
        RunStepView { next: self.next, action: self.action@ }
    }
}

/// A [`RunStep`] says what it holds.
pub proof fn law_run_step_says_what_it_holds(value: RunStep)
    ensures
        value@.next == value.next,
        value@.action == value.action@,
{
}

impl RunEventView {
    /// A target comes as text.
    pub open spec fn wf(self) -> bool {
        match self {
            RunEventView::Told(EntryMessageView::ConnectIp(buf)) => utf8::valid_utf8(buf),
            RunEventView::Told(EntryMessageView::ConnectDomainName(name, _)) => utf8::valid_utf8(
                name,
            ),
            _ => true,
        }
    }
}

impl EntryRun {
    /// `event` is what the entry waits for.
    pub open spec fn expects(self, event: RunEventView) -> bool {
        match self {
            EntryRun::AwaitTarget => event is Told,
            EntryRun::AwaitConnect => event is Connected,
            EntryRun::AwaitLocalAddress => event is LocalAddress,
            EntryRun::Relaying => event is Relayed,
            EntryRun::Done => false,
        }
    }
}

/// Where the entry `id` stands after `event`, and what is to be done.
pub open spec fn step(id: u32, event: RunEventView) -> RunStepView {
    let closed = RunStepView {
        next: EntryRun::Done,
        action: RunActionView::Send(MessageView::SC(ScView::EntryClose(id))),
    };
    match event {
        RunEventView::Told(EntryMessageView::ConnectIp(buf)) => RunStepView {
            next: EntryRun::AwaitConnect,
            action: RunActionView::ConnectAddress(utf8::decode_utf8(buf)),
        },
        RunEventView::Told(EntryMessageView::ConnectDomainName(name, port)) => RunStepView {
            next: EntryRun::AwaitConnect,
            action: RunActionView::ConnectHost(utf8::decode_utf8(name), port),
        },
        RunEventView::Told(_) => closed,
        RunEventView::Connected(true) => RunStepView {
            next: EntryRun::AwaitLocalAddress,
            action: RunActionView::FindLocalAddress,
        },
        RunEventView::Connected(false) => closed,
        RunEventView::LocalAddress(Some(text)) => RunStepView {
            next: EntryRun::Relaying,
            action: RunActionView::Send(MessageView::SC(ScView::ConnectOk(id, text))),
        },
        RunEventView::LocalAddress(None) => closed,
        RunEventView::Relayed => closed,
    }
}

/// However an entry goes, it ends by telling the client that it is closed, and not before its end.
pub proof fn law_entry_ends_with_close(run: EntryRun, id: u32, event: RunEventView)
    requires
        run.expects(event),
    ensures
        step(id, event).next is Done <==> step(id, event).action == RunActionView::Send(
            MessageView::SC(ScView::EntryClose(id)),
        ),
{
}

/// The client is told that the destination was reached if and only if bytes are relayed next.
pub proof fn law_connect_ok_starts_relay(run: EntryRun, id: u32, event: RunEventView, text: Seq<u8>)
    requires
        run.expects(event),
    ensures
        step(id, event).action == RunActionView::Send(MessageView::SC(ScView::ConnectOk(id, text)))
            <==> step(id, event).next is Relaying && event == RunEventView::LocalAddress(
            Some(text),
        ),
{
}

/// An entry that is told a name and a port connects to exactly that name, the text whose bytes it
/// is, and exactly that port; one that is told an address connects to exactly that text.
pub proof fn law_target_is_what_was_told(id: u32, told: Seq<u8>, port: u16)
    requires
        utf8::valid_utf8(told),
    ensures
        ({
            let news = EntryMessageView::ConnectDomainName(told, port);
            let step = step(id, RunEventView::Told(news));
            &&& step.next == EntryRun::AwaitConnect
            &&& step.action matches RunActionView::ConnectHost(name, to)
            &&& utf8::encode_utf8(name) == told
            &&& to == port
        }),
        ({
            let step = step(id, RunEventView::Told(EntryMessageView::ConnectIp(told)));
            &&& step.next == EntryRun::AwaitConnect
            &&& step.action matches RunActionView::ConnectAddress(text)
            &&& utf8::encode_utf8(text) == told
        }),
{
    utf8::decode_utf8_encode_utf8(told);
}

/// When the destination is reached its local address is asked for and told to the client; whatever
/// fails, and whatever comes before a target is told, closes the entry.
pub proof fn law_entry_goes_its_way(id: u32, event: RunEventView, text: Seq<u8>)
    ensures
        step(id, RunEventView::Connected(true)) == (RunStepView {
            next: EntryRun::AwaitLocalAddress,
            action: RunActionView::FindLocalAddress,
        }),
        step(id, RunEventView::LocalAddress(Some(text))) == (RunStepView {
            next: EntryRun::Relaying,
            action: RunActionView::Send(MessageView::SC(ScView::ConnectOk(id, text))),
        }),
        event == RunEventView::Connected(false) || event == RunEventView::LocalAddress(None)
            || event is Relayed || (event matches RunEventView::Told(message) && !(message
            is ConnectIp || message is ConnectDomainName)) ==> step(id, event) == (RunStepView {
            next: EntryRun::Done,
            action: RunActionView::Send(MessageView::SC(ScView::EntryClose(id))),
        }),
{
}

fn close_entry(entry: &Entry) -> (step: RunStep)
    ensures
        step@ == (RunStepView {
            next: EntryRun::Done,
            action: RunActionView::Send(MessageView::SC(ScView::EntryClose(entry@.id))),
        }),
{
    RunStep { next: EntryRun::Done, action: RunAction::Send(entry.close()) }
}

fn connect(target: Target) -> (step: RunStep)
    ensures
        step@ == (RunStepView {
            next: EntryRun::AwaitConnect,
            action: RunAction::Connect(target)@,
        }),
{
    RunStep { next: EntryRun::AwaitConnect, action: RunAction::Connect(target) }
}

/// One step of an entry, from the connect to the closing.
pub fn entry_task(entry: &Entry, run: EntryRun, event: RunEvent) -> (out: RunStep)
    requires
        run.expects(event@),
        event@.wf(),
    ensures
        out@ == step(entry@.id, event@),
{
    match event {
        RunEvent::Told(EntryMessage::ConnectIp(buf)) => match from_utf8(buf) {
            Some(address) => connect(Target::Address(address)),
            None => close_entry(entry),
        },
        RunEvent::Told(EntryMessage::ConnectDomainName(name, port)) => match from_utf8(name) {
            Some(name) => connect(Target::Host(name, port)),
            None => close_entry(entry),
        },
        RunEvent::Told(_) => close_entry(entry),
        RunEvent::Connected(true) => {
            RunStep { next: EntryRun::AwaitLocalAddress, action: RunAction::FindLocalAddress }
        },
        RunEvent::Connected(false) => close_entry(entry),
        RunEvent::LocalAddress(Some(buf)) => {
            RunStep { next: EntryRun::Relaying, action: RunAction::Send(entry.connect_ok(buf)) }
        },
        RunEvent::LocalAddress(None) => close_entry(entry),
        RunEvent::Relayed => close_entry(entry),
    }
}

} // verus!
