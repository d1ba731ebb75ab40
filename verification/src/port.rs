//! The ports of a client: a tunnel whose entries have one end to write to and one to read from.
//!
//! `S` is the program's handle on the channel of a port.
use vstd::prelude::*;

use crate::address::SocketAddrV4;
use crate::client::socks5;
use crate::client::socks5::{read_dest, DestinationView, Dialogue, DialogueView};
use crate::client::tunnel;

verus! {

/// How many messages the channel of a port holds.
pub const PORT_CAPACITY: usize = 999;

/// Where a local program wants to connect.
#[derive(Debug)]
pub enum Destination {
    Address { address: SocketAddrV4 },
    DomainName { name: Vec<u8>, port: u16 },
    Unknown,
}

impl View for Destination {
    type V = DestinationView;

    open spec fn view(&self) -> DestinationView {
        match self {
            Destination::Address { address } => DestinationView::Ip4 {
                ip: address.ip@,
                port: address.port,
            },
            Destination::DomainName { name, port } => DestinationView::DomainName {
                name: name@,
                port: *port,
            },
            Destination::Unknown => DestinationView::Unknown,
        }
    }
}

/// A [`Destination`] says what it holds.
pub proof fn law_destination_says_what_it_holds(value: Destination)
    ensures
        match value {
            Destination::Address { address } => value@ == (DestinationView::Ip4 {
                ip: address.ip@,
                port: address.port,
            }),
            Destination::DomainName { name, port } => value@ == (DestinationView::DomainName {
                name: name@,
                port: port,
            }),
            Destination::Unknown => value@ == DestinationView::Unknown,
        },
{
}

/// The dialogue with a local program: still open, or at its end.
#[derive(Debug)]
pub enum Negotiation {
    Open(Dialogue),
    Done(Destination),
}

impl View for Negotiation {
    type V = DialogueView;

    open spec fn view(&self) -> DialogueView {
        match self {
            Negotiation::Open(dialogue) => dialogue@,
            Negotiation::Done(destination) => DialogueView::Done(destination@),
        }
    }
}

/// A [`Negotiation`] says what it holds.
pub proof fn law_negotiation_says_what_it_holds(value: Negotiation)
    ensures
        match value {
            Negotiation::Open(dialogue) => value@ == dialogue@,
            Negotiation::Done(destination) => value@ == DialogueView::Done(destination@),
        },
{
}

/// One step of the dialogue: `input` is what [`Dialogue::want`] asked for. The second part of the
/// result is what the program is answered before anything more is read from it.
pub fn read_destination(dialogue: Dialogue, input: Vec<u8>) -> (out: (Negotiation, Vec<u8>))
    requires
        dialogue@.want() == Some(input@.len()),
    ensures
        (out.0@, out.1@) == dialogue@.step(input@),
        out.0 is Done <==> dialogue@.step(input@).0 is Done,
{
    let (next, reply) = read_dest(dialogue, input);
    match next {
        Dialogue::Done(socks5::Destination::Ip4 { address }) => {
            (Negotiation::Done(Destination::Address { address }), reply)
        },
        Dialogue::Done(socks5::Destination::DomainName { name, port }) => {
            (Negotiation::Done(Destination::DomainName { name, port }), reply)
        },
        Dialogue::Done(socks5::Destination::Unknown) => {
            (Negotiation::Done(Destination::Unknown), reply)
        },
        open => (Negotiation::Open(open), reply),
    }
}

/// A message to the core of a tunnel.
#[derive(Debug)]
pub enum TunnelMsg<S> {
    CSOpenPort(u32, S),
    CSConnect(u32, Vec<u8>),
    CSConnectDN(u32, Vec<u8>, u16),
    CSShutdownWrite(u32),
    CSClosePort(u32),
    CSData(u32, Vec<u8>),
    SCHeartbeat,
    SCClosePort(u32),
    SCShutdownWrite(u32),
    SCConnectOk(u32, Vec<u8>),
    SCData(u32, Vec<u8>),
    Heartbeat,
    TunnelPortDrop(u32),
}

/// What a port is told.
#[derive(Debug)]
pub enum TunnelPortMsg {
    ConnectOk(Vec<u8>),
    Data(Vec<u8>),
    ShutdownWrite,
    ClosePort,
}

/// The end of a port that is written to.
#[derive(Debug)]
pub struct TunnelWritePort {
    tunnel_id: u32,
}

/// The end of a port that is read from.
#[derive(Debug)]
pub struct TunnelReadPort {
    tunnel_id: u32,
}

impl View for TunnelWritePort {
    type V = u32;

    /// The id of the port.
    closed spec fn view(&self) -> u32 {
        self.tunnel_id
    }
}

impl View for TunnelReadPort {
    type V = u32;

    /// The id of the port.
    closed spec fn view(&self) -> u32 {
        self.tunnel_id
    }
}

impl TunnelWritePort {
    /// The message that carries `buf` to the other end.
    pub fn write<S>(&self, buf: Vec<u8>) -> (message: TunnelMsg<S>)
        ensures
            message == TunnelMsg::<S>::CSData(self@, buf),
    {
        TunnelMsg::CSData(self.tunnel_id, buf)
    }

    /// The message that asks for a connection to an address, given as text.
    pub fn connect<S>(&self, address: Vec<u8>) -> (message: TunnelMsg<S>)
        ensures
            message == TunnelMsg::<S>::CSConnect(self@, address),
    {
        TunnelMsg::CSConnect(self.tunnel_id, address)
    }

    /// The message that asks for a connection to a port of a named host.
    pub fn connect_domain_name<S>(&self, domain_name: Vec<u8>, port: u16) -> (message: TunnelMsg<S>)
        ensures
            message == TunnelMsg::<S>::CSConnectDN(self@, domain_name, port),
    {
        TunnelMsg::CSConnectDN(self.tunnel_id, domain_name, port)
    }

    /// The message that nothing more is written.
    pub fn shutdown_write<S>(&self) -> (message: TunnelMsg<S>)
        ensures
            message == TunnelMsg::<S>::CSShutdownWrite(self@),
    {
        TunnelMsg::CSShutdownWrite(self.tunnel_id)
    }

    /// The message that the port ends.
    pub fn close<S>(&self) -> (message: TunnelMsg<S>)
        ensures
            message == TunnelMsg::<S>::CSClosePort(self@),
    {
        TunnelMsg::CSClosePort(self.tunnel_id)
    }

    /// The message that this end of the port is dropped.
    pub fn drop<S>(&self) -> (message: TunnelMsg<S>)
        ensures
            message == TunnelMsg::<S>::TunnelPortDrop(self@),
    {
        TunnelMsg::TunnelPortDrop(self.tunnel_id)
    }
}

impl TunnelReadPort {
    /// What the port is told, given what its channel brought: a port whose channel is gone is
    /// closed.
    pub fn read(&self, received: Option<TunnelPortMsg>) -> (message: TunnelPortMsg)
        ensures
            message == (match received {
                Some(msg) => msg,
                None => TunnelPortMsg::ClosePort,
            }),
    {
        match received {
            Some(msg) => msg,
            None => TunnelPortMsg::ClosePort,
        }
    }

    /// The message that this end of the port is dropped.
    pub fn drop<S>(&self) -> (message: TunnelMsg<S>)
        ensures
            message == TunnelMsg::<S>::TunnelPortDrop(self@),
    {
        TunnelMsg::TunnelPortDrop(self.tunnel_id)
    }
}

/// The end of a tunnel at which ports are opened.
#[derive(Debug)]
pub struct Tunnel {
    id: u32,
}

impl View for Tunnel {
    type V = u32;

    /// The id of the port that is opened next.
    closed spec fn view(&self) -> u32 {
        self.id
    }
}

/// No two ports that a tunnel opens have the same id.
pub proof fn law_port_ids_differ(next: Seq<u32>, ids: Seq<u32>)
    requires
        next.len() == ids.len() + 1,
        forall|i: int|
            0 <= i < ids.len() ==> tunnel::opens(next[i], #[trigger] ids[i], next[i + 1]),
    ensures
        ids.no_duplicates(),
{
    tunnel::law_entry_ids_differ(next, ids);
}

impl Tunnel {
    /// A tunnel whose first port has the id `id`.
    pub fn starting_at(id: u32) -> (tunnel: Tunnel)
        ensures
            tunnel@ == id,
    {
        Tunnel { id }
    }

    /// Whether the tunnel has no ids left.
    pub fn is_exhausted(&self) -> (exhausted: bool)
        ensures
            exhausted == (self@ == u32::MAX),
    {
        self.id == u32::MAX
    }

    /// Opens a port with the channel `sender`: returns its two ends, and the message that has to go
    /// to the core of the tunnel first.
    pub fn open_port<S>(&mut self, sender: S) -> (out: (
        TunnelWritePort,
        TunnelReadPort,
        TunnelMsg<S>,
    ))
        requires
            old(self)@ < u32::MAX,
        ensures
            tunnel::opens(old(self)@, out.0@, final(self)@),
            out.1@ == out.0@,
            out.2 == TunnelMsg::CSOpenPort(out.0@, sender),
    {
        let id: u32 = self.id;
        self.id = id + 1;
        (
            TunnelWritePort { tunnel_id: id },
            TunnelReadPort { tunnel_id: id },
            TunnelMsg::CSOpenPort(id, sender),
        )
    }
}

} // verus!
