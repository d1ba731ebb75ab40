//! The SOCKS5 dialogue in which a local program says where it wants to connect.
use vstd::prelude::*;

use crate::address::{SocketAddr, SocketAddrV4};
use crate::bytes;
use crate::bytes::{has_byte, push_be16, push_bytes, read_be16};

verus! {

/// Where a local program wants to connect.
#[derive(Debug)]
pub enum Destination {
    Ip4 { address: SocketAddrV4 },
    DomainName { name: Vec<u8>, port: u16 },
    Unknown,
}

/// What a [`Destination`] says.
#[verifier::ext_equal]
pub enum DestinationView {
    Ip4 { ip: Seq<u8>, port: u16 },
    DomainName { name: Seq<u8>, port: u16 },
    Unknown,
}

impl View for Destination {
    type V = DestinationView;

    open spec fn view(&self) -> DestinationView {
        match self {
            Destination::Ip4 { address } => DestinationView::Ip4 {
                ip: address.ip@,
                port: address.port,
            },
            Destination::DomainName { name, port } => DestinationView::DomainName {
                name: name@,
                port: *port,
            },
            Destination::Unknown => DestinationView::Unknown,
        }
    }
}

/// A [`Destination`] says what it holds.
pub proof fn law_destination_says_what_it_holds(value: Destination)
    ensures
        match value {
            Destination::Ip4 { address } => value@ == (DestinationView::Ip4 {
                ip: address.ip@,
                port: address.port,
            }),
            Destination::DomainName { name, port } => value@ == (DestinationView::DomainName {
                name: name@,
                port: port,
            }),
            Destination::Unknown => value@ == DestinationView::Unknown,
        },
{
}

pub const VER: u8 = 5;

pub const RSV: u8 = 0;

pub const CMD_CONNECT: u8 = 1;

pub const METHOD_NO_AUTH: u8 = 0;

pub const METHOD_NO_ACCEPT: u8 = 0xFF;

pub const ATYP_IPV4: u8 = 1;

pub const ATYP_DOMAINNAME: u8 = 3;

pub const ATYP_IPV6: u8 = 4;

pub const REP_SUCCESS: u8 = 0;

pub const REP_FAILURE: u8 = 1;

/// How far the dialogue with a local program has come.
#[derive(Debug)]
pub enum Dialogue {
    /// At the start: the version and the number of methods come next.
    Start,
    /// Before this many methods.
    Methods(u8),
    /// Before the request.
    Request,
    /// Before an IPv4 address and a port.
    Ip4,
    /// Before the length of a domain name.
    NameLength,
    /// Before a domain name of this length and a port.
    Name(u8),
    /// At the end.
    Done(Destination),
}

/// What a [`Dialogue`] says.
#[verifier::ext_equal]
pub enum DialogueView {
    Start,
    Methods(u8),
    Request,
    Ip4,
    NameLength,
    Name(u8),
    Done(DestinationView),
}

impl View for Dialogue {
    type V = DialogueView;

    open spec fn view(&self) -> DialogueView {
        match self {
            Dialogue::Start => DialogueView::Start,
            Dialogue::Methods(n) => DialogueView::Methods(*n),
            Dialogue::Request => DialogueView::Request,
            Dialogue::Ip4 => DialogueView::Ip4,
            Dialogue::NameLength => DialogueView::NameLength,
            Dialogue::Name(n) => DialogueView::Name(*n),
            Dialogue::Done(destination) => DialogueView::Done(destination@),
        }
    }
}

/// A [`Dialogue`] says what it holds.
pub proof fn law_dialogue_says_what_it_holds(value: Dialogue)
    ensures
        match value {
            Dialogue::Start => value@ == DialogueView::Start,
            Dialogue::Methods(n) => value@ == DialogueView::Methods(n),
            Dialogue::Request => value@ == DialogueView::Request,
            Dialogue::Ip4 => value@ == DialogueView::Ip4,
            Dialogue::NameLength => value@ == DialogueView::NameLength,
            Dialogue::Name(n) => value@ == DialogueView::Name(n),
            Dialogue::Done(destination) => value@ == DialogueView::Done(destination@),
        },
{
}

/// The answer that names the method of authentication.
pub open spec fn method_reply(method: u8) -> Seq<u8> {
    seq![VER, method]
}

/// The destination in an address of four bytes and a port of two. The octets of the address stand
/// in the reverse of their order in the request.
pub open spec fn ip4_destination(b: Seq<u8>) -> DestinationView {
    DestinationView::Ip4 { ip: seq![b[3], b[2], b[1], b[0]], port: bytes::be16_value(b[4], b[5]) }
}

/// The destination in a name of `n` bytes and a port of two.
pub open spec fn name_destination(b: Seq<u8>, n: int) -> DestinationView {
    DestinationView::DomainName { name: b.take(n), port: bytes::be16_value(b[n], b[n + 1]) }
}

impl DialogueView {
    /// How many bytes the program has to send next; nothing at the end.
    pub open spec fn want(self) -> Option<nat> {
        match self {
            DialogueView::Start => Some(2),
            DialogueView::Methods(n) => Some(n as nat),
            DialogueView::Request => Some(4),
            DialogueView::Ip4 => Some(6),
            DialogueView::NameLength => Some(1),
            DialogueView::Name(n) => Some((n + 2) as nat),
            DialogueView::Done(_) => None,
        }
    }

    /// Where the dialogue stands after `input`, and what is answered to it.
    pub open spec fn step(self, input: Seq<u8>) -> (DialogueView, Seq<u8>) {
        match self {
            DialogueView::Start => if input[0] != VER {
                (DialogueView::Done(DestinationView::Unknown), method_reply(METHOD_NO_ACCEPT))
            } else {
                (DialogueView::Methods(input[1]), Seq::empty())
            },
            DialogueView::Methods(_) => if input.contains(METHOD_NO_AUTH) {
                (DialogueView::Request, method_reply(METHOD_NO_AUTH))
            } else {
                (DialogueView::Done(DestinationView::Unknown), method_reply(METHOD_NO_ACCEPT))
            },
            DialogueView::Request => (
                if input[1] != CMD_CONNECT {
                    DialogueView::Done(DestinationView::Unknown)
                } else if input[3] == ATYP_IPV4 {
                    DialogueView::Ip4
                } else if input[3] == ATYP_DOMAINNAME {
                    DialogueView::NameLength
                } else {
                    DialogueView::Done(DestinationView::Unknown)
                },
                Seq::empty(),
            ),
            DialogueView::Ip4 => (DialogueView::Done(ip4_destination(input)), Seq::empty()),
            DialogueView::NameLength => (DialogueView::Name(input[0]), Seq::empty()),
            DialogueView::Name(n) => (
                DialogueView::Done(name_destination(input, n as int)),
                Seq::empty(),
            ),
            DialogueView::Done(_) => (self, Seq::empty()),
        }
    }

    /// How many steps are left to the end, at most.
    pub open spec fn steps_left(self) -> nat {
        match self {
            DialogueView::Start => 5,
            DialogueView::Methods(_) => 4,
            DialogueView::Request => 3,
            DialogueView::NameLength => 2,
            DialogueView::Ip4 => 1,
            DialogueView::Name(_) => 1,
            DialogueView::Done(_) => 0,
        }
    }
}

/// How a whole dialogue went: the destination, all that was answered, and the bytes that the
/// program sent beyond the dialogue.
#[verifier::ext_equal]
pub struct Outcome {
    pub destination: DestinationView,
    pub replies: Seq<u8>,
    pub rest: Seq<u8>,
}

/// The dialogue with a program that sends `s`, from `dialogue` on; nothing while `s` ends too
/// early.
pub open spec fn run(dialogue: DialogueView, s: Seq<u8>) -> Option<Outcome>
    decreases dialogue.steps_left(),
{
    match dialogue {
        DialogueView::Done(destination) => Some(
            Outcome { destination, replies: Seq::empty(), rest: s },
        ),
        _ => {
            let n = dialogue.want()->0 as int;
            if s.len() < n {
                None
            } else {
                let (next, reply) = dialogue.step(s.take(n));
                match run(next, s.skip(n)) {
                    Some(outcome) => Some(Outcome { replies: reply + outcome.replies, ..outcome }),
                    None => None,
                }
            }
        },
    }
}

/// What a program that sends `s` is answered, and where it wants to connect; nothing while `s`
/// ends too early. The version and the reserved byte of the request are not looked at.
pub open spec fn negotiated(s: Seq<u8>) -> Option<Outcome> {
    let unknown = DestinationView::Unknown;
    if s.len() < 2 {
        None
    } else if s[0] != VER {
        Some(
            Outcome {
                destination: unknown,
                replies: method_reply(METHOD_NO_ACCEPT),
                rest: s.skip(2),
            },
        )
    } else if s.len() < 2 + s[1] {
        None
    } else if !s.subrange(2, 2 + s[1]).contains(METHOD_NO_AUTH) {
        Some(
            Outcome {
                destination: unknown,
                replies: method_reply(METHOD_NO_ACCEPT),
                rest: s.skip(2 + s[1]),
            },
        )
    } else {
        match requested(s.skip(2 + s[1])) {
            Some((destination, rest)) => Some(
                Outcome { destination, replies: method_reply(METHOD_NO_AUTH), rest },
            ),
            None => None,
        }
    }
}

/// The destination of the request at the start of `r`, and what follows the request.
pub open spec fn requested(r: Seq<u8>) -> Option<(DestinationView, Seq<u8>)> {
    if r.len() < 4 {
        None
    } else if r[1] == CMD_CONNECT && r[3] == ATYP_IPV4 {
        if r.len() < 10 {
            None
        } else {
            Some((ip4_destination(r.subrange(4, 10)), r.skip(10)))
        }
    } else if r[1] == CMD_CONNECT && r[3] == ATYP_DOMAINNAME {
        if r.len() < 5 || r.len() < 7 + r[4] {
            None
        } else {
            Some((name_destination(r.subrange(5, 7 + r[4]), r[4] as int), r.skip(7 + r[4])))
        }
    } else {
        Some((DestinationView::Unknown, r.skip(4)))
    }
}

proof fn lemma_request(r: Seq<u8>)
    ensures
        run(DialogueView::Request, r) == (match requested(r) {
            Some((destination, rest)) => Some(
                Outcome { destination, replies: Seq::empty(), rest },
            ),
            None => None,
        }),
{
    reveal_with_fuel(run, 4);
    if r.len() >= 4 {
        let r4 = r.skip(4);
        let input = r.take(4);
        assert(input[1] == r[1] && input[3] == r[3]);
        if r[1] == CMD_CONNECT && r[3] == ATYP_IPV4 {
            if r.len() >= 10 {
                assert(r4.take(6) =~= r.subrange(4, 10));
                assert(r4.skip(6) =~= r.skip(10));
            }
        } else if r[1] == CMD_CONNECT && r[3] == ATYP_DOMAINNAME {
            if r.len() >= 5 {
                let r5 = r4.skip(1);
                let n = r[4];
                assert(r4.take(1)[0] == n);
                if r.len() >= 7 + n {
                    assert(r5.take(n + 2) =~= r.subrange(5, 7 + n));
                    assert(r5.skip(n + 2) =~= r.skip(7 + n));
                }
            }
        }
        let nothing = Seq::<u8>::empty();
        assert(nothing + nothing =~= nothing);
        assert(nothing + (nothing + nothing) =~= nothing);
        assert(nothing + (nothing + (nothing + nothing)) =~= nothing);
    }
}

/// The dialogue, taken step by step, ends as the whole of what the program sends decides: a program
/// that does not speak version 5, or does not offer to do without authentication, is refused; any
/// other is accepted, and its request is read.
pub proof fn law_dialogue_negotiates(s: Seq<u8>)
    ensures
        run(DialogueView::Start, s) == negotiated(s),
{
    reveal_with_fuel(run, 3);
    if s.len() >= 2 {
        let n = s[1];
        let s2 = s.skip(2);
        let nothing = Seq::<u8>::empty();
        assert(s.take(2)[0] == s[0] && s.take(2)[1] == n);
        let refusal = method_reply(METHOD_NO_ACCEPT);
        assert(refusal + nothing =~= refusal);
        assert(nothing + (refusal + nothing) =~= refusal);
        let accepted = method_reply(METHOD_NO_AUTH);
        assert(nothing + (accepted + nothing) =~= accepted);
        if s[0] == VER && s.len() >= 2 + n {
            assert(s2.take(n as int) =~= s.subrange(2, 2 + n));
            assert(s2.skip(n as int) =~= s.skip(2 + n));
            lemma_request(s.skip(2 + n));
        }
    }
}

/// A destination is only ever taken from a program that was accepted.
pub proof fn law_destination_needs_acceptance(s: Seq<u8>)
    ensures
        run(DialogueView::Start, s) matches Some(outcome) ==> outcome.destination
            != DestinationView::Unknown ==> outcome.replies == method_reply(METHOD_NO_AUTH),
{
    law_dialogue_negotiates(s);
}

/// How a program opens the dialogue: the version and the methods that it offers.
pub open spec fn offer(methods: Seq<u8>) -> Seq<u8> {
    seq![5u8, methods.len() as u8] + methods
}

/// Two bytes for a port.
pub open spec fn port_bytes(port: u16) -> Seq<u8> {
    seq![(port / 256) as u8, (port % 256) as u8]
}

proof fn lemma_offer(methods: Seq<u8>, request: Seq<u8>)
    requires
        methods.len() <= 255,
    ensures
        ({
            let s = offer(methods) + request;
            &&& s.len() == 2 + methods.len() + request.len()
            &&& s[0] == 5
            &&& s[1] == methods.len()
            &&& s.subrange(2, 2 + s[1]) == methods
            &&& s.skip(2 + s[1]) == request
        }),
{
    let s = offer(methods) + request;
    assert(s.subrange(2, 2 + s[1]) =~= methods);
    assert(s.skip(2 + s[1]) =~= request);
}

/// A program that offers to do without authentication and asks for a port of a named host is
/// accepted, and it is that name and that port that it gets, for every name of at most 255 bytes
/// and every port. What it sends behind the request is left to be read.
pub proof fn law_asked_name_is_read(
    methods: Seq<u8>,
    version: u8,
    reserved: u8,
    name: Seq<u8>,
    port: u16,
    rest: Seq<u8>,
)
    requires
        methods.len() <= 255,
        methods.contains(0u8),
        name.len() <= 255,
    ensures
        run(
            DialogueView::Start,
            offer(methods) + (seq![version, 1u8, reserved, 3u8, name.len() as u8] + name
                + port_bytes(port) + rest),
        ) == Some(
            Outcome {
                destination: DestinationView::DomainName { name, port },
                replies: seq![5u8, 0u8],
                rest,
            },
        ),
{
    let r = seq![version, 1u8, reserved, 3u8, name.len() as u8] + name + port_bytes(port) + rest;
    let n = name.len() as int;
    lemma_offer(methods, r);
    law_dialogue_negotiates(offer(methods) + r);
    let b = r.subrange(5, 7 + n);
    assert(r[4] == n);
    assert(b.take(n) =~= name);
    assert(b[n] == port_bytes(port)[0] && b[n + 1] == port_bytes(port)[1]);
    bytes::law_be16_is_positional(port, b[n], b[n + 1]);
    assert(r.skip(7 + n) =~= rest);
    assert(method_reply(METHOD_NO_AUTH) =~= seq![5u8, 0u8]);
}

/// A program that offers to do without authentication and asks for an address is accepted, and it
/// is that address and that port that it gets, for all of them. The octets come last first.
pub proof fn law_asked_address_is_read(
    methods: Seq<u8>,
    version: u8,
    reserved: u8,
    ip: Seq<u8>,
    port: u16,
    rest: Seq<u8>,
)
    requires
        methods.len() <= 255,
        methods.contains(0u8),
        ip.len() == 4,
    ensures
        run(
            DialogueView::Start,
            offer(methods) + (seq![version, 1u8, reserved, 1u8, ip[3], ip[2], ip[1], ip[0]]
                + port_bytes(port) + rest),
        ) == Some(
            Outcome {
                destination: DestinationView::Ip4 { ip, port },
                replies: seq![5u8, 0u8],
                rest,
            },
        ),
{
    let r = seq![version, 1u8, reserved, 1u8, ip[3], ip[2], ip[1], ip[0]] + port_bytes(port) + rest;
    lemma_offer(methods, r);
    law_dialogue_negotiates(offer(methods) + r);
    let b = r.subrange(4, 10);
    assert(seq![b[3], b[2], b[1], b[0]] =~= ip);
    bytes::law_be16_is_positional(port, b[4], b[5]);
    assert(r.skip(10) =~= rest);
    assert(method_reply(METHOD_NO_AUTH) =~= seq![5u8, 0u8]);
}

/// A program that asks for anything but a connection to an IPv4 address or to a named host gets no
/// destination, and nothing behind its request is read.
pub proof fn law_other_requests_get_nothing(
    methods: Seq<u8>,
    request: Seq<u8>,
    rest: Seq<u8>,
)
    requires
        methods.len() <= 255,
        methods.contains(0u8),
        request.len() == 4,
        request[1] != 1 || (request[3] != 1 && request[3] != 3),
    ensures
        run(DialogueView::Start, offer(methods) + (request + rest)) == Some(
            Outcome { destination: DestinationView::Unknown, replies: seq![5u8, 0u8], rest },
        ),
{
    lemma_offer(methods, request + rest);
    law_dialogue_negotiates(offer(methods) + (request + rest));
    assert((request + rest).skip(4) =~= rest);
    assert(method_reply(METHOD_NO_AUTH) =~= seq![5u8, 0u8]);
}

/// A program that speaks another version, or that does not offer to do without authentication, is
/// refused and gets no destination.
pub proof fn law_others_are_refused(version: u8, number: u8, methods: Seq<u8>, rest: Seq<u8>)
    requires
        methods.len() <= 255,
    ensures
        version != 5 ==> run(DialogueView::Start, seq![version, number] + rest) == Some(
            Outcome { destination: DestinationView::Unknown, replies: seq![5u8, 255u8], rest },
        ),
        !methods.contains(0u8) ==> run(DialogueView::Start, offer(methods) + rest) == Some(
            Outcome { destination: DestinationView::Unknown, replies: seq![5u8, 255u8], rest },
        ),
{
    let s = seq![version, number] + rest;
    law_dialogue_negotiates(s);
    assert(s.skip(2) =~= rest);
    lemma_offer(methods, rest);
    law_dialogue_negotiates(offer(methods) + rest);
    assert(method_reply(METHOD_NO_ACCEPT) =~= seq![5u8, 255u8]);
}

/// Nothing is taken from a request before all of it is there.
pub proof fn law_part_of_a_request_is_no_request(
    methods: Seq<u8>,
    version: u8,
    reserved: u8,
    name: Seq<u8>,
    port: u16,
    n: int,
)
    requires
        methods.len() <= 255,
        methods.contains(0u8),
        name.len() <= 255,
        0 <= n < 2 + methods.len() + 7 + name.len(),
    ensures
        run(
            DialogueView::Start,
            (offer(methods) + (seq![version, 1u8, reserved, 3u8, name.len() as u8] + name
                + port_bytes(port))).take(n),
        ) is None,
{
    let r = seq![version, 1u8, reserved, 3u8, name.len() as u8] + name + port_bytes(port);
    let all = offer(methods) + r;
    let s = all.take(n);
    lemma_offer(methods, r);
    law_dialogue_negotiates(s);
    if n >= 2 {
        assert(s[0] == all[0] && s[1] == all[1]);
        let m = methods.len() as int;
        if n >= 2 + m {
            assert(s.subrange(2, 2 + m) =~= all.subrange(2, 2 + m));
            let part = s.skip(2 + m);
            assert(part =~= r.take(n - 2 - m));
            if part.len() >= 4 {
                assert(part[1] == r[1] && part[3] == r[3]);
            }
            if part.len() >= 5 {
                assert(part[4] == r[4]);
            }
        }
    }
}

/// The answer that names the method of authentication.
pub fn write_method(method: u8) -> (out: Vec<u8>)
    ensures
        out@ == method_reply(method),
{
    let mut out: Vec<u8> = Vec::new();
    out.push(VER);
    out.push(method);
    assert(out@ =~= method_reply(method));
    out
}

impl Dialogue {
    /// How many bytes the program has to send next; nothing at the end.
    pub fn want(&self) -> (n: Option<usize>)
        ensures
            match n {
                Some(n) => self@.want() == Some(n as nat),
                None => self@.want() is None,
            },
    {
        match self {
            Dialogue::Start => Some(2),
            Dialogue::Methods(n) => Some(*n as usize),
            Dialogue::Request => Some(4),
            Dialogue::Ip4 => Some(6),
            Dialogue::NameLength => Some(1),
            Dialogue::Name(n) => Some(*n as usize + 2),
            Dialogue::Done(_) => None,
        }
    }
}

/// One step of the dialogue: `input` is what [`Dialogue::want`] asked for. The second part of the
/// result is what the program is answered before anything more is read from it.
pub fn read_dest(dialogue: Dialogue, input: Vec<u8>) -> (out: (Dialogue, Vec<u8>))
    requires
        dialogue@.want() == Some(input@.len()),
    ensures
        (out.0@, out.1@) == dialogue@.step(input@),
{
    let silence: Vec<u8> = Vec::new();
    match dialogue {
        Dialogue::Start => {
            if input[0] != VER {
                (Dialogue::Done(Destination::Unknown), write_method(METHOD_NO_ACCEPT))
            } else {
                (Dialogue::Methods(input[1]), silence)
            }
        },
        Dialogue::Methods(_) => {
            if has_byte(input.as_slice(), METHOD_NO_AUTH) {
                (Dialogue::Request, write_method(METHOD_NO_AUTH))
            } else {
                (Dialogue::Done(Destination::Unknown), write_method(METHOD_NO_ACCEPT))
            }
        },
        Dialogue::Request => {
            if input[1] != CMD_CONNECT {
                (Dialogue::Done(Destination::Unknown), silence)
            } else if input[3] == ATYP_IPV4 {
                (Dialogue::Ip4, silence)
            } else if input[3] == ATYP_DOMAINNAME {
                (Dialogue::NameLength, silence)
            } else {
                (Dialogue::Done(Destination::Unknown), silence)
            }
        },
        Dialogue::Ip4 => {
            let port: u16 = read_be16(input[4], input[5]);
            let ip: [u8; 4] = [input[3], input[2], input[1], input[0]];
            assert(ip@ =~= seq![input@[3], input@[2], input@[1], input@[0]]);
            (Dialogue::Done(Destination::Ip4 { address: SocketAddrV4 { ip, port } }), silence)
        },
        Dialogue::NameLength => (Dialogue::Name(input[0]), silence),
        Dialogue::Name(n) => {
            let n: usize = n as usize;
            let port: u16 = read_be16(input[n], input[n + 1]);
            let mut name: Vec<u8> = input;
            name.truncate(n);
            assert(name@ =~= input@.take(n as int));
            (Dialogue::Done(Destination::DomainName { name, port }), silence)
        },
        Dialogue::Done(destination) => (Dialogue::Done(destination), silence),
    }
}

/// The answer to a request: how it went, and an address.
pub open spec fn dest_result(dest: SocketAddr, rsp: u8) -> Seq<u8> {
    match dest {
        SocketAddr::V4(v4) => seq![VER, rsp, RSV, ATYP_IPV4] + v4.ip@ + bytes::be16(v4.port),
        SocketAddr::V6(v6) => seq![VER, rsp, RSV, ATYP_IPV6] + v6.ip@ + bytes::be16(v6.port),
    }
}

/// The answer to a request that failed: failure, and the address `0.0.0.0:0`.
pub open spec fn unreached_reply() -> Seq<u8> {
    seq![VER, REP_FAILURE, RSV, ATYP_IPV4, 0, 0, 0, 0, 0, 0]
}

/// An answer says how it went and names an address and a port, byte by byte.
pub proof fn law_answer_layout(dest: SocketAddr, rsp: u8)
    ensures
        ({
            let a = dest_result(dest, rsp);
            let (ip, port, kind) = match dest {
                SocketAddr::V4(v4) => (v4.ip@, v4.port, 1u8),
                SocketAddr::V6(v6) => (v6.ip@, v6.port, 4u8),
            };
            let n = ip.len() as int;
            &&& a.len() == 4 + n + 2
            &&& a[0] == 5 && a[1] == rsp && a[2] == 0 && a[3] == kind
            &&& forall|i: int| 0 <= i < n ==> #[trigger] a[4 + i] == ip[i]
            &&& a[4 + n] * 256 + a[5 + n] == port
        }),
        unreached_reply() == seq![5u8, 1, 0, 1, 0, 0, 0, 0, 0, 0],
        method_reply(rsp) == seq![5u8, rsp],
{
    match dest {
        SocketAddr::V4(v4) => {
            bytes::law_be16_is_positional(v4.port, 0, 0);
        },
        SocketAddr::V6(v6) => {
            bytes::law_be16_is_positional(v6.port, 0, 0);
        },
    }
}

/// What a program is answered whose destination was not reached.
pub fn write_dest_unreached() -> (out: Vec<u8>)
    ensures
        out@ == unreached_reply(),
{
    let ip: [u8; 4] = [0, 0, 0, 0];
    let out: Vec<u8> = write_dest_result(
        SocketAddr::V4(SocketAddrV4 { ip, port: 0 }),
        REP_FAILURE,
    );
    assert(out@ =~= unreached_reply());
    out
}

/// What a program is answered whose destination was reached from the address `dest`.
pub fn write_dest_connected(dest: SocketAddr) -> (out: Vec<u8>)
    ensures
        out@ == dest_result(dest, REP_SUCCESS),
{
    write_dest_result(dest, REP_SUCCESS)
}

/// The answer to a request: how it went, and an address.
pub fn write_dest_result(dest: SocketAddr, rsp: u8) -> (out: Vec<u8>)
    ensures
        out@ == dest_result(dest, rsp),
{
    let mut out: Vec<u8> = Vec::new();
    out.push(VER);
    out.push(rsp);
    out.push(RSV);
    match dest {
        SocketAddr::V4(v4) => {
            out.push(ATYP_IPV4);
            push_bytes(&mut out, v4.ip.as_slice());
            push_be16(&mut out, v4.port);
        },
        SocketAddr::V6(v6) => {
            out.push(ATYP_IPV6);
            push_bytes(&mut out, v6.ip.as_slice());
            push_be16(&mut out, v6.port);
        },
    }
    assert(out@ =~= dest_result(dest, rsp));
    out
}

} // verus!
