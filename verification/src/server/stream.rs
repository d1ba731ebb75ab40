//! Reading what the client sends through a tunnel.
use vstd::prelude::*;

use crate::bytes;
use crate::bytes::{read_be16, read_be32, same_bytes};
use crate::framing;
use crate::protocol;
use crate::protocol::{CsCodes, CsFrame, CsFrameView, Protocol, TunnelError, Want, WantView};

verus! {

/// An operation whose frame carries a payload.
#[derive(Clone, Copy, Debug, PartialEq, Eq, Structural)]
pub enum SizedOp {
    ConnectDomainName,
    ConnectIp4,
    Data,
}

/// An operation that is about an entry.
#[derive(Clone, Copy, Debug, PartialEq, Eq, Structural)]
pub enum CsOp {
    EntryOpen,
    EntryClose,
    Eof,
    Sized(SizedOp),
}

/// How far the server has read the stream of a client.
#[derive(Debug)]
pub enum CsReader {
    /// At the start: the counter of the client's cipher comes next.
    Counter,
    /// Before the encrypted bytes by which the client shows that it holds the key.
    Greeting,
    /// Behind these bytes, which are still encrypted.
    SealedGreeting(Vec<u8>),
    /// Before a frame.
    Op,
    /// Behind the operation byte of a frame.
    Id(CsOp),
    /// Before the length of the frame's payload.
    Len(SizedOp, u32),
    /// Before the payload, of this length.
    Body(SizedOp, u32, u32),
    /// Behind a frame whose payload is still encrypted.
    Sealed(CsFrame),
}

/// What one step of reading brings.
#[derive(Debug)]
pub enum CsOutput {
    Nothing,
    /// The counter with which the client's bytes are decrypted.
    Counter(Vec<u8>),
    /// A message of the client.
    Message(CsFrame),
}

/// What a [`CsReader`] says.
#[verifier::ext_equal]
pub enum CsReaderView {
    Counter,
    Greeting,
    SealedGreeting(Seq<u8>),
    Op,
    Id(CsOp),
    Len(SizedOp, u32),
    Body(SizedOp, u32, u32),
    Sealed(CsFrameView),
}

/// What a [`CsOutput`] says.
#[verifier::ext_equal]
pub enum CsOutputView {
    Nothing,
    Counter(Seq<u8>),
    Message(CsFrameView),
}

impl View for CsReader {
    type V = CsReaderView;

    open spec fn view(&self) -> CsReaderView {
        match self {
            CsReader::Counter => CsReaderView::Counter,
            CsReader::Greeting => CsReaderView::Greeting,
            CsReader::SealedGreeting(data) => CsReaderView::SealedGreeting(data@),
            CsReader::Op => CsReaderView::Op,
            CsReader::Id(op) => CsReaderView::Id(*op),
            CsReader::Len(op, id) => CsReaderView::Len(*op, *id),
            CsReader::Body(op, id, len) => CsReaderView::Body(*op, *id, *len),
            CsReader::Sealed(frame) => CsReaderView::Sealed(frame@),
        }
    }
}

/// A [`CsReader`] says what it holds.
pub proof fn law_cs_reader_says_what_it_holds(value: CsReader)
    ensures
        match value {
            CsReader::Counter => value@ == CsReaderView::Counter,
            CsReader::Greeting => value@ == CsReaderView::Greeting,
            CsReader::SealedGreeting(data) => value@ == CsReaderView::SealedGreeting(data@),
            CsReader::Op => value@ == CsReaderView::Op,
            CsReader::Id(op) => value@ == CsReaderView::Id(op),
            CsReader::Len(op, id) => value@ == CsReaderView::Len(op, id),
            CsReader::Body(op, id, len) => value@ == CsReaderView::Body(op, id, len),
            CsReader::Sealed(frame) => value@ == CsReaderView::Sealed(frame@),
        },
{
}

impl View for CsOutput {
    type V = CsOutputView;

    open spec fn view(&self) -> CsOutputView {
        match self {
            CsOutput::Nothing => CsOutputView::Nothing,
            CsOutput::Counter(data) => CsOutputView::Counter(data@),
            CsOutput::Message(frame) => CsOutputView::Message(frame@),
        }
    }
}

/// A [`CsOutput`] says what it holds.
pub proof fn law_cs_output_says_what_it_holds(value: CsOutput)
    ensures
        match value {
            CsOutput::Nothing => value@ == CsOutputView::Nothing,
            CsOutput::Counter(data) => value@ == CsOutputView::Counter(data@),
            CsOutput::Message(frame) => value@ == CsOutputView::Message(frame@),
        },
{
}

/// The operation that a byte other than the heartbeat stands for; data, where no other has it.
pub open spec fn cs_op(codes: CsCodes, op: u8) -> CsOp {
    if op == codes.entry_open {
        CsOp::EntryOpen
    } else if op == codes.entry_close {
        CsOp::EntryClose
    } else if op == codes.eof {
        CsOp::Eof
    } else if op == codes.connect_domain_name {
        CsOp::Sized(SizedOp::ConnectDomainName)
    } else if op == codes.connect_ip4 {
        CsOp::Sized(SizedOp::ConnectIp4)
    } else {
        CsOp::Sized(SizedOp::Data)
    }
}

/// The frame of an operation that carries a payload.
pub open spec fn sized_frame(op: SizedOp, id: u32, body: Seq<u8>) -> CsFrameView {
    match op {
        SizedOp::ConnectDomainName => framing::named(id, body),
        SizedOp::ConnectIp4 => CsFrameView::ConnectIp4(id, body),
        SizedOp::Data => CsFrameView::Data(id, body),
    }
}

impl CsReaderView {
    /// Only a frame with a payload waits for its decryption.
    pub open spec fn wf(self) -> bool {
        self matches CsReaderView::Sealed(frame) ==> frame.payload() is Some
    }

    /// What the reader needs next.
    pub open spec fn want(self, ctr_size: nat, verify_size: nat) -> WantView {
        match self {
            CsReaderView::Counter => WantView::Read(ctr_size),
            CsReaderView::Greeting => WantView::Read(verify_size),
            CsReaderView::SealedGreeting(data) => WantView::Decrypt(data),
            CsReaderView::Op => WantView::Read(1),
            CsReaderView::Id(_) => WantView::Read(4),
            CsReaderView::Len(_, _) => WantView::Read(4),
            CsReaderView::Body(_, _, len) => WantView::Read(len as nat),
            CsReaderView::Sealed(frame) => WantView::Decrypt(frame.payload()->0),
        }
    }

    /// The frame in hand is a domain name that has no room for its port.
    pub open spec fn short_name(self) -> bool {
        self matches CsReaderView::Body(SizedOp::ConnectDomainName, _, len) && len < 2
    }

    /// Where the reader stands after `reply`, and what that brings; nothing where the client does
    /// not hold the key.
    pub open spec fn step(self, codes: CsCodes, verify_data: Seq<u8>, reply: Seq<u8>) -> Option<
        (CsReaderView, CsOutputView),
    > {
        match self {
            CsReaderView::Counter => Some((CsReaderView::Greeting, CsOutputView::Counter(reply))),
            CsReaderView::Greeting => Some(
                (CsReaderView::SealedGreeting(reply), CsOutputView::Nothing),
            ),
            CsReaderView::SealedGreeting(_) => if reply == verify_data {
                Some((CsReaderView::Op, CsOutputView::Nothing))
            } else {
                None
            },
            CsReaderView::Op => if reply[0] == codes.heartbeat {
                Some((CsReaderView::Op, CsOutputView::Message(CsFrameView::Heartbeat)))
            } else {
                Some((CsReaderView::Id(cs_op(codes, reply[0])), CsOutputView::Nothing))
            },
            CsReaderView::Id(op) => {
                let id = bytes::be32_value(reply);
                match op {
                    CsOp::EntryOpen => Some(
                        (CsReaderView::Op, CsOutputView::Message(CsFrameView::EntryOpen(id))),
                    ),
                    CsOp::EntryClose => Some(
                        (CsReaderView::Op, CsOutputView::Message(CsFrameView::EntryClose(id))),
                    ),
                    CsOp::Eof => Some(
                        (CsReaderView::Op, CsOutputView::Message(CsFrameView::Eof(id))),
                    ),
                    CsOp::Sized(op) => Some((CsReaderView::Len(op, id), CsOutputView::Nothing)),
                }
            },
            CsReaderView::Len(op, id) => Some(
                (CsReaderView::Body(op, id, bytes::be32_value(reply)), CsOutputView::Nothing),
            ),
            CsReaderView::Body(op, id, _) => Some(
                (CsReaderView::Sealed(sized_frame(op, id, reply)), CsOutputView::Nothing),
            ),
            CsReaderView::Sealed(frame) => Some(
                (CsReaderView::Op, CsOutputView::Message(frame.with_payload(reply))),
            ),
        }
    }

    /// How many steps are left to the end of the frame, at most.
    pub open spec fn steps_left(self) -> nat {
        match self {
            CsReaderView::Op => 4,
            CsReaderView::Id(_) => 3,
            CsReaderView::Len(_, _) => 2,
            CsReaderView::Body(_, _, _) => 1,
            _ => 0,
        }
    }
}

/// The first frame that a reader at `reader` comes by in the stream `s`, its payload still
/// encrypted, and what follows it; nothing while `s` ends too early.
pub open spec fn next_frame(reader: CsReaderView, codes: CsCodes, s: Seq<u8>) -> Option<
    (CsFrameView, Seq<u8>),
>
    decreases reader.steps_left(),
{
    match reader.want(0, 0) {
        WantView::Read(n) => if reader.steps_left() == 0 || s.len() < n || reader.short_name() {
            None
        } else {
            match reader.step(codes, Seq::empty(), s.take(n as int)) {
                Some((_, CsOutputView::Message(frame))) => Some((frame, s.skip(n as int))),
                Some((CsReaderView::Sealed(frame), _)) => Some((frame, s.skip(n as int))),
                Some((next, _)) => if next.steps_left() < reader.steps_left() {
                    next_frame(next, codes, s.skip(n as int))
                } else {
                    None
                },
                None => None,
            }
        },
        _ => None,
    }
}

/// A reader before a frame finds the frames that the stream divides into.
pub proof fn law_reader_follows_framing(codes: CsCodes, s: Seq<u8>)
    ensures
        next_frame(CsReaderView::Op, codes, s) == framing::read_cs(codes, s),
{
    reveal_with_fuel(next_frame, 5);
    if s.len() >= 1 && s[0] != codes.heartbeat && s.len() >= 5 {
        let s1 = s.skip(1);
        let s5 = s1.skip(4);
        assert(s5 =~= s.skip(5));
        assert(s1.take(4)[0] == s1[0] && s1.take(4)[1] == s1[1] && s1.take(4)[2] == s1[2]
            && s1.take(4)[3] == s1[3]);
        assert(bytes::be32_value(s1.take(4)) == bytes::be32_value(s1));
        if s5.len() >= 4 {
            let s9 = s5.skip(4);
            let len = bytes::be32_value(s5);
            assert(bytes::be32_value(s5.take(4)) == len);
            if s9.len() >= len {
                assert(s9.take(len as int) =~= s5.subrange(4, 4 + len));
                assert(s9.skip(len as int) =~= s5.skip(4 + len));
            }
        }
    }
}

/// What a reader before a frame hands to the tunnel from the stream `s`, one message for each of
/// `opened`: where the frame has a payload, that is what the payload decrypts to.
pub open spec fn delivered(codes: CsCodes, s: Seq<u8>, opened: Seq<Seq<u8>>) -> Option<
    (Seq<CsFrameView>, Seq<u8>),
>
    decreases opened.len(),
{
    if opened.len() == 0 {
        Some((Seq::empty(), s))
    } else {
        match next_frame(CsReaderView::Op, codes, s) {
            None => None,
            Some((frame, rest)) => {
                let message = if frame.payload() is Some {
                    if CsReaderView::Sealed(frame).want(0, 0) == WantView::Decrypt(
                        frame.payload()->0,
                    ) {
                        CsReaderView::Sealed(frame).step(codes, Seq::empty(), opened[0])
                    } else {
                        None
                    }
                } else {
                    Some((CsReaderView::Op, CsOutputView::Message(frame)))
                };
                match (message, delivered(codes, rest, opened.skip(1))) {
                    (Some((CsReaderView::Op, CsOutputView::Message(first))), Some((others, end))) =>
                    Some((seq![first] + others, end)),
                    _ => None,
                }
            },
        }
    }
}

/// `frames`, each with its payload encrypted.
pub open spec fn sealed(frames: Seq<CsFrameView>, ciphers: Seq<Seq<u8>>) -> Seq<CsFrameView> {
    Seq::new(frames.len(), |i: int| frames[i].with_payload(ciphers[i]))
}

proof fn lemma_frame_is_found(codes: CsCodes, wire: CsFrameView, after: Seq<u8>)
    requires
        codes.distinct(),
        wire.fits(),
    ensures
        next_frame(CsReaderView::Op, codes, wire.packed(codes) + after) == Some((wire, after)),
{
    framing::law_cs_read_back(codes, wire, after);
    law_reader_follows_framing(codes, wire.packed(codes) + after);
}

proof fn lemma_one_arrives(
    codes: CsCodes,
    frame: CsFrameView,
    cipher: Seq<u8>,
    s: Seq<u8>,
    after: Seq<u8>,
    opened: Seq<Seq<u8>>,
)
    requires
        opened.len() > 0,
        next_frame(CsReaderView::Op, codes, s) == Some((frame.with_payload(cipher), after)),
        frame.payload() matches Some(plain) ==> opened[0] == plain,
    ensures
        delivered(codes, s, opened) == (match delivered(codes, after, opened.skip(1)) {
            Some((others, end)) => Some((seq![frame] + others, end)),
            None => None,
        }),
{
    let wire = frame.with_payload(cipher);
    assert(wire.payload() is Some ==> wire.with_payload(opened[0]) == frame);
    assert(wire.payload() is None ==> wire == frame);
}

/// The server receives the messages that the client sent, in the order in which it sent them, as
/// long as each payload decrypts to what was encrypted.
pub proof fn law_messages_arrive(
    codes: CsCodes,
    frames: Seq<CsFrameView>,
    ciphers: Seq<Seq<u8>>,
    opened: Seq<Seq<u8>>,
    rest: Seq<u8>,
)
    requires
        codes.distinct(),
        ciphers.len() == frames.len(),
        opened.len() == frames.len(),
        forall|i: int|
            0 <= i < frames.len() ==> (#[trigger] frames[i]).with_payload(ciphers[i]).fits(),
        forall|i: int|
            0 <= i < frames.len() ==> ((#[trigger] frames[i]).payload() matches Some(plain)
                ==> opened[i] == plain),
    ensures
        delivered(codes, framing::packed_cs(codes, sealed(frames, ciphers)) + rest, opened) == Some(
            (frames, rest),
        ),
    decreases frames.len(),
{
    let all = sealed(frames, ciphers);
    if frames.len() == 0 {
        assert(framing::packed_cs(codes, all) + rest =~= rest);
        assert(frames =~= Seq::empty());
    } else {
        let tail = frames.skip(1);
        assert(all.skip(1) =~= sealed(tail, ciphers.skip(1)));
        let after = framing::packed_cs(codes, all.skip(1)) + rest;
        assert(framing::packed_cs(codes, all) + rest =~= all[0].packed(codes) + after);
        assert(all[0] == frames[0].with_payload(ciphers[0]));
        lemma_frame_is_found(codes, all[0], after);
        lemma_one_arrives(
            codes,
            frames[0],
            ciphers[0],
            all[0].packed(codes) + after,
            after,
            opened,
        );
        assert forall|i: int| 0 <= i < tail.len() implies (#[trigger] tail[i]).with_payload(
            ciphers.skip(1)[i],
        ).fits() by {
            assert(tail[i] == frames[i + 1]);
        }
        assert forall|i: int| 0 <= i < tail.len() implies ((#[trigger] tail[i]).payload() matches
            Some(plain) ==> opened.skip(1)[i] == plain) by {
            assert(tail[i] == frames[i + 1]);
        }
        law_messages_arrive(codes, tail, ciphers.skip(1), opened.skip(1), rest);
        assert(seq![frames[0]] + tail =~= frames);
    }
}

/// What a program goes by that reads the stream of a client.
pub struct Terms {
    pub codes: CsCodes,
    /// What the greeting of a client decrypts to.
    pub verify_data: Seq<u8>,
    pub ctr_size: nat,
    /// What the cipher with this counter makes of the bytes that it is handed as this many-th.
    pub decrypt: spec_fn(Seq<u8>, nat, Seq<u8>) -> Seq<u8>,
}

/// How far a program has come that reads the stream of a client.
#[verifier::ext_equal]
pub struct Playing {
    pub reader: CsReaderView,
    /// What is still to be read.
    pub stream: Seq<u8>,
    /// The counter that the client sent.
    pub ctr: Seq<u8>,
    /// How often the cipher was asked.
    pub opened: nat,
    /// The messages that went to the tunnel.
    pub messages: Seq<CsFrameView>,
}

impl Playing {
    /// The program at the start of a stream.
    pub open spec fn start(stream: Seq<u8>) -> Playing {
        Playing {
            reader: CsReaderView::Counter,
            stream,
            ctr: Seq::empty(),
            opened: 0,
            messages: Seq::empty(),
        }
    }

    /// The program behind a step of the reader.
    pub open spec fn with(
        self,
        reader: CsReaderView,
        output: CsOutputView,
        stream: Seq<u8>,
        opened: nat,
    ) -> Playing {
        Playing {
            reader,
            stream,
            ctr: match output {
                CsOutputView::Counter(ctr) => ctr,
                _ => self.ctr,
            },
            opened,
            messages: match output {
                CsOutputView::Message(frame) => self.messages.push(frame),
                _ => self.messages,
            },
        }
    }

    /// The program when it has handed `reply` to the reader.
    pub open spec fn given(
        self,
        terms: Terms,
        reply: Seq<u8>,
        stream: Seq<u8>,
        opened: nat,
    ) -> Option<Playing> {
        match self.reader.step(terms.codes, terms.verify_data, reply) {
            Some((reader, output)) => Some(self.with(reader, output, stream, opened)),
            None => None,
        }
    }

    /// The program does what the reader wants, reads so many bytes or has these bytes decrypted,
    /// and hands the reader what came of it; nothing where it cannot.
    pub open spec fn turn(self, terms: Terms) -> Option<Playing> {
        match self.reader.want(terms.ctr_size, terms.verify_data.len()) {
            WantView::Read(n) => if self.stream.len() < n || self.reader.short_name() {
                None
            } else {
                self.given(
                    terms,
                    self.stream.take(n as int),
                    self.stream.skip(n as int),
                    self.opened,
                )
            },
            WantView::Decrypt(data) => self.given(
                terms,
                (terms.decrypt)(self.ctr, self.opened, data),
                self.stream,
                self.opened + 1,
            ),
            WantView::Nothing => None,
        }
    }

    /// So many turns.
    pub open spec fn turns(self, terms: Terms, k: nat) -> Option<Playing>
        decreases k,
    {
        if k == 0 {
            Some(self)
        } else {
            match self.turn(terms) {
                Some(next) => next.turns(terms, (k - 1) as nat),
                None => None,
            }
        }
    }
}

proof fn lemma_turns_add(p: Playing, terms: Terms, a: nat, b: nat)
    requires
        p.turns(terms, a) is Some,
    ensures
        p.turns(terms, a + b) == p.turns(terms, a)->0.turns(terms, b),
    decreases a,
{
    if a > 0 {
        lemma_turns_add(p.turn(terms)->0, terms, (a - 1) as nat, b);
    }
}

proof fn lemma_five_turns(
    p: Playing,
    terms: Terms,
    p1: Playing,
    p2: Playing,
    p3: Playing,
    p4: Playing,
)
    requires
        p.turn(terms) == Some(p1),
        p1.turn(terms) == Some(p2),
        p2.turn(terms) == Some(p3),
        p3.turn(terms) == Some(p4),
        p4.turn(terms) is Some,
    ensures
        p.turns(terms, 5) == p4.turn(terms),
{
    let p5 = p4.turn(terms)->0;
    assert(p5.turns(terms, 0) == Some(p5));
    assert(p4.turns(terms, 1) == Some(p5));
    assert(p3.turns(terms, 2) == Some(p5));
    assert(p2.turns(terms, 3) == Some(p5));
    assert(p1.turns(terms, 4) == Some(p5));
}

proof fn lemma_be32_at(s: Seq<u8>, v: u32, after: Seq<u8>)
    requires
        s == bytes::be32(v) + after,
    ensures
        s.len() >= 4,
        bytes::be32_value(s.take(4)) == v,
        s.skip(4) == after,
{
    bytes::law_be32_read_back(v);
    assert(s.take(4) =~= bytes::be32(v));
    assert(s.skip(4) =~= after);
}

proof fn lemma_head_is_played(p: Playing, terms: Terms, op: u8, id: u32, after: Seq<u8>)
    requires
        p.reader == CsReaderView::Op,
        p.stream == protocol::head(op, id) + after,
        op != terms.codes.heartbeat,
        !(cs_op(terms.codes, op) is Sized),
    ensures
        p.turns(terms, 2) == Some(
            Playing {
                stream: after,
                messages: p.messages.push(
                    match cs_op(terms.codes, op) {
                        CsOp::EntryOpen => CsFrameView::EntryOpen(id),
                        CsOp::EntryClose => CsFrameView::EntryClose(id),
                        CsOp::Eof => CsFrameView::Eof(id),
                        _ => CsFrameView::Heartbeat,
                    },
                ),
                ..p
            },
        ),
{
    reveal_with_fuel(Playing::turns, 3);
    let s1 = p.stream.skip(1);
    assert(p.stream.take(1)[0] == op);
    assert(s1 =~= bytes::be32(id) + after);
    lemma_be32_at(s1, id, after);
}

#[verifier::rlimit(40)]
proof fn lemma_sized_is_played(
    p: Playing,
    terms: Terms,
    code: u8,
    op: SizedOp,
    id: u32,
    body: Seq<u8>,
    after: Seq<u8>,
)
    requires
        p.reader == CsReaderView::Op,
        p.stream == protocol::head(code, id) + protocol::sized(body) + after,
        code != terms.codes.heartbeat,
        cs_op(terms.codes, code) == CsOp::Sized(op),
        body.len() <= u32::MAX,
        op is ConnectDomainName ==> body.len() >= 2,
    ensures
        ({
            let frame = sized_frame(op, id, body);
            p.turns(terms, 5) == Some(
                Playing {
                    stream: after,
                    opened: p.opened + 1,
                    messages: p.messages.push(
                        frame.with_payload((terms.decrypt)(p.ctr, p.opened, frame.payload()->0)),
                    ),
                    ..p
                },
            )
        }),
{
    let n = body.len() as u32;
    let s1 = p.stream.skip(1);
    assert(p.stream.take(1)[0] == code);
    assert(s1 =~= bytes::be32(id) + (protocol::sized(body) + after));
    lemma_be32_at(s1, id, protocol::sized(body) + after);
    let s5 = s1.skip(4);
    assert(s5 =~= bytes::be32(n) + (body + after));
    lemma_be32_at(s5, n, body + after);
    let s9 = s5.skip(4);
    assert(s9.take(n as int) =~= body);
    assert(s9.skip(n as int) =~= after);
    let p1 = Playing { reader: CsReaderView::Id(CsOp::Sized(op)), stream: s1, ..p };
    let p2 = Playing { reader: CsReaderView::Len(op, id), stream: s5, ..p };
    let p3 = Playing { reader: CsReaderView::Body(op, id, n), stream: s9, ..p };
    let frame = sized_frame(op, id, body);
    let p4 = Playing { reader: CsReaderView::Sealed(frame), stream: after, ..p };
    assert(p.turn(terms) == Some(p1));
    assert(p1.turn(terms) == Some(p2));
    assert(p2.turn(terms) == Some(p3));
    assert(p3.turn(terms) == Some(p4));
    lemma_five_turns(p, terms, p1, p2, p3, p4);
}

#[verifier::rlimit(40)]
proof fn lemma_frame_is_played(
    p: Playing,
    terms: Terms,
    frame: CsFrameView,
    cipher: Seq<u8>,
    after: Seq<u8>,
) -> (k: nat)
    requires
        terms.codes.distinct(),
        p.reader == CsReaderView::Op,
        p.stream == frame.with_payload(cipher).packed(terms.codes) + after,
        frame.payload() is Some ==> cipher.len() + 2 <= u32::MAX,
        frame.payload() matches Some(plain) ==> (terms.decrypt)(p.ctr, p.opened, cipher) == plain,
    ensures
        p.turns(terms, k) == Some(
            Playing {
                stream: after,
                opened: p.opened + (if frame.payload() is Some {
                    1nat
                } else {
                    0
                }),
                messages: p.messages.push(frame),
                ..p
            },
        ),
{
    framing::lemma_cs_codes_differ(terms.codes);
    match frame {
        CsFrameView::Heartbeat => {
            reveal_with_fuel(Playing::turns, 2);
            assert(p.stream.take(1)[0] == terms.codes.heartbeat);
            assert(p.stream.skip(1) =~= after);
            1
        },
        CsFrameView::EntryOpen(id) => {
            lemma_head_is_played(p, terms, terms.codes.entry_open, id, after);
            2
        },
        CsFrameView::EntryClose(id) => {
            lemma_head_is_played(p, terms, terms.codes.entry_close, id, after);
            2
        },
        CsFrameView::Eof(id) => {
            lemma_head_is_played(p, terms, terms.codes.eof, id, after);
            2
        },
        CsFrameView::ConnectIp4(id, plain) => {
            assert(p.stream =~= protocol::head(terms.codes.connect_ip4, id) + protocol::sized(
                cipher,
            ) + after);
            lemma_sized_is_played(
                p,
                terms,
                terms.codes.connect_ip4,
                SizedOp::ConnectIp4,
                id,
                cipher,
                after,
            );
            5
        },
        CsFrameView::Data(id, plain) => {
            assert(p.stream =~= protocol::head(terms.codes.data, id) + protocol::sized(cipher)
                + after);
            lemma_sized_is_played(
                p,
                terms,
                terms.codes.data,
                SizedOp::Data,
                id,
                cipher,
                after,
            );
            5
        },
        CsFrameView::ConnectDomainName(id, plain, port) => {
            let body = cipher + bytes::be16(port);
            assert(p.stream =~= protocol::head(terms.codes.connect_domain_name, id)
                + protocol::sized(body) + after);
            lemma_sized_is_played(
                p,
                terms,
                terms.codes.connect_domain_name,
                SizedOp::ConnectDomainName,
                id,
                body,
                after,
            );
            bytes::law_be16_read_back(port);
            assert(body.take(body.len() - 2) =~= cipher);
            5
        },
    }
}

/// What a program writes that has the payload of each of `frames` encrypted, the first as the
/// `n`-th that its cipher is handed.
pub open spec fn written_as(
    codes: CsCodes,
    encrypt: spec_fn(nat, Seq<u8>) -> Seq<u8>,
    n: nat,
    frames: Seq<CsFrameView>,
) -> Seq<u8>
    decreases frames.len(),
{
    if frames.len() == 0 {
        Seq::empty()
    } else {
        match frames[0].payload() {
            Some(plain) => frames[0].with_payload(encrypt(n, plain)).packed(codes) + written_as(
                codes,
                encrypt,
                n + 1,
                frames.skip(1),
            ),
            None => frames[0].packed(codes) + written_as(codes, encrypt, n, frames.skip(1)),
        }
    }
}

/// The cipher of the server undoes what the cipher of the client did, to all that a length field
/// can hold; and a length field can hold what came of it.
pub open spec fn undoes(
    decrypt: spec_fn(Seq<u8>, nat, Seq<u8>) -> Seq<u8>,
    ctr: Seq<u8>,
    encrypt: spec_fn(nat, Seq<u8>) -> Seq<u8>,
) -> bool {
    forall|n: nat, plain: Seq<u8>|
        #![trigger encrypt(n, plain)]
        plain.len() + 2 <= u32::MAX ==> decrypt(ctr, n, encrypt(n, plain)) == plain && encrypt(
            n,
            plain,
        ).len() + 2 <= u32::MAX
}

/// A length field can hold the payload of each of `frames`.
pub open spec fn can_be_told(frames: Seq<CsFrameView>) -> bool {
    forall|i: int|
        0 <= i < frames.len() ==> ((#[trigger] frames[i]).payload() matches Some(plain)
            ==> plain.len() + 2 <= u32::MAX)
}

/// A program before a frame that does what the reader wants, again and again, comes by exactly the
/// messages that the client wrote, in their order and with their payloads, and then stands before
/// what follows them; whatever the lengths of the payloads.
pub proof fn law_frames_are_read_as_wanted(
    p: Playing,
    terms: Terms,
    encrypt: spec_fn(nat, Seq<u8>) -> Seq<u8>,
    frames: Seq<CsFrameView>,
    rest: Seq<u8>,
)
    requires
        terms.codes.distinct(),
        undoes(terms.decrypt, p.ctr, encrypt),
        can_be_told(frames),
        p.reader == CsReaderView::Op,
        p.stream == written_as(terms.codes, encrypt, p.opened, frames) + rest,
    ensures
        exists|k: nat|
            #![trigger p.turns(terms, k)]
            p.turns(terms, k) matches Some(q) && q.reader == CsReaderView::Op && q.stream == rest
                && q.ctr == p.ctr && q.messages == p.messages + frames,
    decreases frames.len(),
{
    if frames.len() == 0 {
        assert(p.stream =~= rest);
        assert(p.messages =~= p.messages + frames);
        assert(p.turns(terms, 0) == Some(p));
    } else {
        let frame = frames[0];
        let (cipher, n) = match frame.payload() {
            Some(plain) => (encrypt(p.opened, plain), p.opened + 1),
            None => (Seq::empty(), p.opened),
        };
        let after = written_as(terms.codes, encrypt, n, frames.skip(1)) + rest;
        assert(frame.payload() is None ==> frame.with_payload(cipher) == frame);
        assert(p.stream =~= frame.with_payload(cipher).packed(terms.codes) + after);
        assert forall|i: int| 0 <= i < frames.skip(1).len() implies ((#[trigger] frames.skip(
            1,
        )[i]).payload() matches Some(plain) ==> plain.len() + 2 <= u32::MAX) by {
            assert(frames.skip(1)[i] == frames[i + 1]);
        }
        let k = lemma_frame_is_played(p, terms, frame, cipher, after);
        let q = p.turns(terms, k)->0;
        law_frames_are_read_as_wanted(q, terms, encrypt, frames.skip(1), rest);
        let j = choose|j: nat|
            #![trigger q.turns(terms, j)]
            q.turns(terms, j) matches Some(z) && z.reader == CsReaderView::Op && z.stream == rest
                && z.ctr == q.ctr && z.messages == q.messages + frames.skip(1);
        lemma_turns_add(p, terms, k, j);
        assert(q.messages + frames.skip(1) =~= p.messages + frames);
        assert(p.turns(terms, k + j) is Some);
    }
}

/// At every frame whose payload is encrypted, the reader wants that payload decrypted, all of it,
/// and nothing read before that is done; and what it decrypts to is what goes to the tunnel.
pub proof fn law_payload_is_decrypted(
    frame: CsFrameView,
    id: u32,
    data: Seq<u8>,
    port: u16,
    ctr_size: nat,
    verify_size: nat,
)
    requires
        frame == CsFrameView::Data(id, data) || frame == CsFrameView::ConnectIp4(id, data) || frame
            == CsFrameView::ConnectDomainName(id, data, port),
    ensures
        CsReaderView::Sealed(frame).want(ctr_size, verify_size) == WantView::Decrypt(data),
{
}

/// A program that reads the stream of a client from its start comes by the counter, has the
/// greeting decrypted with it, and then comes by exactly the messages that the client wrote.
pub proof fn law_stream_is_read_as_wanted(
    terms: Terms,
    encrypt: spec_fn(nat, Seq<u8>) -> Seq<u8>,
    ctr: Seq<u8>,
    frames: Seq<CsFrameView>,
    rest: Seq<u8>,
)
    requires
        terms.codes.distinct(),
        undoes(terms.decrypt, ctr, encrypt),
        can_be_told(frames),
        terms.ctr_size == ctr.len(),
        terms.verify_data.len() + 2 <= u32::MAX,
        encrypt(0, terms.verify_data).len() == terms.verify_data.len(),
    ensures
        ({
            let p = Playing::start(
                ctr + encrypt(0, terms.verify_data) + (written_as(
                    terms.codes,
                    encrypt,
                    1,
                    frames,
                ) + rest),
            );
            exists|k: nat|
                #![trigger p.turns(terms, k)]
                p.turns(terms, k) matches Some(q) && q.reader == CsReaderView::Op && q.stream
                    == rest && q.ctr == ctr && q.messages == frames
        }),
{
    let sealed = encrypt(0, terms.verify_data);
    let after = written_as(terms.codes, encrypt, 1, frames) + rest;
    let p = Playing::start(ctr + sealed + after);
    reveal_with_fuel(Playing::turns, 4);
    let s1 = p.stream.skip(ctr.len() as int);
    assert(p.stream.take(ctr.len() as int) =~= ctr);
    assert(s1 =~= sealed + after);
    assert(s1.take(sealed.len() as int) =~= sealed);
    assert(s1.skip(sealed.len() as int) =~= after);
    let q = p.turns(terms, 3)->0;
    assert(p.turns(terms, 3) == Some(
        Playing {
            reader: CsReaderView::Op,
            stream: after,
            ctr,
            opened: 1,
            messages: Seq::empty(),
        },
    ));
    law_frames_are_read_as_wanted(q, terms, encrypt, frames, rest);
    let j = choose|j: nat|
        #![trigger q.turns(terms, j)]
        q.turns(terms, j) matches Some(z) && z.reader == CsReaderView::Op && z.stream == rest
            && z.ctr == q.ctr && z.messages == q.messages + frames;
    lemma_turns_add(p, terms, 3, j);
    assert(q.messages + frames =~= frames);
    assert(p.turns(terms, 3 + j) is Some);
}

/// A client whose greeting does not decrypt to the agreed bytes is never heard: however long its
/// stream is read, no message of it goes to the tunnel.
pub proof fn law_without_the_key_nothing_is_heard(terms: Terms, s: Seq<u8>, k: nat)
    requires
        s.len() >= terms.ctr_size + terms.verify_data.len() ==> (terms.decrypt)(
            s.take(terms.ctr_size as int),
            0,
            s.subrange(
                terms.ctr_size as int,
                terms.ctr_size + terms.verify_data.len() as int,
            ),
        ) != terms.verify_data,
    ensures
        Playing::start(s).turns(terms, k) matches Some(q) ==> q.messages.len() == 0,
{
    reveal_with_fuel(Playing::turns, 4);
    let n = terms.ctr_size as int;
    let m = terms.verify_data.len() as int;
    if s.len() >= n + m {
        assert(s.skip(n).take(m) =~= s.subrange(n, n + m));
    }
    if k >= 3 {
        let p = Playing::start(s);
        if p.turns(terms, 2) is Some {
            lemma_turns_add(p, terms, 2, (k - 2) as nat);
        } else if p.turn(terms) is Some {
            lemma_turns_add(p, terms, 1, (k - 1) as nat);
        }
    }
}

/// An operation byte that stands for nothing else stands for data.
pub proof fn law_other_operations_are_data(
    p: Playing,
    terms: Terms,
    op: u8,
    id: u32,
    body: Seq<u8>,
    after: Seq<u8>,
)
    requires
        p.reader == CsReaderView::Op,
        p.stream == seq![op] + bytes::be32(id) + bytes::be32(body.len() as u32) + body + after,
        body.len() <= u32::MAX,
        op != terms.codes.heartbeat,
        op != terms.codes.entry_open,
        op != terms.codes.entry_close,
        op != terms.codes.eof,
        op != terms.codes.connect_domain_name,
        op != terms.codes.connect_ip4,
    ensures
        exists|k: nat|
            #![trigger p.turns(terms, k)]
            p.turns(terms, k) matches Some(q) && q.stream == after && q.messages
                == p.messages.push(
                CsFrameView::Data(id, (terms.decrypt)(p.ctr, p.opened, body)),
            ),
{
    assert(p.stream =~= protocol::head(op, id) + protocol::sized(body) + after);
    lemma_sized_is_played(p, terms, op, SizedOp::Data, id, body, after);
}

/// The frame in hand has no room for a port if and only if it is that of a name and less than two
/// bytes long.
pub proof fn law_only_names_need_room(op: SizedOp, id: u32, len: u32)
    ensures
        CsReaderView::Body(op, id, len).short_name() <==> op == SizedOp::ConnectDomainName && len
            < 2,
{
}

/// What the server reads before the first frame of a client.
#[verifier::ext_equal]
pub struct Opening {
    /// The counter with which the client's bytes are decrypted.
    pub ctr: Seq<u8>,
    /// The encrypted greeting.
    pub sealed: Seq<u8>,
    /// Where the reader stands then.
    pub reader: CsReaderView,
    /// What follows in the stream.
    pub rest: Seq<u8>,
}

/// The start of the stream `s`, read step by step, where the greeting decrypts to `plain`; nothing
/// while `s` ends too early, and nothing from a client that does not hold the key.
pub open spec fn read_opening(
    codes: CsCodes,
    verify_data: Seq<u8>,
    ctr_size: nat,
    s: Seq<u8>,
    plain: Seq<u8>,
) -> Option<Opening> {
    let n = CsReaderView::Counter.want(ctr_size, verify_data.len())->Read_0 as int;
    if s.len() < n {
        None
    } else {
        match CsReaderView::Counter.step(codes, verify_data, s.take(n)) {
            Some((greeting, CsOutputView::Counter(ctr))) => {
                let s1 = s.skip(n);
                let m = greeting.want(ctr_size, verify_data.len())->Read_0 as int;
                if s1.len() < m {
                    None
                } else {
                    match greeting.step(codes, verify_data, s1.take(m)) {
                        Some((CsReaderView::SealedGreeting(sealed), _)) => match (
                        CsReaderView::SealedGreeting(sealed).step(codes, verify_data, plain)) {
                            Some((reader, _)) => Some(
                                Opening { ctr, sealed, reader, rest: s1.skip(m) },
                            ),
                            None => None,
                        },
                        _ => None,
                    }
                }
            },
            _ => None,
        }
    }
}

/// The server takes the opening of a client apart into the counter and the encrypted greeting that
/// the client wrote, and goes on before a frame with what follows; unless the greeting does not
/// decrypt to the agreed bytes.
pub proof fn law_opening_read_back(
    codes: CsCodes,
    verify_data: Seq<u8>,
    ctr: Seq<u8>,
    sealed: Seq<u8>,
    rest: Seq<u8>,
    plain: Seq<u8>,
)
    requires
        sealed.len() == verify_data.len(),
    ensures
        read_opening(codes, verify_data, ctr.len(), ctr + sealed + rest, plain) == (if plain
            == verify_data {
            Some(Opening { ctr, sealed, reader: CsReaderView::Op, rest })
        } else {
            None
        }),
{
    let s = ctr + sealed + rest;
    let s1 = s.skip(ctr.len() as int);
    assert(s.take(ctr.len() as int) =~= ctr);
    assert(s1 =~= sealed + rest);
    assert(s1.take(sealed.len() as int) =~= sealed);
    assert(s1.skip(sealed.len() as int) =~= rest);
}

/// A client is heard if and only if its greeting decrypts to the agreed bytes.
pub proof fn law_only_key_holders_are_heard(
    codes: CsCodes,
    verify_data: Seq<u8>,
    sealed: Seq<u8>,
    plain: Seq<u8>,
)
    ensures
        CsReaderView::SealedGreeting(sealed).step(codes, verify_data, plain) is Some <==> plain
            == verify_data,
{
}

impl CsReader {
    /// What the reader needs next.
    pub fn want<'a>(&'a self, protocol: &Protocol) -> (want: Want<'a>)
        requires
            self@.wf(),
        ensures
            want@ == self@.want(protocol.ctr_size as nat, protocol.verify_data@.len()),
    {
        match self {
            CsReader::Counter => Want::Read(protocol.ctr_size),
            CsReader::Greeting => Want::Read(protocol.verify_data.len()),
            CsReader::SealedGreeting(data) => Want::Decrypt(data),
            CsReader::Op => Want::Read(1),
            CsReader::Id(_) => Want::Read(4),
            CsReader::Len(_, _) => Want::Read(4),
            CsReader::Body(_, _, len) => Want::Read(*len as usize),
            CsReader::Sealed(frame) => match frame.payload() {
                Some(data) => Want::Decrypt(data),
                None => Want::Nothing,
            },
        }
    }

    /// Whether the frame in hand is a domain name that has no room for its port.
    pub fn is_short_name(&self) -> (short: bool)
        ensures
            short == self@.short_name(),
    {
        match self {
            CsReader::Body(SizedOp::ConnectDomainName, _, len) => *len < 2,
            _ => false,
        }
    }
}

fn op_of(codes: &CsCodes, op: u8) -> (out: CsOp)
    ensures
        out == cs_op(*codes, op),
{
    if op == codes.entry_open {
        CsOp::EntryOpen
    } else if op == codes.entry_close {
        CsOp::EntryClose
    } else if op == codes.eof {
        CsOp::Eof
    } else if op == codes.connect_domain_name {
        CsOp::Sized(SizedOp::ConnectDomainName)
    } else if op == codes.connect_ip4 {
        CsOp::Sized(SizedOp::ConnectIp4)
    } else {
        CsOp::Sized(SizedOp::Data)
    }
}

fn frame_of(op: SizedOp, id: u32, body: Vec<u8>) -> (frame: CsFrame)
    requires
        op is ConnectDomainName ==> body@.len() >= 2,
    ensures
        frame@ == sized_frame(op, id, body@),
{
    match op {
        SizedOp::ConnectDomainName => {
            let n: usize = body.len() - 2;
            let port: u16 = read_be16(body[n], body[n + 1]);
            let mut name: Vec<u8> = body;
            name.truncate(n);
            assert(name@ =~= body@.take(n as int));
            CsFrame::ConnectDomainName(id, name, port)
        },
        SizedOp::ConnectIp4 => CsFrame::ConnectIp4(id, body),
        SizedOp::Data => CsFrame::Data(id, body),
    }
}

/// One step of reading a client's stream: `reply` is what [`CsReader::want`] asked for, read from
/// the stream or decrypted with the counter that the client sent. A message in the output goes to
/// the tunnel. A domain name without room for its port has no step.
pub fn client_stream_to_tunnel(protocol: &Protocol, reader: CsReader, reply: Vec<u8>) -> (out:
    Result<(CsReader, CsOutput), TunnelError>)
    requires
        reader@.wf(),
        reader@.want(protocol.ctr_size as nat, protocol.verify_data@.len()).met_by(reply@),
        !reader@.short_name(),
    ensures
        match out {
            Ok((next, output)) => next@.wf() && reader@.step(
                protocol.cs,
                protocol.verify_data@,
                reply@,
            ) == Some((next@, output@)),
            Err(error) => error == TunnelError::InvalidInput && reader@.step(
                protocol.cs,
                protocol.verify_data@,
                reply@,
            ) is None,
        },
{
    match reader {
        CsReader::Counter => Ok((CsReader::Greeting, CsOutput::Counter(reply))),
        CsReader::Greeting => Ok((CsReader::SealedGreeting(reply), CsOutput::Nothing)),
        CsReader::SealedGreeting(_) => {
            if same_bytes(reply.as_slice(), protocol.verify_data.as_slice()) {
                Ok((CsReader::Op, CsOutput::Nothing))
            } else {
                Err(TunnelError::InvalidInput)
            }
        },
        CsReader::Op => {
            let op: u8 = reply[0];
            if op == protocol.cs.heartbeat {
                Ok((CsReader::Op, CsOutput::Message(CsFrame::Heartbeat)))
            } else {
                Ok((CsReader::Id(op_of(&protocol.cs, op)), CsOutput::Nothing))
            }
        },
        CsReader::Id(op) => {
            let id: u32 = read_be32(reply.as_slice());
            match op {
                CsOp::EntryOpen => Ok((CsReader::Op, CsOutput::Message(CsFrame::EntryOpen(id)))),
                CsOp::EntryClose => Ok((CsReader::Op, CsOutput::Message(CsFrame::EntryClose(id)))),
                CsOp::Eof => Ok((CsReader::Op, CsOutput::Message(CsFrame::Eof(id)))),
                CsOp::Sized(op) => Ok((CsReader::Len(op, id), CsOutput::Nothing)),
            }
        },
        CsReader::Len(op, id) => {
            let len: u32 = read_be32(reply.as_slice());
            Ok((CsReader::Body(op, id, len), CsOutput::Nothing))
        },
        CsReader::Body(op, id, _) => {
            Ok((CsReader::Sealed(frame_of(op, id, reply)), CsOutput::Nothing))
        },
        CsReader::Sealed(frame) => {
            Ok((CsReader::Op, CsOutput::Message(frame.with_payload(reply))))
        },
    }
}

} // verus!
