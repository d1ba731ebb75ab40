//! Reading what the server sends through a tunnel.
use vstd::prelude::*;

use crate::bytes;
use crate::bytes::read_be32;
use crate::framing;
use crate::protocol;
use crate::framing::ScReading;
use crate::protocol::{Protocol, ScCodes, ScFrame, ScFrameView, Want, WantView};

verus! {

/// An operation whose frame carries a payload.
#[derive(Clone, Copy, Debug, PartialEq, Eq, Structural)]
pub enum SizedOp {
    ConnectOk,
    Data,
}

/// What an operation byte other than the heartbeat stands for.
#[derive(Clone, Copy, Debug, PartialEq, Eq, Structural)]
pub enum ScOp {
    EntryClose,
    Eof,
    Sized(SizedOp),
    Unknown,
}

/// How far the client has read the stream of the server.
#[derive(Debug)]
pub enum ScReader {
    /// At the start: the counter of the server's cipher comes next.
    Counter,
    /// Before a frame.
    Op,
    /// Behind the operation byte of a frame.
    Id(ScOp),
    /// Before the length of the frame's payload.
    Len(SizedOp, u32),
    /// Before the payload, of this length.
    Body(SizedOp, u32, u32),
    /// Behind a frame whose payload is still encrypted.
    Sealed(ScFrame),
    /// Behind an operation byte that stands for nothing: the stream is read no further.
    Finished,
}

/// What one step of reading brings.
#[derive(Debug)]
pub enum ScOutput {
    Nothing,
    /// The counter with which the server's bytes are decrypted.
    Counter(Vec<u8>),
    /// A message of the server.
    Message(ScFrame),
}

/// What a [`ScReader`] says.
#[verifier::ext_equal]
pub enum ScReaderView {
    Counter,
    Op,
    Id(ScOp),
    Len(SizedOp, u32),
    Body(SizedOp, u32, u32),
    Sealed(ScFrameView),
    Finished,
}

/// What a [`ScOutput`] says.
#[verifier::ext_equal]
pub enum ScOutputView {
    Nothing,
    Counter(Seq<u8>),
    Message(ScFrameView),
}

impl View for ScReader {
    type V = ScReaderView;

    open spec fn view(&self) -> ScReaderView {
        match self {
            ScReader::Counter => ScReaderView::Counter,
            ScReader::Op => ScReaderView::Op,
            ScReader::Id(op) => ScReaderView::Id(*op),
            ScReader::Len(op, id) => ScReaderView::Len(*op, *id),
            ScReader::Body(op, id, len) => ScReaderView::Body(*op, *id, *len),
            ScReader::Sealed(frame) => ScReaderView::Sealed(frame@),
            ScReader::Finished => ScReaderView::Finished,
        }
    }
}

/// A [`ScReader`] says what it holds.
pub proof fn law_sc_reader_says_what_it_holds(value: ScReader)
    ensures
        match value {
            ScReader::Counter => value@ == ScReaderView::Counter,
            ScReader::Op => value@ == ScReaderView::Op,
            ScReader::Id(op) => value@ == ScReaderView::Id(op),
            ScReader::Len(op, id) => value@ == ScReaderView::Len(op, id),
            ScReader::Body(op, id, len) => value@ == ScReaderView::Body(op, id, len),
            ScReader::Sealed(frame) => value@ == ScReaderView::Sealed(frame@),
            ScReader::Finished => value@ == ScReaderView::Finished,
        },
{
}

impl View for ScOutput {
    type V = ScOutputView;

    open spec fn view(&self) -> ScOutputView {
        match self {
            ScOutput::Nothing => ScOutputView::Nothing,
            ScOutput::Counter(data) => ScOutputView::Counter(data@),
            ScOutput::Message(frame) => ScOutputView::Message(frame@),
        }
    }
}

/// A [`ScOutput`] says what it holds.
pub proof fn law_sc_output_says_what_it_holds(value: ScOutput)
    ensures
        match value {
            ScOutput::Nothing => value@ == ScOutputView::Nothing,
            ScOutput::Counter(data) => value@ == ScOutputView::Counter(data@),
            ScOutput::Message(frame) => value@ == ScOutputView::Message(frame@),
        },
{
}

/// What a byte other than the heartbeat stands for.
pub open spec fn sc_op(codes: ScCodes, op: u8) -> ScOp {
    if op == codes.entry_close {
        ScOp::EntryClose
    } else if op == codes.eof {
        ScOp::Eof
    } else if op == codes.connect_ok {
        ScOp::Sized(SizedOp::ConnectOk)
    } else if op == codes.data {
        ScOp::Sized(SizedOp::Data)
    } else {
        ScOp::Unknown
    }
}

/// The frame of an operation that carries a payload.
pub open spec fn sized_frame(op: SizedOp, id: u32, body: Seq<u8>) -> ScFrameView {
    match op {
        SizedOp::ConnectOk => ScFrameView::ConnectOk(id, body),
        SizedOp::Data => ScFrameView::Data(id, body),
    }
}

impl ScReaderView {
    /// Only a frame with a payload waits for its decryption.
    pub open spec fn wf(self) -> bool {
        self matches ScReaderView::Sealed(frame) ==> frame.payload() is Some
    }

    /// What the reader needs next.
    pub open spec fn want(self, ctr_size: nat) -> WantView {
        match self {
            ScReaderView::Counter => WantView::Read(ctr_size),
            ScReaderView::Op => WantView::Read(1),
            ScReaderView::Id(_) => WantView::Read(4),
            ScReaderView::Len(_, _) => WantView::Read(4),
            ScReaderView::Body(_, _, len) => WantView::Read(len as nat),
            ScReaderView::Sealed(frame) => WantView::Decrypt(frame.payload()->0),
            ScReaderView::Finished => WantView::Nothing,
        }
    }

    /// Where the reader stands after `reply`, and what that brings.
    pub open spec fn step(self, codes: ScCodes, reply: Seq<u8>) -> (ScReaderView, ScOutputView) {
        match self {
            ScReaderView::Counter => (ScReaderView::Op, ScOutputView::Counter(reply)),
            ScReaderView::Op => if reply[0] == codes.heartbeat {
                (ScReaderView::Op, ScOutputView::Message(ScFrameView::Heartbeat))
            } else {
                (ScReaderView::Id(sc_op(codes, reply[0])), ScOutputView::Nothing)
            },
            ScReaderView::Id(op) => {
                let id = bytes::be32_value(reply);
                match op {
                    ScOp::EntryClose => (
                        ScReaderView::Op,
                        ScOutputView::Message(ScFrameView::EntryClose(id)),
                    ),
                    ScOp::Eof => (ScReaderView::Op, ScOutputView::Message(ScFrameView::Eof(id))),
                    ScOp::Sized(op) => (ScReaderView::Len(op, id), ScOutputView::Nothing),
                    ScOp::Unknown => (ScReaderView::Finished, ScOutputView::Nothing),
                }
            },
            ScReaderView::Len(op, id) => (
                ScReaderView::Body(op, id, bytes::be32_value(reply)),
                ScOutputView::Nothing,
            ),
            ScReaderView::Body(op, id, _) => (
                ScReaderView::Sealed(sized_frame(op, id, reply)),
                ScOutputView::Nothing,
            ),
            ScReaderView::Sealed(frame) => (
                ScReaderView::Op,
                ScOutputView::Message(frame.with_payload(reply)),
            ),
            ScReaderView::Finished => (ScReaderView::Finished, ScOutputView::Nothing),
        }
    }

    /// How many steps are left to the end of the frame, at most.
    pub open spec fn steps_left(self) -> nat {
        match self {
            ScReaderView::Op => 4,
            ScReaderView::Id(_) => 3,
            ScReaderView::Len(_, _) => 2,
            ScReaderView::Body(_, _, _) => 1,
            _ => 0,
        }
    }
}

/// What a reader at `reader` first comes by in the stream `s`.
pub open spec fn next_frame(reader: ScReaderView, codes: ScCodes, s: Seq<u8>) -> ScReading
    decreases reader.steps_left(),
{
    match reader.want(0) {
        WantView::Read(n) => if reader.steps_left() == 0 || s.len() < n {
            ScReading::Incomplete
        } else {
            match reader.step(codes, s.take(n as int)) {
                (_, ScOutputView::Message(frame)) => ScReading::Frame(frame, s.skip(n as int)),
                (ScReaderView::Sealed(frame), _) => ScReading::Frame(frame, s.skip(n as int)),
                (ScReaderView::Finished, _) => ScReading::Unknown,
                (next, _) => if next.steps_left() < reader.steps_left() {
                    next_frame(next, codes, s.skip(n as int))
                } else {
                    ScReading::Incomplete
                },
            }
        },
        _ => ScReading::Incomplete,
    }
}

/// A reader before a frame finds the frames that the stream divides into, and stops at the
/// operation bytes that stand for nothing.
pub proof fn law_reader_follows_framing(codes: ScCodes, s: Seq<u8>)
    ensures
        next_frame(ScReaderView::Op, codes, s) == framing::read_sc(codes, s),
{
    reveal_with_fuel(next_frame, 5);
    if s.len() >= 1 && s[0] != codes.heartbeat && s.len() >= 5 {
        let s1 = s.skip(1);
        let s5 = s1.skip(4);
        assert(s5 =~= s.skip(5));
        assert(s1.take(4)[0] == s1[0] && s1.take(4)[1] == s1[1] && s1.take(4)[2] == s1[2]
            && s1.take(4)[3] == s1[3]);
        assert(bytes::be32_value(s1.take(4)) == bytes::be32_value(s1));
        if s5.len() >= 4 {
            let s9 = s5.skip(4);
            let len = bytes::be32_value(s5);
            assert(bytes::be32_value(s5.take(4)) == len);
            if s9.len() >= len {
                assert(s9.take(len as int) =~= s5.subrange(4, 4 + len));
                assert(s9.skip(len as int) =~= s5.skip(4 + len));
            }
        }
    }
}

/// What a reader before a frame hands to the tunnel from the stream `s`, one message for each of
/// `opened`: where the frame has a payload, that is what the payload decrypts to.
pub open spec fn delivered(codes: ScCodes, s: Seq<u8>, opened: Seq<Seq<u8>>) -> Option<
    (Seq<ScFrameView>, Seq<u8>),
>
    decreases opened.len(),
{
    if opened.len() == 0 {
        Some((Seq::empty(), s))
    } else {
        match next_frame(ScReaderView::Op, codes, s) {
            ScReading::Frame(frame, rest) => {
                let message = if frame.payload() is Some {
                    if ScReaderView::Sealed(frame).want(0) == WantView::Decrypt(
                        frame.payload()->0,
                    ) {
                        ScReaderView::Sealed(frame).step(codes, opened[0])
                    } else {
                        (ScReaderView::Finished, ScOutputView::Nothing)
                    }
                } else {
                    (ScReaderView::Op, ScOutputView::Message(frame))
                };
                match (message, delivered(codes, rest, opened.skip(1))) {
                    ((ScReaderView::Op, ScOutputView::Message(first)), Some((others, end))) => Some(
                        (seq![first] + others, end),
                    ),
                    _ => None,
                }
            },
            _ => None,
        }
    }
}

/// `frames`, each with its payload encrypted.
pub open spec fn sealed(frames: Seq<ScFrameView>, ciphers: Seq<Seq<u8>>) -> Seq<ScFrameView> {
    Seq::new(frames.len(), |i: int| frames[i].with_payload(ciphers[i]))
}

proof fn lemma_frame_is_found(codes: ScCodes, wire: ScFrameView, after: Seq<u8>)
    requires
        codes.distinct(),
        wire.fits(),
    ensures
        next_frame(ScReaderView::Op, codes, wire.packed(codes) + after) == ScReading::Frame(
            wire,
            after,
        ),
{
    framing::law_sc_read_back(codes, wire, after);
    law_reader_follows_framing(codes, wire.packed(codes) + after);
}

proof fn lemma_one_arrives(
    codes: ScCodes,
    frame: ScFrameView,
    cipher: Seq<u8>,
    s: Seq<u8>,
    after: Seq<u8>,
    opened: Seq<Seq<u8>>,
)
    requires
        opened.len() > 0,
        next_frame(ScReaderView::Op, codes, s) == ScReading::Frame(
            frame.with_payload(cipher),
            after,
        ),
        frame.payload() matches Some(plain) ==> opened[0] == plain,
    ensures
        delivered(codes, s, opened) == (match delivered(codes, after, opened.skip(1)) {
            Some((others, end)) => Some((seq![frame] + others, end)),
            None => None,
        }),
{
    let wire = frame.with_payload(cipher);
    assert(wire.payload() is Some ==> wire.with_payload(opened[0]) == frame);
    assert(wire.payload() is None ==> wire == frame);
}

/// The client receives the messages that the server sent, in the order in which it sent them, as
/// long as each payload decrypts to what was encrypted.
pub proof fn law_messages_arrive(
    codes: ScCodes,
    frames: Seq<ScFrameView>,
    ciphers: Seq<Seq<u8>>,
    opened: Seq<Seq<u8>>,
    rest: Seq<u8>,
)
    requires
        codes.distinct(),
        ciphers.len() == frames.len(),
        opened.len() == frames.len(),
        forall|i: int|
            0 <= i < frames.len() ==> (#[trigger] frames[i]).with_payload(ciphers[i]).fits(),
        forall|i: int|
            0 <= i < frames.len() ==> ((#[trigger] frames[i]).payload() matches Some(plain)
                ==> opened[i] == plain),
    ensures
        delivered(codes, framing::packed_sc(codes, sealed(frames, ciphers)) + rest, opened) == Some(
            (frames, rest),
        ),
    decreases frames.len(),
{
    let all = sealed(frames, ciphers);
    if frames.len() == 0 {
        assert(framing::packed_sc(codes, all) + rest =~= rest);
        assert(frames =~= Seq::empty());
    } else {
        let tail = frames.skip(1);
        assert(all.skip(1) =~= sealed(tail, ciphers.skip(1)));
        let after = framing::packed_sc(codes, all.skip(1)) + rest;
        assert(framing::packed_sc(codes, all) + rest =~= all[0].packed(codes) + after);
        assert(all[0] == frames[0].with_payload(ciphers[0]));
        lemma_frame_is_found(codes, all[0], after);
        lemma_one_arrives(
            codes,
            frames[0],
            ciphers[0],
            all[0].packed(codes) + after,
            after,
            opened,
        );
        assert forall|i: int| 0 <= i < tail.len() implies (#[trigger] tail[i]).with_payload(
            ciphers.skip(1)[i],
        ).fits() by {
            assert(tail[i] == frames[i + 1]);
        }
        assert forall|i: int| 0 <= i < tail.len() implies ((#[trigger] tail[i]).payload() matches
            Some(plain) ==> opened.skip(1)[i] == plain) by {
            assert(tail[i] == frames[i + 1]);
        }
        law_messages_arrive(codes, tail, ciphers.skip(1), opened.skip(1), rest);
        assert(seq![frames[0]] + tail =~= frames);
    }
}

/// What a program goes by that reads the stream of a server.
pub struct Terms {
    pub codes: ScCodes,
    pub ctr_size: nat,
    /// What the cipher with this counter makes of the bytes that it is handed as this many-th.
    pub decrypt: spec_fn(Seq<u8>, nat, Seq<u8>) -> Seq<u8>,
}

/// How far a program has come that reads the stream of a server.
#[verifier::ext_equal]
pub struct Playing {
    pub reader: ScReaderView,
    /// What is still to be read.
    pub stream: Seq<u8>,
    /// The counter that the server sent.
    pub ctr: Seq<u8>,
    /// How often the cipher was asked.
    pub opened: nat,
    /// The messages that went to the tunnel.
    pub messages: Seq<ScFrameView>,
}

impl Playing {
    /// The program at the start of a stream.
    pub open spec fn start(stream: Seq<u8>) -> Playing {
        Playing {
            reader: ScReaderView::Counter,
            stream,
            ctr: Seq::empty(),
            opened: 0,
            messages: Seq::empty(),
        }
    }

    /// The program behind a step of the reader.
    pub open spec fn with(
        self,
        reader: ScReaderView,
        output: ScOutputView,
        stream: Seq<u8>,
        opened: nat,
    ) -> Playing {
        Playing {
            reader,
            stream,
            ctr: match output {
                ScOutputView::Counter(ctr) => ctr,
                _ => self.ctr,
            },
            opened,
            messages: match output {
                ScOutputView::Message(frame) => self.messages.push(frame),
                _ => self.messages,
            },
        }
    }

    /// The program when it has handed `reply` to the reader.
    pub open spec fn given(
        self,
        terms: Terms,
        reply: Seq<u8>,
        stream: Seq<u8>,
        opened: nat,
    ) -> Option<Playing> {
        let (reader, output) = self.reader.step(terms.codes, reply);
        Some(self.with(reader, output, stream, opened))
    }

    /// The program does what the reader wants, reads so many bytes or has these bytes decrypted,
    /// and hands the reader what came of it; nothing where it cannot.
    pub open spec fn turn(self, terms: Terms) -> Option<Playing> {
        match self.reader.want(terms.ctr_size) {
            WantView::Read(n) => if self.stream.len() < n {
                None
            } else {
                self.given(
                    terms,
                    self.stream.take(n as int),
                    self.stream.skip(n as int),
                    self.opened,
                )
            },
            WantView::Decrypt(data) => self.given(
                terms,
                (terms.decrypt)(self.ctr, self.opened, data),
                self.stream,
                self.opened + 1,
            ),
            WantView::Nothing => None,
        }
    }

    /// So many turns.
    pub open spec fn turns(self, terms: Terms, k: nat) -> Option<Playing>
        decreases k,
    {
        if k == 0 {
            Some(self)
        } else {
            match self.turn(terms) {
                Some(next) => next.turns(terms, (k - 1) as nat),
                None => None,
            }
        }
    }
}

proof fn lemma_turns_add(p: Playing, terms: Terms, a: nat, b: nat)
    requires
        p.turns(terms, a) is Some,
    ensures
        p.turns(terms, a + b) == p.turns(terms, a)->0.turns(terms, b),
    decreases a,
{
    if a > 0 {
        lemma_turns_add(p.turn(terms)->0, terms, (a - 1) as nat, b);
    }
}

proof fn lemma_five_turns(
    p: Playing,
    terms: Terms,
    p1: Playing,
    p2: Playing,
    p3: Playing,
    p4: Playing,
)
    requires
        p.turn(terms) == Some(p1),
        p1.turn(terms) == Some(p2),
        p2.turn(terms) == Some(p3),
        p3.turn(terms) == Some(p4),
        p4.turn(terms) is Some,
    ensures
        p.turns(terms, 5) == p4.turn(terms),
{
    let p5 = p4.turn(terms)->0;
    assert(p5.turns(terms, 0) == Some(p5));
    assert(p4.turns(terms, 1) == Some(p5));
    assert(p3.turns(terms, 2) == Some(p5));
    assert(p2.turns(terms, 3) == Some(p5));
    assert(p1.turns(terms, 4) == Some(p5));
}

proof fn lemma_be32_at(s: Seq<u8>, v: u32, after: Seq<u8>)
    requires
        s == bytes::be32(v) + after,
    ensures
        s.len() >= 4,
        bytes::be32_value(s.take(4)) == v,
        s.skip(4) == after,
{
    bytes::law_be32_read_back(v);
    assert(s.take(4) =~= bytes::be32(v));
    assert(s.skip(4) =~= after);
}

proof fn lemma_head_is_played(p: Playing, terms: Terms, op: u8, id: u32, after: Seq<u8>)
    requires
        p.reader == ScReaderView::Op,
        p.stream == protocol::head(op, id) + after,
        op != terms.codes.heartbeat,
        !(sc_op(terms.codes, op) is Sized),
        !(sc_op(terms.codes, op) is Unknown),
    ensures
        p.turns(terms, 2) == Some(
            Playing {
                stream: after,
                messages: p.messages.push(
                    match sc_op(terms.codes, op) {
                        ScOp::EntryClose => ScFrameView::EntryClose(id),
                        ScOp::Eof => ScFrameView::Eof(id),
                        _ => ScFrameView::Heartbeat,
                    },
                ),
                ..p
            },
        ),
{
    reveal_with_fuel(Playing::turns, 3);
    let s1 = p.stream.skip(1);
    assert(p.stream.take(1)[0] == op);
    assert(s1 =~= bytes::be32(id) + after);
    lemma_be32_at(s1, id, after);
}

#[verifier::rlimit(40)]
proof fn lemma_sized_is_played(
    p: Playing,
    terms: Terms,
    code: u8,
    op: SizedOp,
    id: u32,
    body: Seq<u8>,
    after: Seq<u8>,
)
    requires
        p.reader == ScReaderView::Op,
        p.stream == protocol::head(code, id) + protocol::sized(body) + after,
        code != terms.codes.heartbeat,
        sc_op(terms.codes, code) == ScOp::Sized(op),
        body.len() <= u32::MAX,
    ensures
        ({
            let frame = sized_frame(op, id, body);
            p.turns(terms, 5) == Some(
                Playing {
                    stream: after,
                    opened: p.opened + 1,
                    messages: p.messages.push(
                        frame.with_payload((terms.decrypt)(p.ctr, p.opened, frame.payload()->0)),
                    ),
                    ..p
                },
            )
        }),
{
    let n = body.len() as u32;
    let s1 = p.stream.skip(1);
    assert(p.stream.take(1)[0] == code);
    assert(s1 =~= bytes::be32(id) + (protocol::sized(body) + after));
    lemma_be32_at(s1, id, protocol::sized(body) + after);
    let s5 = s1.skip(4);
    assert(s5 =~= bytes::be32(n) + (body + after));
    lemma_be32_at(s5, n, body + after);
    let s9 = s5.skip(4);
    assert(s9.take(n as int) =~= body);
    assert(s9.skip(n as int) =~= after);
    let p1 = Playing { reader: ScReaderView::Id(ScOp::Sized(op)), stream: s1, ..p };
    let p2 = Playing { reader: ScReaderView::Len(op, id), stream: s5, ..p };
    let p3 = Playing { reader: ScReaderView::Body(op, id, n), stream: s9, ..p };
    let frame = sized_frame(op, id, body);
    let p4 = Playing { reader: ScReaderView::Sealed(frame), stream: after, ..p };
    assert(p.turn(terms) == Some(p1));
    assert(p1.turn(terms) == Some(p2));
    assert(p2.turn(terms) == Some(p3));
    assert(p3.turn(terms) == Some(p4));
    lemma_five_turns(p, terms, p1, p2, p3, p4);
}

#[verifier::rlimit(40)]
proof fn lemma_frame_is_played(
    p: Playing,
    terms: Terms,
    frame: ScFrameView,
    cipher: Seq<u8>,
    after: Seq<u8>,
) -> (k: nat)
    requires
        terms.codes.distinct(),
        p.reader == ScReaderView::Op,
        p.stream == frame.with_payload(cipher).packed(terms.codes) + after,
        frame.payload() is Some ==> cipher.len() <= u32::MAX,
        frame.payload() matches Some(plain) ==> (terms.decrypt)(p.ctr, p.opened, cipher) == plain,
    ensures
        p.turns(terms, k) == Some(
            Playing {
                stream: after,
                opened: p.opened + (if frame.payload() is Some {
                    1nat
                } else {
                    0
                }),
                messages: p.messages.push(frame),
                ..p
            },
        ),
{
    framing::lemma_sc_codes_differ(terms.codes);
    match frame {
        ScFrameView::Heartbeat => {
            reveal_with_fuel(Playing::turns, 2);
            assert(p.stream.take(1)[0] == terms.codes.heartbeat);
            assert(p.stream.skip(1) =~= after);
            1
        },
        ScFrameView::EntryClose(id) => {
            lemma_head_is_played(p, terms, terms.codes.entry_close, id, after);
            2
        },
        ScFrameView::Eof(id) => {
            lemma_head_is_played(p, terms, terms.codes.eof, id, after);
            2
        },
        ScFrameView::ConnectOk(id, plain) => {
            assert(p.stream =~= protocol::head(terms.codes.connect_ok, id) + protocol::sized(cipher)
                + after);
            lemma_sized_is_played(
                p,
                terms,
                terms.codes.connect_ok,
                SizedOp::ConnectOk,
                id,
                cipher,
                after,
            );
            5
        },
        ScFrameView::Data(id, plain) => {
            assert(p.stream =~= protocol::head(terms.codes.data, id) + protocol::sized(cipher)
                + after);
            lemma_sized_is_played(
                p,
                terms,
                terms.codes.data,
                SizedOp::Data,
                id,
                cipher,
                after,
            );
            5
        },
    }
}

/// What a program writes that has the payload of each of `frames` encrypted, the first as the
/// `n`-th that its cipher is handed.
pub open spec fn written_as(
    codes: ScCodes,
    encrypt: spec_fn(nat, Seq<u8>) -> Seq<u8>,
    n: nat,
    frames: Seq<ScFrameView>,
) -> Seq<u8>
    decreases frames.len(),
{
    if frames.len() == 0 {
        Seq::empty()
    } else {
        match frames[0].payload() {
            Some(plain) => frames[0].with_payload(encrypt(n, plain)).packed(codes) + written_as(
                codes,
                encrypt,
                n + 1,
                frames.skip(1),
            ),
            None => frames[0].packed(codes) + written_as(codes, encrypt, n, frames.skip(1)),
        }
    }
}

/// The cipher of the client undoes what the cipher of the server did, to all that a length field
/// can hold; and a length field can hold what came of it.
pub open spec fn undoes(
    decrypt: spec_fn(Seq<u8>, nat, Seq<u8>) -> Seq<u8>,
    ctr: Seq<u8>,
    encrypt: spec_fn(nat, Seq<u8>) -> Seq<u8>,
) -> bool {
    forall|n: nat, plain: Seq<u8>|
        #![trigger encrypt(n, plain)]
        plain.len() <= u32::MAX ==> decrypt(ctr, n, encrypt(n, plain)) == plain && encrypt(
            n,
            plain,
        ).len() <= u32::MAX
}

/// A length field can hold the payload of each of `frames`.
pub open spec fn can_be_told(frames: Seq<ScFrameView>) -> bool {
    forall|i: int|
        0 <= i < frames.len() ==> ((#[trigger] frames[i]).payload() matches Some(plain)
            ==> plain.len() <= u32::MAX)
}

/// A program before a frame that does what the reader wants, again and again, comes by exactly the
/// messages that the server wrote, in their order and with their payloads, and then stands before
/// what follows them; whatever the lengths of the payloads.
pub proof fn law_frames_are_read_as_wanted(
    p: Playing,
    terms: Terms,
    encrypt: spec_fn(nat, Seq<u8>) -> Seq<u8>,
    frames: Seq<ScFrameView>,
    rest: Seq<u8>,
)
    requires
        terms.codes.distinct(),
        undoes(terms.decrypt, p.ctr, encrypt),
        can_be_told(frames),
        p.reader == ScReaderView::Op,
        p.stream == written_as(terms.codes, encrypt, p.opened, frames) + rest,
    ensures
        exists|k: nat|
            #![trigger p.turns(terms, k)]
            p.turns(terms, k) matches Some(q) && q.reader == ScReaderView::Op && q.stream == rest
                && q.ctr == p.ctr && q.messages == p.messages + frames,
    decreases frames.len(),
{
    if frames.len() == 0 {
        assert(p.stream =~= rest);
        assert(p.messages =~= p.messages + frames);
        assert(p.turns(terms, 0) == Some(p));
    } else {
        let frame = frames[0];
        let (cipher, n) = match frame.payload() {
            Some(plain) => (encrypt(p.opened, plain), p.opened + 1),
            None => (Seq::empty(), p.opened),
        };
        let after = written_as(terms.codes, encrypt, n, frames.skip(1)) + rest;
        assert(frame.payload() is None ==> frame.with_payload(cipher) == frame);
        assert(p.stream =~= frame.with_payload(cipher).packed(terms.codes) + after);
        assert forall|i: int| 0 <= i < frames.skip(1).len() implies ((#[trigger] frames.skip(
            1,
        )[i]).payload() matches Some(plain) ==> plain.len() <= u32::MAX) by {
            assert(frames.skip(1)[i] == frames[i + 1]);
        }
        let k = lemma_frame_is_played(p, terms, frame, cipher, after);
        let q = p.turns(terms, k)->0;
        law_frames_are_read_as_wanted(q, terms, encrypt, frames.skip(1), rest);
        let j = choose|j: nat|
            #![trigger q.turns(terms, j)]
            q.turns(terms, j) matches Some(z) && z.reader == ScReaderView::Op && z.stream == rest
                && z.ctr == q.ctr && z.messages == q.messages + frames.skip(1);
        lemma_turns_add(p, terms, k, j);
        assert(q.messages + frames.skip(1) =~= p.messages + frames);
        assert(p.turns(terms, k + j) is Some);
    }
}

/// At every frame whose payload is encrypted, the reader wants that payload decrypted, all of it,
/// and nothing read before that is done; and what it decrypts to is what goes to the tunnel.
pub proof fn law_payload_is_decrypted(
    frame: ScFrameView,
    id: u32,
    data: Seq<u8>,
    ctr_size: nat,
)
    requires
        frame == ScFrameView::Data(id, data) || frame == ScFrameView::ConnectOk(id, data),
    ensures
        ScReaderView::Sealed(frame).want(ctr_size) == WantView::Decrypt(data),
{
}

/// A program that reads the stream of a server from its start comes by the counter, and then by
/// exactly the messages that the server wrote.
pub proof fn law_stream_is_read_as_wanted(
    terms: Terms,
    encrypt: spec_fn(nat, Seq<u8>) -> Seq<u8>,
    ctr: Seq<u8>,
    frames: Seq<ScFrameView>,
    rest: Seq<u8>,
)
    requires
        terms.codes.distinct(),
        undoes(terms.decrypt, ctr, encrypt),
        can_be_told(frames),
        terms.ctr_size == ctr.len(),
    ensures
        ({
            let p = Playing::start(ctr + (written_as(terms.codes, encrypt, 0, frames) + rest));
            exists|k: nat|
                #![trigger p.turns(terms, k)]
                p.turns(terms, k) matches Some(q) && q.reader == ScReaderView::Op && q.stream
                    == rest && q.ctr == ctr && q.messages == frames
        }),
{
    let after = written_as(terms.codes, encrypt, 0, frames) + rest;
    let p = Playing::start(ctr + after);
    reveal_with_fuel(Playing::turns, 2);
    assert(p.stream.take(ctr.len() as int) =~= ctr);
    assert(p.stream.skip(ctr.len() as int) =~= after);
    let q = p.turns(terms, 1)->0;
    law_frames_are_read_as_wanted(q, terms, encrypt, frames, rest);
    let j = choose|j: nat|
        #![trigger q.turns(terms, j)]
        q.turns(terms, j) matches Some(z) && z.reader == ScReaderView::Op && z.stream == rest
            && z.ctr == q.ctr && z.messages == q.messages + frames;
    lemma_turns_add(p, terms, 1, j);
    assert(q.messages + frames =~= frames);
    assert(p.turns(terms, 1 + j) is Some);
}

/// At an operation byte that stands for nothing, the stream is read no further than the four bytes
/// behind it, and nothing comes of it.
pub proof fn law_other_operations_end_the_stream(
    p: Playing,
    terms: Terms,
    op: u8,
    id: Seq<u8>,
    after: Seq<u8>,
)
    requires
        p.reader == ScReaderView::Op,
        p.stream == seq![op] + id + after,
        id.len() == 4,
        op != terms.codes.heartbeat,
        op != terms.codes.entry_close,
        op != terms.codes.eof,
        op != terms.codes.connect_ok,
        op != terms.codes.data,
    ensures
        p.turns(terms, 2) matches Some(q) && q.stream == after && q.messages == p.messages
            && q.turn(terms) is None,
{
    reveal_with_fuel(Playing::turns, 3);
    assert(p.stream.take(1)[0] == op);
    assert(p.stream.skip(1) =~= id + after);
    assert((id + after).skip(4) =~= after);
}

/// What the client reads first is the counter that the server wrote; it goes on before a frame with
/// what follows.
pub proof fn law_opening_read_back(codes: ScCodes, ctr: Seq<u8>, rest: Seq<u8>)
    ensures
        ({
            let s = ctr + rest;
            &&& ScReaderView::Counter.want(ctr.len()) == WantView::Read(ctr.len())
            &&& ScReaderView::Counter.step(codes, s.take(ctr.len() as int)) == (
                ScReaderView::Op,
                ScOutputView::Counter(ctr),
            )
            &&& s.skip(ctr.len() as int) == rest
        }),
{
    let s = ctr + rest;
    assert(s.take(ctr.len() as int) =~= ctr);
    assert(s.skip(ctr.len() as int) =~= rest);
}

impl ScReader {
    /// What the reader needs next.
    pub fn want<'a>(&'a self, protocol: &Protocol) -> (want: Want<'a>)
        requires
            self@.wf(),
        ensures
            want@ == self@.want(protocol.ctr_size as nat),
    {
        match self {
            ScReader::Counter => Want::Read(protocol.ctr_size),
            ScReader::Op => Want::Read(1),
            ScReader::Id(_) => Want::Read(4),
            ScReader::Len(_, _) => Want::Read(4),
            ScReader::Body(_, _, len) => Want::Read(*len as usize),
            ScReader::Sealed(frame) => match frame.payload() {
                Some(data) => Want::Decrypt(data),
                None => Want::Nothing,
            },
            ScReader::Finished => Want::Nothing,
        }
    }
}

fn op_of(codes: &ScCodes, op: u8) -> (out: ScOp)
    ensures
        out == sc_op(*codes, op),
{
    if op == codes.entry_close {
        ScOp::EntryClose
    } else if op == codes.eof {
        ScOp::Eof
    } else if op == codes.connect_ok {
        ScOp::Sized(SizedOp::ConnectOk)
    } else if op == codes.data {
        ScOp::Sized(SizedOp::Data)
    } else {
        ScOp::Unknown
    }
}

/// One step of reading the server's stream: `reply` is what [`ScReader::want`] asked for, read
/// from the stream or decrypted with the counter that the server sent. A message in the output
/// goes to the tunnel.
pub fn server_stream_to_tunnel(protocol: &Protocol, reader: ScReader, reply: Vec<u8>) -> (out: (
    ScReader,
    ScOutput,
))
    requires
        reader@.wf(),
        reader@.want(protocol.ctr_size as nat).met_by(reply@),
    ensures
        out.0@.wf(),
        (out.0@, out.1@) == reader@.step(protocol.sc, reply@),
{
    match reader {
        ScReader::Counter => (ScReader::Op, ScOutput::Counter(reply)),
        ScReader::Op => {
            let op: u8 = reply[0];
            if op == protocol.sc.heartbeat {
                (ScReader::Op, ScOutput::Message(ScFrame::Heartbeat))
            } else {
                (ScReader::Id(op_of(&protocol.sc, op)), ScOutput::Nothing)
            }
        },
        ScReader::Id(op) => {
            let id: u32 = read_be32(reply.as_slice());
            match op {
                ScOp::EntryClose => (ScReader::Op, ScOutput::Message(ScFrame::EntryClose(id))),
                ScOp::Eof => (ScReader::Op, ScOutput::Message(ScFrame::Eof(id))),
                ScOp::Sized(op) => (ScReader::Len(op, id), ScOutput::Nothing),
                ScOp::Unknown => (ScReader::Finished, ScOutput::Nothing),
            }
        },
        ScReader::Len(op, id) => {
            let len: u32 = read_be32(reply.as_slice());
            (ScReader::Body(op, id, len), ScOutput::Nothing)
        },
        ScReader::Body(op, id, _) => {
            let frame: ScFrame = match op {
                SizedOp::ConnectOk => ScFrame::ConnectOk(id, reply),
                SizedOp::Data => ScFrame::Data(id, reply),
            };
            (ScReader::Sealed(frame), ScOutput::Nothing)
        },
        ScReader::Sealed(frame) => (ScReader::Op, ScOutput::Message(frame.with_payload(reply))),
        ScReader::Finished => (ScReader::Finished, ScOutput::Nothing),
    }
}

} // verus!
