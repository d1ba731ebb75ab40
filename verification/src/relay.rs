//! What the relaying of bytes between a connection and an entry has in common on both sides.
use vstd::prelude::*;

verus! {

/// How many bytes are read from a connection at once, at most.
pub const BUFFER_SIZE: usize = 1024;

/// A read can bring a kilobyte, and never nothing for want of room.
pub proof fn law_buffer_holds_a_kilobyte()
    ensures
        BUFFER_SIZE == 1024,
{
}

/// Which half of a connection is shut down.
#[derive(Clone, Copy, Debug, PartialEq, Eq, Structural)]
pub enum Shutdown {
    Read,
    Write,
    Both,
}

/// What is to be done after a read from a connection, in this order.
#[derive(Debug)]
pub struct Pump<M> {
    /// Shut this half of the connection down.
    pub shutdown: Option<Shutdown>,
    /// Put this message into the tunnel.
    pub message: M,
    /// Whether to read again.
    pub more: bool,
}

/// What a [`Pump`] says.
#[verifier::ext_equal]
pub struct PumpView<M> {
    pub shutdown: Option<Shutdown>,
    pub message: M,
    pub more: bool,
}

impl<M: View> View for Pump<M> {
    type V = PumpView<M::V>;

    open spec fn view(&self) -> PumpView<M::V> {
        PumpView { shutdown: self.shutdown, message: self.message@, more: self.more }
    }
}

/// A [`Pump`] says what it holds.
pub proof fn law_pump_says_what_it_holds<M: View>(value: Pump<M>)
    ensures
        value@.shutdown == value.shutdown,
        value@.message == value.message@,
        value@.more == value.more,
{
}

/// One read from a connection: how many bytes it brought, or that it failed, and the buffer.
#[verifier::ext_equal]
pub struct Reading {
    pub read: Option<usize>,
    pub buf: Seq<u8>,
}

/// What is to be done next about bytes for a connection.
#[derive(Debug)]
pub enum Drain {
    /// Write these bytes.
    Write(Vec<u8>),
    /// Wait for the next message of the entry.
    Wait,
    /// Shut this half of the connection down, and write nothing more.
    Stop(Shutdown),
}

/// What a [`Drain`] says.
#[verifier::ext_equal]
pub enum DrainView {
    Write(Seq<u8>),
    Wait,
    Stop(Shutdown),
}

impl View for Drain {
    type V = DrainView;

    open spec fn view(&self) -> DrainView {
        match self {
            Drain::Write(buf) => DrainView::Write(buf@),
            Drain::Wait => DrainView::Wait,
            Drain::Stop(half) => DrainView::Stop(*half),
        }
    }
}

/// A [`Drain`] says what it holds.
pub proof fn law_drain_says_what_it_holds(value: Drain)
    ensures
        match value {
            Drain::Write(buf) => value@ == DrainView::Write(buf@),
            Drain::Wait => value@ == DrainView::Wait,
            Drain::Stop(half) => value@ == DrainView::Stop(half),
        },
{
}

/// The bytes that a read of `n` bytes left in `buf`.
pub open spec fn filled(buf: Seq<u8>, n: usize) -> Seq<u8> {
    if n <= buf.len() {
        buf.take(n as int)
    } else {
        buf
    }
}

/// The first `n` bytes of `buf`, one by one.
pub open spec fn brought(buf: Seq<u8>, n: usize) -> Seq<u8> {
    let len: nat = if n < buf.len() {
        n as nat
    } else {
        buf.len()
    };
    Seq::new(len, |i: int| buf[i])
}

/// A read of `n` bytes leaves exactly `n` bytes, each where it was read to.
pub proof fn law_read_keeps_its_bytes(buf: Seq<u8>, n: usize)
    requires
        n <= buf.len(),
    ensures
        filled(buf, n).len() == n,
        forall|i: int| 0 <= i < n ==> #[trigger] filled(buf, n)[i] == buf[i],
{
}

/// A write that succeeds is followed by the next message; after one that fails, nothing more is
/// read from the connection or written to it.
pub proof fn law_writes_go_on_until_one_fails(ok: bool)
    ensures
        written(ok) == DrainView::Wait <==> ok,
        written(ok) == DrainView::Stop(Shutdown::Both) <==> !ok,
{
}

/// The bytes that a run of reads brought, one read after the other, up to the end of what the other
/// side sends or the first failure.
pub open spec fn joined(reads: Seq<Reading>) -> Seq<u8>
    decreases reads.len(),
{
    if reads.len() == 0 {
        Seq::empty()
    } else {
        match reads[0].read {
            Some(n) if n > 0 => brought(reads[0].buf, n) + joined(reads.skip(1)),
            _ => Seq::empty(),
        }
    }
}

/// What is to be done after a write to a connection.
pub open spec fn written(ok: bool) -> DrainView {
    if ok {
        DrainView::Wait
    } else {
        DrainView::Stop(Shutdown::Both)
    }
}

/// Cuts `buf` to the bytes that a read of `n` bytes left in it.
pub(crate) fn cut(buf: Vec<u8>, n: usize) -> (out: Vec<u8>)
    ensures
        out@ == filled(buf@, n),
        n <= buf@.len() ==> out@.len() == n,
        n > buf@.len() ==> out@.len() == buf@.len(),
        forall|i: int| 0 <= i < out@.len() ==> #[trigger] out@[i] == buf@[i],
{
    let mut out: Vec<u8> = buf;
    if n <= out.len() {
        out.truncate(n);
    }
    assert(out@ =~= filled(buf@, n));
    out
}

} // verus!
