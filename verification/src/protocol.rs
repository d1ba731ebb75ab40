//! The frames that the two ends of a tunnel exchange.
//!
//! A frame starts with an operation byte. A heartbeat is that byte alone; every other frame names
//! an entry in four bytes, and the frames that carry a payload go on with its length in four bytes
//! and the payload. All integers are big-endian. The payload crosses the wire encrypted; the port
//! behind a domain name does not.
use vstd::prelude::*;

use crate::bytes;
use crate::bytes::{push_be16, push_be32, push_bytes};

verus! {

/// The operation bytes of the frames from client to server.
#[derive(Clone, Copy, Debug, PartialEq, Eq, Structural)]
pub struct CsCodes {
    pub heartbeat: u8,
    pub entry_open: u8,
    pub entry_close: u8,
    pub eof: u8,
    pub connect_domain_name: u8,
    pub connect_ip4: u8,
    pub data: u8,
}

/// The operation bytes of the frames from server to client.
#[derive(Clone, Copy, Debug, PartialEq, Eq, Structural)]
pub struct ScCodes {
    pub heartbeat: u8,
    pub entry_close: u8,
    pub eof: u8,
    pub connect_ok: u8,
    pub data: u8,
}

/// What the two ends of a tunnel agree on before they talk: the operation bytes, the bytes by
/// which the client shows that it holds the key, and the size of a cipher's initial counter.
#[derive(Clone, Debug)]
pub struct Protocol {
    pub cs: CsCodes,
    pub sc: ScCodes,
    pub verify_data: Vec<u8>,
    pub ctr_size: usize,
}

impl CsCodes {
    /// No operation byte stands for two operations.
    pub open spec fn distinct(self) -> bool {
        seq![
            self.heartbeat,
            self.entry_open,
            self.entry_close,
            self.eof,
            self.connect_domain_name,
            self.connect_ip4,
            self.data,
        ].no_duplicates()
    }
}

impl ScCodes {
    /// No operation byte stands for two operations.
    pub open spec fn distinct(self) -> bool {
        seq![
            self.heartbeat,
            self.entry_close,
            self.eof,
            self.connect_ok,
            self.data,
        ].no_duplicates()
    }
}

/// A frame from client to server.
#[derive(Clone, Debug)]
pub enum CsFrame {
    EntryOpen(u32),
    EntryClose(u32),
    ConnectIp4(u32, Vec<u8>),
    ConnectDomainName(u32, Vec<u8>, u16),
    Eof(u32),
    Data(u32, Vec<u8>),
    Heartbeat,
}

/// A frame from server to client.
#[derive(Clone, Debug)]
pub enum ScFrame {
    EntryClose(u32),
    Eof(u32),
    ConnectOk(u32, Vec<u8>),
    Data(u32, Vec<u8>),
    Heartbeat,
}

/// What a [`CsFrame`] says.
#[verifier::ext_equal]
pub enum CsFrameView {
    EntryOpen(u32),
    EntryClose(u32),
    ConnectIp4(u32, Seq<u8>),
    ConnectDomainName(u32, Seq<u8>, u16),
    Eof(u32),
    Data(u32, Seq<u8>),
    Heartbeat,
}

/// What a [`ScFrame`] says.
#[verifier::ext_equal]
pub enum ScFrameView {
    EntryClose(u32),
    Eof(u32),
    ConnectOk(u32, Seq<u8>),
    Data(u32, Seq<u8>),
    Heartbeat,
}

impl View for CsFrame {
    type V = CsFrameView;

    open spec fn view(&self) -> CsFrameView {
        match self {
            CsFrame::EntryOpen(id) => CsFrameView::EntryOpen(*id),
            CsFrame::EntryClose(id) => CsFrameView::EntryClose(*id),
            CsFrame::ConnectIp4(id, data) => CsFrameView::ConnectIp4(*id, data@),
            CsFrame::ConnectDomainName(id, data, port) => CsFrameView::ConnectDomainName(
                *id,
                data@,
                *port,
            ),
            CsFrame::Eof(id) => CsFrameView::Eof(*id),
            CsFrame::Data(id, data) => CsFrameView::Data(*id, data@),
            CsFrame::Heartbeat => CsFrameView::Heartbeat,
        }
    }
}

/// A [`CsFrame`] says what it holds.
pub proof fn law_cs_frame_says_what_it_holds(value: CsFrame)
    ensures
        match value {
            CsFrame::EntryOpen(id) => value@ == CsFrameView::EntryOpen(id),
            CsFrame::EntryClose(id) => value@ == CsFrameView::EntryClose(id),
            CsFrame::ConnectIp4(id, data) => value@ == CsFrameView::ConnectIp4(id, data@),
            CsFrame::ConnectDomainName(id, data, port) => value@ == CsFrameView::ConnectDomainName(
                id,
                data@,
                port,
            ),
            CsFrame::Eof(id) => value@ == CsFrameView::Eof(id),
            CsFrame::Data(id, data) => value@ == CsFrameView::Data(id, data@),
            CsFrame::Heartbeat => value@ == CsFrameView::Heartbeat,
        },
{
}

impl View for ScFrame {
    type V = ScFrameView;

    open spec fn view(&self) -> ScFrameView {
        match self {
            ScFrame::EntryClose(id) => ScFrameView::EntryClose(*id),
            ScFrame::Eof(id) => ScFrameView::Eof(*id),
            ScFrame::ConnectOk(id, data) => ScFrameView::ConnectOk(*id, data@),
            ScFrame::Data(id, data) => ScFrameView::Data(*id, data@),
            ScFrame::Heartbeat => ScFrameView::Heartbeat,
        }
    }
}

/// A [`ScFrame`] says what it holds.
pub proof fn law_sc_frame_says_what_it_holds(value: ScFrame)
    ensures
        match value {
            ScFrame::EntryClose(id) => value@ == ScFrameView::EntryClose(id),
            ScFrame::Eof(id) => value@ == ScFrameView::Eof(id),
            ScFrame::ConnectOk(id, data) => value@ == ScFrameView::ConnectOk(id, data@),
            ScFrame::Data(id, data) => value@ == ScFrameView::Data(id, data@),
            ScFrame::Heartbeat => value@ == ScFrameView::Heartbeat,
        },
{
}

impl CsFrameView {
    /// The bytes of the frame that cross the wire encrypted.
    pub open spec fn payload(self) -> Option<Seq<u8>> {
        match self {
            CsFrameView::ConnectIp4(_, data) => Some(data),
            CsFrameView::ConnectDomainName(_, data, _) => Some(data),
            CsFrameView::Data(_, data) => Some(data),
            _ => None,
        }
    }

    /// The frame with another payload; a frame without one stays as it is.
    pub open spec fn with_payload(self, data: Seq<u8>) -> CsFrameView {
        match self {
            CsFrameView::ConnectIp4(id, _) => CsFrameView::ConnectIp4(id, data),
            CsFrameView::ConnectDomainName(id, _, port) => CsFrameView::ConnectDomainName(
                id,
                data,
                port,
            ),
            CsFrameView::Data(id, _) => CsFrameView::Data(id, data),
            other => other,
        }
    }

    /// The length field of the frame can hold what it has to say.
    pub open spec fn fits(self) -> bool {
        match self {
            CsFrameView::ConnectIp4(_, data) => data.len() <= u32::MAX,
            CsFrameView::ConnectDomainName(_, data, _) => data.len() + 2 <= u32::MAX,
            CsFrameView::Data(_, data) => data.len() <= u32::MAX,
            _ => true,
        }
    }

    /// The frame on the wire.
    pub open spec fn packed(self, codes: CsCodes) -> Seq<u8> {
        match self {
            CsFrameView::Heartbeat => seq![codes.heartbeat],
            CsFrameView::EntryOpen(id) => head(codes.entry_open, id),
            CsFrameView::EntryClose(id) => head(codes.entry_close, id),
            CsFrameView::Eof(id) => head(codes.eof, id),
            CsFrameView::ConnectIp4(id, data) => head(codes.connect_ip4, id) + sized(data),
            CsFrameView::ConnectDomainName(id, data, port) => head(codes.connect_domain_name, id)
                + sized(data + bytes::be16(port)),
            CsFrameView::Data(id, data) => head(codes.data, id) + sized(data),
        }
    }
}

impl ScFrameView {
    /// The bytes of the frame that cross the wire encrypted.
    pub open spec fn payload(self) -> Option<Seq<u8>> {
        match self {
            ScFrameView::ConnectOk(_, data) => Some(data),
            ScFrameView::Data(_, data) => Some(data),
            _ => None,
        }
    }

    /// The frame with another payload; a frame without one stays as it is.
    pub open spec fn with_payload(self, data: Seq<u8>) -> ScFrameView {
        match self {
            ScFrameView::ConnectOk(id, _) => ScFrameView::ConnectOk(id, data),
            ScFrameView::Data(id, _) => ScFrameView::Data(id, data),
            other => other,
        }
    }

    /// The length field of the frame can hold what it has to say.
    pub open spec fn fits(self) -> bool {
        self.payload() matches Some(data) ==> data.len() <= u32::MAX
    }

    /// The frame on the wire.
    pub open spec fn packed(self, codes: ScCodes) -> Seq<u8> {
        match self {
            ScFrameView::Heartbeat => seq![codes.heartbeat],
            ScFrameView::EntryClose(id) => head(codes.entry_close, id),
            ScFrameView::Eof(id) => head(codes.eof, id),
            ScFrameView::ConnectOk(id, data) => head(codes.connect_ok, id) + sized(data),
            ScFrameView::Data(id, data) => head(codes.data, id) + sized(data),
        }
    }
}

/// What the reader of a stream needs before it can go on.
pub enum Want<'a> {
    /// So many bytes from the stream.
    Read(usize),
    /// These bytes, decrypted.
    Decrypt(&'a Vec<u8>),
    /// Nothing: the stream is read no further.
    Nothing,
}

/// What a [`Want`] says.
#[verifier::ext_equal]
pub enum WantView {
    Read(nat),
    Decrypt(Seq<u8>),
    Nothing,
}

impl<'a> View for Want<'a> {
    type V = WantView;

    open spec fn view(&self) -> WantView {
        match self {
            Want::Read(n) => WantView::Read(*n as nat),
            Want::Decrypt(data) => WantView::Decrypt(data@),
            Want::Nothing => WantView::Nothing,
        }
    }
}

/// A [`Want`] says what it holds.
pub proof fn law_want_says_what_it_holds<'a>(value: Want<'a>)
    ensures
        match value {
            Want::Read(n) => value@ == WantView::Read(n as nat),
            Want::Decrypt(data) => value@ == WantView::Decrypt(data@),
            Want::Nothing => value@ == WantView::Nothing,
        },
{
}

impl WantView {
    /// `reply` is what was asked for, as far as its length tells.
    pub open spec fn met_by(self, reply: Seq<u8>) -> bool {
        match self {
            WantView::Read(n) => reply.len() == n,
            WantView::Decrypt(_) => true,
            WantView::Nothing => false,
        }
    }
}

/// Why a tunnel stream is given up.
#[derive(Clone, Copy, Debug, PartialEq, Eq, Structural)]
pub enum TunnelError {
    /// The peer did not show that it holds the key.
    InvalidInput,
}

/// An operation byte and the entry that it is about.
pub open spec fn head(op: u8, id: u32) -> Seq<u8> {
    seq![op] + bytes::be32(id)
}

/// A byte string behind its length.
pub open spec fn sized(data: Seq<u8>) -> Seq<u8> {
    bytes::be32(data.len() as u32) + data
}

/// `p` starts with the operation byte `op` and, in four bytes, the entry `id`.
pub open spec fn starts_with(p: Seq<u8>, op: u8, id: u32) -> bool {
    &&& p.len() >= 5
    &&& p[0] == op
    &&& ((p[1] * 256 + p[2]) * 256 + p[3]) * 256 + p[4] == id
}

/// `p` goes on with a length in four bytes, and that many bytes are all that follows.
pub open spec fn tells_length(p: Seq<u8>, len: nat) -> bool {
    &&& p.len() == 9 + len
    &&& ((p[5] * 256 + p[6]) * 256 + p[7]) * 256 + p[8] == len
}

/// What a frame from client to server looks like on the wire, byte by byte: the operation, the
/// entry, the length of what follows, the payload, and behind a domain name the port.
pub proof fn law_cs_layout(codes: CsCodes, id: u32, data: Seq<u8>, port: u16)
    requires
        data.len() + 2 <= u32::MAX,
    ensures
        CsFrameView::Heartbeat.packed(codes) == seq![codes.heartbeat],
        ({
            let p = CsFrameView::EntryOpen(id).packed(codes);
            starts_with(p, codes.entry_open, id) && p.len() == 5
        }),
        ({
            let p = CsFrameView::EntryClose(id).packed(codes);
            starts_with(p, codes.entry_close, id) && p.len() == 5
        }),
        ({
            let p = CsFrameView::Eof(id).packed(codes);
            starts_with(p, codes.eof, id) && p.len() == 5
        }),
        ({
            let p = CsFrameView::ConnectIp4(id, data).packed(codes);
            &&& starts_with(p, codes.connect_ip4, id)
            &&& tells_length(p, data.len())
            &&& forall|i: int| 0 <= i < data.len() ==> #[trigger] p[9 + i] == data[i]
        }),
        ({
            let p = CsFrameView::ConnectDomainName(id, data, port).packed(codes);
            &&& starts_with(p, codes.connect_domain_name, id)
            &&& tells_length(p, data.len() + 2)
            &&& forall|i: int| 0 <= i < data.len() ==> #[trigger] p[9 + i] == data[i]
            &&& p[9 + data.len() as int] * 256 + p[10 + data.len() as int] == port
        }),
        ({
            let p = CsFrameView::Data(id, data).packed(codes);
            &&& starts_with(p, codes.data, id)
            &&& tells_length(p, data.len())
            &&& forall|i: int| 0 <= i < data.len() ==> #[trigger] p[9 + i] == data[i]
        }),
{
    let any = seq![0u8, 0, 0, 0];
    bytes::law_be32_is_positional(id, any);
    bytes::law_be32_is_positional(data.len() as u32, any);
    bytes::law_be32_is_positional((data.len() + 2) as u32, any);
    bytes::law_be16_is_positional(port, 0, 0);
}

/// What a frame from server to client looks like on the wire, byte by byte: the operation, the
/// entry, the length of the payload, and the payload.
pub proof fn law_sc_layout(codes: ScCodes, id: u32, data: Seq<u8>)
    requires
        data.len() <= u32::MAX,
    ensures
        ScFrameView::Heartbeat.packed(codes) == seq![codes.heartbeat],
        ({
            let p = ScFrameView::EntryClose(id).packed(codes);
            starts_with(p, codes.entry_close, id) && p.len() == 5
        }),
        ({
            let p = ScFrameView::Eof(id).packed(codes);
            starts_with(p, codes.eof, id) && p.len() == 5
        }),
        ({
            let p = ScFrameView::ConnectOk(id, data).packed(codes);
            &&& starts_with(p, codes.connect_ok, id)
            &&& tells_length(p, data.len())
            &&& forall|i: int| 0 <= i < data.len() ==> #[trigger] p[9 + i] == data[i]
        }),
        ({
            let p = ScFrameView::Data(id, data).packed(codes);
            &&& starts_with(p, codes.data, id)
            &&& tells_length(p, data.len())
            &&& forall|i: int| 0 <= i < data.len() ==> #[trigger] p[9 + i] == data[i]
        }),
{
    let any = seq![0u8, 0, 0, 0];
    bytes::law_be32_is_positional(id, any);
    bytes::law_be32_is_positional(data.len() as u32, any);
}

/// All that an entry has to say to the server is handed to the cipher, and what the cipher makes of
/// it takes its place: two frames that differ in it alone are the same on the wire. The rest of a
/// frame stays as it is.
pub proof fn law_cs_payload_is_sealed(
    id: u32,
    data: Seq<u8>,
    other: Seq<u8>,
    port: u16,
    cipher: Seq<u8>,
)
    ensures
        CsFrameView::Data(id, data).payload() == Some(data),
        CsFrameView::ConnectIp4(id, data).payload() == Some(data),
        CsFrameView::ConnectDomainName(id, data, port).payload() == Some(data),
        CsFrameView::Data(id, data).with_payload(cipher) == CsFrameView::Data(
            id,
            other,
        ).with_payload(cipher),
        CsFrameView::ConnectIp4(id, data).with_payload(cipher) == CsFrameView::ConnectIp4(
            id,
            other,
        ).with_payload(cipher),
        CsFrameView::ConnectDomainName(id, data, port).with_payload(cipher)
            == CsFrameView::ConnectDomainName(id, other, port).with_payload(cipher),
        CsFrameView::Data(id, data).with_payload(data) == CsFrameView::Data(id, data),
        CsFrameView::ConnectIp4(id, data).with_payload(data) == CsFrameView::ConnectIp4(id, data),
        CsFrameView::ConnectDomainName(id, data, port).with_payload(data)
            == CsFrameView::ConnectDomainName(id, data, port),
        forall|frame: CsFrameView|
            #![trigger frame.payload()]
            frame is Heartbeat || frame is EntryOpen || frame is EntryClose || frame is Eof
                ==> frame.payload() is None && frame.with_payload(cipher) == frame,
{
}

/// All that an entry has to say to the client is handed to the cipher, and what the cipher makes of
/// it takes its place: two frames that differ in it alone are the same on the wire. The rest of a
/// frame stays as it is.
pub proof fn law_sc_payload_is_sealed(id: u32, data: Seq<u8>, other: Seq<u8>, cipher: Seq<u8>)
    ensures
        ScFrameView::Data(id, data).payload() == Some(data),
        ScFrameView::ConnectOk(id, data).payload() == Some(data),
        ScFrameView::Data(id, data).with_payload(cipher) == ScFrameView::Data(
            id,
            other,
        ).with_payload(cipher),
        ScFrameView::ConnectOk(id, data).with_payload(cipher) == ScFrameView::ConnectOk(
            id,
            other,
        ).with_payload(cipher),
        ScFrameView::Data(id, data).with_payload(data) == ScFrameView::Data(id, data),
        ScFrameView::ConnectOk(id, data).with_payload(data) == ScFrameView::ConnectOk(id, data),
        forall|frame: ScFrameView|
            #![trigger frame.payload()]
            frame is Heartbeat || frame is EntryClose || frame is Eof ==> frame.payload() is None
                && frame.with_payload(cipher) == frame,
{
}

/// Every payload that a length field can hold may be sent, with the port behind it if it is a
/// name; and frames without a payload always may.
pub proof fn law_what_can_be_told_fits(cs: CsFrameView, sc: ScFrameView)
    ensures
        (cs.payload() matches Some(data) ==> data.len() + 2 <= u32::MAX) ==> cs.fits(),
        (sc.payload() matches Some(data) ==> data.len() <= u32::MAX) ==> sc.fits(),
{
}

/// Operation bytes of which no two are the same are told apart.
pub proof fn law_codes_that_differ_are_distinct(cs: CsCodes, sc: ScCodes)
    ensures
        ({
            let a = seq![
                cs.heartbeat,
                cs.entry_open,
                cs.entry_close,
                cs.eof,
                cs.connect_domain_name,
                cs.connect_ip4,
                cs.data,
            ];
            (forall|i: int, j: int| 0 <= i < j < 7 ==> #[trigger] a[i] != #[trigger] a[j])
                ==> cs.distinct()
        }),
        ({
            let a = seq![sc.heartbeat, sc.entry_close, sc.eof, sc.connect_ok, sc.data];
            (forall|i: int, j: int| 0 <= i < j < 5 ==> #[trigger] a[i] != #[trigger] a[j])
                ==> sc.distinct()
        }),
{
}

/// A frame that is an operation byte and an entry.
fn pack_head(op: u8, id: u32) -> (out: Vec<u8>)
    ensures
        out@ == head(op, id),
{
    let mut out: Vec<u8> = Vec::new();
    out.push(op);
    push_be32(&mut out, id);
    assert(out@ =~= head(op, id));
    out
}

/// A frame that carries a payload.
fn pack_sized(op: u8, id: u32, data: &[u8]) -> (out: Vec<u8>)
    requires
        data@.len() <= u32::MAX,
    ensures
        out@ == head(op, id) + sized(data@),
{
    let mut out: Vec<u8> = pack_head(op, id);
    push_be32(&mut out, data.len() as u32);
    push_bytes(&mut out, data);
    assert(out@ =~= head(op, id) + sized(data@));
    out
}

pub fn pack_cs_heartbeat(codes: &CsCodes) -> (out: Vec<u8>)
    ensures
        out@ == CsFrameView::Heartbeat.packed(*codes),
{
    let mut out: Vec<u8> = Vec::new();
    out.push(codes.heartbeat);
    assert(out@ =~= seq![codes.heartbeat]);
    out
}

pub fn pack_cs_entry_open(codes: &CsCodes, id: u32) -> (out: Vec<u8>)
    ensures
        out@ == CsFrameView::EntryOpen(id).packed(*codes),
{
    pack_head(codes.entry_open, id)
}

pub fn pack_cs_entry_close(codes: &CsCodes, id: u32) -> (out: Vec<u8>)
    ensures
        out@ == CsFrameView::EntryClose(id).packed(*codes),
{
    pack_head(codes.entry_close, id)
}

pub fn pack_cs_eof(codes: &CsCodes, id: u32) -> (out: Vec<u8>)
    ensures
        out@ == CsFrameView::Eof(id).packed(*codes),
{
    pack_head(codes.eof, id)
}

pub fn pack_cs_connect_ip4(codes: &CsCodes, id: u32, data: &[u8]) -> (out: Vec<u8>)
    requires
        data@.len() <= u32::MAX,
    ensures
        out@ == CsFrameView::ConnectIp4(id, data@).packed(*codes),
{
    pack_sized(codes.connect_ip4, id, data)
}

/// The length field counts the two bytes of the port, which follow the name.
pub fn pack_cs_connect_domain_name(codes: &CsCodes, id: u32, data: &[u8], port: u16) -> (out: Vec<
    u8,
>)
    requires
        data@.len() + 2 <= u32::MAX,
    ensures
        out@ == CsFrameView::ConnectDomainName(id, data@, port).packed(*codes),
{
    let mut body: Vec<u8> = Vec::new();
    push_bytes(&mut body, data);
    push_be16(&mut body, port);
    assert(body@ =~= data@ + bytes::be16(port));
    pack_sized(codes.connect_domain_name, id, body.as_slice())
}

pub fn pack_cs_data(codes: &CsCodes, id: u32, data: &[u8]) -> (out: Vec<u8>)
    requires
        data@.len() <= u32::MAX,
    ensures
        out@ == CsFrameView::Data(id, data@).packed(*codes),
{
    pack_sized(codes.data, id, data)
}

pub fn pack_sc_heartbeat(codes: &ScCodes) -> (out: Vec<u8>)
    ensures
        out@ == ScFrameView::Heartbeat.packed(*codes),
{
    let mut out: Vec<u8> = Vec::new();
    out.push(codes.heartbeat);
    assert(out@ =~= seq![codes.heartbeat]);
    out
}

pub fn pack_sc_entry_close(codes: &ScCodes, id: u32) -> (out: Vec<u8>)
    ensures
        out@ == ScFrameView::EntryClose(id).packed(*codes),
{
    pack_head(codes.entry_close, id)
}

pub fn pack_sc_eof(codes: &ScCodes, id: u32) -> (out: Vec<u8>)
    ensures
        out@ == ScFrameView::Eof(id).packed(*codes),
{
    pack_head(codes.eof, id)
}

pub fn pack_sc_connect_ok(codes: &ScCodes, id: u32, data: &[u8]) -> (out: Vec<u8>)
    requires
        data@.len() <= u32::MAX,
    ensures
        out@ == ScFrameView::ConnectOk(id, data@).packed(*codes),
{
    pack_sized(codes.connect_ok, id, data)
}

pub fn pack_sc_data(codes: &ScCodes, id: u32, data: &[u8]) -> (out: Vec<u8>)
    requires
        data@.len() <= u32::MAX,
    ensures
        out@ == ScFrameView::Data(id, data@).packed(*codes),
{
    pack_sized(codes.data, id, data)
}

impl CsFrame {
    /// The bytes of the frame that cross the wire encrypted, if it has such bytes.
    pub fn payload(&self) -> (data: Option<&Vec<u8>>)
        ensures
            match data {
                Some(bytes) => self@.payload() == Some(bytes@),
                None => self@.payload() is None,
            },
    {
        match self {
            CsFrame::ConnectIp4(_, data) => Some(data),
            CsFrame::ConnectDomainName(_, data, _) => Some(data),
            CsFrame::Data(_, data) => Some(data),
            _ => None,
        }
    }

    /// The frame with its payload replaced: by the encrypted one before the frame is packed, or by
    /// the decrypted one after it was read.
    pub fn with_payload(self, data: Vec<u8>) -> (frame: CsFrame)
        ensures
            frame@ == self@.with_payload(data@),
    {
        match self {
            CsFrame::ConnectIp4(id, _) => CsFrame::ConnectIp4(id, data),
            CsFrame::ConnectDomainName(id, _, port) => CsFrame::ConnectDomainName(id, data, port),
            CsFrame::Data(id, _) => CsFrame::Data(id, data),
            other => other,
        }
    }

    /// The bytes to write for the frame.
    pub fn pack(&self, codes: &CsCodes) -> (out: Vec<u8>)
        requires
            self@.fits(),
        ensures
            out@ == self@.packed(*codes),
    {
        match self {
            CsFrame::Heartbeat => pack_cs_heartbeat(codes),
            CsFrame::EntryOpen(id) => pack_cs_entry_open(codes, *id),
            CsFrame::EntryClose(id) => pack_cs_entry_close(codes, *id),
            CsFrame::Eof(id) => pack_cs_eof(codes, *id),
            CsFrame::ConnectIp4(id, data) => pack_cs_connect_ip4(codes, *id, data.as_slice()),
            CsFrame::ConnectDomainName(id, data, port) => pack_cs_connect_domain_name(
                codes,
                *id,
                data.as_slice(),
                *port,
            ),
            CsFrame::Data(id, data) => pack_cs_data(codes, *id, data.as_slice()),
        }
    }
}

impl ScFrame {
    /// The bytes of the frame that cross the wire encrypted, if it has such bytes.
    pub fn payload(&self) -> (data: Option<&Vec<u8>>)
        ensures
            match data {
                Some(bytes) => self@.payload() == Some(bytes@),
                None => self@.payload() is None,
            },
    {
        match self {
            ScFrame::ConnectOk(_, data) => Some(data),
            ScFrame::Data(_, data) => Some(data),
            _ => None,
        }
    }

    /// The frame with its payload replaced: by the encrypted one before the frame is packed, or by
    /// the decrypted one after it was read.
    pub fn with_payload(self, data: Vec<u8>) -> (frame: ScFrame)
        ensures
            frame@ == self@.with_payload(data@),
    {
        match self {
            ScFrame::ConnectOk(id, _) => ScFrame::ConnectOk(id, data),
            ScFrame::Data(id, _) => ScFrame::Data(id, data),
            other => other,
        }
    }

    /// The bytes to write for the frame.
    pub fn pack(&self, codes: &ScCodes) -> (out: Vec<u8>)
        requires
            self@.fits(),
        ensures
            out@ == self@.packed(*codes),
    {
        match self {
            ScFrame::Heartbeat => pack_sc_heartbeat(codes),
            ScFrame::EntryClose(id) => pack_sc_entry_close(codes, *id),
            ScFrame::Eof(id) => pack_sc_eof(codes, *id),
            ScFrame::ConnectOk(id, data) => pack_sc_connect_ok(codes, *id, data.as_slice()),
            ScFrame::Data(id, data) => pack_sc_data(codes, *id, data.as_slice()),
        }
    }
}

} // verus!
