//! How a byte stream divides into frames.
use vstd::prelude::*;

use crate::bytes;
use crate::protocol;
use crate::protocol::{CsCodes, CsFrameView, ScCodes, ScFrameView};

verus! {

/// The byte string that stands behind its length at the start of `s`, and what follows it; nothing
/// while `s` ends too early.
pub open spec fn read_sized(s: Seq<u8>) -> Option<(Seq<u8>, Seq<u8>)> {
    if s.len() < 4 || s.len() < 4 + bytes::be32_value(s) {
        None
    } else {
        Some((s.subrange(4, 4 + bytes::be32_value(s)), s.skip(4 + bytes::be32_value(s))))
    }
}

/// The first frame from the client in `s`, its payload still encrypted, and what follows it;
/// nothing while `s` ends too early. A domain name whose body cannot hold a port is no frame. An
/// operation byte that no other operation has is taken for data.
pub open spec fn read_cs(codes: CsCodes, s: Seq<u8>) -> Option<(CsFrameView, Seq<u8>)> {
    if s.len() < 1 {
        None
    } else if s[0] == codes.heartbeat {
        Some((CsFrameView::Heartbeat, s.skip(1)))
    } else if s.len() < 5 {
        None
    } else {
        let op = s[0];
        let id = bytes::be32_value(s.skip(1));
        let rest = s.skip(5);
        if op == codes.entry_open {
            Some((CsFrameView::EntryOpen(id), rest))
        } else if op == codes.entry_close {
            Some((CsFrameView::EntryClose(id), rest))
        } else if op == codes.eof {
            Some((CsFrameView::Eof(id), rest))
        } else {
            match read_sized(rest) {
                None => None,
                Some((body, rest)) => if op == codes.connect_domain_name {
                    if body.len() < 2 {
                        None
                    } else {
                        Some((named(id, body), rest))
                    }
                } else if op == codes.connect_ip4 {
                    Some((CsFrameView::ConnectIp4(id, body), rest))
                } else {
                    Some((CsFrameView::Data(id, body), rest))
                },
            }
        }
    }
}

/// The domain name frame with this body: the last two bytes are the port.
pub open spec fn named(id: u32, body: Seq<u8>) -> CsFrameView {
    let n = body.len() - 2;
    CsFrameView::ConnectDomainName(id, body.take(n), bytes::be16_value(body[n], body[n + 1]))
}

/// What stands at the start of a stream from the server.
#[verifier::ext_equal]
pub enum ScReading {
    /// The stream ends too early.
    Incomplete,
    /// An operation byte that stands for nothing; the stream is read no further.
    Unknown,
    /// A frame, its payload still encrypted, and what follows it.
    Frame(ScFrameView, Seq<u8>),
}

/// What stands at the start of the stream `s` from the server.
pub open spec fn read_sc(codes: ScCodes, s: Seq<u8>) -> ScReading {
    if s.len() < 1 {
        ScReading::Incomplete
    } else if s[0] == codes.heartbeat {
        ScReading::Frame(ScFrameView::Heartbeat, s.skip(1))
    } else if s.len() < 5 {
        ScReading::Incomplete
    } else {
        let op = s[0];
        let id = bytes::be32_value(s.skip(1));
        let rest = s.skip(5);
        if op == codes.entry_close {
            ScReading::Frame(ScFrameView::EntryClose(id), rest)
        } else if op == codes.eof {
            ScReading::Frame(ScFrameView::Eof(id), rest)
        } else if op == codes.connect_ok || op == codes.data {
            match read_sized(rest) {
                None => ScReading::Incomplete,
                Some((body, rest)) => if op == codes.connect_ok {
                    ScReading::Frame(ScFrameView::ConnectOk(id, body), rest)
                } else {
                    ScReading::Frame(ScFrameView::Data(id, body), rest)
                },
            }
        } else {
            ScReading::Unknown
        }
    }
}

/// Frames from the client, one after the other.
pub open spec fn packed_cs(codes: CsCodes, frames: Seq<CsFrameView>) -> Seq<u8>
    decreases frames.len(),
{
    if frames.len() == 0 {
        Seq::empty()
    } else {
        frames[0].packed(codes) + packed_cs(codes, frames.skip(1))
    }
}

/// The first `n` frames from the client in `s` and what follows them.
pub open spec fn read_many_cs(codes: CsCodes, s: Seq<u8>, n: nat) -> Option<
    (Seq<CsFrameView>, Seq<u8>),
>
    decreases n,
{
    if n == 0 {
        Some((Seq::empty(), s))
    } else {
        match read_cs(codes, s) {
            None => None,
            Some((frame, rest)) => match read_many_cs(codes, rest, (n - 1) as nat) {
                None => None,
                Some((frames, end)) => Some((seq![frame] + frames, end)),
            },
        }
    }
}

/// Frames from the server, one after the other.
pub open spec fn packed_sc(codes: ScCodes, frames: Seq<ScFrameView>) -> Seq<u8>
    decreases frames.len(),
{
    if frames.len() == 0 {
        Seq::empty()
    } else {
        frames[0].packed(codes) + packed_sc(codes, frames.skip(1))
    }
}

/// The first `n` frames from the server in `s` and what follows them.
pub open spec fn read_many_sc(codes: ScCodes, s: Seq<u8>, n: nat) -> Option<
    (Seq<ScFrameView>, Seq<u8>),
>
    decreases n,
{
    if n == 0 {
        Some((Seq::empty(), s))
    } else {
        match read_sc(codes, s) {
            ScReading::Frame(frame, rest) => match read_many_sc(codes, rest, (n - 1) as nat) {
                None => None,
                Some((frames, end)) => Some((seq![frame] + frames, end)),
            },
            _ => None,
        }
    }
}

proof fn lemma_head_read_back(op: u8, id: u32, rest: Seq<u8>)
    ensures
        (protocol::head(op, id) + rest).len() == 5 + rest.len(),
        (protocol::head(op, id) + rest)[0] == op,
        bytes::be32_value((protocol::head(op, id) + rest).skip(1)) == id,
        (protocol::head(op, id) + rest).skip(5) == rest,
{
    bytes::law_be32_read_back(id);
    let s = protocol::head(op, id) + rest;
    assert forall|k: int| 0 <= k < 4 implies s.skip(1)[k] == bytes::be32(id)[k] by {
        assert(s.skip(1)[k] == s[k + 1]);
    }
    assert(s.skip(5) =~= rest);
}

proof fn lemma_sized_read_back(data: Seq<u8>, rest: Seq<u8>)
    requires
        data.len() <= u32::MAX,
    ensures
        read_sized(protocol::sized(data) + rest) == Some((data, rest)),
{
    let n = data.len() as u32;
    bytes::law_be32_read_back(n);
    let s = protocol::sized(data) + rest;
    assert forall|k: int| 0 <= k < 4 implies s[k] == bytes::be32(n)[k] by {}
    assert(bytes::be32_value(s) == n);
    assert(s.subrange(4, 4 + n) =~= data);
    assert(s.skip(4 + n) =~= rest);
}

pub(crate) proof fn lemma_cs_codes_differ(codes: CsCodes)
    requires
        codes.distinct(),
    ensures
        codes.heartbeat != codes.entry_open,
        codes.heartbeat != codes.entry_close,
        codes.heartbeat != codes.eof,
        codes.heartbeat != codes.connect_domain_name,
        codes.heartbeat != codes.connect_ip4,
        codes.heartbeat != codes.data,
        codes.entry_open != codes.entry_close,
        codes.entry_open != codes.eof,
        codes.entry_open != codes.connect_domain_name,
        codes.entry_open != codes.connect_ip4,
        codes.entry_open != codes.data,
        codes.entry_close != codes.eof,
        codes.entry_close != codes.connect_domain_name,
        codes.entry_close != codes.connect_ip4,
        codes.entry_close != codes.data,
        codes.eof != codes.connect_domain_name,
        codes.eof != codes.connect_ip4,
        codes.eof != codes.data,
        codes.connect_domain_name != codes.connect_ip4,
        codes.connect_domain_name != codes.data,
        codes.connect_ip4 != codes.data,
{
    let all = seq![
        codes.heartbeat,
        codes.entry_open,
        codes.entry_close,
        codes.eof,
        codes.connect_domain_name,
        codes.connect_ip4,
        codes.data,
    ];
    assert forall|i: int, j: int| 0 <= i < j < 7 implies all[i] != all[j] by {}
    assert(all[0] == codes.heartbeat && all[1] == codes.entry_open && all[2] == codes.entry_close
        && all[3] == codes.eof && all[4] == codes.connect_domain_name && all[5]
        == codes.connect_ip4 && all[6] == codes.data);
}

pub(crate) proof fn lemma_sc_codes_differ(codes: ScCodes)
    requires
        codes.distinct(),
    ensures
        codes.heartbeat != codes.entry_close,
        codes.heartbeat != codes.eof,
        codes.heartbeat != codes.connect_ok,
        codes.heartbeat != codes.data,
        codes.entry_close != codes.eof,
        codes.entry_close != codes.connect_ok,
        codes.entry_close != codes.data,
        codes.eof != codes.connect_ok,
        codes.eof != codes.data,
        codes.connect_ok != codes.data,
{
    let all = seq![
        codes.heartbeat,
        codes.entry_close,
        codes.eof,
        codes.connect_ok,
        codes.data,
    ];
    assert forall|i: int, j: int| 0 <= i < j < 5 implies all[i] != all[j] by {}
    assert(all[0] == codes.heartbeat && all[1] == codes.entry_close && all[2] == codes.eof && all[3]
        == codes.connect_ok && all[4] == codes.data);
}

/// The server reads back each frame that the client packs, whatever follows it on the wire.
pub proof fn law_cs_read_back(codes: CsCodes, frame: CsFrameView, rest: Seq<u8>)
    requires
        codes.distinct(),
        frame.fits(),
    ensures
        read_cs(codes, frame.packed(codes) + rest) == Some((frame, rest)),
{
    lemma_cs_codes_differ(codes);
    let s = frame.packed(codes) + rest;
    match frame {
        CsFrameView::Heartbeat => {
            assert(s.skip(1) =~= rest);
        },
        CsFrameView::EntryOpen(id) => {
            lemma_head_read_back(codes.entry_open, id, rest);
        },
        CsFrameView::EntryClose(id) => {
            lemma_head_read_back(codes.entry_close, id, rest);
        },
        CsFrameView::Eof(id) => {
            lemma_head_read_back(codes.eof, id, rest);
        },
        CsFrameView::ConnectIp4(id, data) => {
            assert(s =~= protocol::head(codes.connect_ip4, id) + (protocol::sized(data) + rest));
            lemma_head_read_back(codes.connect_ip4, id, protocol::sized(data) + rest);
            lemma_sized_read_back(data, rest);
        },
        CsFrameView::ConnectDomainName(id, data, port) => {
            let body = data + bytes::be16(port);
            assert(s =~= protocol::head(codes.connect_domain_name, id) + (protocol::sized(body) + rest));
            lemma_head_read_back(codes.connect_domain_name, id, protocol::sized(body) + rest);
            lemma_sized_read_back(body, rest);
            bytes::law_be16_read_back(port);
            assert(body.take(body.len() - 2) =~= data);
        },
        CsFrameView::Data(id, data) => {
            assert(s =~= protocol::head(codes.data, id) + (protocol::sized(data) + rest));
            lemma_head_read_back(codes.data, id, protocol::sized(data) + rest);
            lemma_sized_read_back(data, rest);
        },
    }
}

/// The client reads back each frame that the server packs, whatever follows it on the wire.
pub proof fn law_sc_read_back(codes: ScCodes, frame: ScFrameView, rest: Seq<u8>)
    requires
        codes.distinct(),
        frame.fits(),
    ensures
        read_sc(codes, frame.packed(codes) + rest) == ScReading::Frame(frame, rest),
{
    lemma_sc_codes_differ(codes);
    let s = frame.packed(codes) + rest;
    match frame {
        ScFrameView::Heartbeat => {
            assert(s.skip(1) =~= rest);
        },
        ScFrameView::EntryClose(id) => {
            lemma_head_read_back(codes.entry_close, id, rest);
        },
        ScFrameView::Eof(id) => {
            lemma_head_read_back(codes.eof, id, rest);
        },
        ScFrameView::ConnectOk(id, data) => {
            assert(s =~= protocol::head(codes.connect_ok, id) + (protocol::sized(data) + rest));
            lemma_head_read_back(codes.connect_ok, id, protocol::sized(data) + rest);
            lemma_sized_read_back(data, rest);
        },
        ScFrameView::Data(id, data) => {
            assert(s =~= protocol::head(codes.data, id) + (protocol::sized(data) + rest));
            lemma_head_read_back(codes.data, id, protocol::sized(data) + rest);
            lemma_sized_read_back(data, rest);
        },
    }
}

/// Whatever frames the client packs one after the other, of whichever entries, the server reads
/// back those frames in that order.
pub proof fn law_cs_stream_read_back(codes: CsCodes, frames: Seq<CsFrameView>, rest: Seq<u8>)
    requires
        codes.distinct(),
        forall|i: int| 0 <= i < frames.len() ==> (#[trigger] frames[i]).fits(),
    ensures
        read_many_cs(codes, packed_cs(codes, frames) + rest, frames.len()) == Some((frames, rest)),
    decreases frames.len(),
{
    if frames.len() == 0 {
        assert(packed_cs(codes, frames) + rest =~= rest);
        assert(frames =~= Seq::empty());
    } else {
        let tail = frames.skip(1);
        let after = packed_cs(codes, tail) + rest;
        assert(packed_cs(codes, frames) + rest =~= frames[0].packed(codes) + after);
        law_cs_read_back(codes, frames[0], after);
        assert forall|i: int| 0 <= i < tail.len() implies (#[trigger] tail[i]).fits() by {
            assert(tail[i] == frames[i + 1]);
        }
        law_cs_stream_read_back(codes, tail, rest);
        assert(seq![frames[0]] + tail =~= frames);
    }
}

/// Whatever frames the server packs one after the other, of whichever entries, the client reads
/// back those frames in that order.
pub proof fn law_sc_stream_read_back(codes: ScCodes, frames: Seq<ScFrameView>, rest: Seq<u8>)
    requires
        codes.distinct(),
        forall|i: int| 0 <= i < frames.len() ==> (#[trigger] frames[i]).fits(),
    ensures
        read_many_sc(codes, packed_sc(codes, frames) + rest, frames.len()) == Some((frames, rest)),
    decreases frames.len(),
{
    if frames.len() == 0 {
        assert(packed_sc(codes, frames) + rest =~= rest);
        assert(frames =~= Seq::empty());
    } else {
        let tail = frames.skip(1);
        let after = packed_sc(codes, tail) + rest;
        assert(packed_sc(codes, frames) + rest =~= frames[0].packed(codes) + after);
        law_sc_read_back(codes, frames[0], after);
        assert forall|i: int| 0 <= i < tail.len() implies (#[trigger] tail[i]).fits() by {
            assert(tail[i] == frames[i + 1]);
        }
        law_sc_stream_read_back(codes, tail, rest);
        assert(seq![frames[0]] + tail =~= frames);
    }
}

} // verus!
