//! Socket addresses.
use vstd::prelude::*;
use vstd::utf8;

use crate::text;
use crate::text::push_decimal;

verus! {

/// An IPv4 address and a port.
#[derive(Clone, Copy, Debug, PartialEq, Eq)]
pub struct SocketAddrV4 {
    pub ip: [u8; 4],
    pub port: u16,
}

/// An IPv6 address and a port.
#[derive(Clone, Copy, Debug, PartialEq, Eq)]
pub struct SocketAddrV6 {
    pub ip: [u8; 16],
    pub port: u16,
}

/// An address and a port.
#[derive(Clone, Copy, Debug, PartialEq, Eq)]
pub enum SocketAddr {
    V4(SocketAddrV4),
    V6(SocketAddrV6),
}

/// The text of an IPv4 address and a port, such as `10.0.0.1:80`.
pub open spec fn dotted(ip: Seq<u8>, port: u16) -> Seq<u8> {
    text::decimal(ip[0] as nat) + seq![0x2eu8] + text::decimal(ip[1] as nat) + seq![0x2eu8]
        + text::decimal(ip[2] as nat) + seq![0x2eu8] + text::decimal(ip[3] as nat) + seq![0x3au8]
        + text::decimal(port as nat)
}

/// The text of an address is valid UTF-8.
pub proof fn law_dotted_is_utf8(ip: Seq<u8>, port: u16)
    ensures
        utf8::valid_utf8(dotted(ip, port)),
{
    text::law_decimal_is_ascii(ip[0] as nat);
    text::law_decimal_is_ascii(ip[1] as nat);
    text::law_decimal_is_ascii(ip[2] as nat);
    text::law_decimal_is_ascii(ip[3] as nat);
    text::law_decimal_is_ascii(port as nat);
    text::law_ascii_is_utf8(dotted(ip, port));
}

/// The text `t` spells an address and a port: four numbers with dots between them, at `a`, `b` and
/// `c`, and the port behind a colon at `d`; no number starts with a needless zero.
pub open spec fn spells(
    t: Seq<u8>,
    ip: Seq<u8>,
    port: u16,
    a: int,
    b: int,
    c: int,
    d: int,
) -> bool {
    &&& 0 < a < b < c < d < t.len() - 1
    &&& t[a] == 0x2e && t[b] == 0x2e && t[c] == 0x2e && t[d] == 0x3a
    &&& plainly(t.subrange(0, a), ip[0] as nat)
    &&& plainly(t.subrange(a + 1, b), ip[1] as nat)
    &&& plainly(t.subrange(b + 1, c), ip[2] as nat)
    &&& plainly(t.subrange(c + 1, d), ip[3] as nat)
    &&& plainly(t.subrange(d + 1, t.len() as int), port as nat)
}

/// The digits `d` spell `n`, without a needless zero.
pub open spec fn plainly(d: Seq<u8>, n: nat) -> bool {
    text::is_number(d) && text::number(d) == n && (d[0] == 0x30 ==> d.len() == 1)
}

/// The text `t` spells an address and a port.
pub open spec fn is_text_of(t: Seq<u8>, ip: Seq<u8>, port: u16) -> bool {
    exists|a: int, b: int, c: int, d: int| spells(t, ip, port, a, b, c, d)
}

/// The text of an address and a port spells them.
pub proof fn law_text_spells_address(ip: Seq<u8>, port: u16)
    ensures
        is_text_of(dotted(ip, port), ip, port),
{
    let t = dotted(ip, port);
    let d0 = text::decimal(ip[0] as nat);
    let d1 = text::decimal(ip[1] as nat);
    let d2 = text::decimal(ip[2] as nat);
    let d3 = text::decimal(ip[3] as nat);
    let d4 = text::decimal(port as nat);
    text::law_decimal_spells_number(ip[0] as nat);
    text::law_decimal_spells_number(ip[1] as nat);
    text::law_decimal_spells_number(ip[2] as nat);
    text::law_decimal_spells_number(ip[3] as nat);
    text::law_decimal_spells_number(port as nat);
    let a = d0.len() as int;
    let b = a + 1 + d1.len();
    let c = b + 1 + d2.len();
    let d = c + 1 + d3.len();
    assert(t.subrange(0, a) =~= d0);
    assert(t.subrange(a + 1, b) =~= d1);
    assert(t.subrange(b + 1, c) =~= d2);
    assert(t.subrange(c + 1, d) =~= d3);
    assert(t.subrange(d + 1, t.len() as int) =~= d4);
    assert(spells(t, ip, port, a, b, c, d));
}

impl SocketAddrV4 {
    /// The text of the address, such as `10.0.0.1:80`.
    pub fn to_text(&self) -> (out: Vec<u8>)
        ensures
            out@ == dotted(self.ip@, self.port),
    {
        let mut out: Vec<u8> = Vec::new();
        push_decimal(&mut out, self.ip[0] as u16);
        out.push(0x2e);
        push_decimal(&mut out, self.ip[1] as u16);
        out.push(0x2e);
        push_decimal(&mut out, self.ip[2] as u16);
        out.push(0x2e);
        push_decimal(&mut out, self.ip[3] as u16);
        out.push(0x3a);
        push_decimal(&mut out, self.port);
        assert(out@ =~= dotted(self.ip@, self.port));
        out
    }
}

} // verus!
