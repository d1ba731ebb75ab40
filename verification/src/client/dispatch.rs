//! Sharing the local connections out among the tunnels.
use vstd::prelude::*;

use crate::client::config::Config;
use crate::client::tunnel;
use crate::client::tunnel::{
    CsView, Entry, Message, MessageView, TcpTunnel, TcpTunnelView, Tunnel,
};

verus! {

/// Which tunnel takes the next local connection.
#[derive(Debug)]
pub struct Dispatch {
    index: usize,
    count: usize,
}

/// What a [`Dispatch`] says: the tunnel that is next, of how many.
#[verifier::ext_equal]
pub struct DispatchView {
    pub next: nat,
    pub count: nat,
}

impl View for Dispatch {
    type V = DispatchView;

    closed spec fn view(&self) -> DispatchView {
        DispatchView { next: self.index as nat, count: self.count as nat }
    }
}

impl DispatchView {
    /// The next tunnel is one of the tunnels.
    pub open spec fn wf(self) -> bool {
        self.next < self.count
    }

    /// After the last tunnel comes the first again.
    pub open spec fn advanced(self) -> DispatchView {
        DispatchView {
            next: if self.next + 1 == self.count {
                0
            } else {
                self.next + 1
            },
            count: self.count,
        }
    }

    /// After `n` local connections.
    pub open spec fn after(self, n: nat) -> DispatchView
        decreases n,
    {
        if n == 0 {
            self
        } else {
            self.after((n - 1) as nat).advanced()
        }
    }
}

proof fn lemma_turn(start: DispatchView, n: nat)
    requires
        start.wf(),
    ensures
        start.after(n).wf(),
        start.after(n).count == start.count,
        start.after(n).next == (start.next + n) % start.count,
    decreases n,
{
    if n > 0 {
        lemma_turn(start, (n - 1) as nat);
        let c = start.count as int;
        let k = (start.next + n - 1) as int;
        assert((k + 1) % c == (if k % c + 1 == c {
            0
        } else {
            k % c + 1
        })) by (nonlinear_arith)
            requires
                c > 0,
        {
            let q = k / c;
            let r = k % c;
            assert(k == q * c + r && 0 <= r < c);
            if r + 1 == c {
                assert(k + 1 == (q + 1) * c);
            } else {
                assert(k + 1 == q * c + (r + 1));
            }
        }
    } else {
        assert(start.next % start.count == start.next) by (nonlinear_arith)
            requires
                start.next < start.count,
        ;
    }
}

/// The tunnels take turns: the local connection number `n`, counted from zero, goes to the tunnel
/// `n` modulo the number of tunnels.
pub proof fn law_tunnels_take_turns(count: nat, n: nat)
    requires
        count > 0,
    ensures
        (DispatchView { next: 0, count }).after(n).next == n % count,
{
    lemma_turn(DispatchView { next: 0, count }, n);
}

/// No tunnel takes a second local connection before each other tunnel took one: of as many
/// connections in a row as there are tunnels, no two go to the same tunnel.
pub proof fn law_tunnels_share_evenly(start: DispatchView, i: nat, j: nat)
    requires
        start.wf(),
        i < j < i + start.count,
    ensures
        start.after(i).next != start.after(j).next,
{
    lemma_turn(start, i);
    lemma_turn(start, j);
    let c = start.count as int;
    let a = (start.next + i) as int;
    let b = (start.next + j) as int;
    assert(a % c != b % c) by (nonlinear_arith)
        requires
            c > 0,
            a < b < a + c,
    {
        let p = a / c;
        let q = b / c;
        assert(a == p * c + a % c);
        assert(b == q * c + b % c);
        if a % c == b % c {
            assert(b - a == (q - p) * c);
            assert(0 < (q - p) * c < c);
            assert(false);
        }
    }
}

/// How the local connections are shared out: whose turn it is, and the id of the entry that each
/// tunnel opens next.
#[verifier::ext_equal]
pub struct Sharing {
    pub turn: DispatchView,
    pub ids: Seq<u32>,
}

/// How `dispatch` shares the local connections out among `tunnels`.
pub open spec fn sharing(dispatch: Dispatch, tunnels: Seq<Tunnel>) -> Sharing {
    Sharing { turn: dispatch@, ids: Seq::new(tunnels.len(), |i: int| tunnels[i]@) }
}

impl Sharing {
    /// It is the turn of one of the tunnels.
    pub open spec fn wf(self) -> bool {
        self.turn.wf() && self.ids.len() == self.turn.count
    }

    /// The tunnel whose turn it is has ids left.
    pub open spec fn has_room(self) -> bool {
        self.ids[self.turn.next as int] < u32::MAX
    }

    /// The first turn among `count` new tunnels.
    pub open spec fn start(count: nat) -> Sharing {
        Sharing { turn: DispatchView { next: 0, count }, ids: Seq::new(count, |i: int| 1u32) }
    }

    /// The tunnel and the entry that the next local connection gets.
    pub open spec fn given(self) -> (nat, u32) {
        (self.turn.next, self.ids[self.turn.next as int])
    }

    /// After a local connection.
    pub open spec fn taken(self) -> Sharing {
        let next = self.turn.next as int;
        Sharing {
            turn: self.turn.advanced(),
            ids: self.ids.update(next, (self.ids[next] + 1) as u32),
        }
    }

    /// The tunnel and the entry of each local connection, where the listener brings connections
    /// (`true`) and failures (`false`).
    pub open spec fn shared_out(self, accepted: Seq<bool>) -> Seq<(nat, u32)>
        decreases accepted.len(),
    {
        if accepted.len() == 0 {
            Seq::empty()
        } else if accepted[0] {
            seq![self.given()] + self.taken().shared_out(accepted.skip(1))
        } else {
            self.shared_out(accepted.skip(1))
        }
    }

    /// No tunnel runs out of ids while the listener brings `accepted`.
    pub open spec fn has_room_for(self, accepted: Seq<bool>) -> bool
        decreases accepted.len(),
    {
        if accepted.len() == 0 {
            true
        } else if accepted[0] {
            self.has_room() && self.taken().has_room_for(accepted.skip(1))
        } else {
            self.has_room_for(accepted.skip(1))
        }
    }

    /// After `q` rounds and `r` turns of the next.
    spec fn is_at(self, q: nat, r: nat) -> bool {
        &&& self.turn.next == r
        &&& r < self.turn.count
        &&& self.ids.len() == self.turn.count
        &&& forall|i: int|
            0 <= i < self.ids.len() ==> #[trigger] self.ids[i] == 1 + q + (if i < r {
                1int
            } else {
                0
            })
    }
}

/// How many local connections the listener brings.
pub open spec fn connections(accepted: Seq<bool>) -> nat
    decreases accepted.len(),
{
    if accepted.len() == 0 {
        0
    } else {
        connections(accepted.skip(1)) + (if accepted[0] {
            1nat
        } else {
            0
        })
    }
}

proof fn lemma_shared_out(s: Sharing, q: nat, r: nat, accepted: Seq<bool>)
    requires
        s.is_at(q, r),
        q * s.turn.count + r + connections(accepted) <= s.turn.count * (u32::MAX - 1),
    ensures
        s.has_room_for(accepted),
        s.shared_out(accepted).len() == connections(accepted),
        forall|k: int|
            0 <= k < connections(accepted) ==> #[trigger] s.shared_out(accepted)[k] == (
                ((q * s.turn.count + r + k) % s.turn.count as int) as nat,
                (1 + (q * s.turn.count + r + k) / s.turn.count as int) as u32,
            ),
    decreases accepted.len(),
{
    if accepted.len() > 0 {
        let later = accepted.skip(1);
        let c = s.turn.count;
        if accepted[0] {
            let t = s.taken();
            let (q1, r1) = if r + 1 == c {
                (q + 1, 0nat)
            } else {
                (q, r + 1)
            };
            assert(q < u32::MAX - 1) by (nonlinear_arith)
                requires
                    q * c + r + 1 <= c * (u32::MAX - 1),
                    c > 0,
            ;
            assert(q1 * c + r1 == q * c + r + 1) by (nonlinear_arith)
                requires
                    r + 1 == c ==> q1 == q + 1 && r1 == 0,
                    r + 1 != c ==> q1 == q && r1 == r + 1,
            ;
            assert(s.ids[r as int] == 1 + q);
            assert(t.is_at(q1, r1));
            lemma_shared_out(t, q1, r1, later);
            vstd::arithmetic::div_mod::lemma_fundamental_div_mod_converse(
                (q * c + r) as int,
                c as int,
                q as int,
                r as int,
            );
            let all = s.shared_out(accepted);
            assert forall|k: int| 0 <= k < connections(accepted) implies #[trigger] all[k] == (
                ((q * c + r + k) % c as int) as nat,
                (1 + (q * c + r + k) / c as int) as u32,
            ) by {
                if k > 0 {
                    assert(all[k] == t.shared_out(later)[k - 1]);
                }
            }
        } else {
            lemma_shared_out(s, q, r, later);
        }
    }
}

/// Of the local connections that the listener brings, with failures between them, each gets one new
/// entry: the connection number `k`, counted from zero, gets it in the tunnel `k` modulo the number
/// of tunnels, as the entry `1 + k / count` of that tunnel. A failure changes nothing. There are
/// enough ids for so many connections.
pub proof fn law_connections_are_shared_out(count: nat, accepted: Seq<bool>)
    requires
        count > 0,
        connections(accepted) <= count * (u32::MAX - 1),
    ensures
        Sharing::start(count).has_room_for(accepted),
        Sharing::start(count).shared_out(accepted).len() == connections(accepted),
        forall|k: int|
            0 <= k < connections(accepted) ==> #[trigger] Sharing::start(count).shared_out(
                accepted,
            )[k] == ((k % count as int) as nat, (1 + k / count as int) as u32),
{
    assert(0 * count == 0) by (nonlinear_arith);
    lemma_shared_out(Sharing::start(count), 0, 0, accepted);
}

/// Starts with the first of `tunnel_number` tunnels.
pub fn run_tunnels(tunnel_number: u32) -> (dispatch: Dispatch)
    requires
        tunnel_number > 0,
    ensures
        dispatch@ == (DispatchView { next: 0, count: tunnel_number as nat }),
        dispatch@.wf(),
{
    Dispatch { index: 0, count: tunnel_number as usize }
}

/// Makes the tunnels that the settings ask for, with the ids from 0 on, each to the server of the
/// settings and with its first entry still to be opened.
pub fn open_tunnels(config: &Config) -> (ends: Vec<(Tunnel, TcpTunnel)>)
    ensures
        ends@.len() == config@.tunnel_max,
        forall|i: int|
            0 <= i < ends@.len() ==> (#[trigger] ends@[i]).0@ == 1 && ends@[i].1@ == (
            TcpTunnelView { config: config@, tunnel_id: i as u32 }),
{
    let number: u32 = config.get_tunnel_max();
    let mut ends: Vec<(Tunnel, TcpTunnel)> = Vec::new();
    let mut id: u32 = 0;
    while id < number
        invariant
            number == config@.tunnel_max,
            id <= number,
            ends@.len() == id,
            forall|i: int|
                0 <= i < ends@.len() ==> (#[trigger] ends@[i]).0@ == 1 && ends@[i].1@ == (
                TcpTunnelView { config: config@, tunnel_id: i as u32 }),
        decreases number - id,
    {
        ends.push(TcpTunnel::new(config, id));
        id = id + 1;
    }
    ends
}

impl Dispatch {
    /// The tunnel that takes the next local connection.
    pub fn next(&self) -> (tunnel: usize)
        ensures
            tunnel == self@.next,
    {
        self.index
    }

    /// Takes in what the listener brought: a local connection, for whose entry the program has made
    /// the channel `connection`, or a failure. A connection gets a new entry of the tunnel whose
    /// turn it is, and the turn goes to the tunnel after it; returned are the tunnel, the entry,
    /// and the message that has to go into the tunnel first. A failure opens no entry and does not
    /// move the turn.
    pub fn accept<S>(&mut self, tunnels: &mut Vec<Tunnel>, connection: Option<S>) -> (opened:
        Option<(usize, Entry, Message<S>)>)
        requires
            sharing(*old(self), old(tunnels)@).wf(),
            connection is Some ==> sharing(*old(self), old(tunnels)@).has_room(),
        ensures
            match connection {
                Some(sender) => {
                    &&& opened matches Some((turn, entry, message))
                    &&& (turn as nat, entry@) == sharing(*old(self), old(tunnels)@).given()
                    &&& message@ == MessageView::CS(CsView::EntryOpen(entry@, sender))
                    &&& sharing(*final(self), final(tunnels)@) == sharing(
                        *old(self),
                        old(tunnels)@,
                    ).taken()
                },
                None => {
                    &&& opened is None
                    &&& final(self)@ == old(self)@
                    &&& final(tunnels)@ == old(tunnels)@
                },
            },
            sharing(*final(self), final(tunnels)@).wf(),
    {
        match connection {
            Some(sender) => {
                let turn: usize = self.index;
                let next: usize = turn + 1;
                self.index = if next == self.count {
                    0
                } else {
                    next
                };
                let (entry, message) = tunnels[turn].open_entry(sender);
                assert(sharing(*self, tunnels@) =~= sharing(*old(self), old(tunnels)@).taken());
                Some((turn, entry, message))
            },
            None => None,
        }
    }
}

} // verus!
