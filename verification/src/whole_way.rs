//! The whole way: from what a local program asks for and sends to what the server connects to and
//! writes there, and back.
//!
//! What is to happen is said here by the messages alone, one by one, and not by what either end
//! makes of them.
use vstd::prelude::*;
use vstd::utf8;

use crate::address;
use crate::client;
use crate::client::entry::{EntryRun, RunActionView, RunEventView};
use crate::client::socks5;
use crate::client::socks5::DialogueView;
use crate::client::tunnel::{CsView, EntryMessageView as ClientNews, MessageView as ClientMessage};
use crate::end_to_end;
use crate::protocol::{CsFrameView, ScFrameView};
use crate::relay;
use crate::relay::Reading;
use crate::server;
use crate::server::tunnel::{EntryMessageView as ServerNews, MessageView as ServerMessage, ScView};

verus! {

/// The frames that a client is to write for `messages`, if the entries `open` are open before them:
/// each message for the server under its own id, and the close of an entry only while it is open.
pub open spec fn spoken_up<S>(open: Set<u32>, messages: Seq<ClientMessage<S>>) -> Seq<CsFrameView>
    decreases messages.len(),
{
    if messages.len() == 0 {
        Seq::empty()
    } else {
        let later = messages.skip(1);
        match messages[0] {
            ClientMessage::CS(CsView::Heartbeat) => seq![CsFrameView::Heartbeat] + spoken_up(
                open,
                later,
            ),
            ClientMessage::CS(CsView::EntryOpen(id, _)) => seq![CsFrameView::EntryOpen(id)]
                + spoken_up(open.insert(id), later),
            ClientMessage::CS(CsView::EntryClose(id)) => if open.contains(id) {
                seq![CsFrameView::EntryClose(id)] + spoken_up(open.remove(id), later)
            } else {
                spoken_up(open, later)
            },
            ClientMessage::CS(CsView::ConnectIp4(id, text)) => seq![
                CsFrameView::ConnectIp4(id, text),
            ] + spoken_up(open, later),
            ClientMessage::CS(CsView::ConnectDomainName(id, name, port)) => seq![
                CsFrameView::ConnectDomainName(id, name, port),
            ] + spoken_up(open, later),
            ClientMessage::CS(CsView::Eof(id)) => seq![CsFrameView::Eof(id)] + spoken_up(
                open,
                later,
            ),
            ClientMessage::CS(CsView::Data(id, data)) => seq![CsFrameView::Data(id, data)]
                + spoken_up(open, later),
            ClientMessage::SC(ScFrameView::EntryClose(id)) => spoken_up(open.remove(id), later),
            ClientMessage::SC(_) => spoken_up(open, later),
        }
    }
}

/// The frames that a server is to write for `messages`, if the entries `open` are open before them:
/// a heartbeat for each heartbeat, each message for the client under its own id, and the close of
/// an entry only while it is open.
pub open spec fn spoken_down(open: Set<u32>, messages: Seq<ServerMessage>) -> Seq<ScFrameView>
    decreases messages.len(),
{
    if messages.len() == 0 {
        Seq::empty()
    } else {
        let later = messages.skip(1);
        match messages[0] {
            ServerMessage::CS(CsFrameView::Heartbeat) => seq![ScFrameView::Heartbeat] + spoken_down(
                open,
                later,
            ),
            ServerMessage::CS(CsFrameView::EntryOpen(id)) => spoken_down(open.insert(id), later),
            ServerMessage::CS(CsFrameView::EntryClose(id)) => spoken_down(open.remove(id), later),
            ServerMessage::SC(ScView::EntryClose(id)) => if open.contains(id) {
                seq![ScFrameView::EntryClose(id)] + spoken_down(open.remove(id), later)
            } else {
                spoken_down(open, later)
            },
            ServerMessage::SC(ScView::ConnectOk(id, text)) => seq![ScFrameView::ConnectOk(id, text)]
                + spoken_down(open, later),
            ServerMessage::SC(ScView::Eof(id)) => seq![ScFrameView::Eof(id)] + spoken_down(
                open,
                later,
            ),
            ServerMessage::SC(ScView::Data(id, data)) => seq![ScFrameView::Data(id, data)]
                + spoken_down(open, later),
            _ => spoken_down(open, later),
        }
    }
}

/// A client writes exactly the frames that it is to write.
pub proof fn law_client_speaks<S>(
    known: Map<u32, client::tunnel::EntryView<S>>,
    messages: Seq<ClientMessage<S>>,
)
    ensures
        end_to_end::sent_up(known, messages) == spoken_up(known.dom(), messages),
    decreases messages.len(),
{
    if messages.len() > 0 {
        let after = messages[0].settled(known);
        law_client_speaks(after, messages.skip(1));
        match messages[0] {
            ClientMessage::CS(CsView::EntryOpen(id, _)) => {
                assert(after.dom() =~= known.dom().insert(id));
            },
            ClientMessage::CS(CsView::EntryClose(id)) => {
                assert(after.dom() =~= known.dom().remove(id));
                if !known.contains_key(id) {
                    assert(after.dom() =~= known.dom());
                }
            },
            ClientMessage::SC(ScFrameView::EntryClose(id)) => {
                assert(after.dom() =~= known.dom().remove(id));
            },
            _ => {
                assert(after.dom() =~= known.dom());
            },
        }
        assert(end_to_end::sent_up(known, messages) =~= spoken_up(known.dom(), messages));
    }
}

/// A server writes exactly the frames that it is to write.
pub proof fn law_server_speaks<S>(
    known: Map<u32, S>,
    messages: Seq<ServerMessage>,
    fresh: Seq<S>,
)
    ensures
        end_to_end::sent_down(known, messages, fresh) == spoken_down(known.dom(), messages),
    decreases messages.len(),
{
    if messages.len() > 0 {
        let after = messages[0].settled(known, fresh[0]);
        law_server_speaks(after, messages.skip(1), fresh.skip(1));
        match messages[0] {
            ServerMessage::CS(CsFrameView::EntryOpen(id)) => {
                assert(after.dom() =~= known.dom().insert(id));
            },
            ServerMessage::CS(CsFrameView::EntryClose(id)) => {
                assert(after.dom() =~= known.dom().remove(id));
            },
            ServerMessage::SC(ScView::EntryClose(id)) => {
                assert(after.dom() =~= known.dom().remove(id));
                if !known.contains_key(id) {
                    assert(after.dom() =~= known.dom());
                }
            },
            _ => {
                assert(after.dom() =~= known.dom());
            },
        }
        assert(end_to_end::sent_down(known, messages, fresh) =~= spoken_down(
            known.dom(),
            messages,
        ));
    }
}

/// What the entry `id` at the server is to hear of the client's `messages`: from its opening to its
/// close, each message for it in its order. `here` is whether the entry is open at the client
/// before the messages, and `there` whether it is open at the server.
pub open spec fn life_up<S>(
    here: bool,
    there: bool,
    messages: Seq<ClientMessage<S>>,
    id: u32,
) -> Seq<ServerNews>
    decreases messages.len(),
{
    if messages.len() == 0 {
        Seq::empty()
    } else {
        let later = messages.skip(1);
        match messages[0] {
            ClientMessage::CS(CsView::EntryOpen(i, _)) if i == id => life_up(true, true, later, id),
            ClientMessage::CS(CsView::EntryClose(i)) if i == id && here && there => seq![
                ServerNews::Close,
            ] + life_up(false, false, later, id),
            ClientMessage::CS(CsView::EntryClose(i)) if i == id => life_up(
                false,
                there && !here,
                later,
                id,
            ),
            ClientMessage::SC(ScFrameView::EntryClose(i)) if i == id => life_up(
                false,
                there,
                later,
                id,
            ),
            ClientMessage::CS(CsView::ConnectIp4(i, text)) if i == id && there => seq![
                ServerNews::ConnectIp(text),
            ] + life_up(here, there, later, id),
            ClientMessage::CS(CsView::ConnectDomainName(i, name, port)) if i == id && there => seq![
                ServerNews::ConnectDomainName(name, port),
            ] + life_up(here, there, later, id),
            ClientMessage::CS(CsView::Data(i, data)) if i == id && there => seq![
                ServerNews::Data(data),
            ] + life_up(here, there, later, id),
            ClientMessage::CS(CsView::Eof(i)) if i == id && there => seq![ServerNews::Eof]
                + life_up(here, there, later, id),
            _ => life_up(here, there, later, id),
        }
    }
}

/// Whether the entry `id` is open at the server after the client's `messages`.
pub open spec fn open_up<S>(
    here: bool,
    there: bool,
    messages: Seq<ClientMessage<S>>,
    id: u32,
) -> bool
    decreases messages.len(),
{
    if messages.len() == 0 {
        there
    } else {
        let later = messages.skip(1);
        match messages[0] {
            ClientMessage::CS(CsView::EntryOpen(i, _)) if i == id => open_up(true, true, later, id),
            ClientMessage::CS(CsView::EntryClose(i)) if i == id => open_up(
                false,
                there && !here,
                later,
                id,
            ),
            ClientMessage::SC(ScFrameView::EntryClose(i)) if i == id => open_up(
                false,
                there,
                later,
                id,
            ),
            _ => open_up(here, there, later, id),
        }
    }
}

/// What the entry `id` at the client is to hear of the server's `messages`. `here` is whether the
/// entry is open at the server before the messages, and `there` whether it is open at the client.
pub open spec fn life_down(
    here: bool,
    there: bool,
    messages: Seq<ServerMessage>,
    id: u32,
) -> Seq<ClientNews>
    decreases messages.len(),
{
    if messages.len() == 0 {
        Seq::empty()
    } else {
        let later = messages.skip(1);
        match messages[0] {
            ServerMessage::CS(CsFrameView::EntryOpen(i)) if i == id => life_down(
                true,
                there,
                later,
                id,
            ),
            ServerMessage::CS(CsFrameView::EntryClose(i)) if i == id => life_down(
                false,
                there,
                later,
                id,
            ),
            ServerMessage::SC(ScView::EntryClose(i)) if i == id && here && there => seq![
                ClientNews::Close,
            ] + life_down(false, false, later, id),
            ServerMessage::SC(ScView::EntryClose(i)) if i == id => life_down(
                false,
                there && !here,
                later,
                id,
            ),
            ServerMessage::SC(ScView::ConnectOk(i, text)) if i == id && there => seq![
                ClientNews::ConnectOk(text),
            ] + life_down(here, there, later, id),
            ServerMessage::SC(ScView::Data(i, data)) if i == id && there => seq![
                ClientNews::Data(data),
            ] + life_down(here, there, later, id),
            ServerMessage::SC(ScView::Eof(i)) if i == id && there => seq![ClientNews::Eof]
                + life_down(here, there, later, id),
            _ => life_down(here, there, later, id),
        }
    }
}

proof fn lemma_life_up<S>(open: Set<u32>, there: bool, messages: Seq<ClientMessage<S>>, id: u32)
    ensures
        ({
            let taken = end_to_end::taken_up(spoken_up(open, messages));
            &&& server::tunnel::hears(there, taken, id) == life_up(
                open.contains(id),
                there,
                messages,
                id,
            )
            &&& server::tunnel::stays_open(there, taken, id) == open_up(
                open.contains(id),
                there,
                messages,
                id,
            )
        }),
    decreases messages.len(),
{
    let frames = spoken_up(open, messages);
    let taken = end_to_end::taken_up(frames);
    if messages.len() == 0 {
        assert(taken =~= Seq::empty());
    } else {
        let m = messages[0];
        let later = messages.skip(1);
        let next = match m {
            ClientMessage::CS(CsView::EntryOpen(i, _)) => open.insert(i),
            ClientMessage::CS(CsView::EntryClose(i)) => if open.contains(i) {
                open.remove(i)
            } else {
                open
            },
            ClientMessage::SC(ScFrameView::EntryClose(i)) => open.remove(i),
            _ => open,
        };
        let rest = spoken_up(next, later);
        lemma_life_up(next, true, later, id);
        lemma_life_up(next, false, later, id);
        if frames.len() == rest.len() {
            assert(frames =~= rest);
        } else {
            assert(frames.skip(1) =~= rest);
            assert(taken.skip(1) =~= end_to_end::taken_up(rest));
            assert(taken[0] == ServerMessage::CS(frames[0]));
        }
    }
}

proof fn lemma_life_down<T>(open: Set<u32>, there: bool, messages: Seq<ServerMessage>, id: u32)
    ensures
        client::tunnel::hears(
            there,
            end_to_end::taken_down::<T>(spoken_down(open, messages)),
            id,
        ) == life_down(open.contains(id), there, messages, id),
    decreases messages.len(),
{
    let frames = spoken_down(open, messages);
    let taken = end_to_end::taken_down::<T>(frames);
    if messages.len() == 0 {
        assert(taken =~= Seq::empty());
    } else {
        let m = messages[0];
        let later = messages.skip(1);
        let next = match m {
            ServerMessage::CS(CsFrameView::EntryOpen(i)) => open.insert(i),
            ServerMessage::CS(CsFrameView::EntryClose(i)) => open.remove(i),
            ServerMessage::SC(ScView::EntryClose(i)) => if open.contains(i) {
                open.remove(i)
            } else {
                open
            },
            _ => open,
        };
        let rest = spoken_down(next, later);
        lemma_life_down::<T>(next, true, later, id);
        lemma_life_down::<T>(next, false, later, id);
        if frames.len() == rest.len() {
            assert(frames =~= rest);
        } else {
            assert(frames.skip(1) =~= rest);
            assert(taken.skip(1) =~= end_to_end::taken_down::<T>(rest));
            assert(taken[0] == ClientMessage::<T>::SC(frames[0]));
        }
    }
}

proof fn lemma_own_messages_change_nothing_up(there: bool, mixed: Seq<ServerMessage>, id: u32)
    requires
        !end_to_end::closed_by_server(mixed, id),
    ensures
        ({
            let taken = end_to_end::taken_up(end_to_end::from_client(mixed));
            &&& server::tunnel::hears(there, mixed, id) == server::tunnel::hears(there, taken, id)
            &&& server::tunnel::stays_open(there, mixed, id) == server::tunnel::stays_open(
                there,
                taken,
                id,
            )
        }),
    decreases mixed.len(),
{
    let frames = end_to_end::from_client(mixed);
    let taken = end_to_end::taken_up(frames);
    if mixed.len() == 0 {
        assert(taken =~= mixed);
    } else {
        let rest = mixed.skip(1);
        let close = ServerMessage::SC(ScView::EntryClose(id));
        assert(mixed[0] != close);
        assert(!end_to_end::closed_by_server(rest, id)) by {
            if rest.contains(close) {
                let i = choose|i: int| 0 <= i < rest.len() && rest[i] == close;
                assert(mixed[i + 1] == close);
            }
        }
        lemma_own_messages_change_nothing_up(true, rest, id);
        lemma_own_messages_change_nothing_up(false, rest, id);
        if mixed[0] is CS {
            assert(taken.skip(1) =~= end_to_end::taken_up(end_to_end::from_client(rest)));
            assert(taken[0] == mixed[0]);
        }
    }
}

proof fn lemma_own_messages_change_nothing_down<T>(
    there: bool,
    mixed: Seq<ClientMessage<T>>,
    id: u32,
)
    requires
        !end_to_end::closed_by_client(mixed, id),
        forall|i: int| 0 <= i < mixed.len() ==> !opens(#[trigger] mixed[i], id),
    ensures
        client::tunnel::hears(there, mixed, id) == client::tunnel::hears(
            there,
            end_to_end::taken_down::<T>(end_to_end::from_server(mixed)),
            id,
        ),
    decreases mixed.len(),
{
    let frames = end_to_end::from_server(mixed);
    let taken = end_to_end::taken_down::<T>(frames);
    if mixed.len() == 0 {
        assert(taken =~= mixed);
    } else {
        let rest = mixed.skip(1);
        let close = ClientMessage::<T>::CS(CsView::EntryClose(id));
        assert(mixed[0] != close);
        assert(!opens(mixed[0], id));
        assert(!end_to_end::closed_by_client(rest, id)) by {
            if rest.contains(close) {
                let i = choose|i: int| 0 <= i < rest.len() && rest[i] == close;
                assert(mixed[i + 1] == close);
            }
        }
        assert forall|i: int| 0 <= i < rest.len() implies !opens(#[trigger] rest[i], id) by {
            assert(rest[i] == mixed[i + 1]);
        }
        lemma_own_messages_change_nothing_down(true, rest, id);
        lemma_own_messages_change_nothing_down(false, rest, id);
        if mixed[0] is SC {
            assert(taken.skip(1) =~= end_to_end::taken_down::<T>(end_to_end::from_server(rest)));
            assert(taken[0] == mixed[0]);
        }
    }
}

/// The message opens the entry `id` at the client.
pub open spec fn opens<S>(message: ClientMessage<S>, id: u32) -> bool {
    message matches ClientMessage::CS(CsView::EntryOpen(i, _)) && i == id
}

/// Each entry, whatever its id, lives at the server as the client says: it is open there from its
/// opening at the client to its close, and hears what the client says for it in between, in its
/// order. What the server has to say itself may come between, as long as it does not close the
/// entry. Nothing is supposed of what the server knows before.
pub proof fn law_entry_lives_at_server<S, T>(
    terms: server::stream::Terms,
    encrypt: spec_fn(nat, Seq<u8>) -> Seq<u8>,
    ctr: Seq<u8>,
    rest: Seq<u8>,
    known: Map<u32, client::tunnel::EntryView<S>>,
    messages: Seq<ClientMessage<S>>,
    at_server: Map<u32, T>,
    mixed: Seq<ServerMessage>,
    fresh: Seq<T>,
    id: u32,
)
    requires
        terms.codes.distinct(),
        server::stream::undoes(terms.decrypt, ctr, encrypt),
        terms.ctr_size == ctr.len(),
        terms.verify_data.len() + 2 <= u32::MAX,
        encrypt(0, terms.verify_data).len() == terms.verify_data.len(),
        server::stream::can_be_told(end_to_end::sent_up(known, messages)),
        end_to_end::from_client(mixed) == end_to_end::sent_up(known, messages),
        !end_to_end::closed_by_server(mixed, id),
    ensures
        ({
            let p = server::stream::Playing::start(
                ctr + encrypt(0, terms.verify_data) + (server::stream::written_as(
                    terms.codes,
                    encrypt,
                    1,
                    end_to_end::sent_up(known, messages),
                ) + rest),
            );
            exists|k: nat|
                #![trigger p.turns(terms, k)]
                p.turns(terms, k) matches Some(q) && q.stream == rest && q.messages
                    == end_to_end::from_client(mixed)
        }),
        server::tunnel::told(at_server, mixed, fresh, id) == life_up(
            known.contains_key(id),
            at_server.contains_key(id),
            messages,
            id,
        ),
        server::tunnel::known_after(at_server, mixed, fresh).contains_key(id) == open_up(
            known.contains_key(id),
            at_server.contains_key(id),
            messages,
            id,
        ),
{
    let frames = end_to_end::sent_up(known, messages);
    server::stream::law_stream_is_read_as_wanted(terms, encrypt, ctr, frames, rest);
    let p = server::stream::Playing::start(
        ctr + encrypt(0, terms.verify_data) + (server::stream::written_as(
            terms.codes,
            encrypt,
            1,
            frames,
        ) + rest),
    );
    let k = choose|k: nat|
        #![trigger p.turns(terms, k)]
        p.turns(terms, k) matches Some(q) && q.reader == server::stream::CsReaderView::Op
            && q.stream == rest && q.ctr == ctr && q.messages == frames;
    assert(p.turns(terms, k) is Some);
    law_client_speaks(known, messages);
    server::tunnel::law_each_entry_hears_its_own(at_server, mixed, fresh, id);
    lemma_own_messages_change_nothing_up(at_server.contains_key(id), mixed, id);
    lemma_life_up(known.dom(), at_server.contains_key(id), messages, id);
}

/// Each entry, whatever its id, hears at the client what the server says for it, in its order, up
/// to its close. What the client has to say itself may come between, as long as it neither opens
/// nor closes the entry.
pub proof fn law_entry_lives_at_client<S, T>(
    terms: client::stream::Terms,
    encrypt: spec_fn(nat, Seq<u8>) -> Seq<u8>,
    ctr: Seq<u8>,
    rest: Seq<u8>,
    known: Map<u32, S>,
    messages: Seq<ServerMessage>,
    fresh: Seq<S>,
    at_client: Map<u32, client::tunnel::EntryView<T>>,
    mixed: Seq<ClientMessage<T>>,
    id: u32,
)
    requires
        terms.codes.distinct(),
        client::stream::undoes(terms.decrypt, ctr, encrypt),
        terms.ctr_size == ctr.len(),
        client::stream::can_be_told(end_to_end::sent_down(known, messages, fresh)),
        end_to_end::from_server(mixed) == end_to_end::sent_down(known, messages, fresh),
        !end_to_end::closed_by_client(mixed, id),
        forall|i: int| 0 <= i < mixed.len() ==> !opens(#[trigger] mixed[i], id),
    ensures
        ({
            let p = client::stream::Playing::start(
                ctr + (client::stream::written_as(
                    terms.codes,
                    encrypt,
                    0,
                    end_to_end::sent_down(known, messages, fresh),
                ) + rest),
            );
            exists|k: nat|
                #![trigger p.turns(terms, k)]
                p.turns(terms, k) matches Some(q) && q.stream == rest && q.messages
                    == end_to_end::from_server(mixed)
        }),
        client::tunnel::told(at_client, mixed, id) == life_down(
            known.contains_key(id),
            at_client.contains_key(id),
            messages,
            id,
        ),
{
    let frames = end_to_end::sent_down(known, messages, fresh);
    client::stream::law_stream_is_read_as_wanted(terms, encrypt, ctr, frames, rest);
    let p = client::stream::Playing::start(
        ctr + (client::stream::written_as(terms.codes, encrypt, 0, frames) + rest),
    );
    let k = choose|k: nat|
        #![trigger p.turns(terms, k)]
        p.turns(terms, k) matches Some(q) && q.reader == client::stream::ScReaderView::Op
            && q.stream == rest && q.ctr == ctr && q.messages == frames;
    assert(p.turns(terms, k) is Some);
    law_server_speaks(known, messages, fresh);
    client::tunnel::law_each_entry_hears_its_own(at_client, mixed, id);
    lemma_own_messages_change_nothing_down(at_client.contains_key(id), mixed, id);
    lemma_life_down::<T>(known.dom(), at_client.contains_key(id), messages, id);
}

/// A heartbeat of the client reaches the server, comes back as a heartbeat, and ends there.
pub proof fn law_heartbeat_comes_back<S, T>(
    known: Map<u32, client::tunnel::EntryView<S>>,
    at_server: Map<u32, T>,
    fresh: Seq<T>,
)
    ensures
        ({
            let up = end_to_end::sent_up(known, seq![ClientMessage::<S>::CS(CsView::Heartbeat)]);
            let down = end_to_end::sent_down(at_server, end_to_end::taken_up(up), fresh);
            &&& up == seq![CsFrameView::Heartbeat]
            &&& down == seq![ScFrameView::Heartbeat]
            &&& end_to_end::sent_up(known, end_to_end::taken_down::<S>(down)).len() == 0
        }),
{
    let one = seq![ClientMessage::<S>::CS(CsView::Heartbeat)];
    law_client_speaks(known, one);
    assert(one.skip(1) =~= Seq::empty());
    reveal_with_fuel(spoken_up, 2);
    let up = end_to_end::sent_up(known, one);
    assert(up =~= seq![CsFrameView::Heartbeat]);
    let taken = end_to_end::taken_up(up);
    law_server_speaks(at_server, taken, fresh);
    assert(taken.skip(1) =~= Seq::empty());
    reveal_with_fuel(spoken_down, 2);
    let down = end_to_end::sent_down(at_server, taken, fresh);
    assert(down =~= seq![ScFrameView::Heartbeat]);
    let back = end_to_end::taken_down::<S>(down);
    law_client_speaks(known, back);
    assert(back.skip(1) =~= Seq::empty());
}

proof fn lemma_reads_live_up<S>(
    here: bool,
    messages: Seq<ClientMessage<S>>,
    reads: Seq<Reading>,
    closes: Seq<ClientMessage<S>>,
    id: u32,
)
    requires
        end_to_end::own_up(messages, id) == client::entry::messages_of::<S>(id, reads) + closes,
        forall|i: int|
            0 <= i < closes.len() ==> #[trigger] closes[i] == ClientMessage::<S>::CS(
                CsView::EntryClose(id),
            ),
    ensures
        server::entry::drained(life_up(here, true, messages, id)) == relay::joined(reads),
    decreases messages.len(),
{
    let own = end_to_end::own_up(messages, id);
    let pumped = client::entry::messages_of::<S>(id, reads);
    let life = life_up(here, true, messages, id);
    if messages.len() == 0 {
        assert(own.len() == pumped.len() + closes.len());
        assert(reads.len() == 0);
    } else {
        let later = messages.skip(1);
        if messages[0] is CS && messages[0].subject() == Some(id) {
            assert(own[0] == messages[0]);
            assert(own.skip(1) =~= end_to_end::own_up(later, id));
            if reads.len() == 0 {
                assert(own =~= closes);
                assert(closes[0] == messages[0]);
                if here {
                    assert(life[0] == ServerNews::Close);
                } else {
                    assert(reads =~= Seq::empty());
                    assert(end_to_end::own_up(later, id) =~= client::entry::messages_of::<S>(
                        id,
                        reads,
                    ) + closes.skip(1));
                    lemma_reads_live_up(here, later, reads, closes.skip(1), id);
                }
            } else {
                assert(own[0] == pumped[0]);
                if client::entry::pumped::<S>(id, reads[0]).more {
                    assert(end_to_end::own_up(later, id) =~= client::entry::messages_of::<S>(
                        id,
                        reads.skip(1),
                    ) + closes);
                    lemma_reads_live_up(here, later, reads.skip(1), closes, id);
                    assert(life.skip(1) =~= life_up(here, true, later, id));
                    relay::law_writes_go_on_until_one_fails(true);
                } else if reads[0].read is Some {
                    assert(life[0] == ServerNews::Eof);
                } else if here {
                    assert(life[0] == ServerNews::Close);
                } else {
                    assert(end_to_end::own_up(later, id) =~= client::entry::messages_of::<S>(
                        id,
                        Seq::empty(),
                    ) + closes);
                    lemma_reads_live_up(here, later, Seq::empty(), closes, id);
                }
            }
        } else {
            let here1 = if messages[0] == ClientMessage::<S>::SC(ScFrameView::EntryClose(id)) {
                false
            } else {
                here
            };
            lemma_reads_live_up(here1, later, reads, closes, id);
        }
    }
}

proof fn lemma_connect_lives_up<S>(
    here: bool,
    messages: Seq<ClientMessage<S>>,
    connect: ClientMessage<S>,
    news: ServerNews,
    reads: Seq<Reading>,
    closes: Seq<ClientMessage<S>>,
    id: u32,
)
    requires
        asks(connect, news, id),
        end_to_end::own_up(messages, id) == seq![connect] + (client::entry::messages_of::<S>(
            id,
            reads,
        ) + closes),
        forall|i: int|
            0 <= i < closes.len() ==> #[trigger] closes[i] == ClientMessage::<S>::CS(
                CsView::EntryClose(id),
            ),
    ensures
        ({
            let life = life_up(here, true, messages, id);
            &&& life.len() > 0
            &&& life[0] == news
            &&& server::entry::drained(life.skip(1)) == relay::joined(reads)
        }),
    decreases messages.len(),
{
    let own = end_to_end::own_up(messages, id);
    if messages.len() == 0 {
        assert(own.len() == 0);
        assert(false);
    } else {
        let later = messages.skip(1);
        let life = life_up(here, true, messages, id);
        if messages[0] is CS && messages[0].subject() == Some(id) {
            assert(own[0] == messages[0]);
            assert(own.skip(1) =~= end_to_end::own_up(later, id));
            assert(own.skip(1) =~= client::entry::messages_of::<S>(id, reads) + closes);
            lemma_reads_live_up(here, later, reads, closes, id);
            assert(life.skip(1) =~= life_up(here, true, later, id));
        } else {
            let here1 = if messages[0] == ClientMessage::<S>::SC(ScFrameView::EntryClose(id)) {
                false
            } else {
                here
            };
            lemma_connect_lives_up(here1, later, connect, news, reads, closes, id);
        }
    }
}

proof fn lemma_opening_lives_up<S>(
    here: bool,
    there: bool,
    messages: Seq<ClientMessage<S>>,
    sender: S,
    connect: ClientMessage<S>,
    news: ServerNews,
    reads: Seq<Reading>,
    closes: Seq<ClientMessage<S>>,
    id: u32,
)
    requires
        asks(connect, news, id),
        end_to_end::own_up(messages, id) == seq![
            ClientMessage::CS(CsView::EntryOpen(id, sender)),
            connect,
        ] + (client::entry::messages_of::<S>(id, reads) + closes),
        forall|i: int|
            0 <= i < closes.len() ==> #[trigger] closes[i] == ClientMessage::<S>::CS(
                CsView::EntryClose(id),
            ),
    ensures
        ({
            let life = life_up(here, there, messages, id);
            &&& life.len() > 0
            &&& life[0] == news
            &&& server::entry::drained(life.skip(1)) == relay::joined(reads)
        }),
    decreases messages.len(),
{
    let own = end_to_end::own_up(messages, id);
    if messages.len() == 0 {
        assert(own.len() == 0);
        assert(false);
    } else {
        let later = messages.skip(1);
        if messages[0] is CS && messages[0].subject() == Some(id) {
            assert(own[0] == messages[0]);
            assert(own.skip(1) =~= end_to_end::own_up(later, id));
            assert(own.skip(1) =~= seq![connect] + (client::entry::messages_of::<S>(id, reads)
                + closes));
            lemma_connect_lives_up(true, later, connect, news, reads, closes, id);
        } else {
            let here1 = if messages[0] == ClientMessage::<S>::SC(ScFrameView::EntryClose(id)) {
                false
            } else {
                here
            };
            lemma_opening_lives_up(
                here1,
                there,
                later,
                sender,
                connect,
                news,
                reads,
                closes,
                id,
            );
        }
    }
}

/// `connect` asks for the entry `id` what `news` tells it.
pub open spec fn asks<S>(connect: ClientMessage<S>, news: ServerNews, id: u32) -> bool {
    match news {
        ServerNews::ConnectIp(text) => connect == ClientMessage::<S>::CS(
            CsView::ConnectIp4(id, text),
        ),
        ServerNews::ConnectDomainName(name, port) => connect == ClientMessage::<S>::CS(
            CsView::ConnectDomainName(id, name, port),
        ),
        _ => false,
    }
}

/// The whole way of a connection to a named host. A local program that asks for a port of a host
/// gets an entry, whose opening, connect, and bytes go through the tunnel with whatever else goes
/// through it. The server opens the entry and connects it to exactly that name and that port, and
/// what it writes there are the bytes that were read from the program, all of them and in their
/// order.
pub proof fn law_name_is_connected_and_served<S, T>(
    methods: Seq<u8>,
    name: Seq<u8>,
    port: u16,
    behind: Seq<u8>,
    sender: S,
    reads: Seq<Reading>,
    closes: Seq<ClientMessage<S>>,
    known: Map<u32, client::tunnel::EntryView<S>>,
    messages: Seq<ClientMessage<S>>,
    at_server: Map<u32, T>,
    mixed: Seq<ServerMessage>,
    fresh: Seq<T>,
    id: u32,
)
    requires
        methods.len() <= 255,
        methods.contains(0u8),
        name.len() <= 255,
        utf8::valid_utf8(name),
        ({
            let outcome = socks5::run(
                DialogueView::Start,
                socks5::offer(methods) + (seq![5u8, 1u8, 0u8, 3u8, name.len() as u8] + name
                    + socks5::port_bytes(port) + behind),
            );
            outcome is Some ==> (EntryRun::AwaitDestination.step::<S>(
                id,
                RunEventView::Destination(Some(outcome->0.destination)),
            ).action matches RunActionView::Send(connect) ==> end_to_end::own_up(messages, id)
                == seq![ClientMessage::CS(CsView::EntryOpen(id, sender)), connect] + (
            client::entry::messages_of::<S>(id, reads) + closes))
        }),
        forall|i: int|
            0 <= i < closes.len() ==> #[trigger] closes[i] == ClientMessage::<S>::CS(
                CsView::EntryClose(id),
            ),
        end_to_end::from_client(mixed) == end_to_end::sent_up(known, messages),
        !end_to_end::closed_by_server(mixed, id),
    ensures
        ({
            let told = server::tunnel::told(at_server, mixed, fresh, id);
            &&& told.len() > 0
            &&& server::entry::step(id, server::entry::RunEventView::Told(told[0])).action matches
                server::entry::RunActionView::ConnectHost(host, to)
            &&& utf8::encode_utf8(host) == name
            &&& to == port
            &&& server::entry::drained(told.skip(1)) == relay::joined(reads)
        }),
{
    socks5::law_asked_name_is_read(methods, 5, 0, name, port, behind);
    client::entry::law_destination_is_asked_for::<S>(id, name, seq![0u8, 0, 0, 0], port);
    let connect = ClientMessage::<S>::CS(CsView::ConnectDomainName(id, name, port));
    let news = ServerNews::ConnectDomainName(name, port);
    law_client_speaks(known, messages);
    server::tunnel::law_each_entry_hears_its_own(at_server, mixed, fresh, id);
    lemma_own_messages_change_nothing_up(at_server.contains_key(id), mixed, id);
    lemma_life_up(known.dom(), at_server.contains_key(id), messages, id);
    lemma_opening_lives_up(
        known.contains_key(id),
        at_server.contains_key(id),
        messages,
        sender,
        connect,
        news,
        reads,
        closes,
        id,
    );
    server::entry::law_target_is_what_was_told(id, name, port);
}

/// The whole way of a connection to an address: the same, and the server connects to the text that
/// spells the address and the port that the program asked for.
pub proof fn law_address_is_connected_and_served<S, T>(
    methods: Seq<u8>,
    ip: Seq<u8>,
    port: u16,
    behind: Seq<u8>,
    sender: S,
    reads: Seq<Reading>,
    closes: Seq<ClientMessage<S>>,
    known: Map<u32, client::tunnel::EntryView<S>>,
    messages: Seq<ClientMessage<S>>,
    at_server: Map<u32, T>,
    mixed: Seq<ServerMessage>,
    fresh: Seq<T>,
    id: u32,
)
    requires
        methods.len() <= 255,
        methods.contains(0u8),
        ip.len() == 4,
        ({
            let outcome = socks5::run(
                DialogueView::Start,
                socks5::offer(methods) + (seq![5u8, 1u8, 0u8, 1u8, ip[3], ip[2], ip[1], ip[0]]
                    + socks5::port_bytes(port) + behind),
            );
            outcome is Some ==> (EntryRun::AwaitDestination.step::<S>(
                id,
                RunEventView::Destination(Some(outcome->0.destination)),
            ).action matches RunActionView::Send(connect) ==> end_to_end::own_up(messages, id)
                == seq![ClientMessage::CS(CsView::EntryOpen(id, sender)), connect] + (
            client::entry::messages_of::<S>(id, reads) + closes))
        }),
        forall|i: int|
            0 <= i < closes.len() ==> #[trigger] closes[i] == ClientMessage::<S>::CS(
                CsView::EntryClose(id),
            ),
        end_to_end::from_client(mixed) == end_to_end::sent_up(known, messages),
        !end_to_end::closed_by_server(mixed, id),
    ensures
        ({
            let told = server::tunnel::told(at_server, mixed, fresh, id);
            &&& told.len() > 0
            &&& server::entry::step(id, server::entry::RunEventView::Told(told[0])).action matches
                server::entry::RunActionView::ConnectAddress(to)
            &&& address::is_text_of(utf8::encode_utf8(to), ip, port)
            &&& server::entry::drained(told.skip(1)) == relay::joined(reads)
        }),
{
    socks5::law_asked_address_is_read(methods, 5, 0, ip, port, behind);
    client::entry::law_destination_is_asked_for::<S>(id, Seq::empty(), ip, port);
    let text = address::dotted(ip, port);
    address::law_dotted_is_utf8(ip, port);
    address::law_text_spells_address(ip, port);
    let connect = ClientMessage::<S>::CS(CsView::ConnectIp4(id, text));
    let news = ServerNews::ConnectIp(text);
    law_client_speaks(known, messages);
    server::tunnel::law_each_entry_hears_its_own(at_server, mixed, fresh, id);
    lemma_own_messages_change_nothing_up(at_server.contains_key(id), mixed, id);
    lemma_life_up(known.dom(), at_server.contains_key(id), messages, id);
    lemma_opening_lives_up(
        known.contains_key(id),
        at_server.contains_key(id),
        messages,
        sender,
        connect,
        news,
        reads,
        closes,
        id,
    );
    server::entry::law_target_is_what_was_told(id, text, port);
}

proof fn lemma_reads_live_down(
    here: bool,
    messages: Seq<ServerMessage>,
    reads: Seq<Reading>,
    closes: Seq<ServerMessage>,
    id: u32,
)
    requires
        end_to_end::own_down(messages, id) == server::entry::messages_of(id, reads) + closes,
        forall|i: int|
            0 <= i < closes.len() ==> #[trigger] closes[i] == ServerMessage::SC(
                ScView::EntryClose(id),
            ),
    ensures
        client::entry::drained(life_down(here, true, messages, id)) == relay::joined(reads),
    decreases messages.len(),
{
    let own = end_to_end::own_down(messages, id);
    let pumped = server::entry::messages_of(id, reads);
    let life = life_down(here, true, messages, id);
    if messages.len() == 0 {
        assert(own.len() == pumped.len() + closes.len());
        assert(reads.len() == 0);
    } else {
        let later = messages.skip(1);
        if messages[0] is SC && messages[0].subject() == Some(id) {
            assert(own[0] == messages[0]);
            assert(own.skip(1) =~= end_to_end::own_down(later, id));
            if reads.len() == 0 {
                assert(own =~= closes);
                assert(closes[0] == messages[0]);
                if here {
                    assert(life[0] == ClientNews::Close);
                } else {
                    assert(reads =~= Seq::empty());
                    assert(end_to_end::own_down(later, id) =~= server::entry::messages_of(id, reads)
                        + closes.skip(1));
                    lemma_reads_live_down(here, later, reads, closes.skip(1), id);
                }
            } else {
                assert(own[0] == pumped[0]);
                if server::entry::pumped(id, reads[0]).more {
                    assert(end_to_end::own_down(later, id) =~= server::entry::messages_of(
                        id,
                        reads.skip(1),
                    ) + closes);
                    lemma_reads_live_down(here, later, reads.skip(1), closes, id);
                    assert(life.skip(1) =~= life_down(here, true, later, id));
                    relay::law_writes_go_on_until_one_fails(true);
                } else if reads[0].read is Some {
                    assert(life[0] == ClientNews::Eof);
                } else if here {
                    assert(life[0] == ClientNews::Close);
                } else {
                    assert(end_to_end::own_down(later, id) =~= server::entry::messages_of(
                        id,
                        Seq::empty(),
                    ) + closes);
                    lemma_reads_live_down(here, later, Seq::empty(), closes, id);
                }
            }
        } else {
            let here1 = match messages[0] {
                ServerMessage::CS(CsFrameView::EntryOpen(i)) if i == id => true,
                ServerMessage::CS(CsFrameView::EntryClose(i)) if i == id => false,
                _ => here,
            };
            lemma_reads_live_down(here1, later, reads, closes, id);
        }
    }
}

proof fn lemma_answer_lives_down(
    here: bool,
    messages: Seq<ServerMessage>,
    text: Seq<u8>,
    reads: Seq<Reading>,
    closes: Seq<ServerMessage>,
    id: u32,
)
    requires
        end_to_end::own_down(messages, id) == seq![ServerMessage::SC(ScView::ConnectOk(id, text))]
            + (server::entry::messages_of(id, reads) + closes),
        forall|i: int|
            0 <= i < closes.len() ==> #[trigger] closes[i] == ServerMessage::SC(
                ScView::EntryClose(id),
            ),
    ensures
        ({
            let life = life_down(here, true, messages, id);
            &&& life.len() > 0
            &&& life[0] == ClientNews::ConnectOk(text)
            &&& client::entry::drained(life.skip(1)) == relay::joined(reads)
        }),
    decreases messages.len(),
{
    let own = end_to_end::own_down(messages, id);
    if messages.len() == 0 {
        assert(own.len() == 0);
        assert(false);
    } else {
        let later = messages.skip(1);
        let life = life_down(here, true, messages, id);
        if messages[0] is SC && messages[0].subject() == Some(id) {
            assert(own[0] == messages[0]);
            assert(own.skip(1) =~= end_to_end::own_down(later, id));
            assert(own.skip(1) =~= server::entry::messages_of(id, reads) + closes);
            lemma_reads_live_down(here, later, reads, closes, id);
            assert(life.skip(1) =~= life_down(here, true, later, id));
        } else {
            let here1 = match messages[0] {
                ServerMessage::CS(CsFrameView::EntryOpen(i)) if i == id => true,
                ServerMessage::CS(CsFrameView::EntryClose(i)) if i == id => false,
                _ => here,
            };
            lemma_answer_lives_down(here1, later, text, reads, closes, id);
        }
    }
}

/// The whole way back: the address from which the server reached the destination comes to be
/// resolved for the local program as the server found it, and what is written to the program are
/// the bytes that were read from the destination, all of them and in their order.
pub proof fn law_answer_and_bytes_come_back<S, T>(
    text: Seq<u8>,
    reads: Seq<Reading>,
    closes: Seq<ServerMessage>,
    known: Map<u32, S>,
    messages: Seq<ServerMessage>,
    fresh: Seq<S>,
    at_client: Map<u32, client::tunnel::EntryView<T>>,
    mixed: Seq<ClientMessage<T>>,
    id: u32,
)
    requires
        server::entry::step(id, server::entry::RunEventView::LocalAddress(Some(text))).action
            matches server::entry::RunActionView::Send(answer) ==> end_to_end::own_down(
            messages,
            id,
        ) == seq![answer] + (server::entry::messages_of(id, reads) + closes),
        forall|i: int|
            0 <= i < closes.len() ==> #[trigger] closes[i] == ServerMessage::SC(
                ScView::EntryClose(id),
            ),
        end_to_end::from_server(mixed) == end_to_end::sent_down(known, messages, fresh),
        at_client.contains_key(id),
        !end_to_end::closed_by_client(mixed, id),
        forall|i: int| 0 <= i < mixed.len() ==> !opens(#[trigger] mixed[i], id),
    ensures
        ({
            let told = client::tunnel::told(at_client, mixed, id);
            &&& told.len() > 0
            &&& EntryRun::AwaitAnswer.step::<T>(id, RunEventView::Answer(told[0])).action
                == RunActionView::<T>::Resolve(text)
            &&& client::entry::drained(told.skip(1)) == relay::joined(reads)
        }),
{
    server::entry::law_entry_goes_its_way(id, server::entry::RunEventView::Relayed, text);
    law_server_speaks(known, messages, fresh);
    client::tunnel::law_each_entry_hears_its_own(at_client, mixed, id);
    lemma_own_messages_change_nothing_down(at_client.contains_key(id), mixed, id);
    lemma_life_down::<T>(known.dom(), at_client.contains_key(id), messages, id);
    lemma_answer_lives_down(known.contains_key(id), messages, text, reads, closes, id);
}

} // verus!
