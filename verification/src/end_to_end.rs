//! What one end of a tunnel puts in, and what comes out at the other.
//!
//! At either end the frames that arrive share a channel with the messages of that end itself. The
//! laws hold however the two are mixed there.
use vstd::prelude::*;

use crate::bytes;
use crate::client;
use crate::client::tunnel::{CsView, EntryMessageView as ClientNews, MessageView as ClientMessage};
use crate::framing;
use crate::protocol::{CsCodes, CsFrameView, ScCodes, ScFrameView};
use crate::relay;
use crate::relay::Reading;
use crate::server;
use crate::server::tunnel::{EntryMessageView as ServerNews, MessageView as ServerMessage, ScView};

verus! {

/// An entry was told what was `said` for it, or, if it was closed early, the start of that and then
/// its `close`.
pub open spec fn cut_short<M>(told: Seq<M>, said: Seq<M>, close: M) -> bool {
    ||| told == said
    ||| {
        &&& told.len() > 0
        &&& told.last() == close
        &&& told.drop_last().is_prefix_of(said)
    }
}

proof fn lemma_cut_short_grows<M>(first: Seq<M>, told: Seq<M>, said: Seq<M>, close: M)
    requires
        cut_short(told, said, close),
    ensures
        cut_short(first + told, first + said, close),
{
    if told != said {
        let all = first + told;
        assert(all.last() == close);
        assert(all.drop_last() =~= first + told.drop_last());
        assert(told.drop_last() =~= said.take(told.len() - 1));
        assert(all.drop_last() =~= (first + said).take(all.len() - 1));
    }
}

/// The frames that the client writes while `messages` are taken in and their plans carried out.
pub open spec fn sent_up<S>(
    known: Map<u32, client::tunnel::EntryView<S>>,
    messages: Seq<ClientMessage<S>>,
) -> Seq<CsFrameView>
    decreases messages.len(),
{
    if messages.len() == 0 {
        Seq::empty()
    } else {
        let first = match messages[0].plan(known).send {
            Some(frame) => seq![frame],
            None => Seq::empty(),
        };
        first + sent_up(messages[0].settled(known), messages.skip(1))
    }
}

/// What the client's `messages` say for the entry `id` at the server, up to and with the close of
/// an entry that the client knows.
pub open spec fn said_up<S>(
    known: Map<u32, client::tunnel::EntryView<S>>,
    messages: Seq<ClientMessage<S>>,
    id: u32,
) -> Seq<ServerNews>
    decreases messages.len(),
{
    if messages.len() == 0 {
        Seq::empty()
    } else if messages[0] == ClientMessage::<S>::CS(CsView::EntryClose(id)) && known.contains_key(
        id,
    ) {
        seq![ServerNews::Close]
    } else {
        let first = match messages[0] {
            ClientMessage::CS(CsView::ConnectIp4(i, buf)) if i == id => seq![
                ServerNews::ConnectIp(buf),
            ],
            ClientMessage::CS(CsView::ConnectDomainName(i, name, port)) if i == id => seq![
                ServerNews::ConnectDomainName(name, port),
            ],
            ClientMessage::CS(CsView::Data(i, buf)) if i == id => seq![ServerNews::Data(buf)],
            ClientMessage::CS(CsView::Eof(i)) if i == id => seq![ServerNews::Eof],
            _ => Seq::empty(),
        };
        first + said_up(messages[0].settled(known), messages.skip(1), id)
    }
}

/// The bytes that the client's `messages` carry for the entry `id`, up to the first message that
/// says something else for it.
pub open spec fn uploaded<S>(
    known: Map<u32, client::tunnel::EntryView<S>>,
    messages: Seq<ClientMessage<S>>,
    id: u32,
) -> Seq<u8>
    decreases messages.len(),
{
    if messages.len() == 0 {
        Seq::empty()
    } else if messages[0] == ClientMessage::<S>::CS(CsView::EntryClose(id)) && known.contains_key(
        id,
    ) {
        Seq::empty()
    } else {
        let later = uploaded(messages[0].settled(known), messages.skip(1), id);
        match messages[0] {
            ClientMessage::CS(CsView::Data(i, buf)) if i == id => buf + later,
            ClientMessage::CS(CsView::Eof(i)) if i == id => Seq::empty(),
            ClientMessage::CS(CsView::ConnectIp4(i, _)) if i == id => Seq::empty(),
            ClientMessage::CS(CsView::ConnectDomainName(i, _, _)) if i == id => Seq::empty(),
            _ => later,
        }
    }
}

/// Frames of the client as messages in the server's tunnel.
pub open spec fn taken_up(frames: Seq<CsFrameView>) -> Seq<ServerMessage> {
    Seq::new(frames.len(), |i: int| ServerMessage::CS(frames[i]))
}

/// The frames of the client among the messages in the server's tunnel.
pub open spec fn from_client(mixed: Seq<ServerMessage>) -> Seq<CsFrameView>
    decreases mixed.len(),
{
    if mixed.len() == 0 {
        Seq::empty()
    } else {
        match mixed[0] {
            ServerMessage::CS(frame) => seq![frame] + from_client(mixed.skip(1)),
            _ => from_client(mixed.skip(1)),
        }
    }
}

/// The server itself closes the entry `id` among the messages in its tunnel.
pub open spec fn closed_by_server(mixed: Seq<ServerMessage>, id: u32) -> bool {
    mixed.contains(ServerMessage::SC(ScView::EntryClose(id)))
}

/// Each payload of `frames` fits its length field when it is encrypted, as `ciphers`, and decrypts
/// to what it was, as `opened`.
pub open spec fn carried_up(
    frames: Seq<CsFrameView>,
    ciphers: Seq<Seq<u8>>,
    opened: Seq<Seq<u8>>,
) -> bool {
    &&& ciphers.len() == frames.len()
    &&& opened.len() == frames.len()
    &&& forall|i: int|
        0 <= i < frames.len() ==> (#[trigger] frames[i]).with_payload(ciphers[i]).fits()
    &&& forall|i: int|
        0 <= i < frames.len() ==> ((#[trigger] frames[i]).payload() matches Some(plain)
            ==> opened[i] == plain)
}

/// `frames` in the stream of the client.
pub open spec fn wire_up(
    codes: CsCodes,
    frames: Seq<CsFrameView>,
    ciphers: Seq<Seq<u8>>,
) -> Seq<u8> {
    framing::packed_cs(codes, server::stream::sealed(frames, ciphers))
}

/// The messages for the server that are about the entry `id`.
pub open spec fn own_up<S>(messages: Seq<ClientMessage<S>>, id: u32) -> Seq<ClientMessage<S>>
    decreases messages.len(),
{
    if messages.len() == 0 {
        Seq::empty()
    } else if messages[0] is CS && messages[0].subject() == Some(id) {
        seq![messages[0]] + own_up(messages.skip(1), id)
    } else {
        own_up(messages.skip(1), id)
    }
}

/// The frames that the server writes while `messages` are taken in and their plans carried out,
/// with the channels `fresh` for the entries that they open.
pub open spec fn sent_down<S>(
    known: Map<u32, S>,
    messages: Seq<ServerMessage>,
    fresh: Seq<S>,
) -> Seq<ScFrameView>
    decreases messages.len(),
{
    if messages.len() == 0 {
        Seq::empty()
    } else {
        let first = match messages[0].plan(known).send {
            Some(frame) => seq![frame],
            None => Seq::empty(),
        };
        first + sent_down(messages[0].settled(known, fresh[0]), messages.skip(1), fresh.skip(1))
    }
}

/// What the server's `messages` say for the entry `id` at the client, up to and with the close of
/// an entry that the server knows.
pub open spec fn said_down<S>(
    known: Map<u32, S>,
    messages: Seq<ServerMessage>,
    fresh: Seq<S>,
    id: u32,
) -> Seq<ClientNews>
    decreases messages.len(),
{
    if messages.len() == 0 {
        Seq::empty()
    } else if messages[0] == ServerMessage::SC(ScView::EntryClose(id)) && known.contains_key(id) {
        seq![ClientNews::Close]
    } else {
        let first = match messages[0] {
            ServerMessage::SC(ScView::ConnectOk(i, buf)) if i == id => seq![
                ClientNews::ConnectOk(buf),
            ],
            ServerMessage::SC(ScView::Data(i, buf)) if i == id => seq![ClientNews::Data(buf)],
            ServerMessage::SC(ScView::Eof(i)) if i == id => seq![ClientNews::Eof],
            _ => Seq::empty(),
        };
        first + said_down(messages[0].settled(known, fresh[0]), messages.skip(1), fresh.skip(1), id)
    }
}

/// The bytes that the server's `messages` carry for the entry `id`, up to the first message that
/// says something else for it.
pub open spec fn downloaded<S>(
    known: Map<u32, S>,
    messages: Seq<ServerMessage>,
    fresh: Seq<S>,
    id: u32,
) -> Seq<u8>
    decreases messages.len(),
{
    if messages.len() == 0 {
        Seq::empty()
    } else if messages[0] == ServerMessage::SC(ScView::EntryClose(id)) && known.contains_key(id) {
        Seq::empty()
    } else {
        let later = downloaded(
            messages[0].settled(known, fresh[0]),
            messages.skip(1),
            fresh.skip(1),
            id,
        );
        match messages[0] {
            ServerMessage::SC(ScView::Data(i, buf)) if i == id => buf + later,
            ServerMessage::SC(ScView::Eof(i)) if i == id => Seq::empty(),
            ServerMessage::SC(ScView::ConnectOk(i, _)) if i == id => Seq::empty(),
            _ => later,
        }
    }
}

/// Frames of the server as messages in the client's tunnel.
pub open spec fn taken_down<T>(frames: Seq<ScFrameView>) -> Seq<ClientMessage<T>> {
    Seq::new(frames.len(), |i: int| ClientMessage::SC(frames[i]))
}

/// The frames of the server among the messages in the client's tunnel.
pub open spec fn from_server<T>(mixed: Seq<ClientMessage<T>>) -> Seq<ScFrameView>
    decreases mixed.len(),
{
    if mixed.len() == 0 {
        Seq::empty()
    } else {
        match mixed[0] {
            ClientMessage::SC(frame) => seq![frame] + from_server(mixed.skip(1)),
            _ => from_server(mixed.skip(1)),
        }
    }
}

/// The client itself closes the entry `id` among the messages in its tunnel.
pub open spec fn closed_by_client<T>(mixed: Seq<ClientMessage<T>>, id: u32) -> bool {
    mixed.contains(ClientMessage::<T>::CS(CsView::EntryClose(id)))
}

/// Each payload of `frames` fits its length field when it is encrypted, as `ciphers`, and decrypts
/// to what it was, as `opened`.
pub open spec fn carried_down(
    frames: Seq<ScFrameView>,
    ciphers: Seq<Seq<u8>>,
    opened: Seq<Seq<u8>>,
) -> bool {
    &&& ciphers.len() == frames.len()
    &&& opened.len() == frames.len()
    &&& forall|i: int|
        0 <= i < frames.len() ==> (#[trigger] frames[i]).with_payload(ciphers[i]).fits()
    &&& forall|i: int|
        0 <= i < frames.len() ==> ((#[trigger] frames[i]).payload() matches Some(plain)
            ==> opened[i] == plain)
}

/// `frames` in the stream of the server.
pub open spec fn wire_down(
    codes: ScCodes,
    frames: Seq<ScFrameView>,
    ciphers: Seq<Seq<u8>>,
) -> Seq<u8> {
    framing::packed_sc(codes, client::stream::sealed(frames, ciphers))
}

/// The messages for the client that are about the entry `id`.
pub open spec fn own_down(messages: Seq<ServerMessage>, id: u32) -> Seq<ServerMessage>
    decreases messages.len(),
{
    if messages.len() == 0 {
        Seq::empty()
    } else if messages[0] is SC && messages[0].subject() == Some(id) {
        seq![messages[0]] + own_down(messages.skip(1), id)
    } else {
        own_down(messages.skip(1), id)
    }
}

proof fn lemma_heard_up<S>(
    known: Map<u32, client::tunnel::EntryView<S>>,
    messages: Seq<ClientMessage<S>>,
    id: u32,
)
    ensures
        server::tunnel::heard(taken_up(sent_up(known, messages)), id) == said_up(
            known,
            messages,
            id,
        ),
    decreases messages.len(),
{
    let frames = sent_up(known, messages);
    let heard = server::tunnel::heard(taken_up(frames), id);
    if messages.len() == 0 {
        assert(taken_up(frames) =~= Seq::empty());
    } else {
        let after = messages[0].settled(known);
        let later = sent_up(after, messages.skip(1));
        lemma_heard_up(after, messages.skip(1), id);
        match messages[0].plan(known).send {
            Some(frame) => {
                assert(frames =~= seq![frame] + later);
                assert(taken_up(frames).skip(1) =~= taken_up(later));
                assert(taken_up(frames)[0] == ServerMessage::CS(frame));
                assert(heard =~= said_up(known, messages, id));
            },
            None => {
                assert(frames =~= later);
                assert(said_up(known, messages, id) =~= said_up(
                    after,
                    messages.skip(1),
                    id,
                ));
            },
        }
    }
}

proof fn lemma_mixed_up(mixed: Seq<ServerMessage>, id: u32)
    ensures
        cut_short(
            server::tunnel::heard(mixed, id),
            server::tunnel::heard(taken_up(from_client(mixed)), id),
            ServerNews::Close,
        ),
        !closed_by_server(mixed, id) ==> server::tunnel::heard(mixed, id) == server::tunnel::heard(
            taken_up(from_client(mixed)),
            id,
        ),
    decreases mixed.len(),
{
    let frames = from_client(mixed);
    let heard = server::tunnel::heard(mixed, id);
    let alone = server::tunnel::heard(taken_up(frames), id);
    if mixed.len() == 0 {
        assert(taken_up(frames) =~= mixed);
    } else {
        let rest = mixed.skip(1);
        let later = from_client(rest);
        lemma_mixed_up(rest, id);
        let heard_later = server::tunnel::heard(rest, id);
        let alone_later = server::tunnel::heard(taken_up(later), id);
        let close = ServerMessage::SC(ScView::EntryClose(id));
        if closed_by_server(rest, id) {
            let i = choose|i: int| 0 <= i < rest.len() && rest[i] == close;
            assert(mixed[i + 1] == close);
        }
        if mixed[0] is CS {
            assert(taken_up(frames).skip(1) =~= taken_up(later));
            assert(taken_up(frames)[0] == mixed[0]);
            if mixed[0].closes() && mixed[0].subject() == Some(id) {
                assert(heard == alone);
            } else {
                let first = if mixed[0].subject() == Some(id) && mixed[0].news() is Some {
                    seq![mixed[0].news()->0]
                } else {
                    Seq::empty()
                };
                assert(heard == first + heard_later);
                assert(alone == first + alone_later);
                lemma_cut_short_grows(first, heard_later, alone_later, ServerNews::Close);
            }
        } else {
            assert(frames == later);
            if mixed[0] == close {
                assert(mixed[0].closes());
                assert(closed_by_server(mixed, id));
                assert(heard == seq![ServerNews::Close]);
                assert(heard.drop_last() =~= Seq::empty());
                assert(heard.drop_last() =~= alone.take(0));
            } else {
                assert(heard =~= heard_later);
            }
        }
    }
}

proof fn lemma_drained_up<S>(
    known: Map<u32, client::tunnel::EntryView<S>>,
    messages: Seq<ClientMessage<S>>,
    id: u32,
)
    ensures
        server::entry::drained(said_up(known, messages, id)) == uploaded(
            known,
            messages,
            id,
        ),
    decreases messages.len(),
{
    if messages.len() > 0 {
        let after = messages[0].settled(known);
        let all = said_up(known, messages, id);
        let later = said_up(after, messages.skip(1), id);
        lemma_drained_up(after, messages.skip(1), id);
        let closing = ClientMessage::<S>::CS(CsView::EntryClose(id));
        if messages[0] != closing || !known.contains_key(id) {
            if all.len() == later.len() {
                assert(all =~= later);
            } else {
                assert(all.skip(1) =~= later);
            }
        }
    }
}

proof fn lemma_cut_drains_less_up(told: Seq<ServerNews>, said: Seq<ServerNews>)
    requires
        cut_short(told, said, ServerNews::Close),
    ensures
        server::entry::drained(told).is_prefix_of(server::entry::drained(said)),
    decreases told.len(),
{
    let less = server::entry::drained(told);
    let all = server::entry::drained(said);
    if told == said {
        assert(less =~= all.take(less.len() as int));
    } else if told.len() == 1 {
        assert(told[0] == told.last());
        assert(less =~= Seq::empty());
        assert(less =~= all.take(0));
    } else {
        let start = told.drop_last();
        assert(start =~= said.take(start.len() as int));
        assert(start[0] == told[0] && said.take(start.len() as int)[0] == said[0]);
        let (told1, said1) = (told.skip(1), said.skip(1));
        assert(told1.drop_last() =~= said1.take(told1.len() - 1)) by {
            assert forall|i: int| 0 <= i < told1.len() - 1 implies told1[i] == said1[i] by {
                assert(told1[i] == start[i + 1]);
                assert(said.take(start.len() as int)[i + 1] == said[i + 1]);
            }
        }
        lemma_cut_drains_less_up(told1, said1);
        let less1 = server::entry::drained(told1);
        let all1 = server::entry::drained(said1);
        assert(less1 =~= all1.take(less1.len() as int));
        match server::entry::told(told[0]) {
            relay::DrainView::Write(buf) => {
                assert(less == buf + less1);
                assert(all == buf + all1);
                assert(less =~= all.take(less.len() as int));
            },
            _ => {
                assert(less =~= all.take(0));
            },
        }
    }
}

proof fn lemma_heard_down<S, T>(
    known: Map<u32, S>,
    messages: Seq<ServerMessage>,
    fresh: Seq<S>,
    id: u32,
)
    ensures
        client::tunnel::heard(taken_down::<T>(sent_down(known, messages, fresh)), id) == said_down(
            known,
            messages,
            fresh,
            id,
        ),
    decreases messages.len(),
{
    let frames = sent_down(known, messages, fresh);
    let heard = client::tunnel::heard(taken_down::<T>(frames), id);
    if messages.len() == 0 {
        assert(taken_down::<T>(frames) =~= Seq::empty());
    } else {
        let after = messages[0].settled(known, fresh[0]);
        let later = sent_down(after, messages.skip(1), fresh.skip(1));
        lemma_heard_down::<S, T>(after, messages.skip(1), fresh.skip(1), id);
        match messages[0].plan(known).send {
            Some(frame) => {
                assert(frames =~= seq![frame] + later);
                assert(taken_down::<T>(frames).skip(1) =~= taken_down::<T>(later));
                assert(taken_down::<T>(frames)[0] == ClientMessage::<T>::SC(frame));
                assert(heard =~= said_down(known, messages, fresh, id));
            },
            None => {
                assert(frames =~= later);
                assert(said_down(known, messages, fresh, id) =~= said_down(
                    after,
                    messages.skip(1), fresh.skip(1),
                    id,
                ));
            },
        }
    }
}

proof fn lemma_mixed_down<T>(mixed: Seq<ClientMessage<T>>, id: u32)
    ensures
        cut_short(
            client::tunnel::heard(mixed, id),
            client::tunnel::heard(taken_down::<T>(from_server(mixed)), id),
            ClientNews::Close,
        ),
        !closed_by_client(mixed, id) ==> client::tunnel::heard(mixed, id) == client::tunnel::heard(
            taken_down::<T>(from_server(mixed)),
            id,
        ),
    decreases mixed.len(),
{
    let frames = from_server(mixed);
    let heard = client::tunnel::heard(mixed, id);
    let alone = client::tunnel::heard(taken_down::<T>(frames), id);
    if mixed.len() == 0 {
        assert(taken_down::<T>(frames) =~= mixed);
    } else {
        let rest = mixed.skip(1);
        let later = from_server(rest);
        lemma_mixed_down(rest, id);
        let heard_later = client::tunnel::heard(rest, id);
        let alone_later = client::tunnel::heard(taken_down::<T>(later), id);
        let close = ClientMessage::<T>::CS(CsView::EntryClose(id));
        if closed_by_client(rest, id) {
            let i = choose|i: int| 0 <= i < rest.len() && rest[i] == close;
            assert(mixed[i + 1] == close);
        }
        if mixed[0] is SC {
            assert(taken_down::<T>(frames).skip(1) =~= taken_down::<T>(later));
            assert(taken_down::<T>(frames)[0] == mixed[0]);
            if mixed[0].closes() && mixed[0].subject() == Some(id) {
                assert(heard == alone);
            } else {
                let first = if mixed[0].subject() == Some(id) && mixed[0].news() is Some {
                    seq![mixed[0].news()->0]
                } else {
                    Seq::empty()
                };
                assert(heard == first + heard_later);
                assert(alone == first + alone_later);
                lemma_cut_short_grows(first, heard_later, alone_later, ClientNews::Close);
            }
        } else {
            assert(frames == later);
            if mixed[0] == close {
                assert(mixed[0].closes());
                assert(closed_by_client(mixed, id));
                assert(heard == seq![ClientNews::Close]);
                assert(heard.drop_last() =~= Seq::empty());
                assert(heard.drop_last() =~= alone.take(0));
            } else {
                assert(heard =~= heard_later);
            }
        }
    }
}

proof fn lemma_drained_down<S>(
    known: Map<u32, S>,
    messages: Seq<ServerMessage>,
    fresh: Seq<S>,
    id: u32,
)
    ensures
        client::entry::drained(said_down(known, messages, fresh, id)) == downloaded(
            known,
            messages, fresh,
            id,
        ),
    decreases messages.len(),
{
    if messages.len() > 0 {
        let after = messages[0].settled(known, fresh[0]);
        let all = said_down(known, messages, fresh, id);
        let later = said_down(after, messages.skip(1), fresh.skip(1), id);
        lemma_drained_down(after, messages.skip(1), fresh.skip(1), id);
        let closing = ServerMessage::SC(ScView::EntryClose(id));
        if messages[0] != closing || !known.contains_key(id) {
            if all.len() == later.len() {
                assert(all =~= later);
            } else {
                assert(all.skip(1) =~= later);
            }
        }
    }
}

proof fn lemma_cut_drains_less_down(told: Seq<ClientNews>, said: Seq<ClientNews>)
    requires
        cut_short(told, said, ClientNews::Close),
    ensures
        client::entry::drained(told).is_prefix_of(client::entry::drained(said)),
    decreases told.len(),
{
    let less = client::entry::drained(told);
    let all = client::entry::drained(said);
    if told == said {
        assert(less =~= all.take(less.len() as int));
    } else if told.len() == 1 {
        assert(told[0] == told.last());
        assert(less =~= Seq::empty());
        assert(less =~= all.take(0));
    } else {
        let start = told.drop_last();
        assert(start =~= said.take(start.len() as int));
        assert(start[0] == told[0] && said.take(start.len() as int)[0] == said[0]);
        let (told1, said1) = (told.skip(1), said.skip(1));
        assert(told1.drop_last() =~= said1.take(told1.len() - 1)) by {
            assert forall|i: int| 0 <= i < told1.len() - 1 implies told1[i] == said1[i] by {
                assert(told1[i] == start[i + 1]);
                assert(said.take(start.len() as int)[i + 1] == said[i + 1]);
            }
        }
        lemma_cut_drains_less_down(told1, said1);
        let less1 = client::entry::drained(told1);
        let all1 = client::entry::drained(said1);
        assert(less1 =~= all1.take(less1.len() as int));
        match client::entry::told(told[0]) {
            relay::DrainView::Write(buf) => {
                assert(less == buf + less1);
                assert(all == buf + all1);
                assert(less =~= all.take(less.len() as int));
            },
            _ => {
                assert(less =~= all.take(0));
            },
        }
    }
}

/// From client to server: whatever `messages` of however many entries the client puts into a
/// tunnel, and however the server's own messages come between them, an entry that the server has
/// open and that is not opened anew is told all that the messages say for it, in their order, up to
/// and with its close, and nothing else. Where the server itself closes the entry, it is told the
/// start of that, and then the close. All this as long as each payload decrypts to what was
/// encrypted.
pub proof fn law_client_reaches_server<S, T>(
    codes: CsCodes,
    known: Map<u32, client::tunnel::EntryView<S>>,
    messages: Seq<ClientMessage<S>>,
    ciphers: Seq<Seq<u8>>,
    opened: Seq<Seq<u8>>,
    rest: Seq<u8>,
    at_server: Map<u32, T>,
    mixed: Seq<ServerMessage>,
    fresh: Seq<T>,
    id: u32,
)
    requires
        codes.distinct(),
        carried_up(sent_up(known, messages), ciphers, opened),
        server::stream::delivered(
            codes,
            wire_up(codes, sent_up(known, messages), ciphers) + rest,
            opened,
        ) matches Some((received, _)) ==> from_client(mixed) == received,
        at_server.contains_key(id),
        forall|i: int|
            0 <= i < mixed.len() ==> !server::tunnel::reopens(#[trigger] mixed[i], id),
    ensures
        server::stream::delivered(
            codes,
            wire_up(codes, sent_up(known, messages), ciphers) + rest,
            opened,
        ) == Some((sent_up(known, messages), rest)),
        cut_short(
            server::tunnel::told(at_server, mixed, fresh, id),
            said_up(known, messages, id),
            ServerNews::Close,
        ),
        !closed_by_server(mixed, id) ==> server::tunnel::told(at_server, mixed, fresh, id)
            == said_up(known, messages, id),
{
    server::stream::law_messages_arrive(codes, sent_up(known, messages), ciphers, opened, rest);
    server::tunnel::law_entry_is_told_until_its_close(at_server, mixed, fresh, id);
    lemma_mixed_up(mixed, id);
    lemma_heard_up(known, messages, id);
}

/// The destination of an entry that relays is written the bytes that the client's messages carry
/// for it, all of them and in their order, however many entries share the tunnel and whatever else
/// goes through it; or, where the server itself closes the entry, the first of them. All this as
/// long as each payload decrypts to what was encrypted.
pub proof fn law_bytes_reach_destination<S, T>(
    codes: CsCodes,
    known: Map<u32, client::tunnel::EntryView<S>>,
    messages: Seq<ClientMessage<S>>,
    ciphers: Seq<Seq<u8>>,
    opened: Seq<Seq<u8>>,
    rest: Seq<u8>,
    at_server: Map<u32, T>,
    mixed: Seq<ServerMessage>,
    fresh: Seq<T>,
    id: u32,
)
    requires
        codes.distinct(),
        carried_up(sent_up(known, messages), ciphers, opened),
        server::stream::delivered(
            codes,
            wire_up(codes, sent_up(known, messages), ciphers) + rest,
            opened,
        ) matches Some((received, _)) ==> from_client(mixed) == received,
        at_server.contains_key(id),
        forall|i: int|
            0 <= i < mixed.len() ==> !server::tunnel::reopens(#[trigger] mixed[i], id),
    ensures
        server::entry::drained(server::tunnel::told(at_server, mixed, fresh, id)).is_prefix_of(
            uploaded(known, messages, id),
        ),
        !closed_by_server(mixed, id) ==> server::entry::drained(
            server::tunnel::told(at_server, mixed, fresh, id),
        ) == uploaded(known, messages, id),
{
    law_client_reaches_server::<S, T>(
        codes,
        known,
        messages,
        ciphers,
        opened,
        rest,
        at_server,
        mixed,
        fresh,
        id,
    );
    lemma_drained_up(known, messages, id);
    lemma_cut_drains_less_up(
        server::tunnel::told(at_server, mixed, fresh, id),
        said_up(known, messages, id),
    );
}

/// What a run of reads from a local program puts into the tunnel, among whatever messages of other
/// entries and with or without the close of its entry behind it, carries exactly the bytes read, in
/// their order.
pub proof fn law_reads_are_uploaded<S>(
    known: Map<u32, client::tunnel::EntryView<S>>,
    messages: Seq<ClientMessage<S>>,
    reads: Seq<Reading>,
    closes: Seq<ClientMessage<S>>,
    id: u32,
)
    requires
        own_up(messages, id) == client::entry::messages_of::<S>(id, reads) + closes,
        forall|i: int|
            0 <= i < closes.len() ==> #[trigger] closes[i] == ClientMessage::<S>::CS(
                CsView::EntryClose(id),
            ),
    ensures
        uploaded(known, messages, id) == relay::joined(reads),
    decreases messages.len(),
{
    let own = own_up(messages, id);
    let pumped = client::entry::messages_of::<S>(id, reads);
    if messages.len() == 0 {
        assert(own.len() == pumped.len() + closes.len());
        assert(reads.len() == 0);
    } else {
        let rest = messages.skip(1);
        let after = messages[0].settled(known);
        if messages[0] is CS && messages[0].subject() == Some(id) {
            assert(own[0] == messages[0]);
            assert(own.skip(1) =~= own_up(rest, id));
            if reads.len() == 0 {
                assert(own =~= closes);
                assert(closes[0] == messages[0]);
                let fewer = closes.skip(1);
                assert(own_up(rest, id) =~= client::entry::messages_of::<S>(
                    id,
                    Seq::empty(),
                ) + fewer);
                assert(reads =~= Seq::empty());
                law_reads_are_uploaded(after, rest, reads, fewer, id);
            } else {
                assert(own[0] == pumped[0]);
                if client::entry::pumped::<S>(id, reads[0]).more {
                    let later = reads.skip(1);
                    assert(own_up(rest, id) =~= client::entry::messages_of::<S>(
                        id,
                        later,
                    ) + closes);
                    law_reads_are_uploaded(after, rest, later, closes, id);
                } else {
                    assert(own_up(rest, id) =~= client::entry::messages_of::<S>(
                        id,
                        Seq::empty(),
                    ) + closes);
                    law_reads_are_uploaded(after, rest, Seq::empty(), closes, id);
                }
            }
        } else {
            law_reads_are_uploaded(after, rest, reads, closes, id);
        }
    }
}

/// From a local program to its destination: where a run of reads, with or without a close behind
/// it, is what an entry that relays puts into the tunnel, the destination is written the bytes that
/// were read, all of them and in their order, whatever else goes through the tunnel; or, where the
/// server itself closes the entry, the first of them. All this as long as each payload decrypts to
/// what was encrypted.
pub proof fn law_program_reaches_destination<S, T>(
    codes: CsCodes,
    known: Map<u32, client::tunnel::EntryView<S>>,
    messages: Seq<ClientMessage<S>>,
    ciphers: Seq<Seq<u8>>,
    opened: Seq<Seq<u8>>,
    rest: Seq<u8>,
    at_server: Map<u32, T>,
    mixed: Seq<ServerMessage>,
    fresh: Seq<T>,
    id: u32,
    reads: Seq<Reading>,
    closes: Seq<ClientMessage<S>>,
)
    requires
        own_up(messages, id) == client::entry::messages_of::<S>(id, reads) + closes,
        forall|i: int|
            0 <= i < closes.len() ==> #[trigger] closes[i] == ClientMessage::<S>::CS(
                CsView::EntryClose(id),
            ),
        codes.distinct(),
        carried_up(sent_up(known, messages), ciphers, opened),
        server::stream::delivered(
            codes,
            wire_up(codes, sent_up(known, messages), ciphers) + rest,
            opened,
        ) matches Some((received, _)) ==> from_client(mixed) == received,
        at_server.contains_key(id),
        forall|i: int|
            0 <= i < mixed.len() ==> !server::tunnel::reopens(#[trigger] mixed[i], id),
    ensures
        server::entry::drained(server::tunnel::told(at_server, mixed, fresh, id)).is_prefix_of(
            relay::joined(reads),
        ),
        !closed_by_server(mixed, id) ==> server::entry::drained(
            server::tunnel::told(at_server, mixed, fresh, id),
        ) == relay::joined(reads),
{
    law_bytes_reach_destination::<S, T>(
        codes,
        known,
        messages,
        ciphers,
        opened,
        rest,
        at_server,
        mixed,
        fresh,
        id,
    );
    law_reads_are_uploaded(known, messages, reads, closes, id);
}

/// From server to client: whatever `messages` of however many entries the server puts into a
/// tunnel, and however the client's own messages come between them, an entry that the client has
/// open and that is not opened anew is told all that the messages say for it, in their order, up to
/// and with its close, and nothing else. Where the client itself closes the entry, it is told the
/// start of that, and then the close. All this as long as each payload decrypts to what was
/// encrypted.
pub proof fn law_server_reaches_client<S, T>(
    codes: ScCodes,
    known: Map<u32, S>,
    messages: Seq<ServerMessage>,
    fresh: Seq<S>,
    ciphers: Seq<Seq<u8>>,
    opened: Seq<Seq<u8>>,
    rest: Seq<u8>,
    at_client: Map<u32, client::tunnel::EntryView<T>>,
    mixed: Seq<ClientMessage<T>>,
    id: u32,
)
    requires
        codes.distinct(),
        carried_down(sent_down(known, messages, fresh), ciphers, opened),
        client::stream::delivered(
            codes,
            wire_down(codes, sent_down(known, messages, fresh), ciphers) + rest,
            opened,
        ) matches Some((received, _)) ==> from_server(mixed) == received,
        at_client.contains_key(id),
        forall|i: int|
            0 <= i < mixed.len() ==> !client::tunnel::reopens(#[trigger] mixed[i], id),
    ensures
        client::stream::delivered(
            codes,
            wire_down(codes, sent_down(known, messages, fresh), ciphers) + rest,
            opened,
        ) == Some((sent_down(known, messages, fresh), rest)),
        cut_short(
            client::tunnel::told(at_client, mixed, id),
            said_down(known, messages, fresh, id),
            ClientNews::Close,
        ),
        !closed_by_client(mixed, id) ==> client::tunnel::told(at_client, mixed, id) == said_down(
            known,
            messages, fresh,
            id,
        ),
{
    client::stream::law_messages_arrive(
        codes,
        sent_down(known, messages, fresh),
        ciphers,
        opened,
        rest,
    );
    client::tunnel::law_entry_is_told_until_its_close(at_client, mixed, id);
    lemma_mixed_down(mixed, id);
    lemma_heard_down::<S, T>(known, messages, fresh, id);
}

/// The local program of an entry that relays is written the bytes that the server's messages carry
/// for it, all of them and in their order, however many entries share the tunnel and whatever else
/// goes through it; or, where the client itself closes the entry, the first of them. All this as
/// long as each payload decrypts to what was encrypted.
pub proof fn law_bytes_reach_program<S, T>(
    codes: ScCodes,
    known: Map<u32, S>,
    messages: Seq<ServerMessage>,
    fresh: Seq<S>,
    ciphers: Seq<Seq<u8>>,
    opened: Seq<Seq<u8>>,
    rest: Seq<u8>,
    at_client: Map<u32, client::tunnel::EntryView<T>>,
    mixed: Seq<ClientMessage<T>>,
    id: u32,
)
    requires
        codes.distinct(),
        carried_down(sent_down(known, messages, fresh), ciphers, opened),
        client::stream::delivered(
            codes,
            wire_down(codes, sent_down(known, messages, fresh), ciphers) + rest,
            opened,
        ) matches Some((received, _)) ==> from_server(mixed) == received,
        at_client.contains_key(id),
        forall|i: int|
            0 <= i < mixed.len() ==> !client::tunnel::reopens(#[trigger] mixed[i], id),
    ensures
        client::entry::drained(client::tunnel::told(at_client, mixed, id)).is_prefix_of(
            downloaded(known, messages, fresh, id),
        ),
        !closed_by_client(mixed, id) ==> client::entry::drained(
            client::tunnel::told(at_client, mixed, id),
        ) == downloaded(known, messages, fresh, id),
{
    law_server_reaches_client::<S, T>(
        codes,
        known,
        messages,
        fresh,
        ciphers,
        opened,
        rest,
        at_client,
        mixed,
        id,
    );
    lemma_drained_down(known, messages, fresh, id);
    lemma_cut_drains_less_down(
        client::tunnel::told(at_client, mixed, id),
        said_down(known, messages, fresh, id),
    );
}

/// What a run of reads from a destination puts into the tunnel, among whatever messages of other
/// entries and with or without the close of its entry behind it, carries exactly the bytes read, in
/// their order.
pub proof fn law_reads_are_downloaded<S>(
    known: Map<u32, S>,
    messages: Seq<ServerMessage>,
    fresh: Seq<S>,
    reads: Seq<Reading>,
    closes: Seq<ServerMessage>,
    id: u32,
)
    requires
        own_down(messages, id) == server::entry::messages_of(id, reads) + closes,
        forall|i: int|
            0 <= i < closes.len() ==> #[trigger] closes[i] == ServerMessage::SC(
                ScView::EntryClose(id),
            ),
    ensures
        downloaded(known, messages, fresh, id) == relay::joined(reads),
    decreases messages.len(),
{
    let own = own_down(messages, id);
    let pumped = server::entry::messages_of(id, reads);
    if messages.len() == 0 {
        assert(own.len() == pumped.len() + closes.len());
        assert(reads.len() == 0);
    } else {
        let rest = messages.skip(1);
        let after = messages[0].settled(known, fresh[0]);
        if messages[0] is SC && messages[0].subject() == Some(id) {
            assert(own[0] == messages[0]);
            assert(own.skip(1) =~= own_down(rest, id));
            if reads.len() == 0 {
                assert(own =~= closes);
                assert(closes[0] == messages[0]);
                let fewer = closes.skip(1);
                assert(own_down(rest, id) =~= server::entry::messages_of(
                    id,
                    Seq::empty(),
                ) + fewer);
                assert(reads =~= Seq::empty());
                law_reads_are_downloaded(after, rest, fresh.skip(1), reads, fewer, id);
            } else {
                assert(own[0] == pumped[0]);
                if server::entry::pumped(id, reads[0]).more {
                    let later = reads.skip(1);
                    assert(own_down(rest, id) =~= server::entry::messages_of(
                        id,
                        later,
                    ) + closes);
                    law_reads_are_downloaded(after, rest, fresh.skip(1), later, closes, id);
                } else {
                    assert(own_down(rest, id) =~= server::entry::messages_of(
                        id,
                        Seq::empty(),
                    ) + closes);
                    law_reads_are_downloaded(after, rest, fresh.skip(1), Seq::empty(), closes, id);
                }
            }
        } else {
            law_reads_are_downloaded(after, rest, fresh.skip(1), reads, closes, id);
        }
    }
}

/// From a destination to its local program: where a run of reads, with or without a close behind
/// it, is what an entry that relays puts into the tunnel, the local program is written the bytes
/// that were read, all of them and in their order, whatever else goes through the tunnel; or, where
/// the client itself closes the entry, the first of them. All this as long as each payload decrypts
/// to what was encrypted.
pub proof fn law_destination_reaches_program<S, T>(
    codes: ScCodes,
    known: Map<u32, S>,
    messages: Seq<ServerMessage>,
    fresh: Seq<S>,
    ciphers: Seq<Seq<u8>>,
    opened: Seq<Seq<u8>>,
    rest: Seq<u8>,
    at_client: Map<u32, client::tunnel::EntryView<T>>,
    mixed: Seq<ClientMessage<T>>,
    id: u32,
    reads: Seq<Reading>,
    closes: Seq<ServerMessage>,
)
    requires
        own_down(messages, id) == server::entry::messages_of(id, reads) + closes,
        forall|i: int|
            0 <= i < closes.len() ==> #[trigger] closes[i] == ServerMessage::SC(
                ScView::EntryClose(id),
            ),
        codes.distinct(),
        carried_down(sent_down(known, messages, fresh), ciphers, opened),
        client::stream::delivered(
            codes,
            wire_down(codes, sent_down(known, messages, fresh), ciphers) + rest,
            opened,
        ) matches Some((received, _)) ==> from_server(mixed) == received,
        at_client.contains_key(id),
        forall|i: int|
            0 <= i < mixed.len() ==> !client::tunnel::reopens(#[trigger] mixed[i], id),
    ensures
        client::entry::drained(client::tunnel::told(at_client, mixed, id)).is_prefix_of(
            relay::joined(reads),
        ),
        !closed_by_client(mixed, id) ==> client::entry::drained(
            client::tunnel::told(at_client, mixed, id),
        ) == relay::joined(reads),
{
    law_bytes_reach_program::<S, T>(
        codes,
        known,
        messages,
        fresh,
        ciphers,
        opened,
        rest,
        at_client,
        mixed,
        id,
    );
    law_reads_are_downloaded(known, messages, fresh, reads, closes, id);
}

/// The whole stream of a client: the server reads the id of the tunnel, the counter, and the
/// greeting, and then the messages of the client in their order; as long as the greeting and each
/// payload decrypt to what was encrypted.
pub proof fn law_stream_is_heard(
    codes: CsCodes,
    verify_data: Seq<u8>,
    tunnel_id: u32,
    ctr: Seq<u8>,
    sealed: Seq<u8>,
    frames: Seq<CsFrameView>,
    ciphers: Seq<Seq<u8>>,
    opened: Seq<Seq<u8>>,
    rest: Seq<u8>,
)
    requires
        codes.distinct(),
        sealed.len() == verify_data.len(),
        carried_up(frames, ciphers, opened),
    ensures
        ({
            let wire = wire_up(codes, frames, ciphers);
            let s = bytes::be32(tunnel_id) + (ctr + sealed + (wire + rest));
            &&& bytes::be32_value(s.take(4)) == tunnel_id
            &&& server::stream::read_opening(
                codes,
                verify_data,
                ctr.len(),
                s.skip(4),
                verify_data,
            ) == Some(
                server::stream::Opening {
                    ctr,
                    sealed,
                    reader: server::stream::CsReaderView::Op,
                    rest: wire + rest,
                },
            )
            &&& server::stream::delivered(codes, wire + rest, opened) == Some((frames, rest))
        }),
{
    let wire = wire_up(codes, frames, ciphers);
    let s = bytes::be32(tunnel_id) + (ctr + sealed + (wire + rest));
    bytes::law_be32_read_back(tunnel_id);
    assert(s.take(4) =~= bytes::be32(tunnel_id));
    assert(s.skip(4) =~= ctr + sealed + (wire + rest));
    server::stream::law_opening_read_back(
        codes,
        verify_data,
        ctr,
        sealed,
        wire + rest,
        verify_data,
    );
    server::stream::law_messages_arrive(codes, frames, ciphers, opened, rest);
}

} // verus!
