use super::client::ClientView;
use super::server::{
    after_broadcast,
    farewells,
    framable,
    gathered,
    ingest_one,
    leavers,
    refusal,
    relay,
    survivors,
    ServerView,
};
use crate::common::codec::Codec;
use crate::common::commands::{ClientCommand, ClientCommandView, ServerCommand, ServerCommandView};
use crate::common::connection::frame;
use crate::common::error::ErrorKind;
use crate::common::stream::StreamView;
use vstd::prelude::*;

verus! {

/// The bytes of a queue of commands on the wire: the frame of each command,
/// one after the other, in the order of the queue.
pub open spec fn wire(queue: Seq<ServerCommandView>) -> Seq<u8>
    decreases queue.len(),
{
    if queue.len() == 0 {
        Seq::empty()
    } else {
        wire(queue.drop_last()) + frame(ServerCommand::encoding(queue.last()))
    }
}

/// The client with `bytes` behind everything that was written to its stream
/// before, and all of it flushed.
pub open spec fn with_sent(client: ClientView, bytes: Seq<u8>) -> ClientView {
    let stream = client.peer.connection.stream;
    client.with_peer(
        client.peer.with_stream(
            StreamView {
                buffered: Seq::empty(),
                departing: stream.departing + stream.buffered + bytes,
                ..stream
            },
        ),
    )
}

/// A broadcast reaches a client whole and in order. A client that is
/// connected, and whose stream takes writes, stays so through the broadcast
/// of commands that fit in a frame; the frames of the queue, in the order of
/// the queue, come to stand behind what was written to its stream before, all
/// of it flushed; and nothing else of the client changes. An empty queue
/// changes nothing at all.
pub proof fn lemma_broadcast_in_order(client: ClientView, queue: Seq<ServerCommandView>)
    requires
        client.peer.connected,
        client.peer.connection.write_error() is None,
        forall|i: int| 0 <= i < queue.len() ==> framable(#[trigger] queue[i]),
    ensures
        after_broadcast(client, queue) == if queue.len() == 0 {
            client
        } else {
            with_sent(client, wire(queue))
        },
        after_broadcast(client, queue).peer.connected,
        after_broadcast(client, queue).peer.connection.write_error() is None,
    decreases queue.len(),
{
    if queue.len() > 0 {
        let earlier = queue.drop_last();
        assert(framable(queue[queue.len() - 1]));
        lemma_broadcast_in_order(client, earlier);
        let before = after_broadcast(client, earlier);
        let payload = ServerCommand::encoding(queue.last());
        let after = before.after_send(payload).after_flush();
        let stream = client.peer.connection.stream;
        assert(after.peer.connection.stream.departing =~= stream.departing + stream.buffered
            + wire(queue));
    }
}

/// A disconnected client takes no part in a broadcast.
pub proof fn lemma_broadcast_skips_disconnected(client: ClientView, queue: Seq<ServerCommandView>)
    requires
        !client.peer.connected,
    ensures
        after_broadcast(client, queue) == client,
    decreases queue.len(),
{
    if queue.len() > 0 {
        lemma_broadcast_skips_disconnected(client, queue.drop_last());
    }
}

/// What one tick broadcasts to a client. In a tick that the listener does not
/// end, the commands that are broadcast are those left by the tick before,
/// followed by what the clients' commands of this tick became; they do not
/// depend on who is found disconnected in this tick. Every client that is
/// connected after the ingest step, and whose stream takes writes, has the
/// frames of all those commands, in order, behind what was written to its
/// stream before.
pub proof fn lemma_tick_fan_out(s: ServerView, i: int)
    requires
        s.wf(),
        s.listener_error() is None,
        0 <= i < s.after_count().after_poll_listener().clients.len(),
        s.after_count().after_poll_listener().after_ingest().clients[i].peer.connected,
        s.after_count().after_poll_listener().after_ingest().clients[i].peer.connection.write_error()
            is None,
    ensures
        ({
            let accepted = s.after_count().after_poll_listener();
            let ingested = accepted.after_ingest();
            let client = ingested.clients[i];
            &&& s.tick().sent == ingested.queue
            &&& ingested.queue == s.queue + gathered(
                accepted.clients,
                accepted.clients.len(),
                accepted.messages_issued,
            ).0
            &&& ingested.after_broadcast().clients[i] == if ingested.queue.len() == 0 {
                client
            } else {
                with_sent(client, wire(ingested.queue))
            }
        }),
{
    let accepted = s.after_count().after_poll_listener();
    let ingested = accepted.after_ingest();
    super::server::lemma_gathered_framable(
        accepted.clients,
        accepted.clients.len(),
        accepted.messages_issued,
    );
    assert forall|k: int| 0 <= k < ingested.queue.len() implies framable(
        #[trigger] ingested.queue[k],
    ) by {
        if k < s.queue.len() {
            assert(ingested.queue[k] == s.queue[k]);
        } else {
            assert(ingested.queue[k] == gathered(
                accepted.clients,
                accepted.clients.len(),
                accepted.messages_issued,
            ).0[k - s.queue.len()]);
        }
    }
    lemma_broadcast_in_order(ingested.clients[i], ingested.queue);
}

/// What the ingest step gathers holds no notice that a user left: those are
/// queued by the prune step only.
pub proof fn lemma_gathered_no_notice(clients: Seq<ClientView>, k: nat, issued: nat)
    ensures
        forall|i: int|
            0 <= i < gathered(clients, k, issued).0.len() ==> !(#[trigger] gathered(
                clients,
                k,
                issued,
            ).0[i] is RemoveUser),
    decreases k,
{
    if k > 0 {
        lemma_gathered_no_notice(clients, (k - 1) as nat, issued);
    }
}

/// Pruning sorts the clients in two. Every one of the first `k` clients that
/// is connected is among the survivors; for every one that is not, a notice
/// that it left is among the farewells, and no survivor has its identity.
/// Every survivor is connected and is one of the clients, and every farewell
/// is the notice for a client that is disconnected.
pub proof fn lemma_prune_sorts(clients: Seq<ClientView>, k: nat)
    requires
        k <= clients.len(),
        forall|i: int, j: int|
            0 <= i < j < clients.len() ==> (#[trigger] clients[i]).user_id != (
            #[trigger] clients[j]).user_id,
    ensures
        forall|i: int|
            0 <= i < k && (#[trigger] clients[i]).peer.connected ==> survivors(
                clients,
                k,
            ).contains(clients[i]),
        forall|i: int|
            0 <= i < k && !(#[trigger] clients[i]).peer.connected ==> farewells(
                clients,
                k,
            ).contains(ServerCommandView::RemoveUser { user_id: clients[i].user_id }),
        forall|j: int|
            0 <= j < survivors(clients, k).len() ==> {
                &&& (#[trigger] survivors(clients, k)[j]).peer.connected
                &&& exists|i: int| 0 <= i < k && clients[i] == survivors(clients, k)[j]
            },
        forall|j: int|
            0 <= j < farewells(clients, k).len() ==> exists|i: int|
                0 <= i < k && !clients[i].peer.connected && #[trigger] farewells(clients, k)[j]
                    == (ServerCommandView::RemoveUser { user_id: clients[i].user_id }),
        forall|i: int, j: int|
            0 <= i < k && !(#[trigger] clients[i]).peer.connected && 0 <= j < survivors(
                clients,
                k,
            ).len() ==> (#[trigger] survivors(clients, k)[j]).user_id != clients[i].user_id,
    decreases k,
{
    if k > 0 {
        let prev = (k - 1) as nat;
        lemma_prune_sorts(clients, prev);
        let kept = survivors(clients, k);
        let gone = farewells(clients, k);
        let last = clients[k - 1];
        if last.peer.connected {
            assert(kept == survivors(clients, prev).push(last));
            assert(kept[kept.len() - 1] == last);
            assert forall|i: int| 0 <= i < k && (#[trigger] clients[i]).peer.connected implies kept.contains(
                clients[i],
            ) by {
                if i < k - 1 {
                    let j = choose|j: int|
                        0 <= j < survivors(clients, prev).len() && survivors(clients, prev)[j]
                            == clients[i];
                    assert(kept[j] == clients[i]);
                }
            }
            assert forall|j: int| 0 <= j < kept.len() implies {
                &&& (#[trigger] kept[j]).peer.connected
                &&& exists|i: int| 0 <= i < k && clients[i] == kept[j]
            } by {
                if j < kept.len() - 1 {
                    assert(kept[j] == survivors(clients, prev)[j]);
                    let i = choose|i: int| 0 <= i < prev && clients[i] == survivors(clients, prev)[j];
                    assert(0 <= i < k && clients[i] == kept[j]);
                } else {
                    assert(clients[k - 1] == kept[j]);
                }
            }
            assert forall|i: int, j: int|
                0 <= i < k && !(#[trigger] clients[i]).peer.connected && 0 <= j
                    < kept.len() implies (#[trigger] kept[j]).user_id != clients[i].user_id by {
                if j < kept.len() - 1 {
                    assert(kept[j] == survivors(clients, prev)[j]);
                } else {
                    assert(kept[j] == clients[k - 1]);
                }
            }
        } else {
            let notice = ServerCommandView::RemoveUser { user_id: last.user_id };
            assert(gone == farewells(clients, prev).push(notice));
            assert(gone[gone.len() - 1] == notice);
            assert forall|i: int|
                0 <= i < k && !(#[trigger] clients[i]).peer.connected implies gone.contains(
                ServerCommandView::RemoveUser { user_id: clients[i].user_id },
            ) by {
                if i < k - 1 {
                    let target = ServerCommandView::RemoveUser { user_id: clients[i].user_id };
                    let j = choose|j: int|
                        0 <= j < farewells(clients, prev).len() && farewells(clients, prev)[j]
                            == target;
                    assert(gone[j] == target);
                }
            }
            assert forall|j: int| 0 <= j < gone.len() implies exists|i: int|
                0 <= i < k && !clients[i].peer.connected && #[trigger] gone[j] == (
                ServerCommandView::RemoveUser { user_id: clients[i].user_id }) by {
                if j < gone.len() - 1 {
                    assert(gone[j] == farewells(clients, prev)[j]);
                    let i = choose|i: int|
                        0 <= i < prev && !clients[i].peer.connected && farewells(clients, prev)[j]
                            == (ServerCommandView::RemoveUser { user_id: clients[i].user_id });
                    assert(0 <= i < k);
                } else {
                    assert(!clients[k - 1].peer.connected);
                }
            }
            assert forall|i: int, j: int|
                0 <= i < k && !(#[trigger] clients[i]).peer.connected && 0 <= j
                    < kept.len() implies (#[trigger] kept[j]).user_id != clients[i].user_id by {
                if i == k - 1 {
                    let m = choose|m: int| 0 <= m < prev && clients[m] == survivors(clients, prev)[j];
                    assert(clients[m].user_id != clients[k - 1].user_id);
                }
            }
        }
    }
}

/// A departure is announced in the next tick. After a tick that the listener
/// does not end, the clients that remain are exactly those found connected
/// when the tick's broadcast was over, and the queue left for the next tick
/// holds exactly one notice for each client found disconnected, none of whose
/// identities remains among the clients. That queue is the first thing that
/// the next tick broadcasts.
pub proof fn lemma_tick_announces_departures(s: ServerView)
    requires
        s.wf(),
        s.listener_error() is None,
    ensures
        ({
            let sent = s.after_count().after_poll_listener().after_ingest().after_broadcast();
            let k = sent.clients.len();
            &&& s.tick().clients == survivors(sent.clients, k)
            &&& s.tick().queue == farewells(sent.clients, k)
            &&& s.tick().removed == leavers(sent.clients, k)
            &&& forall|i: int|
                0 <= i < k && (#[trigger] sent.clients[i]).peer.connected
                    ==> s.tick().clients.contains(sent.clients[i])
            &&& forall|i: int|
                0 <= i < k && !(#[trigger] sent.clients[i]).peer.connected
                    ==> s.tick().queue.contains(
                    ServerCommandView::RemoveUser { user_id: sent.clients[i].user_id },
                )
            &&& forall|i: int, j: int|
                0 <= i < k && !(#[trigger] sent.clients[i]).peer.connected && 0 <= j
                    < s.tick().clients.len() ==> (#[trigger] s.tick().clients[j]).user_id
                    != sent.clients[i].user_id
            &&& forall|j: int|
                0 <= j < s.tick().clients.len() ==> (#[trigger] s.tick().clients[j]).peer.connected
        }),
{
    let accepted = s.after_count().after_poll_listener();
    let ingested = accepted.after_ingest();
    let sent = ingested.after_broadcast();
    assert(sent.queue + farewells(sent.clients, sent.clients.len()) =~= farewells(
        sent.clients,
        sent.clients.len(),
    ));
    super::server::lemma_identities_kept(s);
    lemma_prune_sorts(sent.clients, sent.clients.len());
}

/// What one command becomes in the queue, and the number of message
/// identities minted once it is queued, `issued` having been minted before.
/// A command that cannot be broadcast becomes nothing.
pub open spec fn relayed(cmd: ClientCommandView, user_id: u16, issued: nat) -> (
    Seq<ServerCommandView>,
    nat,
) {
    match relay(cmd, user_id, (issued + 1) as u16) {
        None => (Seq::empty(), issued),
        Some(out) => if refusal(out, issued) is Some {
            (Seq::empty(), issued)
        } else {
            (
                seq![out],
                if out is Message {
                    issued + 1
                } else {
                    issued
                },
            )
        },
    }
}

/// When only the client at `i` yields a command, what is gathered from the
/// first `k` clients is what that command becomes, once `k` is past `i`.
proof fn lemma_gathered_single(
    clients: Seq<ClientView>,
    k: nat,
    issued: nat,
    i: int,
    cmd: ClientCommandView,
)
    requires
        0 <= i < clients.len(),
        k <= clients.len(),
        clients[i].poll().1 == Some(cmd),
        forall|j: int| 0 <= j < clients.len() && j != i ==> (#[trigger] clients[j].poll()).1 is None,
    ensures
        gathered(clients, k, issued) == if i < k {
            relayed(cmd, clients[i].user_id, issued)
        } else {
            (Seq::<ServerCommandView>::empty(), issued)
        },
    decreases k,
{
    if k > 0 {
        lemma_gathered_single(clients, (k - 1) as nat, issued, i, cmd);
        if k - 1 == i {
            let out = relay(cmd, clients[i].user_id, (issued + 1) as u16);
            if out is Some {
                assert(Seq::<ServerCommandView>::empty().push(out->0) =~= seq![out->0]);
            }
        } else {
            assert(clients[k - 1].poll().1 is None);
        }
    }
}

/// A command fans out. Take a tick in which the listener neither fails nor
/// has a connection pending, the client at `i` is connected and awaits a
/// frame, the unread bytes of its stream begin with the frame of `cmd`, what
/// `cmd` becomes can be broadcast, and no other client yields a command. Then
/// the commands that are broadcast are those queued before, followed by what
/// `cmd` becomes; and the client at `j`, if it is connected after its poll
/// and its stream takes writes, has the frames of those commands, in order,
/// behind what was written to its stream before. This holds for the sender
/// as for everybody else.
pub proof fn lemma_command_fans_out(s: ServerView, i: int, cmd: ClientCommandView, j: int)
    requires
        s.wf(),
        !s.accepts(),
        s.listener_error() is None,
        0 <= i < s.clients.len(),
        0 <= j < s.clients.len(),
        s.clients[i].peer.connected,
        s.clients[i].peer.connection.awaits_frame(),
        ClientCommand::representable(cmd),
        ClientCommand::encoding(cmd).len() <= crate::common::codec::MAX_LEN,
        frame(ClientCommand::encoding(cmd)).is_prefix_of(s.stream(i).unread),
        relay(cmd, s.clients[i].user_id, (s.messages_issued + 1) as u16) matches Some(out)
            ==> refusal(out, s.messages_issued) is None,
        forall|k: int|
            0 <= k < s.clients.len() && k != i ==> (#[trigger] s.clients[k].poll()).1 is None,
        s.clients[j].poll().0.peer.connected,
        s.clients[j].poll().0.peer.connection.write_error() is None,
    ensures
        ({
            let sent = s.queue + relayed(cmd, s.clients[i].user_id, s.messages_issued).0;
            let receiver = s.clients[j].poll().0;
            &&& s.tick().sent == sent
            &&& s.tick().messages_issued == relayed(
                cmd,
                s.clients[i].user_id,
                s.messages_issued,
            ).1
            &&& s.after_count().after_poll_listener().after_ingest().after_broadcast().clients[j]
                == if sent.len() == 0 {
                receiver
            } else {
                with_sent(receiver, wire(sent))
            }
        }),
{
    let sender = s.clients[i];
    let whole = frame(ClientCommand::encoding(cmd));
    let rest = s.stream(i).unread.skip(whole.len() as int);
    assert(s.stream(i).unread =~= whole + rest);
    crate::common::connection::lemma_receive_frame::<ClientCommand>(
        sender.peer.connection,
        cmd,
        rest,
    );
    assert(sender.poll().1 == Some(cmd));
    let accepted = s.after_count().after_poll_listener();
    assert(accepted.clients == s.clients);
    lemma_gathered_single(s.clients, s.clients.len(), s.messages_issued, i, cmd);
    lemma_gathered_single(s.clients, j as nat, s.messages_issued, i, cmd);
    assert(accepted.after_ingest().clients[j] == s.clients[j].poll().0);
    lemma_tick_fan_out(s, j);
}

/// A client whose stream has ended leaves. Take a tick that the listener does
/// not end, and a connected client whose connection still misses bytes while
/// the remote end has closed the stream and nothing is left unread. The client
/// is found disconnected in this tick and is sent nothing: after the tick no
/// client has its identity, it is among the clients removed, and the notice
/// that it left waits in the queue for the next tick.
pub proof fn lemma_closed_client_leaves(s: ServerView, i: int)
    requires
        s.wf(),
        s.listener_error() is None,
        0 <= i < s.clients.len(),
        s.clients[i].peer.connected,
        s.clients[i].peer.connection.mode != crate::common::connection::ReadMode::Parse,
        s.clients[i].peer.connection.buffer.missing() > 0,
        s.stream(i).unread.len() == 0,
        s.stream(i).link == crate::common::stream::LinkState::Closed,
        !s.stream(i).shut_down,
    ensures
        s.tick().queue.contains(ServerCommandView::RemoveUser { user_id: s.clients[i].user_id }),
        forall|j: int|
            0 <= j < s.tick().clients.len() ==> (#[trigger] s.tick().clients[j]).user_id
                != s.clients[i].user_id,
        s.after_count().after_poll_listener().after_ingest().after_broadcast().clients[i]
            == s.clients[i].poll().0,
        s.clients[i].poll().0.peer.fault == Some(ErrorKind::UnexpectedEof),
{
    let client = s.clients[i];
    crate::common::connection::lemma_receive_end::<ClientCommand>(client.peer.connection);
    let accepted = s.after_count().after_poll_listener();
    assert(accepted.clients[i] == client);
    let ingested = accepted.after_ingest();
    assert(ingested.clients[i] == client.poll().0);
    assert(!ingested.clients[i].peer.connected);
    lemma_broadcast_skips_disconnected(ingested.clients[i], ingested.queue);
    let sent = ingested.after_broadcast();
    assert(!sent.clients[i].peer.connected);
    assert(sent.clients[i].user_id == client.user_id);
    lemma_tick_announces_departures(s);
}

/// No departure is announced in the tick that finds it. In a tick that the
/// listener does not end, the commands that are broadcast hold no notice
/// that a user left for any client that the tick polls: the notice for a
/// client found disconnected in this tick waits for the next.
pub proof fn lemma_departure_waits(s: ServerView, i: int)
    requires
        s.wf(),
        s.listener_error() is None,
        0 <= i < s.after_count().after_poll_listener().clients.len(),
    ensures
        !s.tick().sent.contains(
            ServerCommandView::RemoveUser {
                user_id: s.after_count().after_poll_listener().clients[i].user_id,
            },
        ),
{
    let accepted = s.after_count().after_poll_listener();
    let user_id = accepted.clients[i].user_id;
    let notice = ServerCommandView::RemoveUser { user_id };
    let found = gathered(accepted.clients, accepted.clients.len(), accepted.messages_issued).0;
    lemma_gathered_no_notice(accepted.clients, accepted.clients.len(), accepted.messages_issued);
    let sent = s.tick().sent;
    assert(sent == s.queue + found);
    assert forall|m: int| 0 <= m < sent.len() implies sent[m] != notice by {
        if m < s.queue.len() {
            assert(sent[m] == s.queue[m]);
            if s.queue[m] == notice {
                assert(super::server::unheld(s.clients, 0, user_id));
                if i < s.clients.len() {
                    assert(s.clients[i].user_id != user_id);
                }
            }
        } else {
            assert(sent[m] == found[m - s.queue.len()]);
        }
    }
}

/// A departure is announced once. In a tick that the listener does not end, a
/// notice that waits in the queue is broadcast, ahead of everything that this
/// tick gathers; no client has the identity that it names, before the tick or
/// after it; and the queue left for the next tick does not hold the notice
/// again.
pub proof fn lemma_notice_is_announced_once(s: ServerView, i: int, user_id: u16)
    requires
        s.wf(),
        s.listener_error() is None,
        0 <= i < s.queue.len(),
        s.queue[i] == (ServerCommandView::RemoveUser { user_id }),
    ensures
        s.queue.is_prefix_of(s.tick().sent),
        s.tick().sent[i] == s.queue[i],
        forall|j: int| 0 <= j < s.clients.len() ==> (#[trigger] s.clients[j]).user_id != user_id,
        forall|j: int|
            0 <= j < s.tick().clients.len() ==> (#[trigger] s.tick().clients[j]).user_id != user_id,
        !s.tick().queue.contains(ServerCommandView::RemoveUser { user_id }),
{
    let accepted = s.after_count().after_poll_listener();
    let sent = accepted.after_ingest().after_broadcast();
    let k = sent.clients.len();
    assert(super::server::unheld(s.clients, 0, user_id));
    super::server::lemma_identities_kept(s);
    lemma_prune_sorts(sent.clients, k);
    lemma_tick_announces_departures(s);
    assert forall|m: int| 0 <= m < k implies (#[trigger] sent.clients[m]).user_id != user_id by {
        assert(sent.clients[m].user_id == accepted.clients[m].user_id);
        if m < s.clients.len() {
            assert(accepted.clients[m] == s.clients[m]);
            assert(s.clients[m].user_id != user_id);
        }
    }
    assert forall|j: int| 0 <= j < s.tick().clients.len() implies (
    #[trigger] s.tick().clients[j]).user_id != user_id by {
        let m = choose|m: int| 0 <= m < k && sent.clients[m] == survivors(sent.clients, k)[j];
        assert(sent.clients[m].user_id != user_id);
    }
    let left = farewells(sent.clients, k);
    assert forall|j: int| 0 <= j < left.len() implies left[j] != (
    ServerCommandView::RemoveUser { user_id }) by {
        let m = choose|m: int|
            0 <= m < k && !sent.clients[m].peer.connected && #[trigger] left[j] == (
            ServerCommandView::RemoveUser { user_id: sent.clients[m].user_id });
        assert(sent.clients[m].user_id != user_id);
    }
}

/// A tick that loses nobody keeps everybody. In a tick that the listener
/// does not end, when every client is still connected once the broadcast is
/// over, the clients after the tick are those very clients, nobody was
/// removed, and the queue is left empty.
pub proof fn lemma_healthy_tick(s: ServerView)
    requires
        s.wf(),
        s.listener_error() is None,
        forall|i: int|
            0 <= i < s.after_count().after_poll_listener().clients.len() ==> (
            #[trigger] s.after_count().after_poll_listener().after_ingest().after_broadcast().clients[i]).peer.connected,
    ensures
        s.tick().clients
            == s.after_count().after_poll_listener().after_ingest().after_broadcast().clients,
        s.tick().queue == Seq::<ServerCommandView>::empty(),
        s.tick().removed == Seq::<ClientView>::empty(),
{
    let sent = s.after_count().after_poll_listener().after_ingest().after_broadcast();
    lemma_all_survive(sent.clients, sent.clients.len());
    assert(sent.clients.take(sent.clients.len() as int) =~= sent.clients);
    assert(sent.queue + farewells(sent.clients, sent.clients.len()) =~= Seq::empty());
}

/// When the first `k` clients are all connected, all of them survive and
/// none leaves.
proof fn lemma_all_survive(clients: Seq<ClientView>, k: nat)
    requires
        k <= clients.len(),
        forall|i: int| 0 <= i < k ==> (#[trigger] clients[i]).peer.connected,
    ensures
        survivors(clients, k) == clients.take(k as int),
        farewells(clients, k) == Seq::<ServerCommandView>::empty(),
        leavers(clients, k) == Seq::<ClientView>::empty(),
    decreases k,
{
    if k > 0 {
        lemma_all_survive(clients, (k - 1) as nat);
        assert(clients.take(k as int) =~= clients.take(k - 1).push(clients[k - 1]));
    } else {
        assert(clients.take(0) =~= Seq::empty());
    }
}

/// A command reaches everyone. Take a tick in which the listener neither
/// fails nor has a connection pending, the client at `i` holds the frame of
/// `cmd`, what `cmd` becomes can be broadcast, and every other client is
/// quiet. The tick broadcasts what was queued before followed by what `cmd`
/// becomes. Every client, the sender too, stays connected and has the frames
/// of those commands, in order and flushed, behind what was written to its
/// stream before; the sender's stream has given up the frame of `cmd` and
/// nothing else of any client changes. Nobody is removed, and the queue is
/// left empty.
pub proof fn lemma_command_reaches_everyone(
    s: ServerView,
    i: int,
    cmd: ClientCommandView,
    rest: Seq<u8>,
)
    requires
        s.wf(),
        !s.accepts(),
        s.listener_error() is None,
        0 <= i < s.clients.len(),
        s.clients[i].holds(cmd, rest),
        relay(cmd, s.clients[i].user_id, (s.messages_issued + 1) as u16) matches Some(out)
            ==> refusal(out, s.messages_issued) is None,
        forall|k: int| 0 <= k < s.clients.len() && k != i ==> (#[trigger] s.clients[k]).quiet(),
    ensures
        ({
            let sent = s.queue + relayed(cmd, s.clients[i].user_id, s.messages_issued).0;
            &&& s.tick().sent == sent
            &&& s.tick().messages_issued == relayed(
                cmd,
                s.clients[i].user_id,
                s.messages_issued,
            ).1
            &&& s.tick().users_issued == s.users_issued
            &&& s.tick().queue == Seq::<ServerCommandView>::empty()
            &&& s.tick().removed == Seq::<ClientView>::empty()
            &&& s.tick().clients.len() == s.clients.len()
            &&& forall|j: int|
                0 <= j < s.clients.len() ==> #[trigger] s.tick().clients[j] == if sent.len() == 0 {
                    s.clients[j].poll().0
                } else {
                    with_sent(s.clients[j].poll().0, wire(sent))
                }
            &&& forall|j: int|
                0 <= j < s.clients.len() && j != i ==> (#[trigger] s.clients[j]).poll().0
                    == s.clients[j]
            &&& forall|j: int|
                0 <= j < s.clients.len() ==> (#[trigger] s.tick().clients[j]).peer.connected
                    && s.tick().clients[j].user_id == s.clients[j].user_id
            &&& s.clients[i].poll().0.peer.connected
            &&& s.clients[i].poll().0.peer.connection.awaits_frame()
            &&& s.clients[i].poll().0.peer.connection.stream == (StreamView {
                unread: rest,
                ..s.clients[i].peer.connection.stream
            })
        }),
{
    let sender = s.clients[i];
    super::client::lemma_holding_poll(sender, cmd, rest);
    assert forall|k: int| 0 <= k < s.clients.len() && k != i implies (
    #[trigger] s.clients[k].poll()).1 is None && s.clients[k].poll().0 == s.clients[k] by {
        super::client::lemma_quiet_poll(s.clients[k]);
    }
    let accepted = s.after_count().after_poll_listener();
    assert(accepted.clients == s.clients);
    let ingested = accepted.after_ingest();
    let sent = ingested.after_broadcast();
    let commands = s.queue + relayed(cmd, s.clients[i].user_id, s.messages_issued).0;
    lemma_gathered_single(s.clients, s.clients.len(), s.messages_issued, i, cmd);
    assert forall|j: int| 0 <= j < s.clients.len() implies (#[trigger] sent.clients[j]).peer.connected
        && sent.clients[j] == if commands.len() == 0 {
        s.clients[j].poll().0
    } else {
        with_sent(s.clients[j].poll().0, wire(commands))
    } by {
        lemma_gathered_single(s.clients, j as nat, s.messages_issued, i, cmd);
        assert(ingested.clients[j] == s.clients[j].poll().0);
        if j != i {
            super::client::lemma_quiet_poll(s.clients[j]);
        }
        lemma_tick_fan_out(s, j);
    }
    lemma_healthy_tick(s);
}

/// The bytes of two queues on the wire, one after the other, are the bytes
/// of the two queues joined.
pub proof fn lemma_wire_joins(first: Seq<ServerCommandView>, second: Seq<ServerCommandView>)
    ensures
        wire(first + second) == wire(first) + wire(second),
    decreases second.len(),
{
    if second.len() == 0 {
        assert(first + second =~= first);
        assert(wire(first) + wire(second) =~= wire(first));
    } else {
        lemma_wire_joins(first, second.drop_last());
        assert((first + second).drop_last() =~= first + second.drop_last());
        assert((first + second).last() == second.last());
        assert(wire(first + second) =~= wire(first) + wire(second));
    }
}

/// Everything that was ever written to the stream of a client and has not
/// been carried away: what is departing, then what is still buffered.
pub open spec fn outgoing(client: ClientView) -> Seq<u8> {
    client.peer.connection.stream.departing + client.peer.connection.stream.buffered
}

/// Two commands reach everyone in the order in which they were sent. Take a
/// server with an empty queue whose listener neither fails nor has a
/// connection pending, the client at `i` holding the frame of `first`
/// followed by the frame of `second`, both of which can be broadcast, and
/// every other client quiet. Two ticks in a row broadcast what `first`
/// becomes and then what `second` becomes. After them every client, the
/// sender too, is connected and has the frames of what `first` became and
/// then of what `second` became, and nothing else, behind what was written to
/// its stream before. The second tick is taken from a well-formed server, as
/// the first leaves it.
pub proof fn lemma_two_commands_reach_everyone(
    s: ServerView,
    i: int,
    first: ClientCommandView,
    second: ClientCommandView,
    j: int,
)
    requires
        s.wf(),
        s.tick().wf(),
        !s.accepts(),
        s.listener_error() is None,
        s.queue.len() == 0,
        0 <= i < s.clients.len(),
        0 <= j < s.clients.len(),
        s.clients[i].holds(first, frame(ClientCommand::encoding(second))),
        ClientCommand::representable(second),
        ClientCommand::encoding(second).len() <= crate::common::codec::MAX_LEN,
        relay(first, s.clients[i].user_id, (s.messages_issued + 1) as u16) matches Some(out)
            ==> refusal(out, s.messages_issued) is None,
        relay(
            second,
            s.clients[i].user_id,
            (relayed(first, s.clients[i].user_id, s.messages_issued).1 + 1) as u16,
        ) matches Some(out) ==> refusal(
            out,
            relayed(first, s.clients[i].user_id, s.messages_issued).1,
        ) is None,
        forall|k: int| 0 <= k < s.clients.len() && k != i ==> (#[trigger] s.clients[k]).quiet(),
    ensures
        ({
            let user_id = s.clients[i].user_id;
            let one = relayed(first, user_id, s.messages_issued);
            let two = relayed(second, user_id, one.1);
            &&& s.tick().sent == one.0
            &&& s.tick().tick().sent == two.0
            &&& s.tick().tick().messages_issued == two.1
            &&& s.tick().tick().queue == Seq::<ServerCommandView>::empty()
            &&& s.tick().tick().clients.len() == s.clients.len()
            &&& s.tick().tick().clients[j].peer.connected
            &&& s.tick().tick().clients[j].user_id == s.clients[j].user_id
            &&& outgoing(s.tick().tick().clients[j]) == outgoing(s.clients[j]) + wire(one.0) + wire(
                two.0,
            )
            &&& two.0.len() > 0 ==> s.tick().tick().clients[j].peer.connection.stream.buffered
                == Seq::<u8>::empty()
        }),
{
    let user_id = s.clients[i].user_id;
    let rest = frame(ClientCommand::encoding(second));
    let one = relayed(first, user_id, s.messages_issued);
    let two = relayed(second, user_id, one.1);
    lemma_command_reaches_everyone(s, i, first, rest);
    assert(s.queue + one.0 =~= one.0);
    let t = s.tick();
    assert(t.listener == s.listener);
    assert forall|k: int| 0 <= k < t.clients.len() && k != i implies (#[trigger] t.clients[k]).quiet() by {
        assert(s.clients[k].quiet());
        assert(s.clients[k].poll().0 == s.clients[k]);
    }
    assert(rest + Seq::<u8>::empty() =~= rest);
    assert(t.clients[i].holds(second, Seq::empty()));
    lemma_command_reaches_everyone(t, i, second, Seq::empty());
    assert(t.queue + two.0 =~= two.0);
    let u = t.tick();
    let start = s.clients[j].peer.connection.stream;
    let middle = t.clients[j].peer.connection.stream;
    let end = u.clients[j].peer.connection.stream;
    assert(wire(Seq::<ServerCommandView>::empty()) =~= Seq::<u8>::empty());
    assert(middle.departing + middle.buffered =~= start.departing + start.buffered + wire(one.0));
    assert(end.departing + end.buffered =~= middle.departing + middle.buffered + wire(two.0));
}

} // verus!
