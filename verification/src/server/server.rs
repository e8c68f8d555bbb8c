use super::client::{Client, ClientView};
use super::listener::{Listener, ListenerView};
use crate::common::codec::{Codec, MAX_LEN};
use crate::common::commands::{
    ClientCommand,
    ClientCommandView,
    ServerCommand,
    ServerCommandView,
};
use crate::common::error::ErrorKind;
use vstd::prelude::*;

verus! {

/// A strictly increasing 16-bit counter that mints identities, starting at 1.
#[derive(Debug)]
pub struct IdGen {
    id: u16,
}

impl IdGen {
    /// The number of identities minted so far, which is also the identity
    /// minted last.
    pub closed spec fn issued(&self) -> nat {
        self.id as nat
    }

    /// A generator that has minted nothing yet.
    pub fn new() -> (g: Self)
        ensures
            g.issued() == 0,
    {
        IdGen { id: 0 }
    }

    /// Mints the next identity: one more than the last. The counter does not
    /// wrap: a generator that has minted 65535 identities has none left.
    pub fn get(&mut self) -> (id: u16)
        requires
            old(self).issued() < u16::MAX,
        ensures
            id == old(self).issued() + 1,
            final(self).issued() == id,
    {
        self.id = self.id + 1;
        self.id
    }

    /// The identity that `get` would mint, if any is left.
    pub fn peek(&self) -> (id: Option<u16>)
        ensures
            match id {
                Some(id) => self.issued() < u16::MAX && id == self.issued() + 1,
                None => self.issued() == u16::MAX,
            },
    {
        if self.id < u16::MAX {
            Some(self.id + 1)
        } else {
            None
        }
    }

    /// The number of identities that are left to mint.
    pub fn left(&self) -> (n: u16)
        ensures
            n == u16::MAX - self.issued(),
    {
        u16::MAX - self.id
    }
}

/// The identities that `n` calls of `get` in a row return, on a generator that
/// has minted `issued` identities before.
pub open spec fn successive_ids(issued: nat, n: nat) -> Seq<u16>
    decreases n,
{
    if n == 0 {
        Seq::empty()
    } else {
        seq![(issued + 1) as u16] + successive_ids(issued + 1, (n - 1) as nat)
    }
}

/// Identities are unique. The identities that a generator mints, as long as
/// it has any left, are the numbers that follow the last one minted, in
/// order: no two are equal, each is larger than the one before, and a fresh
/// generator starts at 1.
pub proof fn lemma_ids_unique(issued: nat, n: nat)
    requires
        issued + n <= u16::MAX,
    ensures
        successive_ids(issued, n).len() == n,
        forall|i: int| 0 <= i < n ==> #[trigger] successive_ids(issued, n)[i] == issued + i + 1,
        forall|i: int, j: int|
            0 <= i < j < n ==> successive_ids(issued, n)[i] < successive_ids(issued, n)[j],
    decreases n,
{
    if n > 0 {
        lemma_ids_unique(issued + 1, (n - 1) as nat);
        let rest = successive_ids(issued + 1, (n - 1) as nat);
        let ids = successive_ids(issued, n);
        assert forall|i: int| 0 <= i < n implies #[trigger] ids[i] == issued + i + 1 by {
            if i > 0 {
                assert(ids[i] == rest[i - 1]);
            }
        }
    }
}

/// What a command of the client `user_id` becomes for everybody: nothing for
/// a keepalive; the user's arrival for a registration; the message, under the
/// identity `msg_id`, for a message.
pub open spec fn relay(cmd: ClientCommandView, user_id: u16, msg_id: u16) -> Option<
    ServerCommandView,
> {
    match cmd {
        ClientCommandView::Padding => None,
        ClientCommandView::Connect { name } => Some(ServerCommandView::AddUser { user_id, name }),
        ClientCommandView::Message { message } => Some(
            ServerCommandView::Message { msg_id, user_id, message },
        ),
    }
}

/// Whether a command fits in a frame: its encoding is at most [`MAX_LEN`]
/// bytes long.
pub open spec fn framable(out: ServerCommandView) -> bool {
    ServerCommand::encoding(out).len() <= MAX_LEN
}

/// Why a command cannot be broadcast, if it cannot, `issued` message
/// identities having been minted: a message finds no identity left, or the
/// command is too long for a frame. Either is fatal to the connection of the
/// client that asked for it.
pub open spec fn refusal(out: ServerCommandView, issued: nat) -> Option<ErrorKind> {
    if out is Message && issued >= u16::MAX {
        Some(ErrorKind::Exhausted)
    } else if !framable(out) {
        Some(ErrorKind::InvalidData)
    } else {
        None
    }
}

/// What the ingest step does with one client, `issued` message identities
/// having been minted: the client afterwards, the command that joins the
/// queue, if any, and the number of message identities minted then. The
/// client is polled once. A command that it yields and that can be broadcast
/// joins the queue, a message under the next message identity. One that
/// cannot be broadcast disconnects the client, joins nothing and mints
/// nothing.
pub open spec fn ingest_one(client: ClientView, issued: nat) -> (
    ClientView,
    Option<ServerCommandView>,
    nat,
) {
    let (polled, cmd) = client.poll();
    match cmd {
        None => (polled, None, issued),
        Some(cmd) => match relay(cmd, client.user_id, (issued + 1) as u16) {
            None => (polled, None, issued),
            Some(out) => match refusal(out, issued) {
                Some(kind) => (polled.after_disconnect(Some(kind)), None, issued),
                None => (
                    polled,
                    Some(out),
                    if out is Message {
                        issued + 1
                    } else {
                        issued
                    },
                ),
            },
        },
    }
}

/// What the ingest step gathers from the first `k` clients, in order: the
/// commands for everybody, and the number of message identities minted once
/// that is done, `issued` having been minted before.
pub open spec fn gathered(clients: Seq<ClientView>, k: nat, issued: nat) -> (
    Seq<ServerCommandView>,
    nat,
)
    decreases k,
{
    if k == 0 {
        (Seq::empty(), issued)
    } else {
        let (queue, minted) = gathered(clients, (k - 1) as nat, issued);
        let (_, out, next) = ingest_one(clients[k - 1], minted);
        (
            match out {
                Some(out) => queue.push(out),
                None => queue,
            },
            next,
        )
    }
}

/// Every client after the ingest step.
pub open spec fn ingested(clients: Seq<ClientView>, issued: nat) -> Seq<ClientView> {
    Seq::new(
        clients.len(),
        |i: int| ingest_one(clients[i], gathered(clients, i as nat, issued).1).0,
    )
}

/// A client after every command of `queue` was sent to it and flushed, one
/// after the other, in the order of the queue.
pub open spec fn after_broadcast(client: ClientView, queue: Seq<ServerCommandView>) -> ClientView
    decreases queue.len(),
{
    if queue.len() == 0 {
        client
    } else {
        after_broadcast(client, queue.drop_last()).after_send(
            ServerCommand::encoding(queue.last()),
        ).after_flush()
    }
}

/// Every client after the whole of `queue` was broadcast.
pub open spec fn broadcast_to(clients: Seq<ClientView>, queue: Seq<ServerCommandView>) -> Seq<
    ClientView,
> {
    Seq::new(clients.len(), |i: int| after_broadcast(clients[i], queue))
}

/// Those of the first `k` clients that are still connected, in order.
pub open spec fn survivors(clients: Seq<ClientView>, k: nat) -> Seq<ClientView>
    decreases k,
{
    if k == 0 {
        Seq::empty()
    } else if clients[k - 1].peer.connected {
        survivors(clients, (k - 1) as nat).push(clients[k - 1])
    } else {
        survivors(clients, (k - 1) as nat)
    }
}

/// Those of the first `k` clients that are disconnected, in order.
pub open spec fn leavers(clients: Seq<ClientView>, k: nat) -> Seq<ClientView>
    decreases k,
{
    if k == 0 {
        Seq::empty()
    } else if clients[k - 1].peer.connected {
        leavers(clients, (k - 1) as nat)
    } else {
        leavers(clients, (k - 1) as nat).push(clients[k - 1])
    }
}

/// The notices that those of the first `k` clients that are disconnected
/// have left, in order.
pub open spec fn farewells(clients: Seq<ClientView>, k: nat) -> Seq<ServerCommandView>
    decreases k,
{
    if k == 0 {
        Seq::empty()
    } else if clients[k - 1].peer.connected {
        farewells(clients, (k - 1) as nat)
    } else {
        farewells(clients, (k - 1) as nat).push(
            ServerCommandView::RemoveUser { user_id: clients[k - 1].user_id },
        )
    }
}

/// The identities of the clients lie between 1 and `issued`, and each is
/// larger than the one before: no two clients share an identity.
pub open spec fn ascending(clients: Seq<ClientView>, issued: nat) -> bool {
    &&& forall|i: int| 0 <= i < clients.len() ==> 1 <= (#[trigger] clients[i]).user_id <= issued
    &&& forall|i: int, j: int|
        0 <= i < j < clients.len() ==> (#[trigger] clients[i]).user_id < (
        #[trigger] clients[j]).user_id
}

/// No client from position `from` on has the identity `user_id`.
pub open spec fn unheld(clients: Seq<ClientView>, from: int, user_id: u16) -> bool {
    forall|j: int| from <= j < clients.len() ==> (#[trigger] clients[j]).user_id != user_id
}

/// Every notice in `queue` that a user left names an identity that was given
/// out, at most `issued`, and that none of `clients` has.
pub open spec fn notices_of_the_gone(
    queue: Seq<ServerCommandView>,
    clients: Seq<ClientView>,
    issued: nat,
) -> bool {
    forall|i: int|
        0 <= i < queue.len() ==> (#[trigger] queue[i] matches ServerCommandView::RemoveUser {
            user_id,
        } ==> 1 <= user_id <= issued && unheld(clients, 0, user_id))
}

/// The mathematical content of a [`Server`].
pub struct ServerView {
    /// The listening socket.
    pub listener: ListenerView,
    /// The clients, in the order in which they were accepted.
    pub clients: Seq<ClientView>,
    /// The commands that wait to be broadcast, oldest first.
    pub queue: Seq<ServerCommandView>,
    /// The commands that the last tick broadcast, in the order in which every
    /// client was sent them.
    pub sent: Seq<ServerCommandView>,
    /// The clients that the last tick removed, in order.
    pub removed: Seq<ClientView>,
    /// The number of ticks in a row in which nothing happened.
    pub inactivity: u64,
    /// The number of user identities minted so far.
    pub users_issued: nat,
    /// The number of message identities minted so far.
    pub messages_issued: nat,
}

impl ServerView {
    /// The invariant of the server: every client is well formed, no two
    /// clients share an identity, every queued command fits in a frame, and
    /// every queued notice that a user left names an identity that no client
    /// has.
    pub open spec fn wf(self) -> bool {
        &&& forall|i: int| 0 <= i < self.clients.len() ==> (#[trigger] self.clients[i]).wf()
        &&& ascending(self.clients, self.users_issued)
        &&& forall|i: int| 0 <= i < self.queue.len() ==> framable(#[trigger] self.queue[i])
        &&& notices_of_the_gone(self.queue, self.clients, self.users_issued)
        &&& self.users_issued <= u16::MAX
        &&& self.messages_issued <= u16::MAX
    }

    /// A server that has just started to listen.
    pub open spec fn fresh(listener: ListenerView) -> ServerView {
        ServerView {
            listener,
            clients: Seq::empty(),
            queue: Seq::empty(),
            sent: Seq::empty(),
            removed: Seq::empty(),
            inactivity: 0,
            users_issued: 0,
            messages_issued: 0,
        }
    }

    /// The server with one more tick counted in which nothing has happened
    /// yet. The count stops at the largest number it can hold.
    pub open spec fn after_count(self) -> ServerView {
        ServerView {
            inactivity: if self.inactivity < u64::MAX {
                (self.inactivity + 1) as u64
            } else {
                self.inactivity
            },
            ..self
        }
    }

    /// The error that ends the tick, if any: a failure of the listener other
    /// than `WouldBlock`, met with no connection pending.
    pub open spec fn listener_error(self) -> Option<ErrorKind> {
        match self.listener.accept_error() {
            Some(kind) => if kind == ErrorKind::WouldBlock {
                None
            } else {
                Some(kind)
            },
            None => None,
        }
    }

    /// Whether a connection is pending, so that the tick takes one from the
    /// listener.
    pub open spec fn accepts(self) -> bool {
        self.listener.pending.len() > 0
    }

    /// Whether the tick gains a client: a connection is pending and a user
    /// identity is left for it.
    pub open spec fn admits(self) -> bool {
        self.accepts() && self.users_issued < u16::MAX
    }

    /// Accept: the oldest pending connection, if any, leaves the listener. It
    /// becomes a client with the next user identity, last in the order; or,
    /// if no user identity is left, it is refused and dropped.
    pub open spec fn after_poll_listener(self) -> ServerView {
        if self.admits() {
            ServerView {
                listener: self.listener.after_accept(),
                clients: self.clients.push(
                    ClientView::fresh(self.listener.pending[0], (self.users_issued + 1) as u16),
                ),
                inactivity: 0,
                users_issued: self.users_issued + 1,
                ..self
            }
        } else if self.accepts() {
            ServerView { listener: self.listener.after_accept(), inactivity: 0, ..self }
        } else {
            self
        }
    }

    /// Ingest: every client is polled once, in order, and what its command
    /// becomes for everybody joins the queue. A client whose command cannot be
    /// broadcast is disconnected.
    pub open spec fn after_ingest(self) -> ServerView {
        ServerView {
            clients: ingested(self.clients, self.messages_issued),
            queue: self.queue + gathered(
                self.clients,
                self.clients.len(),
                self.messages_issued,
            ).0,
            messages_issued: gathered(self.clients, self.clients.len(), self.messages_issued).1,
            ..self
        }
    }

    /// Broadcast: every queued command is sent to every client and flushed,
    /// in the order of the queue, and the queue is emptied.
    pub open spec fn after_broadcast(self) -> ServerView {
        ServerView {
            clients: broadcast_to(self.clients, self.queue),
            queue: Seq::empty(),
            sent: self.queue,
            inactivity: if self.queue.len() > 0 {
                0
            } else {
                self.inactivity
            },
            ..self
        }
    }

    /// Prune: the disconnected clients leave, and a notice for each of them
    /// joins the queue, to be broadcast in the next tick.
    pub open spec fn after_prune(self) -> ServerView {
        let kept = survivors(self.clients, self.clients.len());
        ServerView {
            clients: kept,
            queue: self.queue + farewells(self.clients, self.clients.len()),
            removed: leavers(self.clients, self.clients.len()),
            inactivity: if kept.len() != self.clients.len() {
                0
            } else {
                self.inactivity
            },
            ..self
        }
    }

    /// The stream of the client at `index`.
    pub open spec fn stream(self, index: int) -> crate::common::stream::StreamView {
        self.clients[index].peer.connection.stream
    }

    /// The server after the transport changed the stream of the client at
    /// `index` to `stream`. An index past the last client changes nothing.
    pub open spec fn with_stream(
        self,
        index: int,
        stream: crate::common::stream::StreamView,
    ) -> ServerView {
        if 0 <= index < self.clients.len() {
            ServerView {
                clients: self.clients.update(
                    index,
                    self.clients[index].with_peer(self.clients[index].peer.with_stream(stream)),
                ),
                ..self
            }
        } else {
            self
        }
    }

    /// One tick: count, accept, ingest, broadcast, prune. An error of the
    /// listener ends the tick after the count.
    pub open spec fn tick(self) -> ServerView {
        if self.listener_error() is Some {
            self.after_count()
        } else {
            self.after_count().after_poll_listener().after_ingest().after_broadcast().after_prune()
        }
    }
}

/// An accepted client gets an identity of its own: the number that follows
/// the identity given out last, which is at least 1 and larger than the
/// identity of every client that was there before. The first client of a
/// server gets the identity 1.
pub proof fn lemma_accept_mints_fresh_identity(s: ServerView)
    requires
        s.wf(),
        s.admits(),
    ensures
        s.after_poll_listener().clients.len() == s.clients.len() + 1,
        s.after_poll_listener().clients.last().user_id == s.users_issued + 1,
        forall|i: int|
            0 <= i < s.clients.len() ==> {
                &&& #[trigger] s.after_poll_listener().clients[i] == s.clients[i]
                &&& s.clients[i].user_id < s.after_poll_listener().clients.last().user_id
            },
        s.after_poll_listener().wf(),
{
}

/// What the ingest step gathers fits in a frame, command by command, and no
/// more message identities are minted than there are.
pub proof fn lemma_gathered_framable(clients: Seq<ClientView>, k: nat, issued: nat)
    requires
        issued <= u16::MAX,
    ensures
        gathered(clients, k, issued).1 <= u16::MAX,
        issued <= gathered(clients, k, issued).1,
        forall|i: int|
            0 <= i < gathered(clients, k, issued).0.len() ==> framable(
                #[trigger] gathered(clients, k, issued).0[i],
            ),
    decreases k,
{
    if k > 0 {
        lemma_gathered_framable(clients, (k - 1) as nat, issued);
    }
}

/// The ingest step leaves the identity of every client as it is.
pub proof fn lemma_ingest_keeps_identity(client: ClientView, issued: nat)
    ensures
        ingest_one(client, issued).0.user_id == client.user_id,
{
}

/// A broadcast leaves the identity of a client as it is.
pub proof fn lemma_broadcast_keeps_identity(client: ClientView, queue: Seq<ServerCommandView>)
    ensures
        after_broadcast(client, queue).user_id == client.user_id,
    decreases queue.len(),
{
    if queue.len() > 0 {
        lemma_broadcast_keeps_identity(client, queue.drop_last());
    }
}

/// Through accept, ingest and broadcast the clients keep their identities,
/// which stay distinct.
pub proof fn lemma_identities_kept(s: ServerView)
    requires
        s.wf(),
    ensures
        ({
            let accepted = s.after_count().after_poll_listener();
            let sent = accepted.after_ingest().after_broadcast();
            &&& accepted.wf()
            &&& sent.clients.len() == accepted.clients.len()
            &&& forall|i: int|
                0 <= i < sent.clients.len() ==> (#[trigger] sent.clients[i]).user_id
                    == accepted.clients[i].user_id
            &&& forall|i: int, j: int|
                0 <= i < j < sent.clients.len() ==> (#[trigger] sent.clients[i]).user_id != (
                #[trigger] sent.clients[j]).user_id
        }),
{
    let accepted = s.after_count().after_poll_listener();
    let ingested = accepted.after_ingest();
    let sent = ingested.after_broadcast();
    assert forall|i: int| 0 <= i < sent.clients.len() implies (#[trigger] sent.clients[i]).user_id
        == accepted.clients[i].user_id by {
        lemma_broadcast_keeps_identity(ingested.clients[i], ingested.queue);
    }
    assert forall|i: int, j: int| 0 <= i < j < sent.clients.len() implies (
    #[trigger] sent.clients[i]).user_id != (#[trigger] sent.clients[j]).user_id by {
        assert(sent.clients[i].user_id == accepted.clients[i].user_id);
        assert(sent.clients[j].user_id == accepted.clients[j].user_id);
        assert(accepted.clients[i].user_id < accepted.clients[j].user_id);
    }
}

/// The views of a vector of clients.
pub open spec fn client_views(clients: Seq<Client>) -> Seq<ClientView> {
    clients.map_values(|c: Client| c@)
}

/// The views of a vector of commands.
pub open spec fn command_views(queue: Seq<ServerCommand>) -> Seq<ServerCommandView> {
    queue.map_values(|m: ServerCommand| m@)
}

/// The encoding of a command that fits the format is at most 65543 bytes
/// long, and so its length fits in `usize`.
pub proof fn lemma_encoding_fits(v: ServerCommandView)
    requires
        ServerCommand::representable(v),
    ensures
        ServerCommand::encoding(v).len() <= 8 + MAX_LEN,
        ServerCommand::encoding(v).len() <= usize::MAX,
{
}

/// The broadcast loop: the listening socket, the clients, the queue of
/// commands to broadcast, and the two generators of identities.
#[derive(Debug)]
pub struct Server {
    listener: Listener,
    clients: Vec<Client>,
    message_queue: Vec<ServerCommand>,
    sent: Vec<ServerCommand>,
    removed: Vec<Client>,
    /// The number of ticks in a row in which nothing happened: no connection
    /// taken, no command broadcast, no client gone. The caller may scale its
    /// pause between ticks by it.
    pub inactivity: u64,
    user_id_gen: IdGen,
    msg_id_gen: IdGen,
}

impl View for Server {
    type V = ServerView;

    closed spec fn view(&self) -> ServerView {
        ServerView {
            listener: self.listener@,
            clients: client_views(self.clients@),
            queue: command_views(self.message_queue@),
            sent: command_views(self.sent@),
            removed: client_views(self.removed@),
            inactivity: self.inactivity,
            users_issued: self.user_id_gen.issued(),
            messages_issued: self.msg_id_gen.issued(),
        }
    }
}

impl Server {
    /// The invariant of the server. Every constructor establishes it and
    /// every method keeps it.
    pub open spec fn wf(&self) -> bool {
        self@.wf()
    }

    /// A server on `listener`, with no client yet.
    pub fn new(listener: Listener) -> (s: Self)
        ensures
            s.wf(),
            s@ == ServerView::fresh(listener@),
    {
        let s = Server {
            listener,
            clients: Vec::new(),
            message_queue: Vec::new(),
            sent: Vec::new(),
            removed: Vec::new(),
            inactivity: 0,
            user_id_gen: IdGen::new(),
            msg_id_gen: IdGen::new(),
        };
        assert(s@.clients =~= Seq::empty());
        assert(s@.queue =~= Seq::empty());
        assert(s@.sent =~= Seq::empty());
        assert(s@.removed =~= Seq::empty());
        s
    }

    /// Runs one tick: takes at most one connection from the listener, polls
    /// every client once, broadcasts what was gathered together with the
    /// notices of the tick before, and removes the clients found
    /// disconnected. Fails, right after the count of the tick, when the
    /// listener fails with anything but `WouldBlock`. No counter wraps: a
    /// connection for which no user identity is left is refused, and a
    /// message for which no message identity is left disconnects its sender.
    pub fn update(&mut self) -> (res: Result<(), ErrorKind>)
        requires
            old(self).wf(),
        ensures
            final(self).wf(),
            final(self)@ == old(self)@.tick(),
            match old(self)@.listener_error() {
                Some(kind) => res == Err::<(), ErrorKind>(kind),
                None => res is Ok,
            },
    {
        if self.inactivity < u64::MAX {
            self.inactivity = self.inactivity + 1;
        }
        match self.poll_listener() {
            Ok(_) => {},
            Err(kind) => {
                return Err(kind);
            },
        }
        self.ingest();
        self.broadcast();
        self.prune();
        Ok(())
    }

    /// Takes the oldest pending connection, if there is one, from the
    /// listener, as a new client with a fresh identity, and says whether the
    /// server gained a client. A connection for which no identity is left is
    /// refused.
    pub fn poll_listener(&mut self) -> (res: Result<bool, ErrorKind>)
        requires
            old(self).wf(),
        ensures
            final(self).wf(),
            final(self)@ == old(self)@.after_poll_listener(),
            match old(self)@.listener_error() {
                Some(kind) => res == Err::<bool, ErrorKind>(kind),
                None => res == Ok::<bool, ErrorKind>(old(self)@.admits()),
            },
    {
        match self.listener.accept() {
            Ok(stream) => {
                self.inactivity = 0;
                match self.user_id_gen.peek() {
                    Some(_) => {
                        let user_id = self.user_id_gen.get();
                        self.clients.push(Client::new(stream, user_id));
                        assert(self@.clients =~= old(self)@.after_poll_listener().clients);
                        Ok(true)
                    },
                    None => Ok(false),
                }
            },
            Err(kind) => {
                if kind == ErrorKind::WouldBlock {
                    Ok(false)
                } else {
                    Err(kind)
                }
            },
        }
    }

    /// Whether `out` fits in a frame.
    fn fits(out: &ServerCommand) -> (b: bool)
        requires
            ServerCommand::representable(out@),
        ensures
            b == framable(out@),
    {
        proof {
            lemma_encoding_fits(out@);
        }
        out.coded_size() <= MAX_LEN
    }

    /// Disconnects the client at `index`, whose command cannot be broadcast.
    fn turn_away(&mut self, index: usize, reason: ErrorKind)
        requires
            index < old(self)@.clients.len(),
            old(self)@.clients[index as int].wf(),
        ensures
            final(self).clients@.len() == old(self).clients@.len(),
            final(self)@ == (ServerView {
                clients: old(self)@.clients.update(
                    index as int,
                    old(self)@.clients[index as int].after_disconnect(Some(reason)),
                ),
                ..old(self)@
            }),
    {
        self.clients[index].disconnect(Some(reason));
        assert(self@.clients =~= old(self)@.clients.update(
            index as int,
            old(self)@.clients[index as int].after_disconnect(Some(reason)),
        ));
    }

    /// Polls every client once, in order, and queues what its command
    /// becomes for everybody. A client whose command cannot be broadcast is
    /// disconnected.
    fn ingest(&mut self)
        requires
            old(self).wf(),
        ensures
            final(self).wf(),
            final(self)@ == old(self)@.after_ingest(),
    {
        let ghost start = self@;
        let mut i: usize = 0;
        assert(self@.queue =~= start.queue + gathered(start.clients, 0, start.messages_issued).0);
        while i < self.clients.len()
            invariant
                start.wf(),
                i <= self.clients@.len() == start.clients.len(),
                self@.listener == start.listener,
                self@.inactivity == start.inactivity,
                self@.users_issued == start.users_issued,
                self@.sent == start.sent,
                self@.removed == start.removed,
                forall|j: int|
                    0 <= j < i ==> (#[trigger] self@.clients[j]) == ingest_one(
                        start.clients[j],
                        gathered(start.clients, j as nat, start.messages_issued).1,
                    ).0,
                forall|j: int|
                    i <= j < start.clients.len() ==> (#[trigger] self@.clients[j])
                        == start.clients[j],
                forall|j: int|
                    0 <= j < start.clients.len() ==> (#[trigger] self@.clients[j]).user_id
                        == start.clients[j].user_id,
                forall|j: int| 0 <= j < self@.clients.len() ==> (#[trigger] self@.clients[j]).wf(),
                self@.queue == start.queue + gathered(
                    start.clients,
                    i as nat,
                    start.messages_issued,
                ).0,
                self@.messages_issued == gathered(start.clients, i as nat, start.messages_issued).1,
                self@.messages_issued <= u16::MAX,
                forall|j: int| 0 <= j < self@.queue.len() ==> framable(#[trigger] self@.queue[j]),
                notices_of_the_gone(self@.queue, start.clients, start.users_issued),
            decreases self.clients@.len() - i,
        {
            let ghost before = self@;
            let ghost client = start.clients[i as int];
            assert(self@.clients[i as int] == client);
            let user_id = self.clients[i].user_id();
            let polled = self.clients[i].poll();
            assert(self@.clients =~= before.clients.update(i as int, client.poll().0));
            match polled {
                None => {},
                Some(ClientCommand::Padding) => {},
                Some(ClientCommand::Connect { name }) => {
                    let out = ServerCommand::AddUser { user_id, name };
                    if Self::fits(&out) {
                        self.message_queue.push(out);
                        assert(self@.queue =~= before.queue.push(out@));
                    } else {
                        self.turn_away(i, ErrorKind::InvalidData);
                    }
                },
                Some(ClientCommand::Message { message }) => {
                    match self.msg_id_gen.peek() {
                        None => {
                            self.turn_away(i, ErrorKind::Exhausted);
                        },
                        Some(msg_id) => {
                            let out = ServerCommand::Message { msg_id, user_id, message };
                            if Self::fits(&out) {
                                let _ = self.msg_id_gen.get();
                                self.message_queue.push(out);
                                assert(self@.queue =~= before.queue.push(out@));
                            } else {
                                self.turn_away(i, ErrorKind::InvalidData);
                            }
                        },
                    }
                },
            }
            i = i + 1;
        }
        assert(self@.clients =~= ingested(start.clients, start.messages_issued));
        assert(notices_of_the_gone(self@.queue, self@.clients, self@.users_issued)) by {
            assert forall|m: int, user_id: u16|
                0 <= m < self@.queue.len() && self@.queue[m] == (ServerCommandView::RemoveUser {
                    user_id,
                }) implies unheld(self@.clients, 0, user_id) by {
                assert(unheld(start.clients, 0, user_id));
                assert forall|j: int| 0 <= j < self@.clients.len() implies (
                #[trigger] self@.clients[j]).user_id != user_id by {
                    assert(start.clients[j].user_id != user_id);
                }
            }
        }
    }

    /// Sends every queued command to every client and flushes it, in the
    /// order of the queue, and empties the queue.
    fn broadcast(&mut self)
        requires
            old(self).wf(),
        ensures
            final(self).wf(),
            final(self)@ == old(self)@.after_broadcast(),
    {
        let ghost start = self@;
        let mut j: usize = 0;
        assert(start.queue.take(0) =~= Seq::empty());
        while j < self.message_queue.len()
            invariant
                start.wf(),
                j <= self.message_queue@.len(),
                self@.queue == start.queue,
                self@.listener == start.listener,
                self@.users_issued == start.users_issued,
                self@.messages_issued == start.messages_issued,
                self@.removed == start.removed,
                self@.inactivity == if j > 0 {
                    0
                } else {
                    start.inactivity
                },
                self@.clients.len() == start.clients.len(),
                forall|k: int|
                    0 <= k < start.clients.len() ==> (#[trigger] self@.clients[k])
                        == after_broadcast(start.clients[k], start.queue.take(j as int)),
                forall|k: int|
                    0 <= k < start.clients.len() ==> (#[trigger] self@.clients[k]).user_id
                        == start.clients[k].user_id,
                forall|k: int| 0 <= k < self@.clients.len() ==> (#[trigger] self@.clients[k]).wf(),
            decreases self.message_queue@.len() - j,
        {
            self.inactivity = 0;
            let ghost sent = start.queue.take(j as int);
            let ghost next = start.queue.take(j + 1);
            assert(next.drop_last() =~= sent);
            assert(next.last() == start.queue[j as int]);
            let mut i: usize = 0;
            while i < self.clients.len()
                invariant
                    start.wf(),
                    j < self.message_queue@.len(),
                    sent == start.queue.take(j as int),
                    next == start.queue.take(j + 1),
                    next.drop_last() == sent,
                    next.last() == start.queue[j as int],
                    self@.queue == start.queue,
                    self@.listener == start.listener,
                    self@.users_issued == start.users_issued,
                    self@.messages_issued == start.messages_issued,
                    self@.removed == start.removed,
                    self@.inactivity == 0,
                    i <= self.clients@.len() == start.clients.len(),
                    forall|k: int|
                        0 <= k < i ==> (#[trigger] self@.clients[k]) == after_broadcast(
                            start.clients[k],
                            next,
                        ),
                    forall|k: int|
                        i <= k < start.clients.len() ==> (#[trigger] self@.clients[k])
                            == after_broadcast(start.clients[k], sent),
                    forall|k: int|
                        0 <= k < start.clients.len() ==> (#[trigger] self@.clients[k]).user_id
                            == start.clients[k].user_id,
                    forall|k: int|
                        0 <= k < self@.clients.len() ==> (#[trigger] self@.clients[k]).wf(),
                decreases self.clients@.len() - i,
            {
                let ghost before = self@;
                let ghost client = before.clients[i as int];
                let message = &self.message_queue[j];
                assert(message@ == start.queue[j as int]);
                assert(framable(message@));
                self.clients[i].send(message);
                self.clients[i].flush();
                assert(self@.clients =~= before.clients.update(
                    i as int,
                    client.after_send(ServerCommand::encoding(message@)).after_flush(),
                ));
                i = i + 1;
            }
            j = j + 1;
        }
        assert(start.queue.take(j as int) =~= start.queue);
        self.sent.clear();
        core::mem::swap(&mut self.sent, &mut self.message_queue);
        assert(self@.queue =~= Seq::empty());
        assert(self@.clients =~= broadcast_to(start.clients, start.queue));
    }

    /// Removes the clients that are disconnected and queues a notice for each
    /// of them.
    fn prune(&mut self)
        requires
            old(self).wf(),
        ensures
            final(self).wf(),
            final(self)@ == old(self)@.after_prune(),
    {
        let ghost start = self@;
        let before = self.clients.len();
        let mut all: Vec<Client> = Vec::new();
        core::mem::swap(&mut all, &mut self.clients);
        self.removed = Vec::new();
        assert(self@.clients =~= Seq::empty());
        assert(self@.removed =~= Seq::empty());
        assert(self@.queue =~= start.queue + farewells(start.clients, 0));
        for client in it: all
            invariant
                start.wf(),
                client_views(it.seq()) == start.clients,
                self@.listener == start.listener,
                self@.inactivity == start.inactivity,
                self@.users_issued == start.users_issued,
                self@.messages_issued == start.messages_issued,
                self@.sent == start.sent,
                self@.clients == survivors(start.clients, it.index() as nat),
                self@.removed == leavers(start.clients, it.index() as nat),
                self@.queue == start.queue + farewells(start.clients, it.index() as nat),
                self@.clients.len() <= it.index(),
                forall|k: int| 0 <= k < self@.clients.len() ==> (#[trigger] self@.clients[k]).wf(),
                forall|k: int| 0 <= k < self@.queue.len() ==> framable(#[trigger] self@.queue[k]),
                forall|k: int|
                    0 <= k < self@.clients.len() ==> 1 <= (#[trigger] self@.clients[k]).user_id
                        <= start.users_issued,
                forall|a: int, b: int|
                    0 <= a < b < self@.clients.len() ==> (#[trigger] self@.clients[a]).user_id < (
                    #[trigger] self@.clients[b]).user_id,
                forall|a: int, b: int|
                    0 <= a < self@.clients.len() && it.index() <= b < start.clients.len() ==> (
                    #[trigger] self@.clients[a]).user_id < (#[trigger] start.clients[b]).user_id,
                notices_of_the_gone(self@.queue, self@.clients, start.users_issued),
                forall|m: int|
                    0 <= m < self@.queue.len() ==> (
                    #[trigger] self@.queue[m] matches ServerCommandView::RemoveUser { user_id }
                        ==> unheld(start.clients, it.index() as int, user_id)),
        {
            let ghost prior = self@;
            let ghost at = it.index() as int;
            assert(client@ == start.clients[at]);
            if client.connected() {
                self.clients.push(client);
                assert(self@.clients =~= prior.clients.push(client@));
                assert forall|m: int| 0 <= m < self@.queue.len() implies (
                #[trigger] self@.queue[m] matches ServerCommandView::RemoveUser { user_id } ==> 1
                    <= user_id <= start.users_issued && unheld(self@.clients, 0, user_id)) by {
                    if let ServerCommandView::RemoveUser { user_id } = self@.queue[m] {
                        assert(unheld(prior.clients, 0, user_id));
                        assert(unheld(start.clients, at, user_id));
                        assert(start.clients[at].user_id != user_id);
                    }
                }
            } else {
                let out = ServerCommand::RemoveUser { user_id: client.user_id() };
                self.message_queue.push(out);
                assert(self@.queue =~= prior.queue.push(out@));
                self.removed.push(client);
                assert(self@.removed =~= prior.removed.push(client@));
                assert forall|m: int| 0 <= m < self@.queue.len() implies (
                #[trigger] self@.queue[m] matches ServerCommandView::RemoveUser { user_id } ==> 1
                    <= user_id <= start.users_issued && unheld(self@.clients, 0, user_id)
                    && unheld(start.clients, at + 1, user_id)) by {
                    if let ServerCommandView::RemoveUser { user_id } = self@.queue[m] {
                        if m < prior.queue.len() {
                            assert(self@.queue[m] == prior.queue[m]);
                            assert(unheld(prior.clients, 0, user_id));
                            assert(unheld(start.clients, at, user_id));
                        } else {
                            assert(user_id == start.clients[at].user_id);
                        }
                    }
                }
            }
        }
        if self.clients.len() != before {
            self.inactivity = 0;
        }
    }

    /// The number of connections that wait at the listener.
    pub fn pending(&self) -> (n: usize)
        ensures
            n == self@.listener.pending.len(),
    {
        self.listener.pending_len()
    }

    /// The number of user identities given out so far, which is also the
    /// identity of the client accepted last.
    pub fn users_issued(&self) -> (n: u16)
        ensures
            n == self@.users_issued,
    {
        u16::MAX - self.user_id_gen.left()
    }

    /// The clients, in the order in which they were accepted.
    pub fn clients(&self) -> (clients: &Vec<Client>)
        ensures
            client_views(clients@) == self@.clients,
    {
        &self.clients
    }

    /// The commands that the last tick broadcast, in order.
    pub fn sent(&self) -> (sent: &Vec<ServerCommand>)
        ensures
            command_views(sent@) == self@.sent,
    {
        &self.sent
    }

    /// The clients that the last tick removed, in order: each is
    /// disconnected and knows why.
    pub fn removed(&self) -> (removed: &Vec<Client>)
        ensures
            client_views(removed@) == self@.removed,
    {
        &self.removed
    }

    /// Takes in bytes that the transport received from the client at `index`.
    pub fn deliver(&mut self, index: usize, bytes: &[u8])
        requires
            old(self).wf(),
        ensures
            final(self).wf(),
            final(self)@ == old(self)@.with_stream(
                index as int,
                old(self)@.stream(index as int).after_deliver(bytes@),
            ),
    {
        if index < self.clients.len() {
            self.clients[index].stream_mut().deliver(bytes);
            assert(self@.clients =~= old(self)@.with_stream(
                index as int,
                old(self)@.stream(index as int).after_deliver(bytes@),
            ).clients);
        }
    }

    /// Records that the client at `index` has closed its end of the stream.
    pub fn close(&mut self, index: usize)
        requires
            old(self).wf(),
        ensures
            final(self).wf(),
            final(self)@ == old(self)@.with_stream(
                index as int,
                old(self)@.stream(index as int).after_close(),
            ),
    {
        if index < self.clients.len() {
            self.clients[index].stream_mut().close();
            assert(self@.clients =~= old(self)@.with_stream(
                index as int,
                old(self)@.stream(index as int).after_close(),
            ).clients);
        }
    }

    /// Records that the transport to the client at `index` failed with `kind`.
    pub fn fail(&mut self, index: usize, kind: ErrorKind)
        requires
            old(self).wf(),
        ensures
            final(self).wf(),
            final(self)@ == old(self)@.with_stream(
                index as int,
                old(self)@.stream(index as int).after_fail(kind),
            ),
    {
        if index < self.clients.len() {
            self.clients[index].stream_mut().fail(kind);
            assert(self@.clients =~= old(self)@.with_stream(
                index as int,
                old(self)@.stream(index as int).after_fail(kind),
            ).clients);
        }
    }

    /// Records that the transport took over the first `n` bytes that were
    /// departing for the client at `index`.
    pub fn depart(&mut self, index: usize, n: usize)
        requires
            old(self).wf(),
        ensures
            final(self).wf(),
            final(self)@ == old(self)@.with_stream(
                index as int,
                old(self)@.stream(index as int).after_depart(n as nat),
            ),
    {
        if index < self.clients.len() {
            self.clients[index].stream_mut().depart(n);
            assert(self@.clients =~= old(self)@.with_stream(
                index as int,
                old(self)@.stream(index as int).after_depart(n as nat),
            ).clients);
        }
    }

    /// The listening socket, for the transport to offer connections to.
    pub fn listener_mut(&mut self) -> (l: &mut Listener)
        ensures
            l@ == old(self)@.listener,
            final(self)@ == (ServerView { listener: final(l)@, ..old(self)@ }),
            old(self).wf() ==> final(self).wf(),
    {
        &mut self.listener
    }
}

} // verus!
