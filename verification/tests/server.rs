use chat::client::Server as Handle;
use chat::common::{ClientCommand, Codec, ErrorKind, ServerCommand, Stream};
use chat::server::{IdGen, Listener, Server};

fn framed<T: Codec>(value: &T) -> Vec<u8> {
    let mut payload = Vec::new();
    value.code(&mut payload);
    let mut bytes = vec![(payload.len() / 256) as u8, (payload.len() % 256) as u8];
    bytes.extend_from_slice(&payload);
    bytes
}

fn connect(server: &mut Server, addr: &str) {
    server.listener_mut().offer(Stream::new(String::from(addr)));
    assert_eq!(server.update(), Ok(()));
}

fn server_with(peers: usize) -> Server {
    let mut server = Server::new(Listener::new());
    for i in 0..peers {
        connect(&mut server, &format!("10.0.0.{}:1000", i + 1));
    }
    assert_eq!(server.clients().len(), peers);
    server
}

/// Carries away everything that departs for the client at `index` and
/// decodes it as that client would.
fn received(server: &mut Server, index: usize) -> Vec<ServerCommand> {
    let bytes = server.clients()[index].stream().departing();
    server.depart(index, bytes.len());
    let mut handle = Handle::new(Stream::new(String::from("server")));
    handle.stream_mut().deliver(&bytes);
    let mut out = Vec::new();
    while let Some(cmd) = handle.poll() {
        out.push(cmd);
    }
    assert!(handle.connected());
    out
}

#[test]
fn id_gen_counts_from_one() {
    let mut ids = IdGen::new();
    assert_eq!(ids.left(), u16::MAX);
    assert_eq!(ids.get(), 1);
    assert_eq!(ids.get(), 2);
    assert_eq!(ids.get(), 3);
    assert_eq!(ids.left(), u16::MAX - 3);
}

#[test]
fn id_gen_mints_every_identity_once() {
    let mut ids = IdGen::new();
    for expected in 1..=u16::MAX {
        assert_eq!(ids.get(), expected);
    }
    assert_eq!(ids.left(), 0);
}

#[test]
fn new_server_is_empty() {
    let server = Server::new(Listener::new());
    assert!(server.clients().is_empty());
    assert_eq!(server.inactivity, 0);
}

#[test]
fn listener_hands_out_connections_in_order() {
    let mut listener = Listener::new();
    assert!(matches!(listener.accept(), Err(ErrorKind::WouldBlock)));
    listener.offer(Stream::new(String::from("a")));
    listener.offer(Stream::new(String::from("b")));
    assert_eq!(listener.accept().unwrap().peer_addr(), "a");
    assert_eq!(listener.accept().unwrap().peer_addr(), "b");
    assert!(matches!(listener.accept(), Err(ErrorKind::WouldBlock)));
    listener.fail(ErrorKind::Other);
    assert!(matches!(listener.accept(), Err(ErrorKind::Other)));
    listener.offer(Stream::new(String::from("c")));
    assert_eq!(listener.accept().unwrap().peer_addr(), "c");
    assert!(matches!(listener.accept(), Err(ErrorKind::Other)));
}

#[test]
fn tick_accepts_one_connection() {
    let mut server = Server::new(Listener::new());
    server.listener_mut().offer(Stream::new(String::from("a")));
    server.listener_mut().offer(Stream::new(String::from("b")));
    assert_eq!(server.update(), Ok(()));
    assert_eq!(server.clients().len(), 1);
    assert_eq!(server.clients()[0].addr(), "a");
    assert_eq!(server.clients()[0].user_id(), 1);
    assert!(server.clients()[0].connected());
    assert_eq!(server.update(), Ok(()));
    assert_eq!(server.clients().len(), 2);
    assert_eq!(server.clients()[1].addr(), "b");
    assert_eq!(server.clients()[1].user_id(), 2);
    assert_eq!(server.update(), Ok(()));
    assert_eq!(server.clients().len(), 2);
}

#[test]
fn poll_listener_says_whether_it_accepted() {
    let mut server = Server::new(Listener::new());
    assert_eq!(server.poll_listener(), Ok(false));
    server.listener_mut().offer(Stream::new(String::from("a")));
    assert_eq!(server.poll_listener(), Ok(true));
    assert_eq!(server.clients().len(), 1);
    server.listener_mut().fail(ErrorKind::WouldBlock);
    assert_eq!(server.poll_listener(), Ok(false));
    server.listener_mut().fail(ErrorKind::ConnectionAborted);
    assert_eq!(server.poll_listener(), Err(ErrorKind::ConnectionAborted));
}

#[test]
fn listener_failure_ends_the_tick() {
    let mut server = server_with(1);
    server.deliver(0, &framed(&ClientCommand::Message { message: String::from("lost?") }));
    server.listener_mut().fail(ErrorKind::Other);
    let idle = server.inactivity;
    assert_eq!(server.update(), Err(ErrorKind::Other));
    assert_eq!(server.inactivity, idle + 1);
    assert_eq!(server.clients().len(), 1);
    assert!(server.clients()[0].stream().departing().is_empty());
}

#[test]
fn thousand_connects_get_distinct_increasing_ids() {
    let mut server = Server::new(Listener::new());
    let mut seen = Vec::new();
    for i in 0..1000usize {
        connect(&mut server, "peer");
        let last = server.clients().len() - 1;
        let id = server.clients()[last].user_id();
        assert_eq!(id as usize, i + 1);
        assert!(!seen.contains(&id));
        seen.push(id);
        if i % 3 == 0 {
            server.close(last);
        }
    }
    for pair in seen.windows(2) {
        assert!(pair[0] < pair[1]);
    }
}

#[test]
fn broadcast_reaches_every_peer_in_order() {
    let mut server = server_with(3);
    let mut bytes = framed(&ClientCommand::Connect { name: String::from("alice") });
    bytes.extend_from_slice(&framed(&ClientCommand::Message { message: String::from("hi") }));
    server.deliver(0, &bytes);
    assert_eq!(server.update(), Ok(()));
    assert_eq!(server.update(), Ok(()));
    let expected = vec![
        ServerCommand::AddUser { user_id: 1, name: String::from("alice") },
        ServerCommand::Message { msg_id: 1, user_id: 1, message: String::from("hi") },
    ];
    for index in 0..3 {
        assert_eq!(received(&mut server, index), expected);
    }
    assert_eq!(server.update(), Ok(()));
    for index in 0..3 {
        assert_eq!(received(&mut server, index), vec![]);
    }
}

#[test]
fn one_tick_takes_one_command_from_each_peer() {
    let mut server = server_with(2);
    let mut from_first = framed(&ClientCommand::Message { message: String::from("a1") });
    from_first.extend_from_slice(&framed(&ClientCommand::Message { message: String::from("a2") }));
    server.deliver(0, &from_first);
    server.deliver(1, &framed(&ClientCommand::Message { message: String::from("b1") }));
    assert_eq!(server.update(), Ok(()));
    let first_tick = vec![
        ServerCommand::Message { msg_id: 1, user_id: 1, message: String::from("a1") },
        ServerCommand::Message { msg_id: 2, user_id: 2, message: String::from("b1") },
    ];
    assert_eq!(received(&mut server, 0), first_tick);
    assert_eq!(received(&mut server, 1), first_tick);
    assert_eq!(server.update(), Ok(()));
    let second_tick =
        vec![ServerCommand::Message { msg_id: 3, user_id: 1, message: String::from("a2") }];
    assert_eq!(received(&mut server, 0), second_tick);
    assert_eq!(received(&mut server, 1), second_tick);
}

#[test]
fn padding_is_not_broadcast() {
    let mut server = server_with(2);
    server.deliver(1, &framed(&ClientCommand::Padding));
    assert_eq!(server.update(), Ok(()));
    assert_eq!(received(&mut server, 0), vec![]);
    assert_eq!(received(&mut server, 1), vec![]);
    assert_eq!(server.clients().len(), 2);
}

#[test]
fn partial_frame_is_taken_up_across_ticks() {
    let mut server = server_with(2);
    let bytes = framed(&ClientCommand::Message { message: String::from("slow") });
    for byte in &bytes[..bytes.len() - 1] {
        server.deliver(0, &[*byte]);
        assert_eq!(server.update(), Ok(()));
        assert_eq!(received(&mut server, 1), vec![]);
    }
    server.deliver(0, &bytes[bytes.len() - 1..]);
    assert_eq!(server.update(), Ok(()));
    let expected =
        vec![ServerCommand::Message { msg_id: 1, user_id: 1, message: String::from("slow") }];
    assert_eq!(received(&mut server, 0), expected);
    assert_eq!(received(&mut server, 1), expected);
}

#[test]
fn departure_is_announced_one_tick_later() {
    let mut server = server_with(3);
    server.deliver(0, &framed(&ClientCommand::Message { message: String::from("still here") }));
    server.close(1);
    assert_eq!(server.update(), Ok(()));
    // Tick N: the broadcast holds the message only, and the peer that left is gone.
    assert_eq!(server.clients().len(), 2);
    assert_eq!(server.clients()[0].user_id(), 1);
    assert_eq!(server.clients()[1].user_id(), 3);
    let message =
        vec![ServerCommand::Message { msg_id: 1, user_id: 1, message: String::from("still here") }];
    assert_eq!(received(&mut server, 0), message);
    assert_eq!(received(&mut server, 1), message);
    // Tick N+1: the notice reaches everyone who is still connected.
    assert_eq!(server.update(), Ok(()));
    let notice = vec![ServerCommand::RemoveUser { user_id: 2 }];
    assert_eq!(received(&mut server, 0), notice);
    assert_eq!(received(&mut server, 1), notice);
    assert_eq!(server.update(), Ok(()));
    assert_eq!(received(&mut server, 0), vec![]);
}

#[test]
fn notice_skips_peers_that_left_in_the_next_tick() {
    let mut server = server_with(3);
    server.close(0);
    assert_eq!(server.update(), Ok(()));
    assert_eq!(server.clients().len(), 2);
    server.fail(1, ErrorKind::ConnectionReset);
    assert_eq!(server.update(), Ok(()));
    assert_eq!(server.clients().len(), 1);
    assert_eq!(server.clients()[0].user_id(), 2);
    assert_eq!(received(&mut server, 0), vec![ServerCommand::RemoveUser { user_id: 1 }]);
    assert_eq!(server.update(), Ok(()));
    assert_eq!(received(&mut server, 0), vec![ServerCommand::RemoveUser { user_id: 3 }]);
}

#[test]
fn malformed_frame_removes_the_peer() {
    let mut server = server_with(2);
    server.deliver(0, &[0, 2, 0, 3]);
    assert_eq!(server.update(), Ok(()));
    assert_eq!(server.clients().len(), 1);
    assert_eq!(server.clients()[0].user_id(), 2);
    assert_eq!(server.update(), Ok(()));
    assert_eq!(received(&mut server, 0), vec![ServerCommand::RemoveUser { user_id: 1 }]);
}

#[test]
fn sender_gets_its_own_message_back() {
    let mut server = server_with(1);
    server.deliver(0, &framed(&ClientCommand::Message { message: String::from("echo") }));
    assert_eq!(server.update(), Ok(()));
    assert_eq!(
        received(&mut server, 0),
        vec![ServerCommand::Message { msg_id: 1, user_id: 1, message: String::from("echo") }]
    );
}

#[test]
fn newcomer_is_polled_in_the_tick_that_accepts_it() {
    let mut server = Server::new(Listener::new());
    let mut stream = Stream::new(String::from("eager"));
    stream.deliver(&framed(&ClientCommand::Connect { name: String::from("eve") }));
    server.listener_mut().offer(stream);
    assert_eq!(server.update(), Ok(()));
    assert_eq!(
        received(&mut server, 0),
        vec![ServerCommand::AddUser { user_id: 1, name: String::from("eve") }]
    );
}

#[test]
fn inactivity_counts_quiet_ticks() {
    let mut server = Server::new(Listener::new());
    assert_eq!(server.update(), Ok(()));
    assert_eq!(server.inactivity, 1);
    assert_eq!(server.update(), Ok(()));
    assert_eq!(server.inactivity, 2);
    connect(&mut server, "a");
    assert_eq!(server.inactivity, 0);
    assert_eq!(server.update(), Ok(()));
    assert_eq!(server.inactivity, 1);
    server.deliver(0, &framed(&ClientCommand::Padding));
    assert_eq!(server.update(), Ok(()));
    assert_eq!(server.inactivity, 2);
    server.deliver(0, &framed(&ClientCommand::Message { message: String::from("x") }));
    assert_eq!(server.update(), Ok(()));
    assert_eq!(server.inactivity, 0);
    assert_eq!(server.update(), Ok(()));
    assert_eq!(server.inactivity, 1);
    server.close(0);
    assert_eq!(server.update(), Ok(()));
    assert_eq!(server.inactivity, 0);
    // The notice for the peer that left is broadcast, to nobody.
    assert_eq!(server.update(), Ok(()));
    assert_eq!(server.inactivity, 0);
    assert_eq!(server.update(), Ok(()));
    assert_eq!(server.inactivity, 1);
}

#[test]
fn inactivity_stops_at_its_largest_value() {
    let mut server = Server::new(Listener::new());
    server.inactivity = u64::MAX - 1;
    assert_eq!(server.update(), Ok(()));
    assert_eq!(server.inactivity, u64::MAX);
    assert_eq!(server.update(), Ok(()));
    assert_eq!(server.inactivity, u64::MAX);
    connect(&mut server, "a");
    assert_eq!(server.inactivity, 0);
}

#[test]
fn transport_calls_past_the_last_client_change_nothing() {
    let mut server = server_with(1);
    server.deliver(1, &[1, 2, 3]);
    server.close(5);
    server.fail(1, ErrorKind::Other);
    server.depart(9, 4);
    assert_eq!(server.update(), Ok(()));
    assert_eq!(server.clients().len(), 1);
    assert!(server.clients()[0].connected());
}

#[test]
fn write_failure_removes_the_peer_in_the_same_tick() {
    let mut server = server_with(2);
    server.deliver(0, &framed(&ClientCommand::Message { message: String::from("x") }));
    server.fail(1, ErrorKind::BrokenPipe);
    assert_eq!(server.update(), Ok(()));
    assert_eq!(server.clients().len(), 1);
    assert_eq!(server.clients()[0].user_id(), 1);
}

#[test]
fn clients_and_server_talk_through_their_streams() {
    let mut server = Server::new(Listener::new());
    let mut alice = Handle::new(Stream::new(String::from("server")));
    let mut bob = Handle::new(Stream::new(String::from("server")));
    connect(&mut server, "alice");
    connect(&mut server, "bob");

    alice.send(&ClientCommand::Connect { name: String::from("alice") });
    alice.flush();
    bob.send(&ClientCommand::Connect { name: String::from("bob") });
    bob.send(&ClientCommand::Message { message: String::from("hello") });
    bob.flush();

    let mut seen_by_alice = Vec::new();
    let mut seen_by_bob = Vec::new();
    for _ in 0..4 {
        // The transport: client to server.
        let up = alice.stream().departing();
        alice.stream_mut().depart(up.len());
        server.deliver(0, &up);
        let up = bob.stream().departing();
        bob.stream_mut().depart(up.len());
        server.deliver(1, &up);

        assert_eq!(server.update(), Ok(()));

        // The transport: server to client.
        let down = server.clients()[0].stream().departing();
        server.depart(0, down.len());
        alice.stream_mut().deliver(&down);
        let down = server.clients()[1].stream().departing();
        server.depart(1, down.len());
        bob.stream_mut().deliver(&down);

        while let Some(cmd) = alice.poll() {
            seen_by_alice.push(cmd);
        }
        while let Some(cmd) = bob.poll() {
            seen_by_bob.push(cmd);
        }
    }
    let expected = vec![
        ServerCommand::AddUser { user_id: 1, name: String::from("alice") },
        ServerCommand::AddUser { user_id: 2, name: String::from("bob") },
        ServerCommand::Message { msg_id: 1, user_id: 2, message: String::from("hello") },
    ];
    assert_eq!(seen_by_alice, expected);
    assert_eq!(seen_by_bob, expected);
    assert!(alice.connected() && bob.connected());
}

#[test]
fn users_issued_follows_the_connects() {
    let mut server = Server::new(Listener::new());
    assert_eq!(server.users_issued(), 0);
    connect(&mut server, "a");
    connect(&mut server, "b");
    assert_eq!(server.users_issued(), 2);
    server.close(0);
    assert_eq!(server.update(), Ok(()));
    assert_eq!(server.users_issued(), 2);
    connect(&mut server, "c");
    assert_eq!(server.users_issued(), 3);
    assert_eq!(server.clients()[1].user_id(), 3);
}

#[test]
fn pending_counts_what_waits_at_the_listener() {
    let mut server = Server::new(Listener::new());
    assert_eq!(server.pending(), 0);
    server.listener_mut().offer(Stream::new(String::from("a")));
    server.listener_mut().offer(Stream::new(String::from("b")));
    assert_eq!(server.pending(), 2);
    assert_eq!(server.update(), Ok(()));
    assert_eq!(server.pending(), 1);
}

#[test]
fn connection_without_an_identity_left_is_refused() {
    let mut server = Server::new(Listener::new());
    connect(&mut server, "stays");
    for _ in 0..u16::MAX - 1 {
        server.listener_mut().offer(Stream::new(String::from("x")));
        assert_eq!(server.update(), Ok(()));
        let last = server.clients().len() - 1;
        server.close(last);
    }
    assert_eq!(server.update(), Ok(()));
    assert_eq!(server.update(), Ok(()));
    assert_eq!(server.users_issued(), u16::MAX);
    assert_eq!(server.clients().len(), 1);
    received(&mut server, 0);

    server.listener_mut().offer(Stream::new(String::from("late")));
    assert_eq!(server.pending(), 1);
    assert_eq!(server.poll_listener(), Ok(false));
    assert_eq!(server.pending(), 0);
    server.listener_mut().offer(Stream::new(String::from("later")));
    assert_eq!(server.update(), Ok(()));
    assert_eq!(server.pending(), 0);
    assert_eq!(server.users_issued(), u16::MAX);
    assert_eq!(server.clients().len(), 1);
    assert_eq!(server.inactivity, 0);

    // The server goes on serving the client it has.
    server.deliver(0, &framed(&ClientCommand::Message { message: String::from("still") }));
    assert_eq!(server.update(), Ok(()));
    assert_eq!(
        received(&mut server, 0),
        vec![ServerCommand::Message { msg_id: 1, user_id: 1, message: String::from("still") }]
    );
}

#[test]
fn message_without_an_identity_left_disconnects_its_sender() {
    let mut server = server_with(2);
    let text = framed(&ClientCommand::Message { message: String::from("m") });
    for expected in 1..=u16::MAX {
        server.deliver(0, &text);
        assert_eq!(server.update(), Ok(()));
        assert_eq!(
            server.sent().last(),
            Some(&ServerCommand::Message { msg_id: expected, user_id: 1, message: String::from("m") })
        );
        let waiting = server.clients()[0].stream().departing().len();
        server.depart(0, waiting);
        let waiting = server.clients()[1].stream().departing().len();
        server.depart(1, waiting);
    }
    server.deliver(1, &framed(&ClientCommand::Connect { name: String::from("bob") }));
    server.deliver(0, &text);
    assert_eq!(server.update(), Ok(()));
    assert_eq!(server.sent(), &vec![ServerCommand::AddUser { user_id: 2, name: String::from("bob") }]);
    assert_eq!(server.clients().len(), 1);
    assert_eq!(server.clients()[0].user_id(), 2);
    assert_eq!(server.removed().len(), 1);
    assert_eq!(server.removed()[0].user_id(), 1);
    assert_eq!(server.removed()[0].fault(), Some(ErrorKind::Exhausted));
    assert_eq!(server.update(), Ok(()));
    assert_eq!(server.sent(), &vec![ServerCommand::RemoveUser { user_id: 1 }]);
}

#[test]
fn message_too_long_to_relay_disconnects_its_sender() {
    let mut server = server_with(2);
    // The longest text that a client can frame: in a server command it takes four bytes more.
    let longest = ClientCommand::Message { message: "m".repeat(65531) };
    server.deliver(0, &framed(&longest));
    server.deliver(1, &framed(&ClientCommand::Message { message: String::from("short") }));
    assert_eq!(server.update(), Ok(()));
    let relayed =
        vec![ServerCommand::Message { msg_id: 1, user_id: 2, message: String::from("short") }];
    assert_eq!(server.sent(), &relayed);
    assert_eq!(server.clients().len(), 1);
    assert_eq!(server.removed().len(), 1);
    assert_eq!(server.removed()[0].user_id(), 1);
    assert_eq!(server.removed()[0].fault(), Some(ErrorKind::InvalidData));
    assert!(server.removed()[0].stream().departing().is_empty());
    assert_eq!(received(&mut server, 0), relayed);
    assert_eq!(server.update(), Ok(()));
    assert_eq!(received(&mut server, 0), vec![ServerCommand::RemoveUser { user_id: 1 }]);
}

#[test]
fn longest_commands_that_can_be_relayed_are_relayed() {
    let mut server = server_with(2);
    server.deliver(0, &framed(&ClientCommand::Message { message: "m".repeat(65527) }));
    server.deliver(1, &framed(&ClientCommand::Connect { name: "n".repeat(65529) }));
    assert_eq!(server.update(), Ok(()));
    let expected = vec![
        ServerCommand::Message { msg_id: 1, user_id: 1, message: "m".repeat(65527) },
        ServerCommand::AddUser { user_id: 2, name: "n".repeat(65529) },
    ];
    assert_eq!(expected[0].coded_size(), 65535);
    assert_eq!(expected[1].coded_size(), 65535);
    assert_eq!(server.sent(), &expected);
    assert_eq!(received(&mut server, 0), expected);
    assert_eq!(received(&mut server, 1), expected);
    assert_eq!(server.clients().len(), 2);

    server.deliver(0, &framed(&ClientCommand::Message { message: "m".repeat(65528) }));
    server.deliver(1, &framed(&ClientCommand::Connect { name: "n".repeat(65530) }));
    assert_eq!(server.update(), Ok(()));
    assert!(server.sent().is_empty());
    assert!(server.clients().is_empty());
    assert_eq!(server.removed().len(), 2);
    assert_eq!(server.removed()[0].fault(), Some(ErrorKind::InvalidData));
    assert_eq!(server.removed()[1].fault(), Some(ErrorKind::InvalidData));
    // No message identity was spent on what was not relayed.
    connect(&mut server, "c");
    server.deliver(0, &framed(&ClientCommand::Message { message: String::from("next") }));
    assert_eq!(server.update(), Ok(()));
    assert_eq!(server.sent().last(), Some(&ServerCommand::Message {
        msg_id: 2,
        user_id: 3,
        message: String::from("next"),
    }));
}

#[test]
fn sent_and_removed_tell_of_the_last_tick() {
    let mut server = server_with(2);
    assert!(server.sent().is_empty());
    assert!(server.removed().is_empty());
    server.deliver(0, &framed(&ClientCommand::Connect { name: String::from("ann") }));
    server.close(1);
    assert_eq!(server.update(), Ok(()));
    assert_eq!(server.sent(), &vec![ServerCommand::AddUser { user_id: 1, name: String::from("ann") }]);
    assert_eq!(server.removed().len(), 1);
    assert_eq!(server.removed()[0].user_id(), 2);
    assert_eq!(server.removed()[0].addr(), "10.0.0.2:1000");
    assert_eq!(server.removed()[0].fault(), Some(ErrorKind::UnexpectedEof));
    assert!(!server.removed()[0].connected());
    assert_eq!(server.update(), Ok(()));
    assert_eq!(server.sent(), &vec![ServerCommand::RemoveUser { user_id: 2 }]);
    assert!(server.removed().is_empty());
    assert_eq!(server.update(), Ok(()));
    assert!(server.sent().is_empty());
}
