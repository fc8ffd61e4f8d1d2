use rust_croc::crypto::aes::CryptoError;
use rust_croc::proto::croc_enc::EncryptedSession;
use rust_croc::relay::client::{
    find_separator, multiplex_room_name, parse_banner, room_name, split_bytes, ClientPhase,
    ClientStep, Interface, KeepaliveEvent, RelayClient, RelayClientError,
};
use rust_croc::relay::server::{
    keepalive_payload, Handler, HandlerError, HandlerState, JoinOutcome, KeepaliveAction, Next,
    Relay, Reply, Room, Rooms, Step,
};
use rust_croc::relay::text::{banner, decimal_digits};

fn client_session(client: &RelayClient) -> EncryptedSession {
    match client.phase {
        ClientPhase::AwaitBanner { session } => session,
        ClientPhase::AwaitRoomReply { session } => session,
        _ => panic!("the client has no session"),
    }
}

fn handler_session(handler: &Handler) -> EncryptedSession {
    match handler.state {
        HandlerState::AwaitPassword { session } => session,
        HandlerState::AwaitRoom { session } => session,
        _ => panic!("the handler has no session"),
    }
}

fn sealed_text(step: &Step) -> Vec<u8> {
    match &step.reply {
        Reply::Sealed(text) => text.clone(),
        other => panic!("unexpected reply {:?}", other),
    }
}

/// Runs client and handler against each other up to the relay's answer to the
/// password.
fn up_to_password(
    relay: &Relay,
    conn: u64,
    password: &str,
    secret: &str,
) -> (RelayClient, Handler, Step, EncryptedSession) {
    let (mut client, client_key) = RelayClient::connect(password, secret, false).unwrap();
    let mut handler = relay.handler(false, conn, b"127.0.0.1:50000".to_vec());
    let mut rooms = Rooms::new();
    let step = handler.on_peek(b"croc");
    assert!(matches!(step.next, Next::Read));
    assert!(matches!(step.reply, Reply::Nothing));
    let step = handler.on_key(client_key);
    let relay_key = match step.reply {
        Reply::Key(key) => key,
        other => panic!("unexpected reply {:?}", other),
    };
    let ClientStep { key, clear, sealed } = client.on_key(relay_key).unwrap();
    assert!(key.is_none());
    let salt = clear.unwrap();
    assert_eq!(salt.len(), 8);
    let step = handler.on_frame(&salt, &mut rooms, 0);
    assert!(matches!(step.reply, Reply::Nothing));
    assert!(matches!(step.next, Next::Read));
    let session = client_session(&client);
    assert_eq!(session.encryptor.key, handler_session(&handler).encryptor.key);
    let sealed_password = session.encryptor.encrypt(&sealed.unwrap()).unwrap();
    let step = handler.on_frame(&sealed_password, &mut rooms, 0);
    (client, handler, step, session)
}

/// Runs client and handler against each other to the end.
fn join(
    relay: &mut Relay,
    conn: u64,
    secret: &str,
    now: u64,
) -> (Result<RelayClient, RelayClientError>, Step) {
    let (mut client, mut handler, step, session) = up_to_password(relay, conn, "pass123", secret);
    let banner = sealed_text(&step);
    assert!(matches!(step.next, Next::Read));
    let relay_session = handler_session(&handler);
    let room = client.on_frame(&relay_session.encryptor.encrypt(&banner).unwrap()).unwrap();
    let room = room.sealed.unwrap();
    let step = handler.on_frame(&session.encryptor.encrypt(&room).unwrap(), &mut relay.rooms, now);
    let answer = sealed_text(&step);
    let outcome = client.on_frame(&relay_session.encryptor.encrypt(&answer).unwrap());
    (outcome.map(|_| client), step)
}

fn relay() -> Relay {
    Relay::new("0.0.0.0:9009".to_string(), "pass123".to_string(), vec![9010])
}

#[test]
fn a_probe_is_answered_with_pong() {
    let relay = relay();
    let mut handler = relay.handler(false, 1, b"127.0.0.1:50000".to_vec());
    let step = handler.on_peek(b"ping");
    match step.reply {
        Reply::Raw(bytes) => assert_eq!(bytes, b"pong".to_vec()),
        other => panic!("unexpected reply {:?}", other),
    }
    assert!(matches!(step.next, Next::Close));
    assert!(step.error.is_none());
    assert!(matches!(handler.state, HandlerState::Done));
    assert!(relay.rooms.names.is_empty());
    // the connection is done with
    let mut rooms = Rooms::new();
    let step = handler.on_frame(b"abc", &mut rooms, 0);
    assert!(matches!(step.error, Some(HandlerError::InvalidState)));
    assert!(rooms.names.is_empty());
}

#[test]
fn the_banner_names_ports_and_address() {
    let relay = relay();
    let (client, _handler, step, _session) = up_to_password(&relay, 1, "pass123", "12345");
    assert_eq!(sealed_text(&step), b"9010|||127.0.0.1:50000".to_vec());
    assert!(matches!(step.next, Next::Read));
    assert!(step.error.is_none());
    assert!(matches!(client.phase, ClientPhase::AwaitBanner { .. }));
}

#[test]
fn the_relay_password_is_trimmed() {
    let relay = Relay::new("0.0.0.0:9009".to_string(), "  pass123\n".to_string(), vec![]);
    let (_client, _handler, step, _session) = up_to_password(&relay, 1, "pass123", "12345");
    assert_eq!(sealed_text(&step), b"ok|||127.0.0.1:50000".to_vec());
}

#[test]
fn a_wrong_password_is_told_and_the_connection_closed() {
    let relay = relay();
    let (mut client, handler, step, _session) = up_to_password(&relay, 1, "wrong", "12345");
    assert_eq!(sealed_text(&step), b"bad password".to_vec());
    assert!(matches!(step.next, Next::Close));
    assert!(matches!(handler.state, HandlerState::Done));
    // the client finds no banner in the answer
    let relay_session = EncryptedSession::from_encryptor(client_session(&client).encryptor);
    let sealed = relay_session.encryptor.encrypt(b"bad password").unwrap();
    match client.on_frame(&sealed) {
        Err(RelayClientError::BadResponse(text)) => assert_eq!(text, b"bad password".to_vec()),
        other => panic!("unexpected outcome {:?}", other.map(|_| ())),
    }
    assert!(matches!(client.phase, ClientPhase::Failed));
}

#[test]
fn a_message_sealed_with_another_key_drops_the_connection() {
    let relay = relay();
    let (_client, mut handler, _step, _session) = up_to_password(&relay, 1, "pass123", "12345");
    let mut rooms = Rooms::new();
    let step = handler.on_frame(&[0u8; 40], &mut rooms, 0);
    assert!(matches!(
        step.error,
        Some(HandlerError::Crypto(CryptoError::Authentication))
    ));
    assert!(matches!(step.next, Next::Close));
    assert!(rooms.names.is_empty());
}

#[test]
fn the_first_arrival_waits_and_the_second_is_bridged() {
    let mut relay = relay();
    let (a, step_a) = join(&mut relay, 7, "abcde", 100);
    let a = a.unwrap();
    assert!(matches!(a.phase, ClientPhase::Ready));
    assert_eq!(a.relay_ports, vec!["9010".to_string()]);
    assert_eq!(a.external_ip, Some("127.0.0.1:50000".to_string()));
    match &step_a.next {
        Next::Keepalive { room } => assert_eq!(room, &b"abc".to_vec()),
        other => panic!("unexpected continuation {:?}", other),
    }
    assert_eq!(
        relay.rooms.get(b"abc"),
        Some(Room { first: Some(7), second: None, running: false, opened: 100 })
    );
    assert_eq!(relay.rooms.keepalive_tick(b"abc"), KeepaliveAction::Ping { conn: 7 });

    let (b, step_b) = join(&mut relay, 8, "abcxyz", 101);
    assert!(matches!(b.unwrap().phase, ClientPhase::Ready));
    match &step_b.next {
        Next::Bridge { room, first, second } => {
            assert_eq!(room, &b"abc".to_vec());
            assert_eq!((*first, *second), (7, 8));
        }
        other => panic!("unexpected continuation {:?}", other),
    }
    assert_eq!(
        relay.rooms.get(b"abc"),
        Some(Room { first: None, second: None, running: true, opened: 100 })
    );
    // the keepalive ends without writing
    assert_eq!(relay.rooms.keepalive_tick(b"abc"), KeepaliveAction::Stop);
    // the bridge cannot be started twice
    assert_eq!(relay.rooms.start_bridge(b"abc"), None);

    // a third client finds the room full, and the rooms are left as they are
    let (c, step_c) = join(&mut relay, 9, "abc--", 102);
    match c {
        Err(RelayClientError::RoomFull(room)) => assert_eq!(room, b"abc".to_vec()),
        other => panic!("unexpected outcome {:?}", other.map(|_| ())),
    }
    assert_eq!(sealed_text(&step_c), b"room full".to_vec());
    assert!(matches!(step_c.next, Next::Close));
    assert_eq!(
        relay.rooms.get(b"abc"),
        Some(Room { first: None, second: None, running: true, opened: 100 })
    );

    // when the bridge ends the room is gone, and the name is free again
    relay.rooms.remove(b"abc");
    assert_eq!(relay.rooms.get(b"abc"), None);
    let (d, step_d) = join(&mut relay, 10, "abcde", 200);
    assert!(d.is_ok());
    assert!(matches!(step_d.next, Next::Keepalive { .. }));
}

#[test]
fn rooms_are_kept_apart_by_name() {
    let mut rooms = Rooms::new();
    assert_eq!(rooms.join(b"abc".to_vec(), 1, 10), JoinOutcome::Created);
    assert_eq!(rooms.join(b"abd".to_vec(), 2, 11), JoinOutcome::Created);
    assert_eq!(rooms.join(b"abc".to_vec(), 3, 12), JoinOutcome::Paired);
    assert_eq!(rooms.join(b"abc".to_vec(), 4, 13), JoinOutcome::Full);
    assert_eq!(
        rooms.get(b"abc"),
        Some(Room { first: Some(1), second: Some(3), running: false, opened: 10 })
    );
    assert_eq!(
        rooms.get(b"abd"),
        Some(Room { first: Some(2), second: None, running: false, opened: 11 })
    );
    assert_eq!(rooms.get(b"ab"), None);
    assert_eq!(rooms.start_bridge(b"abd"), None);
    assert_eq!(rooms.start_bridge(b"abc"), Some((1, 3)));
    assert_eq!(rooms.start_bridge(b"abc"), None);
    assert_eq!(rooms.join(b"abc".to_vec(), 5, 14), JoinOutcome::Full);
    rooms.remove(b"abc");
    assert_eq!(rooms.get(b"abc"), None);
    assert_eq!(
        rooms.get(b"abd"),
        Some(Room { first: Some(2), second: None, running: false, opened: 11 })
    );
    rooms.remove(b"nothing");
    assert_eq!(rooms.names.len(), 1);
}

#[test]
fn a_failed_ping_gives_the_room_up() {
    let mut rooms = Rooms::new();
    rooms.join(b"abc".to_vec(), 1, 10);
    assert_eq!(rooms.keepalive_tick(b"abc"), KeepaliveAction::Ping { conn: 1 });
    assert_eq!(rooms.keepalive_tick(b"xyz"), KeepaliveAction::Stop);
    rooms.keepalive_failed(b"abc");
    assert_eq!(rooms.get(b"abc"), None);
    // a room that is being bridged is not given up by a late keepalive
    rooms.join(b"abc".to_vec(), 1, 10);
    rooms.join(b"abc".to_vec(), 2, 10);
    assert_eq!(rooms.keepalive_tick(b"abc"), KeepaliveAction::Stop);
    rooms.keepalive_failed(b"abc");
    assert!(rooms.get(b"abc").is_some());
}

#[test]
fn a_keepalive_is_one_byte() {
    assert_eq!(keepalive_payload(), vec![1u8]);
    let client = ready_client(false);
    assert!(matches!(
        client.handle_keepalive(keepalive_payload(), &vec![]),
        Ok(KeepaliveEvent::Ping)
    ));
}

#[test]
fn room_predicates() {
    let mut room = Room { first: Some(1), second: None, running: false, opened: 0 };
    assert!(!room.is_full());
    assert!(!room.is_running());
    room.second = Some(2);
    assert!(room.is_full());
    let mut bridged = Room { first: None, second: None, running: true, opened: 0 };
    assert!(bridged.is_full());
    assert!(bridged.is_running());
    bridged.stop();
    assert!(!bridged.is_running());
    assert!(!bridged.is_full());
}

#[test]
fn multiplex_ports_ask_for_their_own_password() {
    let relay = Relay::new("0.0.0.0:9009".to_string(), "secret".to_string(), vec![9010, 9011]);
    assert_eq!(relay.handler(false, 1, vec![]).relay_password, "secret");
    assert_eq!(relay.handler(true, 1, vec![]).relay_password, "pass123");
    assert_eq!(relay.handler(true, 1, vec![]).multiplex_ports, vec![9010, 9011]);
}

#[test]
fn a_short_secret_is_refused_at_once() {
    match RelayClient::connect("pass123", "123", false) {
        Err(RelayClientError::BadSharedSecret(secret)) => assert_eq!(secret, "123"),
        other => panic!("unexpected outcome {:?}", other.map(|_| ())),
    }
    assert!(matches!(
        RelayClient::connect("pass123", "", false),
        Err(RelayClientError::BadSharedSecret(_))
    ));
    assert!(RelayClient::connect("pass123", "1234", false).is_ok());
}

#[test]
fn room_names() {
    assert_eq!(room_name("12345"), b"123".to_vec());
    assert_eq!(room_name("abc"), b"abc".to_vec());
    // SHA-256 of the empty string starts with e3 b0 c4
    assert_eq!(multiplex_room_name("12345"), Some(b"e3b0c4-1".to_vec()));
    assert_eq!(multiplex_room_name("123456789"), Some(b"499bc7-1".to_vec()));
    assert_eq!(multiplex_room_name("1234"), None);
}

#[test]
fn banners() {
    assert_eq!(banner(&vec![], b"1.2.3.4:5"), b"ok|||1.2.3.4:5".to_vec());
    assert_eq!(banner(&vec![9010], b"1.2.3.4:5"), b"9010|||1.2.3.4:5".to_vec());
    assert_eq!(
        banner(&vec![9010, 0, 65535, 7], b"[::1]:80"),
        b"9010,0,65535,7|||[::1]:80".to_vec()
    );
    assert_eq!(decimal_digits(0), b"0".to_vec());
    assert_eq!(decimal_digits(10), b"10".to_vec());
    assert_eq!(decimal_digits(65535), b"65535".to_vec());
}

#[test]
fn banners_are_taken_apart() {
    assert_eq!(
        parse_banner(b"9010,9011|||1.2.3.4:5"),
        Some((vec![b"9010".to_vec(), b"9011".to_vec()], b"1.2.3.4:5".to_vec()))
    );
    assert_eq!(parse_banner(b"ok|||x"), Some((vec![b"ok".to_vec()], b"x".to_vec())));
    assert_eq!(parse_banner(b"|||"), Some((vec![vec![]], vec![])));
    assert_eq!(parse_banner(b"a|||b|||c"), Some((vec![b"a".to_vec()], b"b".to_vec())));
    assert_eq!(parse_banner(b"a||||b"), Some((vec![b"a".to_vec()], b"|b".to_vec())));
    assert_eq!(parse_banner(b"bad password"), None);
    assert_eq!(parse_banner(b"a||b"), None);
    assert_eq!(parse_banner(b""), None);
    assert_eq!(find_separator(b"ab|||"), Some(2));
    assert_eq!(find_separator(b"||"), None);
    assert_eq!(split_bytes(b"a,,b,", b','), vec![b"a".to_vec(), vec![], b"b".to_vec(), vec![]]);
    assert_eq!(split_bytes(b"", b','), vec![Vec::<u8>::new()]);
}

#[test]
fn what_the_banner_builds_the_client_reads() {
    let text = banner(&vec![9010, 9011, 9012], b"203.0.113.9:40000");
    assert_eq!(
        parse_banner(&text),
        Some((
            vec![b"9010".to_vec(), b"9011".to_vec(), b"9012".to_vec()],
            b"203.0.113.9:40000".to_vec()
        ))
    );
}

fn ready_client(disable_local: bool) -> RelayClient {
    let (mut client, _key) = RelayClient::connect("pass123", "12345", disable_local).unwrap();
    client.phase = ClientPhase::Ready;
    client.relay_ports = vec!["9010".to_string(), "9011".to_string()];
    client.external_ip = Some("203.0.113.9:40000".to_string());
    client
}

fn interfaces() -> Vec<Interface> {
    vec![
        Interface { addr: "127.0.0.1".to_string(), loopback: true },
        Interface { addr: "192.168.1.20".to_string(), loopback: false },
        Interface { addr: "10.0.0.\"7".to_string(), loopback: false },
    ]
}

#[test]
fn a_waiting_client_reports_its_addresses() {
    let client = ready_client(false);
    match client.handle_keepalive(b"ips?".to_vec(), &interfaces()) {
        Ok(KeepaliveEvent::Reply(bytes)) => {
            assert_eq!(bytes, br#"["9010","192.168.1.20","10.0.0.\"7"]"#.to_vec())
        }
        other => panic!("unexpected outcome {:?}", other),
    }
    let client = ready_client(true);
    match client.handle_keepalive(b"ips?".to_vec(), &interfaces()) {
        Ok(KeepaliveEvent::Reply(bytes)) => assert_eq!(bytes, b"[]".to_vec()),
        other => panic!("unexpected outcome {:?}", other),
    }
}

#[test]
fn a_waiting_client_passes_over_pings_and_ends_on_the_handshake() {
    let client = ready_client(false);
    assert!(matches!(client.handle_keepalive(vec![1], &vec![]), Ok(KeepaliveEvent::Ping)));
    assert!(matches!(
        client.handle_keepalive(b"handshake".to_vec(), &vec![]),
        Ok(KeepaliveEvent::Handshake)
    ));
    match client.handle_keepalive(vec![2], &vec![]) {
        Err(RelayClientError::UnknownKeepaliveMessage(data)) => assert_eq!(data, vec![2]),
        other => panic!("unexpected outcome {:?}", other),
    }
    assert!(matches!(
        client.handle_keepalive(vec![1, 1], &vec![]),
        Err(RelayClientError::UnknownKeepaliveMessage(_))
    ));
    assert!(matches!(
        client.handle_keepalive(vec![], &vec![]),
        Err(RelayClientError::UnknownKeepaliveMessage(_))
    ));
}

#[test]
fn a_client_without_a_room_does_not_wait() {
    let (client, _key) = RelayClient::connect("pass123", "12345", false).unwrap();
    assert!(matches!(
        client.handle_keepalive(vec![1], &vec![]),
        Err(RelayClientError::InvalidState)
    ));
    let (client, _key) = RelayClient::connect("pass123", "12345", false).unwrap();
    assert!(matches!(client.wait_for_receiver(), Err(RelayClientError::InvalidState)));
}

#[test]
fn the_paired_clients_get_their_sessions() {
    let sender = ready_client(false).wait_for_receiver().unwrap();
    assert!(sender.is_sender);
    assert_eq!(sender.external_ip, "203.0.113.9:40000");
    assert_eq!(sender.shared_secret, "12345");
    assert_eq!(sender.relay_ports, vec!["9010".to_string(), "9011".to_string()]);
    let (receiver, handshake) = ready_client(false).connect_to_sender().unwrap();
    assert!(!receiver.is_sender);
    assert_eq!(handshake, b"handshake".to_vec());
}

#[test]
fn a_password_that_is_no_text_drops_the_connection() {
    let relay = relay();
    let (mut client, client_key) = RelayClient::connect("pass123", "12345", false).unwrap();
    let mut handler = relay.handler(false, 1, b"127.0.0.1:50000".to_vec());
    let mut rooms = Rooms::new();
    handler.on_peek(b"croc");
    let relay_key = match handler.on_key(client_key).reply {
        Reply::Key(key) => key,
        other => panic!("unexpected reply {:?}", other),
    };
    let step = client.on_key(relay_key).unwrap();
    handler.on_frame(&step.clear.unwrap(), &mut rooms, 0);
    assert!(handler.session.is_some());
    let session = client_session(&client);
    let sealed = session.encryptor.encrypt(&[0xff, 0xfe]).unwrap();
    let step = handler.on_frame(&sealed, &mut rooms, 0);
    assert!(matches!(step.error, Some(HandlerError::NotText)));
    assert!(matches!(step.reply, Reply::Nothing));
    assert!(matches!(step.next, Next::Close));
}

#[test]
fn a_room_name_that_is_no_text_opens_no_room() {
    let mut relay = relay();
    let (_client, mut handler, _step, session) = up_to_password(&relay, 1, "pass123", "12345");
    let sealed = session.encryptor.encrypt(&[b'a', 0x80, b'c']).unwrap();
    let step = handler.on_frame(&sealed, &mut relay.rooms, 0);
    assert!(matches!(step.error, Some(HandlerError::NotText)));
    assert!(relay.rooms.names.is_empty());
}

#[test]
fn a_banner_that_is_no_text_is_a_bad_response() {
    let relay = relay();
    let (mut client, _handler, _step, session) = up_to_password(&relay, 1, "pass123", "12345");
    let sealed = session.encryptor.encrypt(&[b'9', 0xff, b'|', b'|', b'|', b'x']).unwrap();
    assert!(matches!(client.on_frame(&sealed), Err(RelayClientError::BadResponse(_))));
}

#[test]
fn an_answer_other_than_ok_fails_the_room() {
    let relay = relay();
    let (mut client, handler, step, _session) = up_to_password(&relay, 1, "pass123", "12345");
    let relay_session = handler.session.unwrap();
    let banner = sealed_text(&step);
    client.on_frame(&relay_session.encryptor.encrypt(&banner).unwrap()).unwrap();
    let answer = relay_session.encryptor.encrypt(b"no").unwrap();
    assert!(matches!(client.on_frame(&answer), Err(RelayClientError::RoomNegotiationFailed)));
    assert!(matches!(client.phase, ClientPhase::Failed));
}

#[test]
fn the_bulk_channel_has_its_own_room_and_password() {
    let (client, _key) = RelayClient::connect_bulk("12345").unwrap();
    assert_eq!(client.room, b"e3b0c4-1".to_vec());
    assert_eq!(client.password, "pass123");
    assert!(!client.disable_local);
    let (client, _key) = RelayClient::connect("secret", "12345", true).unwrap();
    assert_eq!(client.room, b"123".to_vec());
    assert_eq!(client.password, "secret");
    assert!(client.disable_local);
    match RelayClient::connect_bulk("1234") {
        Err(RelayClientError::BadSharedSecret(secret)) => assert_eq!(secret, "1234"),
        other => panic!("unexpected outcome {:?}", other.map(|_| ())),
    }
}

#[test]
fn a_bulk_client_is_taken_on_a_multiplex_port() {
    let mut relay = relay();
    let (mut client, client_key) = RelayClient::connect_bulk("12345").unwrap();
    let mut handler = relay.handler(true, 3, b"127.0.0.1:50001".to_vec());
    handler.on_peek(b"croc");
    let relay_key = match handler.on_key(client_key).reply {
        Reply::Key(key) => key,
        other => panic!("unexpected reply {:?}", other),
    };
    let step = client.on_key(relay_key).unwrap();
    handler.on_frame(&step.clear.unwrap(), &mut relay.rooms, 0);
    let session = client_session(&client);
    let relay_session = handler.session.unwrap();
    let answer = handler.on_frame(
        &session.encryptor.encrypt(&step.sealed.unwrap()).unwrap(),
        &mut relay.rooms,
        0,
    );
    let banner = sealed_text(&answer);
    let room = client.on_frame(&relay_session.encryptor.encrypt(&banner).unwrap()).unwrap();
    assert_eq!(room.sealed, Some(b"e3b0c4-1".to_vec()));
    let answer = handler.on_frame(
        &session.encryptor.encrypt(&room.sealed.unwrap()).unwrap(),
        &mut relay.rooms,
        5,
    );
    assert_eq!(sealed_text(&answer), b"ok".to_vec());
    assert_eq!(
        relay.rooms.get(b"e3b0c4-1"),
        Some(Room { first: Some(3), second: None, running: false, opened: 5 })
    );
}

#[test]
fn a_key_of_the_wrong_role_fails_the_negotiation_on_both_sides() {
    let relay = relay();
    // the relay plays the receiver, so a receiver's key is refused
    let (_, receiver_key) = {
        let mut other = relay.handler(false, 9, vec![]);
        other.on_peek(b"croc");
        let (_client, key) = RelayClient::connect("pass123", "12345", false).unwrap();
        match other.on_key(key).reply {
            Reply::Key(own) => ((), own),
            reply => panic!("unexpected reply {:?}", reply),
        }
    };
    let mut handler = relay.handler(false, 1, vec![]);
    handler.on_peek(b"croc");
    let step = handler.on_key(receiver_key);
    assert!(matches!(
        step.error,
        Some(HandlerError::Pake(rust_croc::crypto::pake::Error::SameRole))
    ));
    assert!(matches!(step.next, Next::Close));
    assert!(matches!(handler.state, HandlerState::Done));

    // the client plays the sender, so a sender's key is refused
    let (mut client, _) = RelayClient::connect("pass123", "12345", false).unwrap();
    let (_, sender_key) = RelayClient::connect("pass123", "12345", false).unwrap();
    assert!(matches!(client.on_key(sender_key), Err(RelayClientError::KeyNegotiationFailiure)));
    assert!(matches!(client.phase, ClientPhase::Failed));
}

#[test]
fn the_handler_says_where_a_payload_goes() {
    let relay = relay();
    let mut handler = relay.handler(false, 1, vec![]);
    assert!(!handler.awaits_key());
    handler.on_peek(b"croc");
    assert!(handler.awaits_key());
    let (_, key) = RelayClient::connect("pass123", "12345", false).unwrap();
    handler.on_key(key);
    assert!(!handler.awaits_key());
}

#[test]
fn a_key_out_of_turn_is_a_fault() {
    let relay = relay();
    let (_, key) = RelayClient::connect("pass123", "12345", false).unwrap();
    let mut handler = relay.handler(false, 1, vec![]);
    // nothing was looked at yet
    assert!(matches!(handler.on_key(key).error, Some(HandlerError::InvalidState)));
    let mut handler = relay.handler(false, 1, vec![]);
    handler.on_peek(b"croc");
    assert!(matches!(handler.on_peek(b"croc").error, Some(HandlerError::InvalidState)));
}

#[test]
fn a_banner_that_cannot_be_opened_fails_the_client() {
    let relay = relay();
    let (mut client, _handler, _step, _session) = up_to_password(&relay, 1, "pass123", "12345");
    assert!(matches!(
        client.on_frame(&[0u8; 64]),
        Err(RelayClientError::Crypto(CryptoError::Authentication))
    ));
    assert!(matches!(client.phase, ClientPhase::Failed));
    assert!(matches!(client.on_frame(&[0u8; 64]), Err(RelayClientError::InvalidState)));
}
