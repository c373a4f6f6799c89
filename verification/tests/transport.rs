use skymp_wire::codec::{encode, WireError};
use skymp_wire::scalar::F32;
use skymp_wire::schema::{
    ClientId, FormId, Hello, HitIntent, ItemDelta, Message, MovementSample, Transform,
    SCHEMA_VERSION,
};
use skymp_wire::transport::channels::{
    connection_config, for_message, ALL, RELIABLE_ORDERED, RELIABLE_UNORDERED, UNRELIABLE,
};
use skymp_wire::transport::limits::Limits;
use skymp_wire::transport::token::{from_generated, issue, Auth, ConnectToken};
use skymp_wire::transport::{
    client_may_send, reason_code, whole_millis, Client, Inbound, NetEvent, RejectKind, Server,
    TransportError,
};
use skymp_wire::validate::Reject;

fn movement(seq: u32) -> Message {
    let zero = F32::from_bits(0);
    Message::Movement(MovementSample {
        seq,
        actor: FormId(0x14),
        transform: Transform {
            x: zero,
            y: zero,
            z: zero,
            yaw: zero,
            pitch: zero,
        },
        run: true,
        sneak: false,
    })
}

fn hit(seq: u32) -> Message {
    Message::Hit(HitIntent {
        seq,
        attacker: FormId(1),
        target: FormId(2),
        weapon: FormId(3),
        power_attack: false,
        client_time_ms: 0,
    })
}

fn hello() -> Message {
    Message::Hello(Hello {
        schema_version: SCHEMA_VERSION,
        client_build: 1,
        mod_hashes: heapless::Vec::new(),
        name: "Lydia".parse().expect("fits"),
    })
}

fn bytes_of(m: &Message) -> Vec<u8> {
    let mut buf = [0u8; Message::MAX_ENCODED_LEN];
    encode(m, &mut buf).expect("encodes").to_vec()
}

fn packet(client: u64, m: &Message) -> NetEvent {
    NetEvent::Packet {
        client,
        bytes: bytes_of(m),
    }
}

fn server() -> Server {
    Server::bind(true, Limits::default(), &Auth::Unsecure).expect("bound")
}

fn poll(s: &mut Server, dt_ms: u64) -> Vec<Inbound> {
    let mut out = Vec::new();
    s.poll(dt_ms, &mut out);
    out
}

fn rejection(ev: &Inbound) -> Option<RejectKind> {
    match ev {
        Inbound::Rejected { reject, .. } => Some(*reject),
        _ => None,
    }
}

#[test]
fn direction_table() {
    assert!(!client_may_send(&Message::Welcome {
        client_id: ClientId(1),
        server_time_ms: 0
    }));
    assert!(!client_may_send(&Message::Refuse { reason: 0 }));
    assert!(!client_may_send(&Message::HostGrant { cell: FormId(1) }));
    assert!(!client_may_send(&Message::HostRelease { cell: FormId(1) }));
}

#[test]
fn reason_codes_are_distinct() {
    let kinds = [
        RejectKind::Decode(WireError::TooLong { len: 1, max: 0 }),
        RejectKind::Decode(WireError::Malformed),
        RejectKind::Decode(WireError::Trailing(1)),
        RejectKind::Decode(WireError::NonCanonical),
        RejectKind::Validate(Reject::SchemaVersion),
        RejectKind::Validate(Reject::NonFinite),
        RejectKind::Validate(Reject::OutOfWorld),
        RejectKind::Validate(Reject::Rate),
        RejectKind::Validate(Reject::ZeroDelta),
        RejectKind::Validate(Reject::SeqReplay),
        RejectKind::Limit,
        RejectKind::Direction,
    ];
    let mut codes: Vec<u16> = kinds.iter().map(reason_code).collect();
    codes.sort_unstable();
    codes.dedup();
    assert_eq!(codes.len(), kinds.len());
}

#[test]
fn reason_codes_have_their_numbers() {
    assert_eq!(reason_code(&RejectKind::Decode(WireError::TooLong { len: 9, max: 1 })), 101);
    assert_eq!(reason_code(&RejectKind::Decode(WireError::NonCanonical)), 104);
    assert_eq!(reason_code(&RejectKind::Validate(Reject::SchemaVersion)), 201);
    assert_eq!(reason_code(&RejectKind::Validate(Reject::SeqReplay)), 206);
    assert_eq!(reason_code(&RejectKind::Limit), 301);
    assert_eq!(reason_code(&RejectKind::Direction), 302);
}

#[test]
fn clients_send_their_families_only() {
    assert!(client_may_send(&hello()));
    assert!(client_may_send(&movement(1)));
    assert!(client_may_send(&hit(1)));
    assert!(!client_may_send(&Message::InventoryApply {
        owner: FormId(1),
        delta: ItemDelta { item: FormId(2), count: 1 },
    }));
}

#[test]
fn the_pipeline_in_order() {
    let limits = Limits { max_packet: 40, ..Limits::default() };
    let mut s = Server::bind(true, limits, &Auth::Unsecure).expect("bound");
    s.deliver(NetEvent::Connected { client: 4 });
    s.deliver(packet(4, &hello()));
    // Longer than the limit, and not a message either: the limit comes first.
    s.deliver(NetEvent::Packet { client: 4, bytes: vec![0x7f; 41] });
    s.deliver(NetEvent::Packet { client: 4, bytes: vec![0x7f; 40] });
    s.deliver(packet(4, &Message::HostGrant { cell: FormId(1) }));
    s.deliver(packet(4, &movement(1)));
    s.deliver(packet(4, &movement(1)));
    s.deliver(NetEvent::Disconnected { client: 4, reason: "timed out".to_string() });
    let out = poll(&mut s, 16);
    assert_eq!(out.len(), 8);
    assert!(matches!(out[0], Inbound::Connected { client: 4 }));
    match &out[1] {
        Inbound::Message { client, msg } => {
            assert_eq!(*client, 4);
            assert_eq!(*msg, hello());
        }
        other => panic!("{other:?}"),
    }
    assert_eq!(rejection(&out[2]), Some(RejectKind::Limit));
    assert_eq!(rejection(&out[3]), Some(RejectKind::Decode(WireError::Malformed)));
    assert_eq!(rejection(&out[4]), Some(RejectKind::Direction));
    assert!(matches!(out[5], Inbound::Message { client: 4, msg: Message::Movement(_) }));
    assert_eq!(rejection(&out[6]), Some(RejectKind::Validate(Reject::SeqReplay)));
    match &out[7] {
        Inbound::Disconnected { client, reason } => {
            assert_eq!((*client, reason.as_str()), (4, "timed out"));
        }
        other => panic!("{other:?}"),
    }
    assert_eq!(poll(&mut s, 0).len(), 0);
}

#[test]
fn polls_append_to_what_is_there() {
    let mut s = server();
    let mut out = vec![Inbound::Connected { client: 9 }];
    s.deliver(NetEvent::Connected { client: 1 });
    s.poll(1, &mut out);
    assert_eq!(out.len(), 2);
    assert!(matches!(out[0], Inbound::Connected { client: 9 }));
}

#[test]
fn guards_are_per_connection() {
    let mut s = server();
    s.deliver(NetEvent::Connected { client: 1 });
    s.deliver(NetEvent::Connected { client: 2 });
    s.deliver(packet(1, &movement(7)));
    s.deliver(packet(2, &movement(7)));
    s.deliver(packet(1, &movement(7)));
    let out = poll(&mut s, 0);
    assert!(matches!(out[2], Inbound::Message { client: 1, .. }));
    assert!(matches!(out[3], Inbound::Message { client: 2, .. }));
    assert_eq!(rejection(&out[4]), Some(RejectKind::Validate(Reject::SeqReplay)));
    // The guard lasts across polls and ends with its connection.
    s.deliver(packet(2, &movement(7)));
    s.deliver(NetEvent::Disconnected { client: 1, reason: String::new() });
    s.deliver(NetEvent::Connected { client: 1 });
    s.deliver(packet(1, &movement(7)));
    let out = poll(&mut s, 0);
    assert_eq!(rejection(&out[0]), Some(RejectKind::Validate(Reject::SeqReplay)));
    assert!(matches!(out[3], Inbound::Message { client: 1, .. }));
}

#[test]
fn the_clock_drives_the_rate() {
    let mut s = server();
    s.deliver(NetEvent::Connected { client: 1 });
    for seq in 1..=61u32 {
        s.deliver(packet(1, &movement(seq)));
    }
    let out = poll(&mut s, 0);
    assert_eq!(out.iter().filter(|e| matches!(e, Inbound::Message { .. })).count(), 60);
    assert_eq!(rejection(&out[61]), Some(RejectKind::Validate(Reject::Rate)));
    s.deliver(packet(1, &movement(62)));
    assert!(matches!(poll(&mut s, 1_000)[0], Inbound::Message { .. }));
    // The clock stops at the end of its range.
    let _ = poll(&mut s, u64::MAX);
    let _ = poll(&mut s, u64::MAX);
}

#[test]
fn batches_do_not_matter() {
    let events = |s: &mut Server, from: u32, to: u32| {
        for seq in from..to {
            s.deliver(packet(1, &movement(seq / 2)));
        }
    };
    let mut once = server();
    events(&mut once, 0, 40);
    let all: Vec<bool> = poll(&mut once, 5).iter().map(|e| rejection(e).is_some()).collect();
    let mut twice = server();
    events(&mut twice, 0, 17);
    let mut parts: Vec<bool> = poll(&mut twice, 5).iter().map(|e| rejection(e).is_some()).collect();
    events(&mut twice, 17, 40);
    parts.extend(poll(&mut twice, 0).iter().map(|e| rejection(e).is_some()));
    assert_eq!(all, parts);
}

#[test]
fn what_a_client_sends_a_server_gets() {
    let mut c = Client::connect(true, &ConnectToken(Vec::new())).expect("opened");
    let mut s = server();
    for m in [hello(), movement(3), hit(8)] {
        assert_eq!(c.send(&m), Ok(()));
    }
    let sent = c.take_outgoing();
    let channels: Vec<u8> = sent.iter().map(|o| o.channel).collect();
    assert_eq!(channels, vec![RELIABLE_ORDERED, UNRELIABLE, RELIABLE_UNORDERED]);
    assert!(c.take_outgoing().is_empty());
    for o in sent {
        s.deliver(NetEvent::Packet { client: 5, bytes: o.bytes });
    }
    let got: Vec<Message> = poll(&mut s, 16)
        .into_iter()
        .map(|e| match e {
            Inbound::Message { client: 5, msg } => msg,
            other => panic!("{other:?}"),
        })
        .collect();
    assert_eq!(got, vec![hello(), movement(3), hit(8)]);
}

#[test]
fn what_a_server_sends_a_client_gets() {
    let messages = [
        Message::Welcome { client_id: ClientId(5), server_time_ms: 77 },
        Message::Refuse { reason: 301 },
        Message::InventoryApply {
            owner: FormId(1),
            delta: ItemDelta { item: FormId(2), count: -9 },
        },
        Message::HostGrant { cell: FormId(6) },
        Message::HostRelease { cell: FormId(6) },
    ];
    let mut s = server();
    for m in &messages {
        assert_eq!(s.send(5, m), Ok(()));
    }
    let mut c = Client::connect(true, &ConnectToken(Vec::new())).expect("opened");
    // Noise between them is dropped.
    c.deliver(vec![0x7f]);
    for frame in s.take_outgoing() {
        assert_eq!(frame.client, 5);
        c.deliver(frame.bytes);
        c.deliver(bytes_of(&movement(1)));
    }
    assert!(s.take_outgoing().is_empty());
    let mut out = Vec::new();
    c.poll(16, &mut out);
    assert_eq!(out, messages.to_vec());
    c.poll(16, &mut out);
    assert_eq!(out.len(), 5);
}

#[test]
fn channels_of_the_families() {
    assert_eq!(ALL, [RELIABLE_ORDERED, RELIABLE_UNORDERED, UNRELIABLE]);
    assert_eq!(for_message(&movement(1)), 2);
    assert_eq!(for_message(&hit(1)), 1);
    assert_eq!(for_message(&hello()), 0);
    assert_eq!(for_message(&Message::HostGrant { cell: FormId(1) }), 0);
    assert_eq!(
        for_message(&Message::InventoryApply {
            owner: FormId(1),
            delta: ItemDelta { item: FormId(2), count: 1 },
        }),
        1
    );
}

#[test]
fn connection_config_has_the_three_channels() {
    let limits = Limits {
        resend_ms: 123,
        channel_memory_bytes: 4_567,
        bytes_per_tick: 89,
        ..Limits::default()
    };
    let config = connection_config(&limits);
    assert_eq!(config.available_bytes_per_tick, 89);
    for list in [&config.server_channels_config, &config.client_channels_config] {
        let ids: Vec<u8> = list.iter().map(|c| c.channel_id).collect();
        assert_eq!(ids, vec![0, 1, 2]);
        assert!(list.iter().all(|c| c.max_memory_usage_bytes == 4_567));
        let resend = std::time::Duration::from_millis(123);
        assert!(matches!(
            &list[0].send_type,
            renet::SendType::ReliableOrdered { resend_time } if *resend_time == resend
        ));
        assert!(matches!(
            &list[1].send_type,
            renet::SendType::ReliableUnordered { resend_time } if *resend_time == resend
        ));
        assert!(matches!(&list[2].send_type, renet::SendType::Unreliable));
    }
    // renet takes it, and a message on each channel gets through.
    let mut server = renet::RenetServer::new(connection_config(&Limits::default()));
    server.add_connection(1);
    assert!(server.is_connected(1));
    for channel in ALL {
        assert!(server.receive_message(1, channel).is_none());
    }
}

#[test]
fn default_limits() {
    let l = Limits::default();
    assert_eq!(l.max_clients, 64);
    assert_eq!(l.max_packet, Message::MAX_ENCODED_LEN);
    assert_eq!(l.max_queued_per_client, 256);
    assert_eq!(l.connects_per_source_per_min, 10);
    assert_eq!(l.bytes_per_s_per_client, 64 * 1024);
}

#[test]
fn failures_to_bind_and_secure_servers() {
    assert!(matches!(
        Server::bind(false, Limits::default(), &Auth::Unsecure),
        Err(TransportError::Bind)
    ));
    assert!(server().is_unsecure());
    let secure = Auth::Secure { private_key: [7; 32] };
    assert!(!Server::bind(true, Limits::default(), &secure).expect("bound").is_unsecure());
    assert!(matches!(
        Client::connect(false, &ConnectToken(Vec::new())),
        Err(TransportError::Bind)
    ));
    assert!(Client::connect(true, &ConnectToken(Vec::new())).expect("opened").is_unsecure());
    assert!(!Client::connect(true, &ConnectToken(vec![1])).expect("opened").is_unsecure());
}

#[test]
fn issued_tokens_say_what_was_asked() {
    let key = [9u8; 32];
    let token = issue(&key, 42, "127.0.0.1:7777", 5, 1_000).expect("issued");
    let read = renet_netcode::ConnectToken::read(&mut &token.0[..]).expect("reads");
    assert_eq!(read.client_id, 42);
    assert_eq!(read.protocol_id, 5);
    assert_eq!(read.create_timestamp, 1_000);
    assert_eq!(read.expire_timestamp, 1_300);
    assert_eq!(read.timeout_seconds, 15);
    assert_eq!(
        read.server_addresses[0],
        Some("127.0.0.1:7777".parse().expect("an address"))
    );
    assert_eq!(token.0[..8], 42u64.to_le_bytes());
    assert_eq!(&token.0[8..21], b"NETCODE 1.02\0");
    assert_eq!(token.0[37..45], 1_300u64.to_le_bytes());
    assert_eq!(token.0[1093..1097], 15i32.to_le_bytes());
    assert_eq!(token.0[1097..1108], [1, 0, 0, 0, 1, 127, 0, 0, 1, 0x61, 0x1e]);
    assert_eq!(token.0.len(), 1165 + 7);
    // Nonce and session keys are new each time, and so is the sealed part.
    let other = issue(&key, 42, "127.0.0.1:7777", 5, 1_000).expect("issued");
    assert_ne!(token.0[45..69], other.0[45..69]);
    assert_ne!(token.0[69..1093], other.0[69..1093]);
    assert_eq!(token.0[..45], other.0[..45]);
    let v6 = issue(&key, 42, "[::1]:7777", 5, 1_000).expect("issued");
    assert_eq!(v6.0.len(), 1165 + 19);
    assert!(matches!(
        issue(&key, 42, "nowhere", 5, 1_000),
        Err(TransportError::Token)
    ));
    assert!(matches!(from_generated(None), Err(TransportError::Token)));
    assert!(!token.is_unsecure());
}

#[test]
fn transport_texts() {
    assert_eq!(TransportError::Bind.to_string(), "E_TX_BIND");
    assert_eq!(TransportError::Encode.to_string(), "E_TX_ENCODE");
    assert_eq!(TransportError::Limit.to_string(), "E_TX_LIMIT");
    assert_eq!(RejectKind::Validate(Reject::SeqReplay).to_string(), "E_VAL_SEQ_REPLAY");
    assert_eq!(RejectKind::Decode(WireError::Trailing(3)).to_string(), "E_WIRE_TRAILING: 3 bytes after message");
}

#[test]
fn long_spans_stop_at_the_largest_clock() {
    assert_eq!(whole_millis(16), 16);
    assert_eq!(whole_millis(u64::MAX as u128), u64::MAX);
    assert_eq!(whole_millis(u64::MAX as u128 + 1), u64::MAX);
}

#[test]
fn bytes_per_second_are_limited() {
    let m = hello();
    let len = bytes_of(&m).len() as u32;
    let limits = Limits { bytes_per_s_per_client: 3 * len + 1, ..Limits::default() };
    let mut s = Server::bind(true, limits, &Auth::Unsecure).expect("bound");
    let send = |s: &mut Server, client: u64, n: u32, dt_ms: u64| -> usize {
        for _ in 0..n {
            s.deliver(packet(client, &hello()));
        }
        poll(s, dt_ms)
            .iter()
            .filter(|e| rejection(e) == Some(RejectKind::Limit))
            .count()
    };
    assert_eq!(send(&mut s, 1, 2, 999), 0);
    // A new second, in which three of five fit, and one byte of a sixth.
    assert_eq!(send(&mut s, 1, 5, 1), 2);
    assert_eq!(send(&mut s, 1, 1, 0), 1);
    s.deliver(NetEvent::Packet { client: 1, bytes: vec![0x7f] });
    assert_eq!(
        rejection(&poll(&mut s, 0)[0]),
        Some(RejectKind::Decode(WireError::Malformed))
    );
    // Bytes that do not decode count too; another client has its own count.
    s.deliver(NetEvent::Packet { client: 1, bytes: vec![0x7f] });
    assert_eq!(rejection(&poll(&mut s, 0)[0]), Some(RejectKind::Limit));
    assert_eq!(send(&mut s, 2, 3, 0), 0);
    assert_eq!(send(&mut s, 1, 3, 1_000), 0);
}

#[test]
fn queues_are_limited() {
    let limits = Limits { max_queued_per_client: 2, ..Limits::default() };
    let mut s = Server::bind(true, limits, &Auth::Unsecure).expect("bound");
    assert!(s.deliver(NetEvent::Connected { client: 1 }));
    assert!(s.deliver(packet(1, &movement(1))));
    assert!(s.deliver(packet(1, &movement(2))));
    assert!(!s.deliver(packet(1, &movement(3))));
    assert!(s.deliver(packet(2, &movement(3))));
    assert!(s.deliver(NetEvent::Disconnected { client: 1, reason: String::new() }));
    // The refused packet is told of in its place.
    let out = poll(&mut s, 0);
    assert_eq!(out.len(), 6);
    assert!(matches!(
        out[3],
        Inbound::Rejected {
            client: 1,
            reject: RejectKind::Limit
        }
    ));
    assert!(matches!(out[4], Inbound::Message { client: 2, .. }));
    assert!(s.deliver(packet(1, &movement(4))));
    assert_eq!(poll(&mut s, 0).len(), 1);
}
