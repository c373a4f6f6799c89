use skymp_wire::bridge::{
    flatten, wire_server_bind, BindError, EventKind, Server, WireEvent, FLAG_POWER_ATTACK,
    FLAG_RUN, FLAG_SNEAK,
};
use skymp_wire::codec::{decode, encode};
use skymp_wire::scalar::F32;
use skymp_wire::schema::{
    FormId, Hello, HitIntent, HostedActorState, ItemDelta, Message, MovementSample, Transform,
    SCHEMA_VERSION,
};
use skymp_wire::transport::{Inbound, NetEvent, RejectKind};
use skymp_wire::validate::Reject;

fn f(v: f32) -> F32 {
    F32::from_bits(v.to_bits())
}

fn place() -> Transform {
    Transform {
        x: f(1.0),
        y: f(2.0),
        z: f(3.0),
        yaw: f(4.0),
        pitch: f(5.0),
    }
}

fn movement(run: bool, sneak: bool) -> Message {
    Message::Movement(MovementSample {
        seq: 9,
        actor: FormId(0x14),
        transform: place(),
        run,
        sneak,
    })
}

fn hosted(actor: u32, counts: &[i32]) -> Message {
    let mut inv = heapless::Vec::new();
    for c in counts {
        let _ = inv.push(ItemDelta {
            item: FormId(100 + *c as u32),
            count: *c,
        });
    }
    Message::HostedActor(HostedActorState {
        actor: FormId(actor),
        transform: place(),
        health: f(50.0),
        inventory_delta: inv,
    })
}

fn bound() -> Box<Server> {
    wire_server_bind(true, true, true).expect("bound")
}

fn deliver(s: &mut Server, client: u64, m: &Message) {
    let mut buf = [0u8; Message::MAX_ENCODED_LEN];
    let bytes = encode(m, &mut buf).expect("encodes").to_vec();
    s.deliver(NetEvent::Packet { client, bytes });
}

fn flat(msg: Message) -> WireEvent {
    flatten(Inbound::Message { client: 3, msg }, &mut Vec::new())
}

#[test]
fn bind_errors_in_order() {
    assert!(matches!(wire_server_bind(false, false, true), Err(BindError::Addr)));
    assert!(matches!(wire_server_bind(true, false, true), Err(BindError::Bind)));
    assert!(wire_server_bind(true, true, false).is_ok());
    assert_eq!(BindError::Addr.to_string(), "E_BRIDGE_ADDR");
    assert_eq!(BindError::Bind.to_string(), "E_BRIDGE_BIND");
}

#[test]
fn flags_per_kind() {
    assert_eq!(flat(movement(false, false)).flags, 0);
    assert_eq!(flat(movement(true, false)).flags, FLAG_RUN);
    assert_eq!(flat(movement(false, true)).flags, FLAG_SNEAK);
    assert_eq!(flat(movement(true, true)).flags, FLAG_RUN | FLAG_SNEAK);
    let e = flat(Message::Hit(HitIntent {
        seq: 4,
        attacker: FormId(1),
        target: FormId(2),
        weapon: FormId(3),
        power_attack: true,
        client_time_ms: 0,
    }));
    assert_eq!((e.kind, e.seq, e.actor, e.target, e.weapon), (EventKind::Hit, 4, 1, 2, 3));
    assert_eq!(e.flags, FLAG_POWER_ATTACK);
}

#[test]
fn fields_of_a_movement() {
    let e = flat(movement(true, false));
    assert_eq!((e.client, e.kind, e.seq, e.actor), (3, EventKind::Movement, 9, 0x14));
    assert_eq!(
        (e.transform.x, e.transform.y, e.transform.z, e.transform.yaw, e.transform.pitch),
        (f(1.0), f(2.0), f(3.0), f(4.0), f(5.0))
    );
    assert_eq!((e.target, e.weapon, e.reason, e.payload), (0, 0, 0, 0));
}

#[test]
fn reasons_are_for_rejections() {
    let e = flatten(
        Inbound::Rejected {
            client: 8,
            reject: RejectKind::Validate(Reject::Rate),
        },
        &mut Vec::new(),
    );
    assert_eq!((e.client, e.kind, e.reason), (8, EventKind::Rejected, 204));
    let e = flatten(Inbound::Connected { client: 8 }, &mut Vec::new());
    assert_eq!((e.kind, e.reason), (EventKind::Connected, 0));
    let e = flatten(
        Inbound::Disconnected {
            client: 8,
            reason: "gone".to_string(),
        },
        &mut Vec::new(),
    );
    assert_eq!((e.client, e.kind, e.reason), (8, EventKind::Disconnected, 0));
    // A server's own family never comes from a client.
    let e = flat(Message::HostGrant { cell: FormId(1) });
    assert_eq!((e.kind, e.reason), (EventKind::Rejected, 302));
}

#[test]
fn payloads_find_their_deltas() {
    let mut s = bound();
    s.deliver(NetEvent::Connected { client: 1 });
    deliver(&mut s, 1, &hosted(0x20, &[1, -2]));
    deliver(&mut s, 1, &movement(false, false));
    deliver(&mut s, 1, &hosted(0x21, &[7]));
    let mut out = Vec::new();
    s.poll(16, &mut out);
    assert_eq!(out.len(), 4);
    assert_eq!((out[1].kind, out[1].payload), (EventKind::HostedActor, 0));
    assert_eq!((out[3].kind, out[3].payload), (EventKind::HostedActor, 1));
    assert_eq!(out[3].health, f(50.0));
    let (mut item, mut count) = (0u32, 0i32);
    assert!(s.inventory_delta(0, 1, &mut item, &mut count));
    assert_eq!((item, count), (98, -2));
    assert!(s.inventory_delta(1, 0, &mut item, &mut count));
    assert_eq!((item, count), (107, 7));
    // Past the end, and with no payload, nothing is written.
    assert!(!s.inventory_delta(1, 1, &mut item, &mut count));
    assert!(!s.inventory_delta(2, 0, &mut item, &mut count));
    assert!(!s.inventory_delta(u32::MAX, 0, &mut item, &mut count));
    assert_eq!((item, count), (107, 7));
    // The next poll starts a new arena.
    s.poll(16, &mut out);
    assert_eq!(out.len(), 4);
    assert!(!s.inventory_delta(0, 0, &mut item, &mut count));
}

#[test]
fn rejected_packets_come_out_with_their_codes() {
    let mut s = bound();
    s.deliver(NetEvent::Packet {
        client: 6,
        bytes: vec![0x7f],
    });
    deliver(&mut s, 6, &Message::HostGrant { cell: FormId(1) });
    deliver(
        &mut s,
        6,
        &Message::Hello(Hello {
            schema_version: SCHEMA_VERSION,
            client_build: 1,
            mod_hashes: heapless::Vec::new(),
            name: heapless::String::new(),
        }),
    );
    let mut out = Vec::new();
    s.poll(16, &mut out);
    let got: Vec<(EventKind, u16)> = out.iter().map(|e| (e.kind, e.reason)).collect();
    assert_eq!(
        got,
        vec![
            (EventKind::Rejected, 102),
            (EventKind::Rejected, 302),
            (EventKind::Hello, 0)
        ]
    );
}

#[test]
fn sends_reach_the_wire() {
    let mut s = bound();
    assert!(s.send_inventory_apply(5, 1, 2, -3));
    assert!(s.send_host_grant(6, 7));
    assert!(s.send_host_release(6, 8));
    let frames = s.take_outgoing();
    let got: Vec<(u64, u8, Message)> = frames
        .iter()
        .map(|fr| (fr.client, fr.channel, decode(&fr.bytes).expect("decodes")))
        .collect();
    assert_eq!(
        got,
        vec![
            (
                5,
                1,
                Message::InventoryApply {
                    owner: FormId(1),
                    delta: ItemDelta {
                        item: FormId(2),
                        count: -3
                    }
                }
            ),
            (6, 0, Message::HostGrant { cell: FormId(7) }),
            (6, 0, Message::HostRelease { cell: FormId(8) }),
        ]
    );
}
