use skymp_wire::client::{
    empty_event, flatten, Client, KIND_HOST_GRANT, KIND_HOST_RELEASE, KIND_INVENTORY_APPLY,
    KIND_NONE, KIND_REFUSE, KIND_WELCOME,
};
use skymp_wire::codec::{decode, encode};
use skymp_wire::scalar::F32;
use skymp_wire::schema::{ClientId, FormId, ItemDelta, Message, MovementSample, Transform};

fn bytes_of(m: &Message) -> Vec<u8> {
    let mut buf = [0u8; Message::MAX_ENCODED_LEN];
    encode(m, &mut buf).expect("encodes").to_vec()
}

#[test]
fn inventory_keeps_the_sign() {
    let e = flatten(&Message::InventoryApply {
        owner: FormId(1),
        delta: ItemDelta {
            item: FormId(2),
            count: -3,
        },
    });
    assert_eq!(e.kind, KIND_INVENTORY_APPLY);
    assert_eq!(e.count, -3);
}

#[test]
fn kinds_and_fields() {
    let e = flatten(&Message::Welcome {
        client_id: ClientId(1),
        server_time_ms: 2,
    });
    assert_eq!(e.kind, KIND_WELCOME);
    let e = flatten(&Message::Refuse { reason: 301 });
    assert_eq!((e.kind, e.reason), (KIND_REFUSE, 301));
    let e = flatten(&Message::InventoryApply {
        owner: FormId(1),
        delta: ItemDelta {
            item: FormId(2),
            count: 3,
        },
    });
    assert_eq!((e.actor, e.target, e.reason), (1, 2, 0));
    let e = flatten(&Message::HostGrant { cell: FormId(9) });
    assert_eq!((e.kind, e.actor), (KIND_HOST_GRANT, 9));
    let e = flatten(&Message::HostRelease { cell: FormId(8) });
    assert_eq!((e.kind, e.actor), (KIND_HOST_RELEASE, 8));
    assert_eq!(empty_event().kind, KIND_NONE);
}

#[test]
fn events_come_first_in_first_out() {
    let mut c = Client::connect(true, true, Vec::new()).expect("connected");
    for cell in 0..5u32 {
        c.deliver(bytes_of(&Message::HostGrant { cell: FormId(cell) }));
    }
    let mut out = [empty_event(); 3];
    assert_eq!(c.poll(16, &mut out), 3);
    assert_eq!((out[0].actor, out[1].actor, out[2].actor), (0, 1, 2));
    c.deliver(bytes_of(&Message::HostRelease { cell: FormId(5) }));
    let mut out = [empty_event(); 4];
    assert_eq!(c.poll(16, &mut out), 3);
    assert_eq!((out[0].actor, out[1].actor, out[2].actor), (3, 4, 5));
    assert_eq!(out[2].kind, KIND_HOST_RELEASE);
    assert_eq!(out[3].kind, KIND_NONE);
    assert_eq!(c.poll(16, &mut out), 0);
    assert_eq!(c.poll(16, &mut []), 0);
}

#[test]
fn connections_fail_on_either_count() {
    assert!(Client::connect(false, true, Vec::new()).is_none());
    assert!(Client::connect(true, false, Vec::new()).is_none());
}

#[test]
fn movements_go_out() {
    let one = F32::from_bits(1.0f32.to_bits());
    let transform = Transform {
        x: one,
        y: one,
        z: one,
        yaw: one,
        pitch: one,
    };
    let mut c = Client::connect(true, true, vec![1, 2]).expect("connected");
    assert!(c.send_movement(7, 0x14, transform, true, false));
    let sent = c.take_outgoing();
    assert_eq!(sent.len(), 1);
    assert_eq!(sent[0].channel, 2);
    assert_eq!(
        decode(&sent[0].bytes),
        Ok(Message::Movement(MovementSample {
            seq: 7,
            actor: FormId(0x14),
            transform,
            run: true,
            sneak: false,
        }))
    );
}
