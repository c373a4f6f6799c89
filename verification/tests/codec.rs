use skymp_wire::codec::{decode, encode, WireError};
use skymp_wire::scalar::F32;
use skymp_wire::schema::cap::{INVENTORY_DELTA, MODS, NAME};
use skymp_wire::schema::{
    ClientId, FormId, Hello, HitIntent, HostedActorState, ItemDelta, Message, MovementSample,
    Transform, SCHEMA_VERSION,
};

fn f(v: f32) -> F32 {
    F32::from_bits(v.to_bits())
}

#[allow(clippy::too_many_arguments)]
fn movement(
    seq: u32,
    x: f32,
    y: f32,
    z: f32,
    yaw: f32,
    pitch: f32,
    run: bool,
    sneak: bool,
) -> Message {
    Message::Movement(MovementSample {
        seq,
        actor: FormId(0x14),
        transform: Transform {
            x: f(x),
            y: f(y),
            z: f(z),
            yaw: f(yaw),
            pitch: f(pitch),
        },
        run,
        sneak,
    })
}

fn bytes_of(m: &Message) -> Vec<u8> {
    let mut buf = [0u8; Message::MAX_ENCODED_LEN];
    encode(m, &mut buf).expect("encodes").to_vec()
}

fn hello(hashes: &[u64], name: &str) -> Message {
    Message::Hello(Hello {
        schema_version: SCHEMA_VERSION,
        client_build: 7,
        mod_hashes: heapless::Vec::from_slice(hashes).expect("fits"),
        name: name.parse().expect("fits"),
    })
}

fn hosted(deltas: &[ItemDelta]) -> Message {
    Message::HostedActor(HostedActorState {
        actor: FormId(0x20),
        transform: Transform {
            x: f(1.5),
            y: f(-2.0),
            z: f(0.0),
            yaw: f(3.0),
            pitch: f(-0.25),
        },
        health: f(50.0),
        inventory_delta: heapless::Vec::from_slice(deltas).expect("fits"),
    })
}

#[test]
fn round_trip_movement() -> Result<(), WireError> {
    let m = movement(7, 1.0, 2.0, 3.0, 0.5, 0.0, true, false);
    let mut buf = [0u8; Message::MAX_ENCODED_LEN];
    let bytes = encode(&m, &mut buf)?;
    assert_eq!(decode(bytes), Ok(m));
    Ok(())
}

#[test]
fn rejects_too_long() {
    let too_long = vec![0u8; Message::MAX_ENCODED_LEN.saturating_add(1)];
    assert!(matches!(decode(&too_long), Err(WireError::TooLong { .. })));
}

#[test]
fn rejects_trailing() -> Result<(), WireError> {
    let m = Message::HostGrant {
        cell: FormId(0x1234),
    };
    let mut buf = [0u8; Message::MAX_ENCODED_LEN];
    let bytes = encode(&m, &mut buf)?;
    let mut with_extra = bytes.to_vec();
    with_extra.push(0);
    assert_eq!(decode(&with_extra), Err(WireError::Trailing(1)));
    Ok(())
}

#[test]
fn rejects_malformed() {
    assert_eq!(decode(&[0x7f]), Err(WireError::Malformed));
    assert_eq!(decode(&[]), Err(WireError::Malformed));
}

#[test]
fn rejects_non_canonical() -> Result<(), WireError> {
    // `Refuse { reason: 0 }` encodes as [tag, 0x00]. The overlong varint
    // [0x80, 0x00] is the same zero to postcard; the codec refuses it.
    let m = Message::Refuse { reason: 0 };
    let mut buf = [0u8; Message::MAX_ENCODED_LEN];
    let bytes = encode(&m, &mut buf)?;
    assert_eq!(bytes.len(), 2);
    let tag = *bytes.first().ok_or(WireError::Malformed)?;
    let overlong = [tag, 0x80, 0x00];
    assert_eq!(decode(&overlong), Err(WireError::NonCanonical));
    Ok(())
}

#[test]
fn encode_decode_is_identity_on_bytes() {
    let values = [
        0.0f32,
        -0.0,
        1.0,
        -1.5,
        f32::MIN_POSITIVE,
        f32::MAX,
        f32::INFINITY,
        f32::NEG_INFINITY,
        f32::NAN,
        f32::from_bits(1),
        f32::from_bits(0x7fa0_0001),
    ];
    for (i, v) in values.iter().enumerate() {
        for seq in [0u32, 1, 127, 128, 16_384, u32::MAX] {
            let m = movement(seq, *v, 2.0, *v, -*v, 0.5, i % 2 == 0, i % 3 == 0);
            let first = bytes_of(&m);
            let decoded = decode(&first).expect("decodes");
            assert_eq!(first, bytes_of(&decoded));
        }
    }
}

#[test]
fn hit_round_trip() {
    for n in [0u32, 1, 127, 128, 300, 16_383, 16_384, 2_097_152, 268_435_456, u32::MAX] {
        let m = Message::Hit(HitIntent {
            seq: n,
            attacker: FormId(n / 3),
            target: FormId(n / 5),
            weapon: FormId(n ^ 1),
            power_attack: n % 2 == 1,
            client_time_ms: n / 7,
        });
        assert_eq!(decode(&bytes_of(&m)), Ok(m));
    }
}

#[test]
fn decode_is_total() {
    let mut state: u64 = 0x9e37_79b9_7f4a_7c15;
    for len in 0..200usize {
        let mut bytes = Vec::new();
        for _ in 0..len {
            state = state.wrapping_mul(6_364_136_223_846_793_005).wrapping_add(1);
            bytes.push((state >> 33) as u8);
        }
        let _ = decode(&bytes);
        for tag in 0..10u8 {
            if let Some(first) = bytes.first_mut() {
                *first = tag;
            }
            if let Ok(m) = decode(&bytes) {
                assert_eq!(bytes_of(&m), bytes);
            }
        }
    }
    let _ = decode(&vec![0u8; Message::MAX_ENCODED_LEN + 2]);
}

#[test]
fn every_variant_round_trips() {
    let all = [
        hello(&[1, 128, u64::MAX], "Ulfric"),
        hello(&[], ""),
        hello(&[u64::MAX; MODS], &"n".repeat(NAME)),
        hello(&[5], "Dovah\u{fc}\u{2603}"),
        Message::Welcome {
            client_id: ClientId(u64::MAX),
            server_time_ms: 12_345,
        },
        Message::Refuse { reason: 301 },
        movement(9, 1.0, 2.0, 3.0, 4.0, 5.0, false, true),
        hosted(&[]),
        hosted(&[ItemDelta { item: FormId(u32::MAX), count: i32::MIN }; INVENTORY_DELTA]),
        Message::InventoryApply {
            owner: FormId(1),
            delta: ItemDelta { item: FormId(2), count: -3 },
        },
        Message::HostGrant { cell: FormId(0) },
        Message::HostRelease { cell: FormId(u32::MAX) },
    ];
    for m in &all {
        let bytes = bytes_of(m);
        assert!(bytes.len() <= Message::MAX_ENCODED_LEN);
        assert_eq!(decode(&bytes).as_ref(), Ok(m));
    }
    for a in &all {
        for b in &all {
            assert_eq!(a == b, bytes_of(a) == bytes_of(b));
        }
    }
}

#[test]
fn known_encodings() {
    assert_eq!(
        bytes_of(&Message::Welcome { client_id: ClientId(300), server_time_ms: 1 }),
        vec![1, 0xac, 0x02, 1]
    );
    assert_eq!(bytes_of(&Message::Refuse { reason: 206 }), vec![2, 0xce, 0x01]);
    assert_eq!(
        bytes_of(&movement(7, 1.0, 0.0, -2.0, 0.0, 0.0, true, false)),
        vec![
            3, 7, 0x14, 0, 0, 0x80, 0x3f, 0, 0, 0, 0, 0, 0, 0, 0xc0, 0, 0, 0, 0, 0, 0, 0, 0, 1, 0
        ]
    );
    assert_eq!(
        bytes_of(&Message::InventoryApply {
            owner: FormId(1),
            delta: ItemDelta { item: FormId(2), count: -3 },
        }),
        vec![6, 1, 2, 5]
    );
    assert_eq!(bytes_of(&hello(&[2], "ab")), vec![0, 1, 7, 1, 2, 2, b'a', b'b']);
}

#[test]
fn agrees_with_postcard_on_the_same_fields() {
    let mut buf = [0u8; 256];
    let same = postcard::to_slice(
        &(4u8, 70_000u32, 1u32, 2u32, 3u32, true, 99u32),
        &mut buf,
    )
    .expect("fits");
    let m = Message::Hit(HitIntent {
        seq: 70_000,
        attacker: FormId(1),
        target: FormId(2),
        weapon: FormId(3),
        power_attack: true,
        client_time_ms: 99,
    });
    assert_eq!(bytes_of(&m), same.to_vec());

    let mut buf = [0u8; 256];
    let same = postcard::to_slice(
        &(
            5u8,
            0x20u32,
            (1.5f32, -2.0f32, 0.0f32, 3.0f32, -0.25f32),
            50.0f32,
            vec![(1u32, -4i32), (70_000u32, i32::MAX)],
        ),
        &mut buf,
    )
    .expect("fits");
    let m = hosted(&[
        ItemDelta { item: FormId(1), count: -4 },
        ItemDelta { item: FormId(70_000), count: i32::MAX },
    ]);
    assert_eq!(bytes_of(&m), same.to_vec());

    let mut buf = [0u8; 4096];
    let same = postcard::to_slice(
        &(0u8, SCHEMA_VERSION, 7u32, vec![u64::MAX; 200], "Dovah\u{fc}"),
        &mut buf,
    )
    .expect("fits");
    assert_eq!(bytes_of(&hello(&[u64::MAX; 200], "Dovah\u{fc}")), same.to_vec());
}

#[test]
fn the_longest_message_is_as_long_as_the_cap() {
    let longest = Message::Hello(Hello {
        schema_version: u16::MAX,
        client_build: u32::MAX,
        mod_hashes: heapless::Vec::from_slice(&[u64::MAX; MODS]).expect("fits"),
        name: "n".repeat(NAME).parse().expect("fits"),
    });
    assert_eq!(bytes_of(&longest).len(), Message::MAX_ENCODED_LEN);
    assert_eq!(Message::MAX_ENCODED_LEN, 2626);
}

#[test]
fn over_capacity_collections_are_malformed() {
    // 256 hashes of zero, one more than a list holds.
    let mut bytes = vec![0, 1, 7, 0x80, 0x02];
    bytes.extend(vec![0u8; 256]);
    bytes.push(0);
    assert_eq!(decode(&bytes), Err(WireError::Malformed));
    // A name of 65 bytes.
    let mut bytes = vec![0, 1, 7, 0, 65];
    bytes.extend(vec![b'n'; 65]);
    assert_eq!(decode(&bytes), Err(WireError::Malformed));
    // 33 inventory changes.
    let mut bytes = bytes_of(&hosted(&[]));
    let last = bytes.len() - 1;
    bytes[last] = 33;
    bytes.extend(vec![2u8; 66]);
    assert_eq!(decode(&bytes), Err(WireError::Malformed));
}

#[test]
fn truncated_and_ill_formed_fields_are_malformed() {
    let whole = bytes_of(&movement(300, 1.0, 2.0, 3.0, 4.0, 5.0, true, true));
    for n in 0..whole.len() {
        assert_eq!(decode(&whole[..n]), Err(WireError::Malformed));
    }
    // A flag that is neither zero nor one.
    let mut bad = whole.clone();
    let last = bad.len() - 1;
    bad[last] = 2;
    assert_eq!(decode(&bad), Err(WireError::Malformed));
    // A name that is not UTF-8.
    assert_eq!(decode(&[0, 1, 7, 0, 1, 0xff]), Err(WireError::Malformed));
    // A variant that does not exist.
    assert_eq!(decode(&[9, 0]), Err(WireError::Malformed));
    // A reason that does not fit its integer.
    assert_eq!(decode(&[2, 0xff, 0xff, 0x04]), Err(WireError::Malformed));
}

#[test]
fn overlong_lengths_are_not_canonical() {
    // An empty list of hashes whose length takes two bytes.
    assert_eq!(decode(&[0, 1, 7, 0x80, 0x00, 0]), Err(WireError::NonCanonical));
    // An id that takes two bytes.
    assert_eq!(decode(&[0x87, 0x00, 5]), Err(WireError::NonCanonical));
}

#[test]
fn short_buffers_are_refused_and_left_alone() {
    let m = Message::HostGrant { cell: FormId(1) };
    let mut buf = vec![0xaau8; Message::MAX_ENCODED_LEN - 1];
    assert_eq!(encode(&m, &mut buf), Err(WireError::Malformed));
    assert!(buf.iter().all(|b| *b == 0xaa));
    let mut buf = vec![0xaau8; Message::MAX_ENCODED_LEN];
    assert_eq!(encode(&m, &mut buf), Ok(&[7u8, 1][..]));
    assert!(buf[2..].iter().all(|b| *b == 0xaa));
}

#[test]
fn decode_errors_have_their_texts() {
    let long = vec![0u8; 2627];
    let texts: Vec<String> = [
        decode(&long),
        decode(&[]),
        decode(&[7, 1, 0, 0, 0, 0, 0, 0, 0, 0, 0, 0, 0]),
        decode(&[7, 0x81, 0x00]),
    ]
    .iter()
    .map(|r| match r {
        Err(e) => e.to_string(),
        Ok(_) => String::new(),
    })
    .collect();
    assert_eq!(
        texts,
        vec![
            "E_WIRE_TOO_LONG: 2627 > 2626",
            "E_WIRE_MALFORMED",
            "E_WIRE_TRAILING: 11 bytes after message",
            "E_WIRE_NONCANONICAL",
        ]
    );
}

#[test]
fn copies_are_equal() {
    let m = hello(&[1, 2, 3], "Lydia");
    assert_eq!(m.clone(), m);
    let m = hosted(&[ItemDelta { item: FormId(9), count: 4 }]);
    assert_eq!(m.clone(), m);
    assert_ne!(m, hosted(&[]));
}

#[test]
fn messages_have_their_names() {
    assert_eq!(hello(&[], "").name(), "Hello");
    assert_eq!(Message::Refuse { reason: 1 }.name(), "Refuse");
    assert_eq!(hosted(&[]).name(), "HostedActor");
    assert_eq!(movement(1, 0.0, 0.0, 0.0, 0.0, 0.0, false, false).name(), "Movement");
    assert_eq!(Message::HostRelease { cell: FormId(1) }.name(), "HostRelease");
}
