use skymp_wire::mirror::{build, exercise, tf, M, T};
use skymp_wire::scalar::F32;
use skymp_wire::schema::{FormId, Message};

fn t() -> T {
    let f = |v: f32| F32::from_bits(v.to_bits());
    T {
        x: f(1.0),
        y: f(2.0),
        z: f(3.0),
        yaw: f(4.0),
        pitch: f(5.0),
    }
}

#[test]
fn collections_are_cut_at_their_capacities() {
    let m = build(&M::Hello {
        v: 1,
        build: 2,
        mods: (0..300).collect(),
        name: "x".repeat(70),
    });
    match m {
        Message::Hello(h) => {
            assert_eq!((h.schema_version, h.client_build), (1, 2));
            assert_eq!(h.mod_hashes.len(), 255);
            assert_eq!(h.mod_hashes.last(), Some(&254));
            assert_eq!(h.name.as_str(), "x".repeat(64));
        }
        other => panic!("{other:?}"),
    }
    let m = build(&M::Hosted {
        actor: 3,
        t: t(),
        health: F32::from_bits(0),
        deltas: (0..40).map(|i| (i, -(i as i32))).collect(),
    });
    match m {
        Message::HostedActor(s) => {
            assert_eq!(s.inventory_delta.len(), 32);
            assert_eq!(s.inventory_delta[31].item, FormId(31));
            assert_eq!(s.inventory_delta[31].count, -31);
            assert_eq!(s.transform, tf(&t()));
        }
        other => panic!("{other:?}"),
    }
}

#[test]
fn names_are_cut_between_characters() {
    let cut = |name: &str| match build(&M::Hello {
        v: 1,
        build: 1,
        mods: Vec::new(),
        name: name.to_string(),
    }) {
        Message::Hello(h) => h.name.as_str().to_string(),
        other => panic!("{other:?}"),
    };
    assert_eq!(cut(""), "");
    assert_eq!(cut("Lydia"), "Lydia");
    // Twenty-one snowmen take 63 bytes; a twenty-second does not fit, and
    // what comes after it is dropped too.
    let snowmen = "\u{2603}".repeat(21);
    assert_eq!(cut(&format!("{snowmen}\u{2603}x")), snowmen);
    assert_eq!(cut(&format!("{snowmen}x\u{2603}")), format!("{snowmen}x"));
}

#[test]
fn every_mirror_survives() {
    let messages = vec![
        M::Hello {
            v: 9,
            build: u32::MAX,
            mods: vec![u64::MAX; 256],
            name: "\u{1f409}".repeat(20),
        },
        M::Movement {
            seq: 4,
            actor: 1,
            t: t(),
            run: true,
            sneak: true,
        },
        M::Hit {
            seq: 5,
            a: 1,
            target: 2,
            w: 3,
            p: true,
            ms: 6,
        },
        M::Hosted {
            actor: 1,
            t: t(),
            health: F32::from_bits(0x7fc0_0000),
            deltas: vec![(1, 0)],
        },
        M::Welcome { id: 1, t: 2 },
        M::Refuse { r: 3 },
        M::InventoryApply {
            owner: 1,
            item: 2,
            count: i32::MIN,
        },
        M::HostGrant { cell: 4 },
        M::HostRelease { cell: 5 },
    ];
    let guard = exercise(&messages, &vec![10, 20]).expect("every message survives");
    assert_eq!(guard.last_movement_seq, 4);
    assert!(guard.movement_primed);
    assert_eq!((guard.movement_budget.tokens, guard.hit_budget.tokens), (59, 59));
}

#[test]
fn missing_ticks_are_sixteen() {
    let messages: Vec<M> = (0..200u32)
        .map(|seq| M::Movement {
            seq,
            actor: 1,
            t: t(),
            run: false,
            sneak: false,
        })
        .collect();
    let guard = exercise(&messages, &vec![0; 61]).expect("every message survives");
    // Sixty at once, one too many, then one every 16 ms against one every 16.67 ms.
    assert!(guard.last_movement_seq == 198 || guard.last_movement_seq == 199);
    assert!(guard.movement_budget.tokens <= 60);
}
