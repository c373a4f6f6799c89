use skymp_wire::scalar::F32;
use skymp_wire::schema::{
    FormId, Hello, HitIntent, HostedActorState, ItemDelta, Message, MovementSample, Transform,
    SCHEMA_VERSION,
};
use skymp_wire::validate::{
    validate, ClientGuard, Reject, ReplayWindow, TokenBucket, WORLD_ABS_MAX, WORLD_ABS_MAX_BITS,
};

fn f(v: f32) -> F32 {
    F32::from_bits(v.to_bits())
}

fn at(x: f32, y: f32, z: f32, yaw: f32, pitch: f32) -> Transform {
    Transform {
        x: f(x),
        y: f(y),
        z: f(z),
        yaw: f(yaw),
        pitch: f(pitch),
    }
}

fn movement_at(seq: u32, transform: Transform) -> Message {
    Message::Movement(MovementSample {
        seq,
        actor: FormId(0x14),
        transform,
        run: false,
        sneak: false,
    })
}

fn movement(seq: u32, x: f32) -> Message {
    movement_at(seq, at(x, 0.0, 0.0, 0.0, 0.0))
}

fn hit(seq: u32) -> Message {
    Message::Hit(HitIntent {
        seq,
        attacker: FormId(0x14),
        target: FormId(0x15),
        weapon: FormId(0x1234),
        power_attack: false,
        client_time_ms: 0,
    })
}

fn hello(v: u16) -> Message {
    Message::Hello(Hello {
        schema_version: v,
        client_build: 1,
        mod_hashes: heapless::Vec::new(),
        name: heapless::String::new(),
    })
}

fn hosted(health: f32, counts: &[i32]) -> Message {
    let mut inv = heapless::Vec::new();
    for c in counts {
        let _ = inv.push(ItemDelta {
            item: FormId(1),
            count: *c,
        });
    }
    Message::HostedActor(HostedActorState {
        actor: FormId(0x20),
        transform: at(0.0, 0.0, 0.0, 0.0, 0.0),
        health: f(health),
        inventory_delta: inv,
    })
}

#[test]
fn schema_version_both_ways() {
    let mut g = ClientGuard::default();
    assert_eq!(validate(&hello(SCHEMA_VERSION), &mut g, 0), Ok(()));
    assert_eq!(
        validate(&hello(SCHEMA_VERSION ^ 1), &mut g, 0),
        Err(Reject::SchemaVersion)
    );
}

#[test]
fn non_finite_both_ways() {
    let mut g = ClientGuard::default();
    assert_eq!(
        validate(&movement(1, f32::NAN), &mut g, 0),
        Err(Reject::NonFinite)
    );
    assert_eq!(validate(&movement(1, 10.0), &mut g, 0), Ok(()));
    assert_eq!(
        validate(&hosted(f32::INFINITY, &[1]), &mut g, 0),
        Err(Reject::NonFinite)
    );
    assert_eq!(validate(&hosted(50.0, &[1]), &mut g, 0), Ok(()));
}

#[test]
fn out_of_world_both_ways() {
    let mut g = ClientGuard::default();
    assert_eq!(
        validate(&movement(1, 2.0e6), &mut g, 0),
        Err(Reject::OutOfWorld)
    );
    assert_eq!(
        validate(&movement(1, -2.0e6), &mut g, 0),
        Err(Reject::OutOfWorld)
    );
    assert_eq!(validate(&movement(1, WORLD_ABS_MAX as f32), &mut g, 0), Ok(()));
}

#[test]
fn rate_both_ways() {
    let mut g = ClientGuard::default();
    for seq in 1..=60u32 {
        assert_eq!(validate(&movement(seq, 0.0), &mut g, 0), Ok(()));
    }
    assert_eq!(validate(&movement(61, 0.0), &mut g, 0), Err(Reject::Rate));
    // One second later the bucket has refilled.
    assert_eq!(validate(&movement(61, 0.0), &mut g, 1_000), Ok(()));
}

#[test]
fn zero_delta_both_ways() {
    let mut g = ClientGuard::default();
    assert_eq!(
        validate(&hosted(1.0, &[0]), &mut g, 0),
        Err(Reject::ZeroDelta)
    );
    assert_eq!(validate(&hosted(1.0, &[1, -1]), &mut g, 0), Ok(()));
}

#[test]
fn movement_replay_is_monotonic_and_seq_zero_counts() {
    let mut g = ClientGuard::default();
    assert_eq!(validate(&movement(0, 0.0), &mut g, 0), Ok(()));
    assert_eq!(
        validate(&movement(0, 0.0), &mut g, 0),
        Err(Reject::SeqReplay)
    );
    assert_eq!(validate(&movement(5, 0.0), &mut g, 0), Ok(()));
    assert_eq!(
        validate(&movement(5, 0.0), &mut g, 0),
        Err(Reject::SeqReplay)
    );
    assert_eq!(
        validate(&movement(4, 0.0), &mut g, 0),
        Err(Reject::SeqReplay)
    );
    assert_eq!(validate(&movement(6, 0.0), &mut g, 0), Ok(()));
}

#[test]
fn hit_replay_is_a_window() {
    let mut g = ClientGuard::default();
    assert_eq!(validate(&hit(10), &mut g, 0), Ok(()));
    assert_eq!(validate(&hit(12), &mut g, 0), Ok(()));
    assert_eq!(
        validate(&hit(11), &mut g, 0),
        Ok(()),
        "out of order inside the window is legal"
    );
    assert_eq!(validate(&hit(11), &mut g, 0), Err(Reject::SeqReplay));
    assert_eq!(validate(&hit(10), &mut g, 0), Err(Reject::SeqReplay));
    assert_eq!(validate(&hit(200), &mut g, 0), Ok(()));
    assert_eq!(
        validate(&hit(100), &mut g, 0),
        Err(Reject::SeqReplay),
        "older than the window"
    );
    assert_eq!(validate(&hit(199), &mut g, 0), Ok(()));
    assert_eq!(
        validate(&hit(137), &mut g, 0),
        Ok(()),
        "last slot inside the window"
    );
    assert_eq!(
        validate(&hit(136), &mut g, 0),
        Err(Reject::SeqReplay),
        "first slot outside it"
    );
}

#[test]
fn replay_window_edges() {
    let mut w = ReplayWindow::default();
    assert!(w.accept(0));
    assert!(!w.accept(0));
    assert!(w.accept(u32::MAX));
    assert!(w.accept(u32::MAX - 63));
    assert!(!w.accept(u32::MAX - 64));
    assert!(!w.accept(0));
}

#[test]
fn token_bucket_carries_fractions() {
    let mut b = TokenBucket {
        tokens: 0,
        capacity: 60,
        refill_per_s: 60,
        last_refill_ms: 0,
    };
    assert!(!b.take(10), "10 ms at 60/s is under one token");
    assert!(b.take(17), "17 ms is one token");
    assert!(!b.take(17), "and it is spent");
    assert!(
        b.take(34),
        "the 1 ms remainder from before carries into the next token"
    );
}

const TIMES: [u64; 12] = [
    0,
    5,
    17,
    1_000,
    999,
    60_000,
    60_016,
    u64::MAX / 2,
    3,
    u64::MAX - 1,
    u64::MAX,
    u64::MAX,
];

#[test]
fn movement_never_panics() {
    let values = [0.0, -0.0, 1.0e6, -1.0e6, 1.0e30, f32::NAN, f32::INFINITY, f32::MIN_POSITIVE];
    for x in values {
        for y in values {
            for now in TIMES {
                let m = movement_at(u32::MAX, at(x, y, x, y, x));
                let mut g = ClientGuard::default();
                let _ = validate(&m, &mut g, now);
                let _ = validate(&m, &mut g, now);
            }
        }
    }
}

#[test]
fn hits_never_panic() {
    let mut g = ClientGuard::default();
    let mut now = 0u64;
    let mut seq: u32 = 1;
    for i in 0..200u32 {
        seq = seq.wrapping_mul(1_664_525).wrapping_add(1_013_904_223);
        now = now.saturating_add(u64::from(seq % 65_536));
        let _ = validate(&hit(seq), &mut g, now);
        let _ = validate(&hit(i), &mut g, now);
    }
}

#[test]
fn hosted_never_panics() {
    let mut g = ClientGuard::default();
    for health in [0.0, -1.0, f32::NAN, f32::INFINITY, f32::MAX] {
        for n in 0..=32usize {
            let counts: Vec<i32> = (0..n).map(|i| i as i32 - 7).collect();
            let _ = validate(&hosted(health, &counts), &mut g, 0);
        }
    }
}

#[test]
fn bucket_never_exceeds_capacity() {
    let mut b = TokenBucket::default();
    for t in TIMES {
        let _ = b.take(t);
        assert!(b.tokens <= b.capacity);
    }
}

#[test]
fn bucket_steps_are_exact() {
    let mut b = TokenBucket {
        tokens: 0,
        capacity: 10,
        refill_per_s: 60,
        last_refill_ms: 100,
    };
    // 17 ms are worth one token and 16 of them are credited; the token took 16.67.
    assert!(b.take(117));
    assert_eq!((b.tokens, b.last_refill_ms), (0, 116));
    // 17 ms more are worth the next, and bring the clock to where it is due.
    assert!(b.take(133));
    assert_eq!((b.tokens, b.last_refill_ms), (0, 133));
    assert!(!b.take(133) && !b.take(149));
    assert!(b.take(150));
    assert_eq!((b.tokens, b.last_refill_ms), (0, 150));
    // A second is worth more than the bucket holds.
    assert!(b.take(1_150));
    assert_eq!((b.tokens, b.last_refill_ms), (9, 1_150));
    // Time that runs backwards is worth nothing.
    assert!(b.take(5));
    assert_eq!((b.tokens, b.last_refill_ms), (8, 1_150));
    // A bucket that never refills runs dry.
    let mut dry = TokenBucket {
        tokens: 1,
        capacity: 1,
        refill_per_s: 0,
        last_refill_ms: 0,
    };
    assert!(dry.take(u64::MAX));
    assert!(!dry.take(u64::MAX));
    assert_eq!(dry.last_refill_ms, 0);
    // The largest rate over the largest time fills the largest bucket.
    let mut fast = TokenBucket {
        tokens: 0,
        capacity: u32::MAX,
        refill_per_s: u32::MAX,
        last_refill_ms: 0,
    };
    assert!(fast.take(u64::MAX));
    assert_eq!((fast.tokens, fast.last_refill_ms), (u32::MAX - 1, u64::MAX));
}

#[test]
fn a_second_brings_in_the_rate_however_often_it_is_asked() {
    for rate in [1u32, 7, 60, 999, 1_000] {
        let mut b = TokenBucket {
            tokens: 0,
            capacity: 60,
            refill_per_s: rate,
            last_refill_ms: 0,
        };
        let granted = (1..=1_000u64).filter(|t| b.take(*t)).count();
        assert_eq!(granted, rate as usize);
    }
    for rate in [60u32, 1_001, 1_500, 4_294_967_295] {
        for every in [1u64, 3, 250, 1_000] {
            let mut b = TokenBucket {
                tokens: 0,
                capacity: u32::MAX,
                refill_per_s: rate,
                last_refill_ms: 0,
            };
            let mut granted = 0u64;
            let mut now = 0u64;
            while now < 1_000 {
                now = (now + every).min(1_000);
                for _ in 0..3 {
                    granted += u64::from(b.take(now));
                }
            }
            assert_eq!(granted + u64::from(b.tokens), u64::from(rate));
        }
    }
}

#[test]
fn rate_over_a_run_is_bounded() {
    let mut g = ClientGuard::default();
    let mut accepted = 0u64;
    let until = 10_000u64;
    for now in 0..=until {
        for _ in 0..3 {
            let seq = (accepted + 1) as u32;
            if validate(&movement(seq, 0.0), &mut g, now).is_ok() {
                accepted += 1;
            }
        }
    }
    assert_eq!(accepted, 60 + 60 * 10);
    assert!(accepted * 1000 < 60 * 1000 + until * 60 + 1000);
}

#[test]
fn world_bound_is_inclusive_on_every_axis() {
    assert_eq!(WORLD_ABS_MAX_BITS, (WORLD_ABS_MAX as f32).to_bits());
    let edge = 1.0e6f32;
    let over = f32::from_bits(edge.to_bits() + 1);
    let mut g = ClientGuard::default();
    assert_eq!(validate(&movement_at(1, at(edge, -edge, edge, 0.0, 0.0)), &mut g, 0), Ok(()));
    for t in [
        at(over, 0.0, 0.0, 0.0, 0.0),
        at(0.0, -over, 0.0, 0.0, 0.0),
        at(0.0, 0.0, over, 0.0, 0.0),
    ] {
        assert_eq!(validate(&movement_at(2, t), &mut g, 0), Err(Reject::OutOfWorld));
    }
    // Angles have no bound but must be finite, and not-a-number comes first.
    assert_eq!(validate(&movement_at(3, at(0.0, 0.0, 0.0, 1.0e30, -1.0e30)), &mut g, 0), Ok(()));
    assert_eq!(
        validate(&movement_at(4, at(over, 0.0, 0.0, 0.0, f32::NAN)), &mut g, 0),
        Err(Reject::NonFinite)
    );
}

#[test]
fn rejections_leave_the_guard_alone() {
    let mut g = ClientGuard::default();
    assert_eq!(validate(&movement(5, 0.0), &mut g, 0), Ok(()));
    let tokens = g.movement_budget.tokens;
    assert_eq!(validate(&movement(5, 0.0), &mut g, 0), Err(Reject::SeqReplay));
    assert_eq!(validate(&movement(9, f32::NAN), &mut g, 0), Err(Reject::NonFinite));
    assert_eq!(validate(&movement(9, 3.0e6), &mut g, 0), Err(Reject::OutOfWorld));
    assert_eq!((g.movement_budget.tokens, g.last_movement_seq), (tokens, 5));
    // Over the rate, the last accepted number still stands.
    for seq in 6..65u32 {
        assert_eq!(validate(&movement(seq, 0.0), &mut g, 0), Ok(()));
    }
    assert_eq!(validate(&movement(65, 0.0), &mut g, 0), Err(Reject::Rate));
    assert_eq!(g.last_movement_seq, 64);
    assert_eq!(validate(&movement(65, 0.0), &mut g, 1_000), Ok(()));
}

#[test]
fn a_hit_over_the_rate_is_a_replay_afterwards() {
    let mut g = ClientGuard::default();
    for seq in 1..=60u32 {
        assert_eq!(validate(&hit(seq), &mut g, 0), Ok(()));
    }
    assert_eq!(validate(&hit(61), &mut g, 0), Err(Reject::Rate));
    assert_eq!(validate(&hit(61), &mut g, 1_000), Err(Reject::SeqReplay));
    assert_eq!(validate(&hit(62), &mut g, 1_000), Ok(()));
    // Hits spend nothing of the movements' budget.
    assert_eq!(g.movement_budget.tokens, 60);
}

#[test]
fn window_remembers_across_jumps() {
    let mut w = ReplayWindow::default();
    assert!(w.accept(100));
    assert!(w.accept(101));
    assert!(w.accept(98));
    assert!(!w.accept(98) && !w.accept(100) && !w.accept(101));
    // A jump of 63 keeps the old top in view, one more does not.
    assert!(w.accept(164));
    assert!(!w.accept(101));
    assert!(w.accept(102));
    assert!(!w.accept(100));
    assert!(w.accept(165));
    assert!(!w.accept(101));
    // A jump past the width forgets everything below.
    assert!(w.accept(400));
    assert!(!w.accept(165));
    assert!(w.accept(337));
    assert!(!w.accept(336));
}

#[test]
fn order_of_hosted_checks() {
    let mut g = ClientGuard::default();
    assert_eq!(validate(&hosted(f32::NAN, &[0]), &mut g, 0), Err(Reject::NonFinite));
    assert_eq!(validate(&hosted(1.0, &[3, 0, 2]), &mut g, 0), Err(Reject::ZeroDelta));
    assert_eq!(validate(&hosted(1.0, &[]), &mut g, 0), Ok(()));
}

#[test]
fn rejections_have_their_texts() {
    let all = [
        (Reject::SchemaVersion, "E_VAL_SCHEMA_VERSION"),
        (Reject::NonFinite, "E_VAL_NONFINITE"),
        (Reject::OutOfWorld, "E_VAL_OUT_OF_WORLD"),
        (Reject::Rate, "E_VAL_RATE"),
        (Reject::ZeroDelta, "E_VAL_ZERO_DELTA"),
        (Reject::SeqReplay, "E_VAL_SEQ_REPLAY"),
    ];
    for (reject, text) in all {
        assert_eq!(reject.to_string(), text);
    }
}
