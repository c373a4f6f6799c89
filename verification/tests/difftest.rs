use skymp_wire::difftest::legacy::{
    event_name, fakeclient_args, fakeclient_ended, outcomes, received, script_file, script_lines,
    EventName, Legacy, LegacyEvent, LegacyKind, LegacyStep,
};
use skymp_wire::difftest::order::sort_by_step;
use skymp_wire::difftest::report::{legacy_events, report, reports};
use skymp_wire::difftest::wire::{Wait, Waiting, Wire};
use skymp_wire::difftest::{
    comparable, legacy_started, next_action, run, same_steps, Action, DiffError, Divergence,
    Outcome, Recorded, Second, Session, Step, StepRecord,
};
use skymp_wire::scalar::F32;
use skymp_wire::schema::{
    FormId, Hello, HitIntent, Message, MovementSample, Transform, SCHEMA_VERSION,
};
use skymp_wire::transport::limits::Limits;
use skymp_wire::transport::token::{Auth, ConnectToken};
use skymp_wire::transport::{Client, Inbound, NetEvent, Server};

fn f(v: f32) -> F32 {
    F32::from_bits(v.to_bits())
}

fn movement(seq: u32) -> Message {
    Message::Movement(MovementSample {
        seq,
        actor: FormId(0x14),
        transform: Transform {
            x: f(9000.0),
            y: f(-1.0),
            z: f(2.0),
            yaw: f(0.0),
            pitch: f(0.0),
        },
        run: true,
        sneak: false,
    })
}

fn hello() -> Message {
    Message::Hello(Hello {
        schema_version: SCHEMA_VERSION,
        client_build: 1,
        mod_hashes: heapless::Vec::new(),
        name: heapless::String::new(),
    })
}

fn hit(seq: u32) -> Message {
    Message::Hit(HitIntent {
        seq,
        attacker: FormId(0x14),
        target: FormId(0x15),
        weapon: FormId(0x1234),
        power_attack: false,
        client_time_ms: 0,
    })
}

fn step(at_ms: u64, client: &str, legacy: Option<Outcome>) -> Step {
    Step {
        at_ms,
        client: client.to_string(),
        divergence: legacy.map(|legacy| Divergence { legacy }),
    }
}

/// Two logins, two moves, the second move again, a hit. The legacy server
/// accepts the replayed number and has no hits.
fn smoke() -> Session {
    Session {
        id: "smoke".to_string(),
        clients: vec!["c1".to_string(), "c2".to_string()],
        steps: vec![
            step(0, "c1", None),
            step(0, "c2", None),
            step(100, "c1", None),
            step(116, "c1", None),
            step(132, "c1", Some(Outcome::Accept)),
            step(500, "c2", Some(Outcome::Unsupported)),
        ],
    }
}

fn smoke_messages() -> Vec<Message> {
    vec![hello(), hello(), movement(1), movement(2), movement(2), hit(1)]
}

fn record(i: usize, outcome: Recorded, reason: Option<&str>) -> StepRecord {
    StepRecord {
        i,
        client: "c1".to_string(),
        message: "Movement",
        outcome,
        reason: reason.map(str::to_string),
    }
}

/// The wire stack over an in-memory network.
struct Loopback {
    server: Server,
    clients: Vec<(String, u64, Client)>,
}

impl Loopback {
    fn pump(&mut self, dt_ms: u64, wire: &mut Wire) {
        for (_, id, client) in self.clients.iter_mut() {
            for o in client.take_outgoing() {
                self.server.deliver(NetEvent::Packet {
                    client: *id,
                    bytes: o.bytes,
                });
            }
        }
        self.server.poll(dt_ms, &mut wire.events);
    }
}

fn replay(session: &Session, messages: &[Message]) -> Wire {
    let mut net = Loopback {
        server: Server::bind(true, Limits::default(), &Auth::Unsecure).expect("bound"),
        clients: Vec::new(),
    };
    let mut wire = Wire::new();
    for (n, name) in session.clients.iter().enumerate() {
        let id = 100 + n as u64;
        let client = Client::connect(true, &ConnectToken(Vec::new())).expect("opened");
        net.clients.push((name.clone(), id, client));
        net.server.deliver(NetEvent::Connected { client: id });
        net.pump(5, &mut wire);
        wire.connect(name, wire.new_client().is_some()).expect("connects");
    }
    for (i, (st, msg)) in session.steps.iter().zip(messages).enumerate() {
        let gap = wire.gap_to(st.at_ms);
        net.pump(gap, &mut wire);
        wire.advance(st.at_ms);
        let id = wire.client_id(&st.client).expect("connected");
        for (name, _, client) in net.clients.iter_mut() {
            if *name == st.client {
                client.send(msg).expect("encodes");
            }
        }
        net.pump(5, &mut wire);
        assert!(wire.has_outcome(id));
        wire.send(i, &st.client, id, msg).expect("arrives");
    }
    wire
}

#[test]
fn wire_driver_records_the_replay_and_the_reason() {
    let s = smoke();
    let wire = replay(&s, &smoke_messages());
    assert_eq!(wire.steps.len(), s.steps.len());
    let got: Vec<&str> = wire.steps.iter().map(|r| r.outcome.as_str()).collect();
    assert_eq!(
        got,
        vec!["accepted", "accepted", "accepted", "accepted", "rejected", "accepted"]
    );
    assert_eq!(wire.steps[4].reason.as_deref(), Some("E_VAL_SEQ_REPLAY"));
    assert!(wire.unattributed().is_empty());
}

#[test]
fn replays_of_one_session_are_identical() {
    let s = smoke();
    let first = replay(&s, &smoke_messages());
    let second = replay(&s, &smoke_messages());
    let verdict = run(&s, &first.steps, &Second::Again(second.steps, "no binary".to_string()));
    assert_eq!(
        verdict.expect("identical"),
        "difftest smoke: identical (wire self-diff; legacy driver: no binary)"
    );
}

fn legacy_event(name: &str, t: Option<i64>, near: &[bool]) -> LegacyEvent {
    LegacyEvent {
        name: event_name(name),
        t,
        near: near.to_vec(),
    }
}

/// For each earlier `sent` position, whether this one is within half a unit.
fn near(sent: &[[f64; 3]], pos: [f64; 3]) -> Vec<bool> {
    sent.iter()
        .map(|s| s.iter().zip(pos.iter()).all(|(a, b)| (a - b).abs() < 0.5))
        .collect()
}

fn legacy_steps() -> Vec<LegacyStep> {
    vec![
        LegacyStep {
            index: 0,
            at_ms: 0,
            message: "Hello",
            kind: LegacyKind::Login,
        },
        LegacyStep {
            index: 2,
            at_ms: 100,
            message: "Movement",
            kind: LegacyKind::Move {
                dx: f(0.0),
                dy: f(0.0),
                dz: f(0.0),
                run: false,
            },
        },
        LegacyStep {
            index: 3,
            at_ms: 116,
            message: "Movement",
            kind: LegacyKind::Move {
                dx: f(9000.0),
                dy: f(0.0),
                dz: f(0.0),
                run: true,
            },
        },
        LegacyStep {
            index: 5,
            at_ms: 500,
            message: "Hit",
            kind: LegacyKind::Unsupported,
        },
    ]
}

fn texts(records: &[StepRecord]) -> Vec<(usize, &'static str)> {
    records.iter().map(|r| (r.i, r.outcome.as_str())).collect()
}

#[test]
fn legacy_outcomes_from_events() {
    let steps = legacy_steps();
    let sent = [[10.0, 20.0, 30.0], [9010.0, 20.0, 30.0]];
    let events = vec![
        legacy_event("actor", None, &[]),
        legacy_event("sent", Some(2), &near(&sent[..0], sent[0])),
        legacy_event("message", Some(2), &near(&sent[..1], [10.0, 20.0, 30.0])),
        legacy_event("sent", Some(2), &near(&sent[..1], sent[1])),
        legacy_event("message", Some(31), &[]),
    ];
    let out = outcomes("c1", &steps, &events);
    assert_eq!(
        texts(&out),
        vec![
            (0, "accepted"),
            (2, "accepted"),
            (3, "rejected"),
            (5, "unsupported")
        ]
    );
    assert_eq!(out[2].reason.as_deref(), Some("Teleport2"));
    assert!(out[1].reason.is_none() && out[0].client == "c1" && out[3].message == "Hit");
}

#[test]
fn legacy_moves_that_nothing_answers_are_lost() {
    let steps = legacy_steps();
    let out = outcomes("c1", &steps, &[]);
    assert_eq!(
        texts(&out),
        vec![(0, "rejected"), (2, "lost"), (3, "lost"), (5, "unsupported")]
    );
    // An echo that is near to neither move, a correction with nothing sent,
    // a message without a type, and more updates than moves.
    let events = vec![
        legacy_event("message", Some(31), &[]),
        legacy_event("sent", Some(2), &[]),
        legacy_event("sent", Some(2), &[false]),
        legacy_event("sent", Some(2), &[false, false]),
        legacy_event("message", Some(2), &[false, false, true]),
        legacy_event("message", None, &[true, true]),
        legacy_event("other", Some(2), &[true, true]),
    ];
    assert_eq!(texts(&outcomes("c1", &steps, &events)), texts(&out));
}

#[test]
fn legacy_answers_resolve_in_their_own_order() {
    let steps = legacy_steps();
    let both = vec![
        legacy_event("sent", Some(2), &[]),
        legacy_event("sent", Some(2), &[true]),
        // Near to both: the first takes it; the correction takes the last.
        legacy_event("message", Some(2), &[true, true]),
        legacy_event("message", Some(31), &[]),
        // Both are resolved by now.
        legacy_event("message", Some(31), &[]),
        legacy_event("message", Some(2), &[true, true]),
    ];
    assert_eq!(
        texts(&outcomes("c1", &steps, &both))[1..3],
        [(2, "accepted"), (3, "rejected")]
    );
    let corrected = vec![
        legacy_event("sent", Some(2), &[]),
        legacy_event("sent", Some(2), &[true]),
        legacy_event("message", Some(31), &[]),
        legacy_event("message", Some(2), &[true, true]),
    ];
    assert_eq!(
        texts(&outcomes("c1", &steps, &corrected))[1..3],
        [(2, "accepted"), (3, "rejected")]
    );
}

#[test]
fn divergences_apply_to_legacy_only() {
    let s = smoke();
    let out = vec![record(4, Recorded::Was(Outcome::Reject), Some("E_VAL_SEQ_REPLAY"))];
    let wire_side = comparable(&out, &s, false);
    let legacy_side = comparable(&out, &s, true);
    // The session declares that the legacy server accepts the replayed seq:
    // the wire side is marked, the legacy side only when it agrees.
    assert_eq!(wire_side[0].outcome.as_str(), "declared:accepted");
    assert_eq!(legacy_side[0].outcome.as_str(), "rejected");
    let agreeing = vec![record(4, Recorded::Was(Outcome::Accept), None)];
    assert_eq!(
        comparable(&agreeing, &s, true)[0].outcome.as_str(),
        "declared:accepted"
    );
    // an undeclared step is compared as is
    let plain = vec![record(2, Recorded::Was(Outcome::Accept), None)];
    assert!(same_steps(
        &comparable(&plain, &s, true),
        &comparable(&plain, &s, false)
    ));
}

#[test]
fn reasons_and_unknown_steps_do_not_decide() {
    let s = smoke();
    let a = vec![record(2, Recorded::Was(Outcome::Reject), Some("E_VAL_RATE"))];
    let b = vec![record(2, Recorded::Was(Outcome::Reject), None)];
    assert!(same_steps(&comparable(&a, &s, false), &comparable(&b, &s, true)));
    let c = vec![record(99, Recorded::Lost, None)];
    assert_eq!(comparable(&c, &s, false)[0].outcome.as_str(), "lost");
    assert!(!same_steps(&comparable(&a, &s, false), &comparable(&c, &s, false)));
    assert!(!same_steps(&comparable(&a, &s, false), &comparable(&Vec::new(), &s, false)));
}

#[test]
fn verdicts() {
    let s = smoke();
    let wire = vec![record(4, Recorded::Was(Outcome::Reject), Some("E_VAL_SEQ_REPLAY"))];
    let agrees = Second::Legacy(vec![record(4, Recorded::Was(Outcome::Accept), None)]);
    assert_eq!(
        run(&s, &wire, &agrees).expect("identical"),
        "difftest smoke: identical (wire vs legacy)"
    );
    let contradicts = Second::Legacy(vec![record(4, Recorded::Was(Outcome::Reject), None)]);
    assert_eq!(
        run(&s, &wire, &contradicts).expect_err("differs").to_string(),
        "E_DIFF_MISMATCH: session smoke: wire != legacy"
    );
    let plain = vec![record(2, Recorded::Was(Outcome::Reject), None)];
    let again = Second::Again(vec![record(2, Recorded::Lost, None)], "why".to_string());
    assert_eq!(
        run(&s, &plain, &again).expect_err("differs").to_string(),
        "E_DIFF_MISMATCH: session smoke: wire run 1 != run 2 (nondeterministic edge)"
    );
    assert_eq!(Recorded::Declared(Outcome::Unsupported).as_str(), "declared:unsupported");
    assert_eq!(Outcome::Unsupported.as_str(), "unsupported");
}

#[test]
fn errors_have_their_texts() {
    assert_eq!(DiffError::Io("gone".to_string()).to_string(), "E_DIFF_IO: gone");
    assert_eq!(
        DiffError::Session(12, "bad".to_string()).to_string(),
        "E_DIFF_SESSION: step 12: bad"
    );
    assert_eq!(
        DiffError::Driver("wire", "late".to_string()).to_string(),
        "E_DIFF_DRIVER(wire): late"
    );
    assert!(matches!(legacy_started(Ok(())), Ok(None)));
    assert!(matches!(
        legacy_started(Err(DiffError::Driver("legacy", "unset".to_string()))),
        Ok(Some(why)) if why == "unset"
    ));
    assert!(matches!(
        legacy_started(Err(DiffError::Io("x".to_string()))),
        Err(DiffError::Io(_))
    ));
}

#[test]
fn legacy_addresses() {
    let start = |addr: Option<&str>| {
        let mut l = Legacy::new();
        l.start(true, addr).map(|()| (l.host, l.port))
    };
    assert_eq!(start(None).expect("default"), ("127.0.0.1".to_string(), 7777));
    assert_eq!(
        start(Some("lab:1234")).expect("address"),
        ("lab".to_string(), 1234)
    );
    assert_eq!(start(Some("::1:+80")).expect("address"), ("::1".to_string(), 80));
    assert_eq!(start(Some(":0065535")).expect("address"), (String::new(), 65535));
    for bad in ["lab:65536", "lab:", "lab:+", "lab:-1", "lab:8o", "lab:99999999999", "lab: 80"] {
        assert_eq!(
            start(Some(bad)).expect_err("bad port").to_string(),
            "E_DIFF_DRIVER(legacy): DIFFTEST_LEGACY_ADDR port"
        );
        let port: Result<u16, _> = bad[4..].parse();
        assert!(port.is_err());
    }
    assert_eq!(
        start(Some("lab")).expect_err("no port").to_string(),
        "E_DIFF_DRIVER(legacy): DIFFTEST_LEGACY_ADDR must be host:port"
    );
    assert_eq!(
        Legacy::new().start(false, Some("lab:1")).expect_err("unset").to_string(),
        "E_DIFF_DRIVER(legacy): DIFFTEST_FAKECLIENT unset (path to the fork's fakeclient; Track W step 8)"
    );
}

#[test]
fn legacy_scripts() {
    let mut l = Legacy::new();
    l.connect("c1");
    l.connect("c2");
    assert!(l.send(0, "c1", 0, &hello()).is_ok());
    assert!(l.send(1, "c2", 10, &movement(3)).is_ok());
    assert!(l.send(2, "c1", 20, &hit(4)).is_ok());
    assert_eq!(
        l.send(3, "c3", 0, &hello()).expect_err("not there").to_string(),
        "E_DIFF_DRIVER(legacy): c3: not connected"
    );
    assert_eq!(l.order, vec!["c1", "c2"]);
    let c1 = l.script("c1");
    assert_eq!(c1.len(), 2);
    assert!(matches!(c1[0].kind, LegacyKind::Login));
    assert!(matches!(c1[1].kind, LegacyKind::Unsupported));
    assert_eq!((c1[1].index, c1[1].at_ms, c1[1].message), (2, 20, "Hit"));
    match l.script("c2")[0].kind {
        LegacyKind::Move { dx, dy, dz, run } => {
            assert_eq!((dx, dy, dz, run), (f(9000.0), f(-1.0), f(2.0), true));
        }
        other => panic!("{other:?}"),
    }
    assert!(l.script("c3").is_empty());
    // Connecting again starts a new script.
    l.connect("c1");
    assert!(l.script("c1").is_empty());
    assert_eq!(l.order.len(), 3);
}

#[test]
fn received_messages_are_named_by_type() {
    let events = vec![
        legacy_event("message", Some(31), &[]),
        legacy_event("sent", Some(2), &[]),
        legacy_event("message", None, &[]),
        legacy_event("message", Some(-7), &[]),
    ];
    assert_eq!(received(&events), vec!["t31", "t-7"]);
    assert_eq!(event_name("Actor"), EventName::Other);
}

#[test]
fn records_are_sorted_by_step_and_stable() {
    let mut list = Vec::new();
    for (i, tag) in [(3, "a"), (1, "b"), (3, "c"), (0, "d"), (1, "e")] {
        let mut r = record(i, Recorded::Lost, Some(tag));
        r.client = tag.to_string();
        list.push(r);
    }
    let sorted: Vec<(usize, String)> =
        sort_by_step(list).into_iter().map(|r| (r.i, r.client)).collect();
    let names: Vec<(usize, &str)> = sorted.iter().map(|(i, c)| (*i, c.as_str())).collect();
    assert_eq!(names, vec![(0, "d"), (1, "b"), (1, "e"), (3, "a"), (3, "c")]);
}

#[test]
fn wire_connections() {
    let mut w = Wire::new();
    assert_eq!(
        w.connect("c1", false).expect_err("late").to_string(),
        "E_DIFF_DRIVER(wire): c1: handshake timed out"
    );
    assert_eq!(
        w.connect("c1", true).expect_err("vanished").to_string(),
        "E_DIFF_DRIVER(wire): connected event vanished"
    );
    w.events.push(Inbound::Connected { client: 7 });
    assert_eq!(w.new_client(), Some(7));
    assert!(w.connect("c1", true).is_ok());
    assert!(w.events.is_empty());
    w.events.push(Inbound::Connected { client: 7 });
    w.events.push(Inbound::Connected { client: 8 });
    assert_eq!(w.new_client(), Some(8));
    assert!(w.connect("c2", true).is_ok());
    assert!(matches!(w.client_id("c2"), Ok(8)));
    assert_eq!(w.client_name(7).as_deref(), Some("c1"));
    assert_eq!(w.client_name(9), None);
    assert_eq!(
        w.client_id("c3").expect_err("not there").to_string(),
        "E_DIFF_DRIVER(wire): c3: not connected"
    );
}

#[test]
fn wire_steps_take_the_first_outcome_for_their_sender() {
    let mut w = Wire::new();
    w.events.push(Inbound::Connected { client: 7 });
    w.connect("c1", true).expect("connects");
    w.events.push(Inbound::Message { client: 9, msg: hit(1) });
    w.events.push(Inbound::Message { client: 7, msg: movement(1) });
    w.events.push(Inbound::Message { client: 7, msg: hit(2) });
    assert!(w.has_outcome(7) && !w.has_outcome(8));
    assert!(w.send(0, "c1", 7, &hello()).is_ok());
    assert_eq!((w.steps[0].message, w.steps[0].outcome.as_str()), ("Movement", "accepted"));
    assert_eq!(w.events.len(), 2);
    assert_eq!(w.unattributed(), vec!["c1"]);
    assert_eq!(
        w.finished().expect_err("left over").to_string(),
        "E_DIFF_DRIVER(wire): unattributed outcomes for [\"c1\"]"
    );
    assert!(w.send(1, "c1", 7, &hit(2)).is_ok());
    assert!(w.unattributed().is_empty() && w.finished().is_ok());
    assert_eq!(
        w.send(3, "c1", 7, &hit(3)).expect_err("late").to_string(),
        "E_DIFF_DRIVER(wire): step 3: no outcome from the edge within 2 s"
    );
    assert_eq!(w.steps.len(), 2);
}

#[test]
fn wire_clock_never_runs_back() {
    let mut w = Wire::new();
    assert_eq!(w.gap_to(100), 100);
    assert_eq!(w.now_ms, 0);
    w.advance(100);
    assert_eq!(w.gap_to(116), 16);
    w.advance(116);
    assert_eq!(w.gap_to(50), 0);
    w.advance(50);
    assert_eq!(w.now_ms, 116);
}

#[test]
fn waits_are_limited() {
    let mut wait = Wait::new(12);
    assert_eq!(wait.first(), Waiting::Pump);
    assert_eq!(wait.looked(false), Waiting::Pump);
    assert_eq!(wait.looked(false), Waiting::Pump);
    assert_eq!(wait.looked(false), Waiting::GaveUp);
    let mut wait = Wait::new(12);
    assert_eq!(wait.looked(true), Waiting::Came);
    assert_eq!(wait.spent_ms, 0);
    assert_eq!(Wait::new(0).first(), Waiting::GaveUp);
}

#[test]
fn fakeclients_get_the_moves_and_their_arguments() {
    let lines = script_lines(&legacy_steps());
    assert_eq!(lines.len(), 2);
    assert_eq!((lines[0].at_ms, lines[0].dx, lines[0].run_mode), (100, f(0.0), "Walking"));
    assert_eq!((lines[1].at_ms, lines[1].dx, lines[1].run_mode), (116, f(9000.0), "Running"));
    assert_eq!(script_file("c1"), "c1.jsonl");
    let mut l = Legacy::new();
    l.start(true, Some("lab:1234")).expect("address");
    assert_eq!(
        fakeclient_args(&l, 1),
        vec![
            "--host",
            "lab",
            "--port",
            "1234",
            "--profile-id",
            "2",
            "--settle-ms",
            "1500"
        ]
    );
    let lines = |list: &[&str]| -> Vec<String> { list.iter().map(|l| l.to_string()).collect() };
    assert!(fakeclient_ended("c1", true, "exit status: 0", &lines(&["{}"])).is_ok());
    let text = |list: &[&str]| {
        fakeclient_ended("c1", false, "exit status: 3", &lines(list))
            .expect_err("failed")
            .to_string()
    };
    assert_eq!(
        text(&["{\"a\": 1}", "{ \"event\" : \"error\", \"code\": 2 }", "not json"]),
        "E_DIFF_DRIVER(legacy): fakeclient for c1 exited exit status: 3: {\"code\":2,\"event\":\"error\"}"
    );
    assert_eq!(
        text(&["not json"]),
        "E_DIFF_DRIVER(legacy): fakeclient for c1 exited exit status: 3: "
    );
}

#[test]
fn replays_connect_before_they_send() {
    let mut s = smoke();
    s.steps.truncate(3);
    let mut plan = Vec::new();
    while let Some(action) = next_action(&s, plan.len(), Ok(())).expect("no failure") {
        plan.push(action);
    }
    assert_eq!(
        plan,
        vec![
            Action::Start,
            Action::Connect(0),
            Action::Connect(1),
            Action::Send(0),
            Action::Send(1),
            Action::Send(2),
            Action::Outputs,
            Action::Stop,
        ]
    );
    assert_eq!(next_action(&s, usize::MAX, Ok(())).expect("no failure"), None);
    // A failure is the result, whatever was to come.
    for done in 0..10 {
        let failed = DiffError::Session(done, "bad".to_string());
        assert_eq!(
            next_action(&s, done, Err(failed)).expect_err("failed").to_string(),
            format!("E_DIFF_SESSION: step {done}: bad")
        );
    }
}

#[test]
fn reports_are_read_line_by_line() {
    let bits = |list: &[f64]| -> Vec<u64> { list.iter().map(|v| v.to_bits()).collect() };
    let r = report(r#"{"event": "sent", "msg": {"t": 2, "idx": 1, "data": {"pos": [10.0, 20, -30.5]}}}"#)
        .expect("json");
    assert_eq!((r.name, r.t), (EventName::Sent, Some(2)));
    assert_eq!(r.pos, bits(&[10.0, 20.0, -30.5]));
    let r = report(r#"{"event": "actor", "idx": 1}"#).expect("json");
    assert_eq!((r.name, r.t, r.pos.len()), (EventName::Actor, None, 0));
    // Types that are no integers, names that are no text, elements that are no
    // numbers.
    let r = report(r#"{"event": 7, "msg": {"t": 2.5, "data": {"pos": [1, "x", null, 2]}}}"#)
        .expect("json");
    assert_eq!((r.name, r.t), (EventName::Other, None));
    assert_eq!(r.pos, bits(&[1.0, 2.0]));
    let r = report("[1, 2]").expect("json");
    assert_eq!((r.name, r.t, r.pos.len()), (EventName::Other, None, 0));
    assert!(report("starting up").is_none());
    assert!(report("").is_none());
    let lines: Vec<String> = ["noise", r#"{"event": "message", "msg": {"t": 31}}"#, "{", "{}"]
        .iter()
        .map(|l| l.to_string())
        .collect();
    let list = reports(&lines);
    assert_eq!(list.len(), 2);
    assert_eq!((list[0].name, list[0].t), (EventName::Message, Some(31)));
}

#[test]
fn legacy_outcomes_from_a_report() {
    let lines: Vec<String> = [
        r#"{"event": "actor", "idx": 1}"#,
        r#"{"event": "sent", "msg": {"t": 2, "idx": 1, "data": {"pos": [10.0, 20.0, 30.0]}}}"#,
        "noise",
        r#"{"event": "message", "msg": {"t": 2, "idx": 1, "data": {"pos": [10.0, 20.0]}}}"#,
        r#"{"event": "message", "msg": {"t": 2, "idx": 1, "data": {"pos": [10.2, 20.0, 29.8]}}}"#,
        r#"{"event": "sent", "msg": {"t": 2, "idx": 1, "data": {"pos": [9010.0, 20.0, 30.0]}}}"#,
        r#"{"event": "message", "msg": {"t": 31, "idx": 1}}"#,
    ]
    .iter()
    .map(|l| l.to_string())
    .collect();
    let list = reports(&lines);
    let close: Vec<Vec<bool>> = (0..list.len())
        .map(|i| {
            (0..i)
                .map(|j| {
                    list[i].pos.iter().zip(list[j].pos.iter()).all(|(a, b)| {
                        (f64::from_bits(*a) - f64::from_bits(*b)).abs() < 0.5
                    })
                })
                .collect()
        })
        .collect();
    let events = legacy_events(&list, &close);
    // Two coordinates are no place, however close.
    assert_eq!(events[2].near, vec![false]);
    assert_eq!(events[3].near, vec![true]);
    assert_eq!(events[5].near.len(), 2);
    assert_eq!(
        texts(&outcomes("c1", &legacy_steps(), &events)),
        vec![
            (0, "accepted"),
            (2, "accepted"),
            (3, "rejected"),
            (5, "unsupported")
        ]
    );
    assert_eq!(received(&events), vec!["t2", "t2", "t31"]);
}
