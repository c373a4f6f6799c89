//! Legacy driver: the headless `fakeclient` against the unmodified C++ server.
//! Each session client becomes one fakeclient run with a script of moves
//! relative to its spawn; the outcome of a move is what the server sent back,
//! the echoed update (accepted) or a Teleport2 correction (rejected). `Hello`
//! is the login the fakeclient performs by itself. Other messages have no
//! legacy counterpart yet and are reported as unsupported; sessions declare
//! that divergence.
use super::report::{last_event, last_line};
use super::{record_views, DiffError, DiffErrorView, Outcome, RecordView, Recorded, StepRecord};
use crate::decimal::{
    append_decimal, append_signed, decimal, law_decimal_reads_back, number_of, signed_decimal,
};
use crate::scalar::F32;
use crate::schema::{Message, MessageView};
use vstd::prelude::*;
use vstd::string::{StrSliceExecFns, StringExecFns};

verus! {

/// The legacy protocol's movement update.
pub const MSG_UPDATE_MOVEMENT: i64 = 2;

/// The legacy protocol's correction of a position.
pub const MSG_TELEPORT2: i64 = 31;

/// What a step asks of the fakeclient.
#[derive(Clone, Copy, Debug)]
pub enum LegacyKind {
    Login,
    Move { dx: F32, dy: F32, dz: F32, run: bool },
    Unsupported,
}

/// One step of a client's script.
#[derive(Clone, Copy, Debug)]
pub struct LegacyStep {
    /// The step's place in the session.
    pub index: usize,
    /// Milliseconds since session start.
    pub at_ms: u64,
    /// The message's name.
    pub message: &'static str,
    /// What it asks of the fakeclient.
    pub kind: LegacyKind,
}

/// The legacy counterpart of a message.
pub open spec fn kind_of(m: MessageView) -> LegacyKind {
    match m {
        MessageView::Hello(_) => LegacyKind::Login,
        MessageView::Movement(s) => LegacyKind::Move {
            dx: s.transform.x,
            dy: s.transform.y,
            dz: s.transform.z,
            run: s.run,
        },
        _ => LegacyKind::Unsupported,
    }
}

/// The legacy counterpart of a message.
pub fn legacy_kind(message: &Message) -> (r: LegacyKind)
    ensures
        r == kind_of(message@),
{
    match message {
        Message::Hello(_) => LegacyKind::Login,
        Message::Movement(m) => LegacyKind::Move {
            dx: m.transform.x,
            dy: m.transform.y,
            dz: m.transform.z,
            run: m.run,
        },
        _ => LegacyKind::Unsupported,
    }
}

/// What a fakeclient event is about.
#[derive(Clone, Copy, Debug, PartialEq, Eq, Structural)]
pub enum EventName {
    /// The server gave the client an actor.
    Actor,
    /// The client sent a message.
    Sent,
    /// The client received a message.
    Message,
    /// Anything else.
    Other,
}

/// The event that a name stands for.
pub open spec fn named(name: Seq<char>) -> EventName {
    if name == "actor"@ {
        EventName::Actor
    } else if name == "sent"@ {
        EventName::Sent
    } else if name == "message"@ {
        EventName::Message
    } else {
        EventName::Other
    }
}

/// The event that a name stands for.
pub fn event_name(name: &str) -> (r: EventName)
    ensures
        r == named(name@),
{
    let name = name.to_owned();
    if name == "actor".to_owned() {
        EventName::Actor
    } else if name == "sent".to_owned() {
        EventName::Sent
    } else if name == "message".to_owned() {
        EventName::Message
    } else {
        EventName::Other
    }
}

/// One line of a fakeclient's report.
#[derive(Debug)]
pub struct LegacyEvent {
    /// What it is about.
    pub name: EventName,
    /// The type number of its message, where it has one.
    pub t: Option<i64>,
    /// For each movement update sent so far, in order, whether its position is
    /// this event's within half a unit on every axis.
    pub near: Vec<bool>,
}

impl LegacyEvent {
    /// A movement update that the client sent.
    pub open spec fn is_move_sent(self) -> bool {
        self.name == EventName::Sent && self.t == Some(MSG_UPDATE_MOVEMENT)
    }

    /// A movement update that the server echoed.
    pub open spec fn is_echo(self) -> bool {
        self.name == EventName::Message && self.t == Some(MSG_UPDATE_MOVEMENT)
    }

    /// A correction.
    pub open spec fn is_correction(self) -> bool {
        self.name == EventName::Message && self.t == Some(MSG_TELEPORT2)
    }
}

/// The state of the matching: what is recorded of each step so far, and which
/// step each sent update belongs to.
#[verifier::ext_equal]
pub struct Matching {
    pub records: Seq<RecordView>,
    pub sent: Seq<int>,
}

impl Matching {
    /// The `j`th sent update belongs to a step that nothing came back for yet.
    pub open spec fn is_open(self, j: int) -> bool {
        self.records[self.sent[j]].outcome == Recorded::Lost
    }

    /// The first open update, from the `j`th on, that is near.
    pub open spec fn first_near(self, near: Seq<bool>, j: int) -> Option<int>
        decreases self.sent.len() - j,
    {
        if j < 0 || j >= self.sent.len() {
            None
        } else if self.is_open(j) && j < near.len() && near[j] {
            Some(j)
        } else {
            self.first_near(near, j + 1)
        }
    }

    /// The last open update among the first `n`.
    pub open spec fn last_open(self, n: int) -> Option<int>
        decreases n,
    {
        if n <= 0 {
            None
        } else if self.is_open(n - 1) {
            Some(n - 1)
        } else {
            self.last_open(n - 1)
        }
    }

    /// The `j`th sent update resolved.
    pub open spec fn resolved(self, j: int, outcome: Outcome, reason: Option<Seq<char>>) -> Matching {
        let slot = self.sent[j];
        Matching {
            records: self.records.update(
                slot,
                RecordView { outcome: Recorded::Was(outcome), reason, ..self.records[slot] },
            ),
            ..self
        }
    }
}

/// Whether a step is a move.
pub open spec fn is_move(st: LegacyStep) -> bool {
    st.kind is Move
}

/// The places of the moves among the steps, in order.
pub open spec fn move_places(steps: Seq<LegacyStep>) -> Seq<int>
    decreases steps.len(),
{
    if steps.len() == 0 {
        seq![]
    } else if is_move(steps.last()) {
        move_places(steps.drop_last()).push(steps.len() - 1)
    } else {
        move_places(steps.drop_last())
    }
}

/// The client got an actor.
pub open spec fn has_actor(events: Seq<LegacyEvent>) -> bool {
    exists|i: int| 0 <= i < events.len() && (#[trigger] events[i]).name == EventName::Actor
}

/// What is recorded of a step before any move is matched.
pub open spec fn first_record(client: Seq<char>, st: LegacyStep, logged_in: bool) -> RecordView {
    RecordView {
        i: st.index,
        client,
        message: st.message@,
        outcome: match st.kind {
            LegacyKind::Login => if logged_in {
                Recorded::Was(Outcome::Accept)
            } else {
                Recorded::Was(Outcome::Reject)
            },
            LegacyKind::Move { .. } => Recorded::Lost,
            LegacyKind::Unsupported => Recorded::Was(Outcome::Unsupported),
        },
        reason: None,
    }
}

pub open spec fn first_records(
    client: Seq<char>,
    steps: Seq<LegacyStep>,
    logged_in: bool,
) -> Seq<RecordView> {
    Seq::new(steps.len(), |i: int| first_record(client, steps[i], logged_in))
}

/// The matching after one event. Moves resolve in order of their `sent`
/// events; an echo with the same position accepts, a Teleport2 rejects the most
/// recent unresolved move.
pub open spec fn matched(m: Matching, ev: LegacyEvent, moves: Seq<int>) -> Matching {
    if ev.is_move_sent() {
        if m.sent.len() < moves.len() {
            Matching { sent: m.sent.push(moves[m.sent.len() as int]), ..m }
        } else {
            m
        }
    } else if ev.is_echo() {
        match m.first_near(ev.near@, 0) {
            Some(j) => m.resolved(j, Outcome::Accept, m.records[m.sent[j]].reason),
            None => m,
        }
    } else if ev.is_correction() {
        match m.last_open(m.sent.len() as int) {
            Some(j) => m.resolved(j, Outcome::Reject, Some("Teleport2"@)),
            None => m,
        }
    } else {
        m
    }
}

/// The matching after a run of events.
pub open spec fn matched_all(m: Matching, events: Seq<LegacyEvent>, moves: Seq<int>) -> Matching
    decreases events.len(),
{
    if events.len() == 0 {
        m
    } else {
        matched(matched_all(m, events.drop_last(), moves), events.last(), moves)
    }
}

/// The outcomes for one client's steps from its fakeclient events.
pub open spec fn outcomes_of(
    client: Seq<char>,
    steps: Seq<LegacyStep>,
    events: Seq<LegacyEvent>,
) -> Seq<RecordView> {
    let start = Matching {
        records: first_records(client, steps, has_actor(events)),
        sent: seq![],
    };
    matched_all(start, events, move_places(steps)).records
}

/// Every place of a sent update is a step.
pub open spec fn places_fit(places: Seq<int>, n: nat) -> bool {
    forall|j: int| 0 <= j < places.len() ==> 0 <= #[trigger] places[j] < n
}

proof fn lemma_move_places(steps: Seq<LegacyStep>)
    ensures
        places_fit(move_places(steps), steps.len()),
    decreases steps.len(),
{
    if steps.len() > 0 {
        lemma_move_places(steps.drop_last());
    }
}

fn find_actor(events: &[LegacyEvent]) -> (r: bool)
    ensures
        r == has_actor(events@),
{
    let mut i: usize = 0;
    while i < events.len()
        invariant
            i <= events@.len(),
            forall|j: int| 0 <= j < i ==> (#[trigger] events@[j]).name != EventName::Actor,
        decreases events@.len() - i,
    {
        if events[i].name == EventName::Actor {
            assert(events@[i as int].name == EventName::Actor);
            return true;
        }
        i = i + 1;
    }
    false
}

fn start_records(client: &str, steps: &[LegacyStep], logged_in: bool) -> (r: Vec<StepRecord>)
    ensures
        record_views(r@) == first_records(client@, steps@, logged_in),
{
    let mut records: Vec<StepRecord> = Vec::new();
    let ghost all = first_records(client@, steps@, logged_in);
    let mut i: usize = 0;
    while i < steps.len()
        invariant
            i <= steps@.len(),
            all == first_records(client@, steps@, logged_in),
            record_views(records@) == all.take(i as int),
        decreases steps@.len() - i,
    {
        let st = &steps[i];
        let record = StepRecord {
            i: st.index,
            client: client.to_owned(),
            message: st.message,
            outcome: match st.kind {
                LegacyKind::Login => if logged_in {
                    Recorded::Was(Outcome::Accept)
                } else {
                    Recorded::Was(Outcome::Reject)
                },
                LegacyKind::Move { .. } => Recorded::Lost,
                LegacyKind::Unsupported => Recorded::Was(Outcome::Unsupported),
            },
            reason: None,
        };
        let ghost view = record@;
        let ghost before = records@;
        records.push(record);
        i = i + 1;
        proof {
            assert(view == all[i - 1]);
            assert(record_views(records@) =~= record_views(before).push(view));
            assert(all.take(i as int) =~= all.take(i - 1).push(all[i - 1]));
        }
    }
    proof {
        assert(all.take(i as int) =~= all);
    }
    records
}

/// Places as integers of the specification.
pub open spec fn place_views(places: Seq<usize>) -> Seq<int> {
    Seq::new(places.len(), |i: int| places[i] as int)
}

fn find_moves(steps: &[LegacyStep]) -> (r: Vec<usize>)
    ensures
        place_views(r@) == move_places(steps@),
{
    let mut places: Vec<usize> = Vec::new();
    let mut i: usize = 0;
    proof {
        assert(steps@.take(0) =~= seq![]);
        assert(place_views(places@) =~= seq![]);
    }
    while i < steps.len()
        invariant
            i <= steps@.len(),
            place_views(places@) == move_places(steps@.take(i as int)),
        decreases steps@.len() - i,
    {
        let ghost before = places@;
        let moves = match steps[i].kind {
            LegacyKind::Move { .. } => true,
            _ => false,
        };
        if moves {
            places.push(i);
            proof {
                assert(place_views(places@) =~= place_views(before).push(i as int));
            }
        }
        i = i + 1;
        proof {
            assert(steps@.take(i as int).drop_last() =~= steps@.take(i - 1));
            assert(steps@.take(i as int).last() == steps@[i - 1]);
        }
    }
    proof {
        assert(steps@.take(i as int) =~= steps@);
    }
    places
}

fn find_near(records: &Vec<StepRecord>, sent: &Vec<usize>, near: &Vec<bool>) -> (r: Option<usize>)
    requires
        places_fit(place_views(sent@), records@.len()),
    ensures
        ({
            let m = Matching { records: record_views(records@), sent: place_views(sent@) };
            match r {
                Some(j) => j < sent@.len() && m.first_near(near@, 0) == Some(j as int),
                None => m.first_near(near@, 0) is None,
            }
        }),
{
    let ghost m = Matching { records: record_views(records@), sent: place_views(sent@) };
    let mut j: usize = 0;
    while j < sent.len()
        invariant
            j <= sent@.len(),
            places_fit(place_views(sent@), records@.len()),
            m == (Matching { records: record_views(records@), sent: place_views(sent@) }),
            m.first_near(near@, 0) == m.first_near(near@, j as int),
        decreases sent@.len() - j,
    {
        proof {
            assert(place_views(sent@)[j as int] == sent@[j as int]);
        }
        if records[sent[j]].outcome == Recorded::Lost && j < near.len() && near[j] {
            return Some(j);
        }
        j = j + 1;
    }
    None
}

fn find_open(records: &Vec<StepRecord>, sent: &Vec<usize>) -> (r: Option<usize>)
    requires
        places_fit(place_views(sent@), records@.len()),
    ensures
        ({
            let m = Matching { records: record_views(records@), sent: place_views(sent@) };
            match r {
                Some(j) => j < sent@.len() && m.last_open(sent@.len() as int) == Some(j as int),
                None => m.last_open(sent@.len() as int) is None,
            }
        }),
{
    let ghost m = Matching { records: record_views(records@), sent: place_views(sent@) };
    let mut n: usize = sent.len();
    while n > 0
        invariant
            n <= sent@.len(),
            places_fit(place_views(sent@), records@.len()),
            m == (Matching { records: record_views(records@), sent: place_views(sent@) }),
            m.last_open(sent@.len() as int) == m.last_open(n as int),
        decreases n,
    {
        proof {
            assert(place_views(sent@)[n - 1] == sent@[n - 1]);
        }
        if records[sent[n - 1]].outcome == Recorded::Lost {
            return Some(n - 1);
        }
        n = n - 1;
    }
    None
}

fn resolve(
    records: &mut Vec<StepRecord>,
    slot: usize,
    outcome: Outcome,
    reason: Option<String>,
)
    requires
        slot < old(records)@.len(),
    ensures
        record_views(final(records)@) == record_views(old(records)@).update(
            slot as int,
            RecordView {
                outcome: Recorded::Was(outcome),
                reason: match reason {
                    Some(reason) => Some(reason@),
                    None => old(records)@[slot as int]@.reason,
                },
                ..old(records)@[slot as int]@
            },
        ),
{
    let kept: Option<String> = match &records[slot].reason {
        Some(text) => Some(text.clone()),
        None => None,
    };
    let record = StepRecord {
        i: records[slot].i,
        client: records[slot].client.clone(),
        message: records[slot].message,
        outcome: Recorded::Was(outcome),
        reason: match reason {
            Some(reason) => Some(reason),
            None => kept,
        },
    };
    let ghost view = record@;
    let ghost before = record_views(records@);
    records[slot] = record;
    proof {
        assert(record_views(records@) =~= before.update(slot as int, view));
    }
}

/// Outcomes for one client's steps from its fakeclient events.
pub fn outcomes(client: &str, steps: &[LegacyStep], events: &[LegacyEvent]) -> (r: Vec<StepRecord>)
    ensures
        record_views(r@) == outcomes_of(client@, steps@, events@),
{
    let logged_in = find_actor(events);
    let mut records = start_records(client, steps, logged_in);
    let moves = find_moves(steps);
    let mut sent: Vec<usize> = Vec::new();
    let ghost start = Matching { records: record_views(records@), sent: seq![] };
    let ghost places = place_views(moves@);
    let mut i: usize = 0;
    proof {
        lemma_move_places(steps@);
        assert(places_fit(places, steps@.len()));
        assert(events@.take(0) =~= seq![]);
        assert(place_views(sent@) =~= seq![]);
        assert(record_views(records@).len() == steps@.len());
    }
    while i < events.len()
        invariant
            i <= events@.len(),
            records@.len() == steps@.len(),
            places == place_views(moves@),
            places_fit(places, steps@.len()),
            places_fit(place_views(sent@), steps@.len()),
            sent@.len() <= moves@.len(),
            (Matching { records: record_views(records@), sent: place_views(sent@) })
                == matched_all(start, events@.take(i as int), places),
        decreases events@.len() - i,
    {
        let ev = &events[i];
        let ghost before = Matching {
            records: record_views(records@),
            sent: place_views(sent@),
        };
        if ev.name == EventName::Sent && ev.t == Some(MSG_UPDATE_MOVEMENT) {
            if sent.len() < moves.len() {
                let slot: usize = moves[sent.len()];
                let ghost sent_before = sent@;
                proof {
                    assert(places[sent@.len() as int] == slot);
                }
                sent.push(slot);
                proof {
                    assert(place_views(sent@) =~= place_views(sent_before).push(slot as int));
                }
            }
        } else if ev.name == EventName::Message && ev.t == Some(MSG_UPDATE_MOVEMENT) {
            match find_near(&records, &sent, &ev.near) {
                Some(j) => {
                    proof {
                        assert(place_views(sent@)[j as int] == sent@[j as int]);
                        assert(record_views(records@)[sent@[j as int] as int]
                            == records@[sent@[j as int] as int]@);
                    }
                    resolve(&mut records, sent[j], Outcome::Accept, None);
                },
                None => {},
            }
        } else if ev.name == EventName::Message && ev.t == Some(MSG_TELEPORT2) {
            match find_open(&records, &sent) {
                Some(j) => {
                    proof {
                        assert(place_views(sent@)[j as int] == sent@[j as int]);
                    }
                    resolve(&mut records, sent[j], Outcome::Reject, Some("Teleport2".to_owned()));
                },
                None => {},
            }
        }
        proof {
            let after = Matching {
                records: record_views(records@),
                sent: place_views(sent@),
            };
            assert(after =~= matched(before, events@[i as int], places));
            assert(record_views(records@).len() == records@.len());
        }
        i = i + 1;
        proof {
            assert(events@.take(i as int).drop_last() =~= events@.take(i - 1));
            assert(events@.take(i as int).last() == events@[i - 1]);
        }
    }
    proof {
        assert(events@.take(i as int) =~= events@);
    }
    records
}

/// The names of the messages a client received, in order: `t` and the type
/// number.
pub open spec fn received_names(events: Seq<LegacyEvent>) -> Seq<Seq<char>>
    decreases events.len(),
{
    if events.len() == 0 {
        seq![]
    } else {
        let before = received_names(events.drop_last());
        match events.last().t {
            Some(t) => if events.last().name == EventName::Message {
                before.push("t"@ + signed_decimal(t as int))
            } else {
                before
            },
            None => before,
        }
    }
}

pub open spec fn text_views(list: Seq<String>) -> Seq<Seq<char>> {
    Seq::new(list.len(), |i: int| list[i]@)
}

/// The names of the messages a client received, in order.
pub fn received(events: &[LegacyEvent]) -> (r: Vec<String>)
    ensures
        text_views(r@) == received_names(events@),
{
    let mut names: Vec<String> = Vec::new();
    let mut i: usize = 0;
    proof {
        assert(events@.take(0) =~= seq![]);
        assert(text_views(names@) =~= seq![]);
    }
    while i < events.len()
        invariant
            i <= events@.len(),
            text_views(names@) == received_names(events@.take(i as int)),
        decreases events@.len() - i,
    {
        let ghost before = names@;
        if events[i].name == EventName::Message {
            if let Some(t) = events[i].t {
                let mut name = "t".to_owned();
                append_signed(&mut name, t);
                let ghost view = name@;
                names.push(name);
                proof {
                    assert(text_views(names@) =~= text_views(before).push(view));
                }
            }
        }
        i = i + 1;
        proof {
            assert(events@.take(i as int).drop_last() =~= events@.take(i - 1));
            assert(events@.take(i as int).last() == events@[i - 1]);
        }
    }
    proof {
        assert(events@.take(i as int) =~= events@);
    }
    names
}

// ---------------------------------------------------------------------------
// The server's address
// ---------------------------------------------------------------------------

/// The place of the last colon among the first `n` characters.
pub open spec fn last_colon(s: Seq<char>, n: int) -> Option<int>
    decreases n,
{
    if n <= 0 {
        None
    } else if s[n - 1] == ':' {
        Some(n - 1)
    } else {
        last_colon(s, n - 1)
    }
}

pub open spec fn is_digit(c: char) -> bool {
    48 <= c as u32 <= 57
}

/// The number that decimal digits stand for.
pub open spec fn digits_value(s: Seq<char>) -> nat
    decreases s.len(),
{
    if s.len() == 0 {
        0
    } else {
        (10 * digits_value(s.drop_last()) + (s.last() as u32 - 48)) as nat
    }
}

pub open spec fn all_digits(s: Seq<char>) -> bool {
    forall|i: int| 0 <= i < s.len() ==> is_digit(#[trigger] s[i])
}

/// The port that digits name, at least one, if a port can be that number.
pub open spec fn unsigned_port(digits: Seq<char>) -> Option<u16> {
    if digits.len() > 0 && all_digits(digits) && digits_value(digits) <= u16::MAX {
        Some(digits_value(digits) as u16)
    } else {
        None
    }
}

/// The port that a text names: digits, perhaps after a plus sign.
pub open spec fn port_of(s: Seq<char>) -> Option<u16> {
    if s.len() > 0 && s[0] == '+' {
        unsigned_port(s.skip(1))
    } else {
        unsigned_port(s)
    }
}

proof fn lemma_value_grows(s: Seq<char>, n: int)
    requires
        0 <= n <= s.len(),
        all_digits(s),
    ensures
        digits_value(s.take(n)) <= digits_value(s),
    decreases s.len(),
{
    if n < s.len() {
        let init = s.drop_last();
        lemma_value_grows(init, n);
        assert(init.take(n) =~= s.take(n));
        assert(is_digit(s[s.len() - 1]));
    } else {
        assert(s.take(n) =~= s);
    }
}

fn parse_port(s: &str) -> (r: Option<u16>)
    ensures
        r == port_of(s@),
{
    let len: usize = s.unicode_len();
    let mut start: usize = 0;
    if len > 0 && s.get_char(0) == '+' {
        start = 1;
    }
    let ghost digits = s@.skip(start as int);
    proof {
        assert(s@.skip(0) =~= s@);
        assert(port_of(s@) == unsigned_port(digits));
    }
    if start == len {
        return None;
    }
    let mut value: u32 = 0;
    let mut i: usize = start;
    proof {
        assert(digits.take(0) =~= seq![]);
    }
    while i < len
        invariant
            start <= i <= len,
            len == s@.len(),
            digits == s@.skip(start as int),
            forall|j: int| 0 <= j < i - start ==> is_digit(#[trigger] digits[j]),
            value == digits_value(digits.take(i - start)),
            value <= u16::MAX,
            port_of(s@) == unsigned_port(digits),
        decreases len - i,
    {
        let c: u32 = s.get_char(i) as u32;
        proof {
            assert(digits[i - start] == s@[i as int]);
        }
        if c < 48 || c > 57 {
            proof {
                assert(!is_digit(digits[i - start]));
            }
            return None;
        }
        value = 10 * value + (c - 48);
        i = i + 1;
        proof {
            assert(digits.take(i - start).drop_last() =~= digits.take(i - start - 1));
            assert(digits.take(i - start).last() == digits[i - start - 1]);
        }
        if value > 65535 {
            proof {
                if all_digits(digits) {
                    lemma_value_grows(digits, i - start);
                }
            }
            return None;
        }
    }
    proof {
        assert(digits.take(i - start) =~= digits);
    }
    Some(value as u16)
}

fn find_colon(s: &str) -> (r: Option<usize>)
    ensures
        match r {
            Some(i) => i < s@.len() && last_colon(s@, s@.len() as int) == Some(i as int),
            None => last_colon(s@, s@.len() as int) is None,
        },
{
    let mut n: usize = s.unicode_len();
    while n > 0
        invariant
            n <= s@.len(),
            last_colon(s@, s@.len() as int) == last_colon(s@, n as int),
        decreases n,
    {
        if s.get_char(n - 1) == ':' {
            return Some(n - 1);
        }
        n = n - 1;
    }
    None
}

// ---------------------------------------------------------------------------
// The driver
// ---------------------------------------------------------------------------

/// What one client is to do.
#[derive(Debug)]
pub struct Script {
    /// The client.
    pub client: String,
    /// Its steps, in order.
    pub steps: Vec<LegacyStep>,
}

/// What a [`Script`] says.
#[verifier::ext_equal]
pub struct ScriptView {
    pub client: Seq<char>,
    pub steps: Seq<LegacyStep>,
}

impl View for Script {
    type V = ScriptView;

    open spec fn view(&self) -> ScriptView {
        ScriptView { client: self.client@, steps: self.steps@ }
    }
}

pub open spec fn script_views(list: Seq<Script>) -> Seq<ScriptView> {
    Seq::new(list.len(), |i: int| list[i]@)
}

/// What the legacy driver knows of a session.
#[derive(Debug)]
pub struct Legacy {
    /// The server's host.
    pub host: String,
    /// The server's port.
    pub port: u16,
    /// The clients, in the order they connected.
    pub order: Vec<String>,
    /// One script per client.
    pub scripts: Vec<Script>,
}

/// What a [`Legacy`] holds.
#[verifier::ext_equal]
pub struct LegacyView {
    pub host: Seq<char>,
    pub port: u16,
    pub order: Seq<Seq<char>>,
    pub scripts: Seq<ScriptView>,
}

impl View for Legacy {
    type V = LegacyView;

    open spec fn view(&self) -> LegacyView {
        LegacyView {
            host: self.host@,
            port: self.port,
            order: text_views(self.order@),
            scripts: script_views(self.scripts@),
        }
    }
}

/// The place of a client's script, from the `i`th on.
pub open spec fn script_from(scripts: Seq<ScriptView>, client: Seq<char>, i: int) -> Option<int>
    decreases scripts.len() - i,
{
    if i < 0 || i >= scripts.len() {
        None
    } else if scripts[i].client == client {
        Some(i)
    } else {
        script_from(scripts, client, i + 1)
    }
}

/// The place of a client's script.
pub open spec fn script_of(scripts: Seq<ScriptView>, client: Seq<char>) -> Option<int> {
    script_from(scripts, client, 0)
}

/// The scripts with an empty one for a client.
pub open spec fn with_client(scripts: Seq<ScriptView>, client: Seq<char>) -> Seq<ScriptView> {
    let empty = ScriptView { client, steps: seq![] };
    match script_of(scripts, client) {
        Some(i) => scripts.update(i, empty),
        None => scripts.push(empty),
    }
}

/// No client has two scripts.
pub open spec fn clients_are_distinct(scripts: Seq<ScriptView>) -> bool {
    forall|i: int, j: int|
        0 <= i < j < scripts.len() ==> (#[trigger] scripts[i]).client != (
        #[trigger] scripts[j]).client
}

proof fn lemma_script_from(scripts: Seq<ScriptView>, client: Seq<char>, i: int)
    requires
        0 <= i,
    ensures
        match script_from(scripts, client, i) {
            Some(j) => i <= j < scripts.len() && scripts[j].client == client && forall|k: int|
                i <= k < j ==> (#[trigger] scripts[k]).client != client,
            None => forall|j: int| i <= j < scripts.len() ==> (#[trigger] scripts[j]).client
                != client,
        },
    decreases scripts.len() - i,
{
    if i < scripts.len() && scripts[i].client != client {
        lemma_script_from(scripts, client, i + 1);
    }
}

/// However often a client connects, it has one script.
pub proof fn law_one_script_per_client(scripts: Seq<ScriptView>, client: Seq<char>)
    requires
        clients_are_distinct(scripts),
    ensures
        clients_are_distinct(with_client(scripts, client)),
        script_of(with_client(scripts, client), client) matches Some(i) && with_client(
            scripts,
            client,
        )[i].steps.len() == 0,
{
    let after = with_client(scripts, client);
    lemma_script_from(scripts, client, 0);
    lemma_script_from(after, client, 0);
    let place = match script_of(scripts, client) {
        Some(i) => i,
        None => scripts.len() as int,
    };
    assert(after[place].client == client && after[place].steps.len() == 0);
    assert forall|i: int, j: int| 0 <= i < j < after.len() implies (#[trigger] after[i]).client != (
    #[trigger] after[j]).client by {
        if i < scripts.len() && j < scripts.len() {
            assert(scripts[i].client != scripts[j].client);
        }
    }
    if let Some(k) = script_of(after, client) {
        if k < place {
            assert(after[k].client != after[place].client);
        } else if place < k {
            assert(after[place].client != after[k].client);
        }
    }
}

impl Legacy {
    /// A driver for a server at its usual address.
    pub fn new() -> (r: Self)
        ensures
            r@ == (LegacyView {
                host: "127.0.0.1"@,
                port: 7777,
                order: seq![],
                scripts: seq![],
            }),
    {
        let r = Self {
            host: "127.0.0.1".to_owned(),
            port: 7777,
            order: Vec::new(),
            scripts: Vec::new(),
        };
        proof {
            assert(r@.order =~= seq![]);
            assert(r@.scripts =~= seq![]);
        }
        r
    }

    /// Takes up the environment: whether a fakeclient is named, and the
    /// server's address where one is given.
    pub fn start(&mut self, fakeclient: bool, addr: Option<&str>) -> (r: Result<(), DiffError>)
        ensures
            match r {
                Ok(()) => fakeclient && match addr {
                    None => final(self)@ == old(self)@,
                    Some(a) => {
                        &&& last_colon(a@, a@.len() as int) matches Some(i)
                        &&& port_of(a@.skip(i + 1)) matches Some(port)
                        &&& final(self)@ == (LegacyView { host: a@.take(i), port, ..old(self)@ })
                    },
                },
                Err(e) => if !fakeclient {
                    &&& final(self)@ == old(self)@
                    &&& e@ == DiffErrorView::Driver(
                        "legacy"@,
                        "DIFFTEST_FAKECLIENT unset (path to the fork's fakeclient; Track W step 8)"@,
                    )
                } else {
                    &&& addr matches Some(a)
                    &&& match last_colon(a@, a@.len() as int) {
                        None => final(self)@ == old(self)@ && e@ == DiffErrorView::Driver(
                            "legacy"@,
                            "DIFFTEST_LEGACY_ADDR must be host:port"@,
                        ),
                        Some(i) => {
                            &&& port_of(a@.skip(i + 1)) is None
                            &&& final(self)@ == (LegacyView { host: a@.take(i), ..old(self)@ })
                            &&& e@ == DiffErrorView::Driver(
                                "legacy"@,
                                "DIFFTEST_LEGACY_ADDR port"@,
                            )
                        },
                    }
                },
            },
    {
        if !fakeclient {
            return Err(
                DiffError::Driver(
                    "legacy",
                    "DIFFTEST_FAKECLIENT unset (path to the fork's fakeclient; Track W step 8)".to_owned(),
                ),
            );
        }
        if let Some(a) = addr {
            match find_colon(a) {
                None => {
                    return Err(
                        DiffError::Driver(
                            "legacy",
                            "DIFFTEST_LEGACY_ADDR must be host:port".to_owned(),
                        ),
                    );
                },
                Some(i) => {
                    let len: usize = a.unicode_len();
                    self.host = a.substring_char(0, i).to_owned();
                    proof {
                        assert(a@.subrange(0, i as int) =~= a@.take(i as int));
                        assert(a@.subrange(i + 1, len as int) =~= a@.skip(i + 1));
                    }
                    match parse_port(a.substring_char(i + 1, len)) {
                        Some(port) => {
                            self.port = port;
                        },
                        None => {
                            return Err(
                                DiffError::Driver(
                                    "legacy",
                                    "DIFFTEST_LEGACY_ADDR port".to_owned(),
                                ),
                            );
                        },
                    }
                },
            }
        }
        Ok(())
    }

    fn find_script(&self, client: &String) -> (r: Option<usize>)
        ensures
            match r {
                Some(i) => i < self.scripts@.len() && script_of(self@.scripts, client@) == Some(
                    i as int,
                ),
                None => script_of(self@.scripts, client@) is None,
            },
    {
        let mut i: usize = 0;
        while i < self.scripts.len()
            invariant
                i <= self.scripts@.len(),
                script_of(self@.scripts, client@) == script_from(
                    self@.scripts,
                    client@,
                    i as int,
                ),
            decreases self.scripts@.len() - i,
        {
            if self.scripts[i].client == *client {
                return Some(i);
            }
            i = i + 1;
        }
        None
    }

    /// Adds a client with an empty script.
    pub fn connect(&mut self, client: &str)
        ensures
            final(self)@ == (LegacyView {
                order: old(self)@.order.push(client@),
                scripts: with_client(old(self)@.scripts, client@),
                ..old(self)@
            }),
    {
        let name = client.to_owned();
        let found = self.find_script(&name);
        let script = Script { client: client.to_owned(), steps: Vec::new() };
        let ghost view = script@;
        proof {
            assert(view =~= ScriptView { client: client@, steps: seq![] });
        }
        match found {
            Some(i) => {
                self.scripts[i] = script;
                proof {
                    assert(self@.scripts =~= old(self)@.scripts.update(i as int, view));
                }
            },
            None => {
                self.scripts.push(script);
                proof {
                    assert(self@.scripts =~= old(self)@.scripts.push(view));
                }
            },
        }
        self.order.push(name);
        proof {
            assert(self@.order =~= old(self)@.order.push(client@));
        }
    }

    /// Adds a step to a client's script. A client that did not connect has
    /// none.
    pub fn send(&mut self, index: usize, client: &str, at_ms: u64, message: &Message) -> (r: Result<
        (),
        DiffError,
    >)
        ensures
            match r {
                Ok(()) => {
                    &&& script_of(old(self)@.scripts, client@) matches Some(i)
                    &&& 0 <= i < old(self)@.scripts.len()
                    &&& final(self)@.scripts.len() == old(self)@.scripts.len()
                    &&& ({
                        let before = old(self)@.scripts[i];
                        let after = final(self)@.scripts[i];
                        &&& after.client == before.client
                        &&& after.steps.len() == before.steps.len() + 1
                        &&& after.steps.drop_last() == before.steps
                        &&& after.steps.last().index == index
                        &&& after.steps.last().at_ms == at_ms
                        &&& after.steps.last().message@ == message@.name()
                        &&& after.steps.last().kind == kind_of(message@)
                        &&& final(self)@ == (LegacyView {
                            scripts: old(self)@.scripts.update(i, after),
                            ..old(self)@
                        })
                    })
                },
                Err(e) => {
                    &&& script_of(old(self)@.scripts, client@) is None
                    &&& final(self)@ == old(self)@
                    &&& e@ == DiffErrorView::Driver("legacy"@, client@ + ": not connected"@)
                },
            },
    {
        let kind = legacy_kind(message);
        let name = client.to_owned();
        match self.find_script(&name) {
            None => {
                let mut why = name;
                why.append(": not connected");
                Err(DiffError::Driver("legacy", why))
            },
            Some(i) => {
                let step = LegacyStep { index, at_ms, message: message.name(), kind };
                let ghost before = self@.scripts;
                self.scripts[i].steps.push(step);
                proof {
                    let after = self@.scripts[i as int];
                    assert(after.steps.drop_last() =~= before[i as int].steps);
                    assert(self@.scripts =~= before.update(i as int, after));
                    assert(self@.order =~= old(self)@.order);
                }
                Ok(())
            },
        }
    }

    /// A client's script: its steps, or none.
    pub fn script(&self, client: &str) -> (r: &[LegacyStep])
        ensures
            r@ == match script_of(self@.scripts, client@) {
                Some(i) => self@.scripts[i].steps,
                None => seq![],
            },
    {
        let name = client.to_owned();
        match self.find_script(&name) {
            Some(i) => self.scripts[i].steps.as_slice(),
            None => &[],
        }
    }
}

// ---------------------------------------------------------------------------
// The fakeclient's run
// ---------------------------------------------------------------------------

/// One line of the script a fakeclient reads.
#[derive(Clone, Copy, Debug)]
pub struct ScriptLine {
    /// Milliseconds since session start.
    pub at_ms: u64,
    /// How far to move.
    pub dx: F32,
    pub dy: F32,
    pub dz: F32,
    /// The gait.
    pub run_mode: &'static str,
}

/// What a [`ScriptLine`] says.
#[verifier::ext_equal]
pub struct LineView {
    pub at_ms: u64,
    pub dx: F32,
    pub dy: F32,
    pub dz: F32,
    pub run_mode: Seq<char>,
}

impl View for ScriptLine {
    type V = LineView;

    open spec fn view(&self) -> LineView {
        LineView {
            at_ms: self.at_ms,
            dx: self.dx,
            dy: self.dy,
            dz: self.dz,
            run_mode: self.run_mode@,
        }
    }
}

pub open spec fn line_views(list: Seq<ScriptLine>) -> Seq<LineView> {
    Seq::new(list.len(), |i: int| list[i]@)
}

/// The lines of a script: one for each move, in order.
pub open spec fn lines_of(steps: Seq<LegacyStep>) -> Seq<LineView>
    decreases steps.len(),
{
    if steps.len() == 0 {
        seq![]
    } else {
        let before = lines_of(steps.drop_last());
        match steps.last().kind {
            LegacyKind::Move { dx, dy, dz, run } => before.push(
                LineView {
                    at_ms: steps.last().at_ms,
                    dx,
                    dy,
                    dz,
                    run_mode: if run {
                        "Running"@
                    } else {
                        "Walking"@
                    },
                },
            ),
            _ => before,
        }
    }
}

/// The lines of a script: one for each move, in order.
pub fn script_lines(steps: &[LegacyStep]) -> (r: Vec<ScriptLine>)
    ensures
        line_views(r@) == lines_of(steps@),
{
    let mut lines: Vec<ScriptLine> = Vec::new();
    let mut i: usize = 0;
    proof {
        assert(steps@.take(0) =~= seq![]);
        assert(line_views(lines@) =~= seq![]);
    }
    while i < steps.len()
        invariant
            i <= steps@.len(),
            line_views(lines@) == lines_of(steps@.take(i as int)),
        decreases steps@.len() - i,
    {
        let ghost before = lines@;
        if let LegacyKind::Move { dx, dy, dz, run } = steps[i].kind {
            let run_mode = if run {
                "Running"
            } else {
                "Walking"
            };
            let line = ScriptLine { at_ms: steps[i].at_ms, dx, dy, dz, run_mode };
            lines.push(line);
            proof {
                assert(line_views(lines@) =~= line_views(before).push(line@));
            }
        }
        i = i + 1;
        proof {
            assert(steps@.take(i as int).drop_last() =~= steps@.take(i - 1));
            assert(steps@.take(i as int).last() == steps@[i - 1]);
        }
    }
    proof {
        assert(steps@.take(i as int) =~= steps@);
    }
    lines
}

/// The file a client's script goes into.
pub fn script_file(client: &str) -> (r: String)
    ensures
        r@ == client@ + ".jsonl"@,
{
    let mut name = client.to_owned();
    name.append(".jsonl");
    name
}

/// The profile of the client at a place in the order they connected: profiles
/// count from one.
pub open spec fn profile_of(place: usize) -> nat {
    if place < usize::MAX {
        place as nat + 1
    } else {
        place as nat
    }
}

/// What the fakeclient of the client at a place in the order is started with,
/// but for the script.
pub fn fakeclient_args(legacy: &Legacy, place: usize) -> (r: Vec<String>)
    ensures
        text_views(r@) == seq![
            "--host"@,
            legacy.host@,
            "--port"@,
            decimal(legacy.port as nat),
            "--profile-id"@,
            decimal(profile_of(place)),
            "--settle-ms"@,
            "1500"@,
        ],
{
    let mut port = String::new();
    append_decimal(&mut port, legacy.port as u64);
    let mut profile = String::new();
    let profile_id: usize = place.saturating_add(1);
    append_decimal(&mut profile, profile_id as u64);
    proof {
        assert(port@ =~= decimal(legacy.port as nat));
        assert(profile@ =~= decimal(profile_of(place)));
    }
    let mut args: Vec<String> = Vec::new();
    args.push("--host".to_owned());
    args.push(legacy.host.clone());
    args.push("--port".to_owned());
    args.push(port);
    args.push("--profile-id".to_owned());
    args.push(profile);
    args.push("--settle-ms".to_owned());
    args.push("1500".to_owned());
    args
}

/// What to make of a fakeclient that ended: `status` is how, `lines` its
/// report, of which the last event is told.
pub fn fakeclient_ended(client: &str, success: bool, status: &str, lines: &Vec<String>) -> (r:
    Result<(), DiffError>)
    ensures
        match r {
            Ok(()) => success,
            Err(e) => !success && e@ == DiffErrorView::Driver(
                "legacy"@,
                "fakeclient for "@ + client@ + " exited "@ + status@ + ": "@ + last_event(
                    text_views(lines@),
                    lines@.len() as int,
                ),
            ),
        },
{
    if success {
        return Ok(());
    }
    let last = last_line(lines);
    let mut why = "fakeclient for ".to_owned();
    why.append(client);
    why.append(" exited ");
    why.append(status);
    why.append(": ");
    why.append(last.as_str());
    Err(DiffError::Driver("legacy", why))
}

// ---------------------------------------------------------------------------
// What holds of the matching
// ---------------------------------------------------------------------------

proof fn lemma_first_near(m: Matching, near: Seq<bool>, j: int)
    requires
        0 <= j,
    ensures
        m.first_near(near, j) matches Some(k) ==> j <= k < m.sent.len() && m.is_open(k) && k
            < near.len() && near[k] && forall|i: int|
            j <= i < k ==> !(#[trigger] m.is_open(i) && i < near.len() && near[i]),
    decreases m.sent.len() - j,
{
    if j < m.sent.len() && !(m.is_open(j) && j < near.len() && near[j]) {
        lemma_first_near(m, near, j + 1);
    }
}

proof fn lemma_last_open(m: Matching, n: int)
    requires
        n <= m.sent.len(),
    ensures
        m.last_open(n) matches Some(k) ==> 0 <= k < n && m.is_open(k) && forall|i: int|
            k < i < n ==> !#[trigger] m.is_open(i),
    decreases n,
{
    if n > 0 && !m.is_open(n - 1) {
        lemma_last_open(m, n - 1);
    }
}

/// An echo accepts the first open move that it is near to; a correction
/// rejects the most recent open one and gives the reason; each changes that
/// move's record and no other. Any other event changes no record.
pub proof fn law_one_event_resolves_one_move(m: Matching, ev: LegacyEvent, moves: Seq<int>)
    requires
        places_fit(m.sent, m.records.len()),
    ensures
        ({
            let after = matched(m, ev, moves);
            &&& after.records.len() == m.records.len()
            &&& forall|k: int|
                0 <= k < m.records.len() ==> (#[trigger] after.records[k] == m.records[k] || {
                    &&& m.records[k].outcome == Recorded::Lost
                    &&& m.sent.contains(k)
                    &&& ev.is_echo() ==> after.records[k].outcome == Recorded::Was(Outcome::Accept)
                    &&& ev.is_correction() ==> after.records[k].outcome == Recorded::Was(
                        Outcome::Reject,
                    ) && after.records[k].reason == Some("Teleport2"@)
                    &&& ev.is_echo() || ev.is_correction()
                    &&& after.records[k].i == m.records[k].i
                    &&& after.records[k].client == m.records[k].client
                    &&& after.records[k].message == m.records[k].message
                })
            &&& forall|j: int, k: int|
                0 <= j < m.records.len() && 0 <= k < m.records.len() && #[trigger] after.records[j]
                    != m.records[j] && #[trigger] after.records[k] != m.records[k] ==> j == k
        }),
{
    lemma_first_near(m, ev.near@, 0);
    lemma_last_open(m, m.sent.len() as int);
    if ev.is_echo() {
        if let Some(j) = m.first_near(ev.near@, 0) {
            assert(m.sent[j] == m.sent[j]);
            assert(m.sent.contains(m.sent[j]));
        }
    } else if ev.is_correction() {
        if let Some(j) = m.last_open(m.sent.len() as int) {
            assert(m.sent.contains(m.sent[j]));
        }
    }
}

/// The sent updates belong to the moves, in order.
pub open spec fn sent_in_order(m: Matching, moves: Seq<int>) -> bool {
    m.sent.len() <= moves.len() && m.sent == moves.take(m.sent.len() as int)
}

proof fn lemma_matching(
    m: Matching,
    events: Seq<LegacyEvent>,
    moves: Seq<int>,
)
    requires
        sent_in_order(m, moves),
        places_fit(moves, m.records.len()),
    ensures
        ({
            let after = matched_all(m, events, moves);
            &&& sent_in_order(after, moves)
            &&& after.records.len() == m.records.len()
            &&& forall|k: int|
                0 <= k < m.records.len() ==> {
                    &&& (#[trigger] after.records[k]).i == m.records[k].i
                    &&& after.records[k].client == m.records[k].client
                    &&& after.records[k].message == m.records[k].message
                    &&& m.records[k].outcome != Recorded::Lost || !moves.contains(k)
                        ==> after.records[k] == m.records[k]
                }
        }),
    decreases events.len(),
{
    if events.len() > 0 {
        lemma_matching(m, events.drop_last(), moves);
        let before = matched_all(m, events.drop_last(), moves);
        let after = matched(before, events.last(), moves);
        assert(places_fit(before.sent, before.records.len())) by {
            assert forall|j: int| 0 <= j < before.sent.len() implies 0 <= #[trigger] before.sent[j]
                < before.records.len() by {
                assert(before.sent[j] == moves[j]);
            }
        }
        law_one_event_resolves_one_move(before, events.last(), moves);
        assert forall|k: int| before.sent.contains(k) implies moves.contains(k) by {
            let j = choose|j: int| 0 <= j < before.sent.len() && before.sent[j] == k;
            assert(moves[j] == k);
        }
        if events.last().is_move_sent() && before.sent.len() < moves.len() {
            assert(after.sent =~= moves.take(after.sent.len() as int));
        }
    }
}

proof fn lemma_moves_are_moves(steps: Seq<LegacyStep>)
    ensures
        forall|k: int| move_places(steps).contains(k) ==> 0 <= k < steps.len() && is_move(steps[k]),
    decreases steps.len(),
{
    if steps.len() > 0 {
        let init = steps.drop_last();
        lemma_moves_are_moves(init);
        assert forall|k: int| move_places(steps).contains(k) implies 0 <= k < steps.len()
            && is_move(steps[k]) by {
            let j = choose|j: int|
                0 <= j < move_places(steps).len() && move_places(steps)[j] == k;
            if j < move_places(init).len() {
                assert(move_places(init)[j] == k);
                assert(move_places(init).contains(k));
                assert(init[k] == steps[k]);
            }
        }
    }
}

/// Every step gets one record, in the order of the script, with the step's own
/// place, client and message. Logins depend on nothing but whether the client
/// got an actor, unsupported steps on nothing at all.
pub proof fn law_every_step_is_recorded(
    client: Seq<char>,
    steps: Seq<LegacyStep>,
    events: Seq<LegacyEvent>,
)
    ensures
        outcomes_of(client, steps, events).len() == steps.len(),
        forall|k: int|
            0 <= k < steps.len() ==> {
                let r = #[trigger] outcomes_of(client, steps, events)[k];
                &&& r.i == steps[k].index
                &&& r.client == client
                &&& r.message == steps[k].message@
                &&& !is_move(steps[k]) ==> r == first_record(client, steps[k], has_actor(events))
            },
{
    let start = Matching {
        records: first_records(client, steps, has_actor(events)),
        sent: seq![],
    };
    lemma_move_places(steps);
    lemma_moves_are_moves(steps);
    assert(move_places(steps).take(0) =~= seq![]);
    lemma_matching(start, events, move_places(steps));
}

/// A move that is resolved stays as it is, whatever comes after.
pub proof fn law_outcomes_are_final(
    steps: Seq<LegacyStep>,
    m: Matching,
    later: Seq<LegacyEvent>,
    k: int,
)
    requires
        sent_in_order(m, move_places(steps)),
        m.records.len() == steps.len(),
        0 <= k < steps.len(),
        m.records[k].outcome != Recorded::Lost,
    ensures
        matched_all(m, later, move_places(steps)).records[k] == m.records[k],
{
    lemma_move_places(steps);
    lemma_matching(m, later, move_places(steps));
}

/// A greeting is the login, a movement is a move by its coordinates at its gait,
/// and nothing else has a counterpart.
pub proof fn law_messages_have_their_counterparts(m: MessageView)
    ensures
        m is Hello <==> kind_of(m) is Login,
        m is Movement <==> kind_of(m) is Move,
        !(m is Hello || m is Movement) <==> kind_of(m) is Unsupported,
        m matches MessageView::Movement(s) ==> (kind_of(m) matches LegacyKind::Move {
            dx,
            dy,
            dz,
            run,
        } && dx == s.transform.x && dy == s.transform.y && dz == s.transform.z && run == s.run),
{
}

/// What an event is can be told from its name and its message's type: updates of
/// movement are of type 2, corrections of type 31.
pub proof fn law_events_have_their_names(name: Seq<char>, ev: LegacyEvent)
    ensures
        named(name) == EventName::Actor <==> name == "actor"@,
        named(name) == EventName::Sent <==> name == "sent"@,
        named(name) == EventName::Message <==> name == "message"@,
        ev.is_move_sent() <==> ev.name == EventName::Sent && ev.t == Some(2i64),
        ev.is_echo() <==> ev.name == EventName::Message && ev.t == Some(2i64),
        ev.is_correction() <==> ev.name == EventName::Message && ev.t == Some(31i64),
{
    reveal_strlit("actor");
    reveal_strlit("sent");
    reveal_strlit("message");
    assert("actor"@.len() == 5);
    assert("sent"@.len() == 4);
    assert("message"@.len() == 7);
}

/// The places of the moves are the places of the steps that are moves, all of
/// them, once each and in order.
pub proof fn law_every_move_has_its_place(steps: Seq<LegacyStep>, k: int)
    ensures
        0 <= k < steps.len() && steps[k].kind is Move <==> move_places(steps).contains(k),
        forall|i: int, j: int|
            0 <= i < j < move_places(steps).len() ==> #[trigger] move_places(steps)[i]
                < #[trigger] move_places(steps)[j],
    decreases steps.len(),
{
    lemma_move_places(steps);
    lemma_moves_are_moves(steps);
    if steps.len() > 0 {
        let init = steps.drop_last();
        let before = move_places(init);
        law_every_move_has_its_place(init, k);
        lemma_move_places(init);
        if 0 <= k < steps.len() && steps[k].kind is Move {
            if k == steps.len() - 1 {
                assert(move_places(steps)[before.len() as int] == k);
            } else {
                assert(init[k] == steps[k]);
                let j = choose|j: int| 0 <= j < before.len() && before[j] == k;
                assert(move_places(steps)[j] == k);
            }
        }
        assert forall|i: int, j: int| 0 <= i < j < move_places(steps).len() implies
            #[trigger] move_places(steps)[i] < #[trigger] move_places(steps)[j] by {
            if j < before.len() {
                assert(before[i] < before[j]);
            } else {
                assert(before[i] < init.len());
            }
        }
    }
}

/// A movement update that the client sent belongs to the next move that none
/// belongs to yet, while there is one, and changes no record.
pub proof fn law_an_update_belongs_to_the_next_move(m: Matching, ev: LegacyEvent, moves: Seq<int>)
    requires
        ev.name == EventName::Sent,
        ev.t == Some(2i64),
    ensures
        matched(m, ev, moves).records == m.records,
        m.sent.len() < moves.len() ==> matched(m, ev, moves).sent == m.sent.push(
            moves[m.sent.len() as int],
        ),
        m.sent.len() >= moves.len() ==> matched(m, ev, moves).sent == m.sent,
{
}

/// An event that is neither a sent update, nor an echo, nor a correction changes
/// nothing.
pub proof fn law_other_events_change_nothing(m: Matching, ev: LegacyEvent, moves: Seq<int>)
    requires
        !(ev.name == EventName::Sent && ev.t == Some(2i64)),
        !(ev.name == EventName::Message && (ev.t == Some(2i64) || ev.t == Some(31i64))),
    ensures
        matched(m, ev, moves) == m,
{
}

proof fn lemma_is_first_near(m: Matching, near: Seq<bool>, i: int, j: int)
    requires
        0 <= i <= j < m.sent.len(),
        m.is_open(j),
        j < near.len(),
        near[j],
        forall|k: int|
            i <= k < j ==> !(#[trigger] m.records[m.sent[k]].outcome == Recorded::Lost && k
                < near.len() && near[k]),
    ensures
        m.first_near(near, i) == Some(j),
    decreases j - i,
{
    if i < j {
        assert(!(m.records[m.sent[i]].outcome == Recorded::Lost && i < near.len() && near[i]));
        lemma_is_first_near(m, near, i + 1, j);
    }
}

/// An echo accepts the first update that is near to it and has nothing recorded
/// yet: that step is recorded as accepted, and nothing else changes.
pub proof fn law_an_echo_accepts_the_first_near_move(
    m: Matching,
    ev: LegacyEvent,
    moves: Seq<int>,
    j: int,
)
    requires
        ev.name == EventName::Message,
        ev.t == Some(2i64),
        0 <= j < m.sent.len(),
        m.records[m.sent[j]].outcome == Recorded::Lost,
        j < ev.near@.len(),
        ev.near@[j],
        forall|k: int|
            0 <= k < j ==> !(#[trigger] m.records[m.sent[k]].outcome == Recorded::Lost && k
                < ev.near@.len() && ev.near@[k]),
    ensures
        matched(m, ev, moves).sent == m.sent,
        matched(m, ev, moves).records == m.records.update(
            m.sent[j],
            RecordView { outcome: Recorded::Was(Outcome::Accept), ..m.records[m.sent[j]] },
        ),
{
    lemma_is_first_near(m, ev.near@, 0, j);
}

/// An echo that is near to no update with nothing recorded yet changes nothing.
pub proof fn law_an_echo_of_nothing_changes_nothing(m: Matching, ev: LegacyEvent, moves: Seq<int>)
    requires
        ev.name == EventName::Message,
        ev.t == Some(2i64),
        forall|k: int|
            0 <= k < m.sent.len() ==> !(#[trigger] m.records[m.sent[k]].outcome == Recorded::Lost
                && k < ev.near@.len() && ev.near@[k]),
    ensures
        matched(m, ev, moves) == m,
{
    lemma_first_near(m, ev.near@, 0);
    if let Some(k) = m.first_near(ev.near@, 0) {
        assert(m.records[m.sent[k]].outcome == Recorded::Lost);
    }
}

proof fn lemma_is_last_open(m: Matching, j: int, n: int)
    requires
        0 <= j < n <= m.sent.len(),
        m.is_open(j),
        forall|k: int| j < k < n ==> (#[trigger] m.records[m.sent[k]]).outcome != Recorded::Lost,
    ensures
        m.last_open(n) == Some(j),
    decreases n,
{
    if j < n - 1 {
        assert(m.records[m.sent[n - 1]].outcome != Recorded::Lost);
        lemma_is_last_open(m, j, n - 1);
    }
}

/// A correction rejects the last update with nothing recorded yet: that step is
/// recorded as rejected, with the correction's name as the reason, and nothing
/// else changes. Without such an update, nothing does.
pub proof fn law_a_correction_rejects_the_last_open_move(
    m: Matching,
    ev: LegacyEvent,
    moves: Seq<int>,
    j: int,
)
    requires
        ev.name == EventName::Message,
        ev.t == Some(31i64),
        -1 <= j < m.sent.len(),
        j >= 0 ==> m.records[m.sent[j]].outcome == Recorded::Lost,
        forall|k: int|
            j < k < m.sent.len() ==> (#[trigger] m.records[m.sent[k]]).outcome != Recorded::Lost,
    ensures
        matched(m, ev, moves).sent == m.sent,
        j >= 0 ==> matched(m, ev, moves).records == m.records.update(
            m.sent[j],
            RecordView {
                outcome: Recorded::Was(Outcome::Reject),
                reason: Some("Teleport2"@),
                ..m.records[m.sent[j]]
            },
        ),
        j < 0 ==> matched(m, ev, moves) == m,
{
    if j >= 0 {
        lemma_is_last_open(m, j, m.sent.len() as int);
    } else {
        lemma_last_open(m, m.sent.len() as int);
        if let Some(k) = m.last_open(m.sent.len() as int) {
            assert(m.records[m.sent[k]].outcome == Recorded::Lost);
        }
    }
}

/// A login is accepted exactly when some event gave the client an actor and is
/// rejected otherwise; a step without a counterpart is unsupported; a move that
/// nothing was reported of is lost.
pub proof fn law_steps_without_moves_are_settled(
    client: Seq<char>,
    steps: Seq<LegacyStep>,
    events: Seq<LegacyEvent>,
    k: int,
)
    requires
        0 <= k < steps.len(),
    ensures
        ({
            let r = outcomes_of(client, steps, events)[k];
            let got_actor = exists|i: int|
                0 <= i < events.len() && (#[trigger] events[i]).name == EventName::Actor;
            &&& steps[k].kind is Login && got_actor ==> r.outcome == Recorded::Was(Outcome::Accept)
            &&& steps[k].kind is Login && !got_actor ==> r.outcome == Recorded::Was(Outcome::Reject)
            &&& steps[k].kind is Unsupported ==> r.outcome == Recorded::Was(Outcome::Unsupported)
            &&& steps[k].kind is Move && events.len() == 0 ==> r.outcome == Recorded::Lost
            &&& !(steps[k].kind is Move) ==> r.reason is None
        }),
{
    law_every_step_is_recorded(client, steps, events);
}

/// The names of the messages a client received are one for each that has a type,
/// in order: the letter and the number.
pub proof fn law_received_messages_are_named(events: Seq<LegacyEvent>, ev: LegacyEvent)
    ensures
        received_names(seq![]) == Seq::<Seq<char>>::empty(),
        ev.name == EventName::Message && ev.t is Some ==> received_names(events.push(ev))
            == received_names(events).push("t"@ + signed_decimal(ev.t.unwrap() as int)),
        ev.name != EventName::Message || ev.t is None ==> received_names(events.push(ev))
            == received_names(events),
{
    assert(events.push(ev).drop_last() =~= events);
}

proof fn lemma_digits_value(s: Seq<char>)
    requires
        all_digits(s),
    ensures
        digits_value(s) == number_of(s),
    decreases s.len(),
{
    if s.len() > 0 {
        assert(is_digit(s[s.len() - 1]));
        assert forall|i: int| 0 <= i < s.drop_last().len() implies is_digit(
            #[trigger] s.drop_last()[i],
        ) by {
            assert(is_digit(s[i]));
        }
        lemma_digits_value(s.drop_last());
    }
}

proof fn lemma_no_colon(s: Seq<char>, c: int, n: int)
    requires
        0 <= c < n <= s.len(),
        s[c] == ':',
        forall|i: int| c < i < n ==> #[trigger] s[i] != ':',
    ensures
        last_colon(s, n) == Some(c),
    decreases n,
{
    if c < n - 1 {
        assert(s[n - 1] != ':');
        lemma_no_colon(s, c, n - 1);
    }
}

/// An address reads back: a host, which may hold colons itself, one colon, and a
/// port in decimal are taken apart as they were put together.
pub proof fn law_addresses_read_back(host: Seq<char>, port: u16)
    ensures
        ({
            let text = host + seq![':'] + decimal(port as nat);
            &&& last_colon(text, text.len() as int) == Some(host.len() as int)
            &&& text.take(host.len() as int) == host
            &&& port_of(text.skip(host.len() as int + 1)) == Some(port)
        }),
{
    let digits = decimal(port as nat);
    let text = host + seq![':'] + digits;
    law_decimal_reads_back(port as nat);
    assert forall|i: int| 0 <= i < digits.len() implies is_digit(#[trigger] digits[i]) by {
        assert('0' <= digits[i] <= '9');
    }
    lemma_digits_value(digits);
    assert forall|i: int| host.len() < i < text.len() implies #[trigger] text[i] != ':' by {
        assert(text[i] == digits[i - host.len() - 1]);
        assert(is_digit(digits[i - host.len() - 1]));
    }
    lemma_no_colon(text, host.len() as int, text.len() as int);
    assert(text.take(host.len() as int) =~= host);
    assert(text.skip(host.len() as int + 1) =~= digits);
    assert(is_digit(digits[0]));
}

/// A text is a port exactly when it is decimal digits, at least one, that stand
/// for at most 65535, perhaps behind one plus sign; the port is that number.
pub proof fn law_ports_are_digits(digits: Seq<char>)
    requires
        digits.len() == 0 || digits[0] != '+',
    ensures
        ({
            let good = digits.len() > 0 && (forall|i: int|
                0 <= i < digits.len() ==> 48 <= (#[trigger] digits[i]) as u32 <= 57) && number_of(
                digits,
            ) <= 65535;
            &&& port_of(digits) is Some <==> good
            &&& port_of(seq!['+'] + digits) == port_of(digits)
            &&& port_of(digits) matches Some(port) ==> port == number_of(digits)
        }),
{
    assert((seq!['+'] + digits).skip(1) =~= digits);
    if all_digits(digits) {
        lemma_digits_value(digits);
    } else {
        let i = choose|i: int| 0 <= i < digits.len() && !is_digit(#[trigger] digits[i]);
        assert(!(48 <= digits[i] as u32 <= 57));
    }
}

/// A client's script is the first of that client's; without one there is none
/// of that client's at all.
pub proof fn law_scripts_are_found(scripts: Seq<ScriptView>, client: Seq<char>)
    ensures
        match script_of(scripts, client) {
            Some(i) => 0 <= i < scripts.len() && scripts[i].client == client && forall|k: int|
                0 <= k < i ==> (#[trigger] scripts[k]).client != client,
            None => forall|j: int| 0 <= j < scripts.len() ==> (#[trigger] scripts[j]).client
                != client,
        },
{
    lemma_script_from(scripts, client, 0);
}

/// Connecting a client leaves every other client's script alone.
pub proof fn law_other_scripts_stay(scripts: Seq<ScriptView>, client: Seq<char>, k: int)
    requires
        0 <= k < scripts.len(),
        scripts[k].client != client,
    ensures
        ({
            let after = with_client(scripts, client);
            &&& scripts.len() <= after.len() <= scripts.len() + 1
            &&& after[k] == scripts[k]
        }),
{
    lemma_script_from(scripts, client, 0);
}

/// The lines of a script are one for each move, in order: when, how far, and at
/// which gait.
pub proof fn law_moves_make_lines(steps: Seq<LegacyStep>, st: LegacyStep)
    ensures
        lines_of(seq![]) == Seq::<LineView>::empty(),
        !(st.kind is Move) ==> lines_of(steps.push(st)) == lines_of(steps),
        st.kind matches LegacyKind::Move { dx, dy, dz, run } ==> {
            let after = lines_of(steps.push(st));
            &&& after.len() == lines_of(steps).len() + 1
            &&& after.drop_last() == lines_of(steps)
            &&& after.last().at_ms == st.at_ms
            &&& after.last().dx == dx
            &&& after.last().dy == dy
            &&& after.last().dz == dz
            &&& run ==> after.last().run_mode == "Running"@
            &&& !run ==> after.last().run_mode == "Walking"@
        },
{
    assert(steps.push(st).drop_last() =~= steps);
    if st.kind is Move {
        assert(lines_of(steps.push(st)).drop_last() =~= lines_of(steps));
    }
}

/// Profiles count from one, in the order the clients connected.
pub proof fn law_profiles_count_from_one(place: usize)
    requires
        place < usize::MAX,
    ensures
        profile_of(place) == place + 1,
{
}

/// How many movement updates the client sent.
pub open spec fn updates_in(events: Seq<LegacyEvent>) -> nat
    decreases events.len(),
{
    if events.len() == 0 {
        0
    } else {
        updates_in(events.drop_last()) + if events.last().name == EventName::Sent
            && events.last().t == Some(2i64) {
            1nat
        } else {
            0nat
        }
    }
}

proof fn lemma_sent_count(m: Matching, events: Seq<LegacyEvent>, moves: Seq<int>)
    requires
        m.sent.len() == 0,
    ensures
        matched_all(m, events, moves).sent.len() == if updates_in(events) <= moves.len() {
            updates_in(events)
        } else {
            moves.len()
        },
    decreases events.len(),
{
    if events.len() > 0 {
        lemma_sent_count(m, events.drop_last(), moves);
    }
}

/// Every event counts: what one more event comes to is what it does to the
/// records that those before it left, where the updates sent so far belong to
/// the first moves, one each.
pub proof fn law_every_event_is_matched(
    client: Seq<char>,
    steps: Seq<LegacyStep>,
    events: Seq<LegacyEvent>,
    ev: LegacyEvent,
)
    requires
        ev.name != EventName::Actor,
    ensures
        ({
            let moves = move_places(steps);
            let n = if updates_in(events) <= moves.len() {
                updates_in(events)
            } else {
                moves.len()
            };
            let before = Matching {
                records: outcomes_of(client, steps, events),
                sent: moves.take(n as int),
            };
            outcomes_of(client, steps, events.push(ev)) == matched(before, ev, moves).records
        }),
{
    let moves = move_places(steps);
    let all = events.push(ev);
    let start = Matching {
        records: first_records(client, steps, has_actor(events)),
        sent: seq![],
    };
    assert(has_actor(all) == has_actor(events)) by {
        if has_actor(all) {
            let i = choose|i: int|
                0 <= i < all.len() && (#[trigger] all[i]).name == EventName::Actor;
            assert(events[i].name == EventName::Actor);
        }
        if has_actor(events) {
            let i = choose|i: int|
                0 <= i < events.len() && (#[trigger] events[i]).name == EventName::Actor;
            assert(all[i].name == EventName::Actor);
        }
    }
    assert(all.drop_last() =~= events);
    lemma_move_places(steps);
    assert(moves.take(0) =~= seq![]);
    lemma_matching(start, events, moves);
    lemma_sent_count(start, events, moves);
}

} // verus!
