//! difftest: the C++ core is the oracle for behavior we are not changing.
//!
//! A session is a timed list of typed messages per client. It is replayed into
//! two stacks through their own transports, and the outcomes of its steps,
//! accepted or rejected, are compared: the wire stack is netcode into this
//! library's edge, the legacy stack is RakNet into the unmodified C++ server
//! through the `fakeclient` binary.
//!
//! The wire driver also records a `reason` per rejected step; it is outside
//! the comparison because the legacy stack has no reason codes. A step may
//! declare a divergence when the C++ server is known to accept what the
//! validator rejects; declared divergences are applied before the comparison.
//!
//! Without a legacy driver, the session is replayed twice through the wire
//! driver and the two runs are compared (self-diff), which proves the harness
//! and the edge are deterministic; the verdict says which comparison ran.
pub mod legacy;
pub mod order;
pub mod report;
pub mod wire;

use crate::decimal::{append_decimal, decimal};
use vstd::prelude::*;
use vstd::string::StringExecFns;

verus! {

/// One recorded session.
#[derive(Debug)]
pub struct Session {
    /// Its name.
    pub id: String,
    /// The clients, in the order they connect.
    pub clients: Vec<String>,
    /// The steps, in order.
    pub steps: Vec<Step>,
}

/// One timed step of one client, plus an optional declared divergence. The
/// step's message is replayed and is no part of the comparison.
#[derive(Debug)]
pub struct Step {
    /// Milliseconds since session start.
    pub at_ms: u64,
    /// Who sends it.
    pub client: String,
    /// Where the two stacks are allowed to differ.
    pub divergence: Option<Divergence>,
}

/// Where the two stacks are allowed to differ on a step.
#[derive(Clone, Copy, Debug, PartialEq, Eq, Structural)]
pub struct Divergence {
    /// What the legacy stack does with this step where the wire rejects it.
    pub legacy: Outcome,
}

/// What a stack did with a step.
#[derive(Clone, Copy, Debug, PartialEq, Eq, Structural)]
pub enum Outcome {
    Accept,
    Reject,
    /// The legacy driver has no counterpart for this message yet.
    Unsupported,
}

impl Outcome {
    pub open spec fn text(self) -> Seq<char> {
        match self {
            Outcome::Accept => "accepted"@,
            Outcome::Reject => "rejected"@,
            Outcome::Unsupported => "unsupported"@,
        }
    }

    /// The outcome as it is recorded.
    pub fn as_str(self) -> (r: &'static str)
        ensures
            r@ == self.text(),
    {
        match self {
            Outcome::Accept => "accepted",
            Outcome::Reject => "rejected",
            Outcome::Unsupported => "unsupported",
        }
    }
}

/// What is recorded of a step.
#[derive(Clone, Copy, Debug, PartialEq, Eq, Structural)]
pub enum Recorded {
    /// Nothing came back.
    Lost,
    /// What the stack did.
    Was(Outcome),
    /// A declared divergence, applied.
    Declared(Outcome),
}

impl Recorded {
    pub open spec fn text(self) -> Seq<char> {
        match self {
            Recorded::Lost => "lost"@,
            Recorded::Was(o) => o.text(),
            Recorded::Declared(Outcome::Accept) => "declared:accepted"@,
            Recorded::Declared(Outcome::Reject) => "declared:rejected"@,
            Recorded::Declared(Outcome::Unsupported) => "declared:unsupported"@,
        }
    }

    /// The outcome as it is recorded.
    pub fn as_str(self) -> (r: &'static str)
        ensures
            r@ == self.text(),
    {
        match self {
            Recorded::Lost => "lost",
            Recorded::Was(o) => o.as_str(),
            Recorded::Declared(Outcome::Accept) => "declared:accepted",
            Recorded::Declared(Outcome::Reject) => "declared:rejected",
            Recorded::Declared(Outcome::Unsupported) => "declared:unsupported",
        }
    }
}

/// Why a comparison did not come to a verdict, or came to a bad one.
#[derive(Debug)]
pub enum DiffError {
    /// A file could not be read.
    Io(String),
    /// A step of the session is not a message.
    Session(usize, String),
    /// A stack failed.
    Driver(&'static str, String),
    /// The stacks differ.
    Mismatch(String),
}

/// What a [`DiffError`] says.
#[verifier::ext_equal]
pub enum DiffErrorView {
    Io(Seq<char>),
    Session(usize, Seq<char>),
    Driver(Seq<char>, Seq<char>),
    Mismatch(Seq<char>),
}

impl View for DiffError {
    type V = DiffErrorView;

    open spec fn view(&self) -> DiffErrorView {
        match *self {
            DiffError::Io(why) => DiffErrorView::Io(why@),
            DiffError::Session(step, why) => DiffErrorView::Session(step, why@),
            DiffError::Driver(driver, why) => DiffErrorView::Driver(driver@, why@),
            DiffError::Mismatch(why) => DiffErrorView::Mismatch(why@),
        }
    }
}

impl DiffErrorView {
    /// The text of an error.
    pub open spec fn text(self) -> Seq<char> {
        match self {
            DiffErrorView::Io(why) => "E_DIFF_IO: "@ + why,
            DiffErrorView::Session(step, why) => "E_DIFF_SESSION: step "@ + decimal(step as nat)
                + ": "@ + why,
            DiffErrorView::Driver(driver, why) => "E_DIFF_DRIVER("@ + driver + "): "@ + why,
            DiffErrorView::Mismatch(why) => "E_DIFF_MISMATCH: "@ + why,
        }
    }
}

impl DiffError {
    /// The error as it is printed.
    pub fn to_string(&self) -> (r: String)
        ensures
            r@ == self@.text(),
    {
        match self {
            DiffError::Io(why) => {
                let mut out = "E_DIFF_IO: ".to_owned();
                out.append(why.as_str());
                out
            },
            DiffError::Session(step, why) => {
                let mut out = "E_DIFF_SESSION: step ".to_owned();
                append_decimal(&mut out, *step as u64);
                out.append(": ");
                out.append(why.as_str());
                out
            },
            DiffError::Driver(driver, why) => {
                let mut out = "E_DIFF_DRIVER(".to_owned();
                out.append(driver);
                out.append("): ");
                out.append(why.as_str());
                out
            },
            DiffError::Mismatch(why) => {
                let mut out = "E_DIFF_MISMATCH: ".to_owned();
                out.append(why.as_str());
                out
            },
        }
    }
}

/// What became of one step.
#[derive(Debug)]
pub struct StepRecord {
    /// The step's place in the session.
    pub i: usize,
    /// Who sent it.
    pub client: String,
    /// The message's name.
    pub message: &'static str,
    /// What the stack did with it.
    pub outcome: Recorded,
    /// Why it was rejected, where the stack says.
    pub reason: Option<String>,
}

/// What a [`StepRecord`] says.
#[verifier::ext_equal]
pub struct RecordView {
    pub i: usize,
    pub client: Seq<char>,
    pub message: Seq<char>,
    pub outcome: Recorded,
    pub reason: Option<Seq<char>>,
}

impl View for StepRecord {
    type V = RecordView;

    open spec fn view(&self) -> RecordView {
        RecordView {
            i: self.i,
            client: self.client@,
            message: self.message@,
            outcome: self.outcome,
            reason: match self.reason {
                Some(reason) => Some(reason@),
                None => None,
            },
        }
    }
}

pub open spec fn record_views(records: Seq<StepRecord>) -> Seq<RecordView> {
    Seq::new(records.len(), |i: int| records[i]@)
}

/// The part of a record that is compared.
#[derive(Debug)]
pub struct ComparedStep {
    /// The step's place in the session.
    pub i: usize,
    /// Who sent it.
    pub client: String,
    /// The message's name.
    pub message: &'static str,
    /// What the stack did with it, or the declaration that covers it.
    pub outcome: Recorded,
}

/// What a [`ComparedStep`] says.
#[verifier::ext_equal]
pub struct ComparedView {
    pub i: usize,
    pub client: Seq<char>,
    pub message: Seq<char>,
    pub outcome: Recorded,
}

impl View for ComparedStep {
    type V = ComparedView;

    open spec fn view(&self) -> ComparedView {
        ComparedView {
            i: self.i,
            client: self.client@,
            message: self.message@,
            outcome: self.outcome,
        }
    }
}

pub open spec fn compared_views(steps: Seq<ComparedStep>) -> Seq<ComparedView> {
    Seq::new(steps.len(), |i: int| steps[i]@)
}

/// The declared outcome of step `i`, if the session declares one.
pub open spec fn declared(session: Session, i: usize) -> Option<Outcome> {
    if i < session.steps@.len() {
        match session.steps@[i as int].divergence {
            Some(d) => Some(d.legacy),
            None => None,
        }
    } else {
        None
    }
}

/// The outcome of a step as it is compared: the marker of the declaration on
/// the wire side, and on the legacy side where the outcome is as declared.
pub open spec fn compared_outcome(
    outcome: Recorded,
    declaration: Option<Outcome>,
    legacy: bool,
) -> Recorded {
    match declaration {
        Some(d) => if !legacy || outcome == Recorded::Was(d) {
            Recorded::Declared(d)
        } else {
            outcome
        },
        None => outcome,
    }
}

/// What is compared of a record.
pub open spec fn compared(r: RecordView, session: Session, legacy: bool) -> ComparedView {
    ComparedView {
        i: r.i,
        client: r.client,
        message: r.message,
        outcome: compared_outcome(r.outcome, declared(session, r.i), legacy),
    }
}

/// What is compared of a run.
pub open spec fn compared_all(
    records: Seq<RecordView>,
    session: Session,
    legacy: bool,
) -> Seq<ComparedView> {
    Seq::new(records.len(), |i: int| compared(records[i], session, legacy))
}

fn declared_for(session: &Session, i: usize) -> (r: Option<Outcome>)
    ensures
        r == declared(*session, i),
{
    if i < session.steps.len() {
        match session.steps[i].divergence {
            Some(d) => Some(d.legacy),
            None => None,
        }
    } else {
        None
    }
}

/// The part of a run the diff looks at: the per-step outcomes. Reasons are
/// wire-only detail and never compared. A step with a declared divergence is
/// expected to differ: on the legacy side the actual outcome must equal the
/// declaration, and then both sides carry the marker `declared:<outcome>` so
/// the diff treats the step as matched; a legacy outcome that contradicts its
/// declaration stays as it is and fails the diff, which is the point of
/// declaring.
pub fn comparable(out: &Vec<StepRecord>, session: &Session, legacy: bool) -> (r: Vec<ComparedStep>)
    ensures
        compared_views(r@) == compared_all(record_views(out@), *session, legacy),
        r@.len() == out@.len(),
        forall|k: int|
            0 <= k < out@.len() ==> {
                let was = #[trigger] out@[k];
                let now = r@[k];
                &&& now.i == was.i
                &&& now.client@ == was.client@
                &&& now.message@ == was.message@
                &&& now.outcome == if was.i < session.steps@.len() && (
                session.steps@[was.i as int].divergence matches Some(d) && (!legacy || was.outcome
                    == Recorded::Was(d.legacy))) {
                    Recorded::Declared(session.steps@[was.i as int].divergence.unwrap().legacy)
                } else {
                    was.outcome
                }
            },
{
    let mut list: Vec<ComparedStep> = Vec::new();
    let mut k: usize = 0;
    let ghost all = compared_all(record_views(out@), *session, legacy);
    while k < out.len()
        invariant
            k <= out@.len(),
            all == compared_all(record_views(out@), *session, legacy),
            compared_views(list@) == all.take(k as int),
        decreases out@.len() - k,
    {
        let st = &out[k];
        let mut outcome = st.outcome;
        if let Some(d) = declared_for(session, st.i) {
            if !legacy || st.outcome == Recorded::Was(d) {
                outcome = Recorded::Declared(d);
            }
        }
        let step = ComparedStep {
            i: st.i,
            client: st.client.clone(),
            message: st.message,
            outcome,
        };
        let ghost view = step@;
        let ghost before = list@;
        list.push(step);
        k = k + 1;
        proof {
            assert(view == all[k - 1]);
            assert(compared_views(list@) =~= compared_views(before).push(view));
            assert(all.take(k as int) =~= all.take(k - 1).push(all[k - 1]));
        }
    }
    proof {
        assert(all.take(k as int) =~= all);
        assert(compared_views(list@).len() == all.len());
        assert forall|j: int| 0 <= j < out@.len() implies (#[trigger] list@[j])@ == all[j] by {
            assert(compared_views(list@)[j] == list@[j]@);
        }
    }
    list
}

fn same_step(a: &ComparedStep, b: &ComparedStep) -> (r: bool)
    ensures
        r == (a@ == b@),
{
    a.i == b.i && a.client == b.client && a.message.to_owned() == b.message.to_owned() && a.outcome
        == b.outcome
}

/// Whether two runs compare alike.
pub fn same_steps(a: &Vec<ComparedStep>, b: &Vec<ComparedStep>) -> (r: bool)
    ensures
        r == (compared_views(a@) == compared_views(b@)),
        r <==> {
            &&& a@.len() == b@.len()
            &&& forall|k: int|
                0 <= k < a@.len() ==> {
                    &&& (#[trigger] a@[k]).i == b@[k].i
                    &&& a@[k].client@ == b@[k].client@
                    &&& a@[k].message@ == b@[k].message@
                    &&& a@[k].outcome == b@[k].outcome
                }
        },
{
    let ghost va = compared_views(a@);
    let ghost vb = compared_views(b@);
    if a.len() != b.len() {
        proof {
            assert(va.len() != vb.len());
        }
        return false;
    }
    let mut i: usize = 0;
    while i < a.len()
        invariant
            i <= a@.len(),
            a@.len() == b@.len(),
            va == compared_views(a@),
            vb == compared_views(b@),
            forall|j: int| 0 <= j < i ==> va[j] == vb[j],
        decreases a@.len() - i,
    {
        if !same_step(&a[i], &b[i]) {
            proof {
                assert(va[i as int] != vb[i as int]);
            }
            return false;
        }
        i = i + 1;
    }
    proof {
        assert(va =~= vb);
        assert forall|k: int| 0 <= k < a@.len() implies (#[trigger] a@[k])@ == b@[k]@ by {
            assert(va[k] == vb[k]);
        }
    }
    true
}

/// The run that a wire run is compared with.
pub enum Second {
    /// The legacy stack's.
    Legacy(Vec<StepRecord>),
    /// The wire stack's again, and why there is no legacy run.
    Again(Vec<StepRecord>, String),
}

impl Second {
    pub open spec fn records(self) -> Seq<RecordView> {
        match self {
            Second::Legacy(records) => record_views(records@),
            Second::Again(records, _) => record_views(records@),
        }
    }
}

/// Whether the two runs of a session are identical in what is compared.
pub open spec fn identical(session: Session, first: Seq<RecordView>, second: Second) -> bool {
    compared_all(first, session, false) == compared_all(
        second.records(),
        session,
        second is Legacy,
    )
}

/// Two records of the same step, of the same client and message, whose outcomes
/// agree: where the session declares what the legacy stack does, the legacy
/// outcome is that; where it declares nothing, the outcomes are the same. A
/// second wire run is held to no declaration.
pub open spec fn agree(
    session: Session,
    wire: StepRecord,
    other: StepRecord,
    legacy: bool,
) -> bool {
    &&& wire.i == other.i
    &&& wire.client@ == other.client@
    &&& wire.message@ == other.message@
    &&& if wire.i < session.steps@.len() && session.steps@[wire.i as int].divergence is Some {
        let d = session.steps@[wire.i as int].divergence.unwrap().legacy;
        legacy ==> other.outcome == Recorded::Was(d) || other.outcome == Recorded::Declared(d)
    } else {
        wire.outcome == other.outcome
    }
}

/// A wire run and a legacy run are identical exactly when they have as many
/// records and the records at every place agree: on the step, its client, its
/// message, and the outcome, which is the declared one on the legacy side where
/// the session declares one, and the same on both sides where it does not.
pub proof fn law_identical_runs_agree_on_every_step(
    session: Session,
    first: Vec<StepRecord>,
    records: Vec<StepRecord>,
)
    ensures
        identical(session, record_views(first@), Second::Legacy(records)) <==> {
            &&& first@.len() == records@.len()
            &&& forall|k: int|
                0 <= k < first@.len() ==> {
                    let wire = #[trigger] first@[k];
                    let legacy = records@[k];
                    let covered = wire.i < session.steps@.len()
                        && session.steps@[wire.i as int].divergence is Some;
                    let d = session.steps@[wire.i as int].divergence.unwrap().legacy;
                    &&& wire.i == legacy.i
                    &&& wire.client@ == legacy.client@
                    &&& wire.message@ == legacy.message@
                    &&& covered ==> legacy.outcome == Recorded::Was(d) || legacy.outcome
                        == Recorded::Declared(d)
                    &&& !covered ==> wire.outcome == legacy.outcome
                }
        },
{
    lemma_identical(session, first, Second::Legacy(records));
    assert forall|k: int|
        0 <= k < first@.len() && first@.len() == records@.len() implies agree(
        session,
        #[trigger] first@[k],
        records@[k],
        true,
    ) == {
        let wire = first@[k];
        let legacy = records@[k];
        let covered = wire.i < session.steps@.len()
            && session.steps@[wire.i as int].divergence is Some;
        let d = session.steps@[wire.i as int].divergence.unwrap().legacy;
        &&& wire.i == legacy.i
        &&& wire.client@ == legacy.client@
        &&& wire.message@ == legacy.message@
        &&& covered ==> legacy.outcome == Recorded::Was(d) || legacy.outcome == Recorded::Declared(
            d,
        )
        &&& !covered ==> wire.outcome == legacy.outcome
    } by {}
}

/// Two wire runs are identical exactly when they have as many records and the
/// records at every place agree on the step, its client, its message and,
/// wherever the session declares nothing, the outcome.
pub proof fn law_identical_wire_runs_agree_on_every_step(
    session: Session,
    first: Vec<StepRecord>,
    records: Vec<StepRecord>,
    why: String,
)
    ensures
        identical(session, record_views(first@), Second::Again(records, why)) <==> {
            &&& first@.len() == records@.len()
            &&& forall|k: int|
                0 <= k < first@.len() ==> {
                    let one = #[trigger] first@[k];
                    let other = records@[k];
                    let covered = one.i < session.steps@.len()
                        && session.steps@[one.i as int].divergence is Some;
                    &&& one.i == other.i
                    &&& one.client@ == other.client@
                    &&& one.message@ == other.message@
                    &&& !covered ==> one.outcome == other.outcome
                }
        },
{
    lemma_identical(session, first, Second::Again(records, why));
    assert forall|k: int|
        0 <= k < first@.len() && first@.len() == records@.len() implies agree(
        session,
        #[trigger] first@[k],
        records@[k],
        false,
    ) == {
        let one = first@[k];
        let other = records@[k];
        let covered = one.i < session.steps@.len()
            && session.steps@[one.i as int].divergence is Some;
        &&& one.i == other.i
        &&& one.client@ == other.client@
        &&& one.message@ == other.message@
        &&& !covered ==> one.outcome == other.outcome
    } by {}
}

proof fn lemma_identical(session: Session, first: Vec<StepRecord>, second: Second)
    ensures
        second matches Second::Legacy(records) ==> (identical(session, record_views(first@), second)
            <==> first@.len() == records@.len() && forall|k: int|
            0 <= k < first@.len() ==> agree(session, #[trigger] first@[k], records@[k], true)),
        second matches Second::Again(records, _) ==> (identical(
            session,
            record_views(first@),
            second,
        ) <==> first@.len() == records@.len() && forall|k: int|
            0 <= k < first@.len() ==> agree(session, #[trigger] first@[k], records@[k], false)),
{
    let (records, legacy) = match second {
        Second::Legacy(records) => (records, true),
        Second::Again(records, _) => (records, false),
    };
    let a = compared_all(record_views(first@), session, false);
    let b = compared_all(record_views(records@), session, legacy);
    assert(a.len() == first@.len() && b.len() == records@.len());
    if a.len() == b.len() {
        assert forall|k: int| 0 <= k < a.len() implies (a[k] == b[k]) == agree(
            session,
            #[trigger] first@[k],
            records@[k],
            legacy,
        ) by {
            assert(a[k] == compared(first@[k]@, session, false));
            assert(b[k] == compared(records@[k]@, session, legacy));
        }
        if forall|k: int|
            0 <= k < first@.len() ==> agree(session, #[trigger] first@[k], records@[k], legacy) {
            assert forall|k: int| 0 <= k < a.len() implies a[k] == b[k] by {
                assert(agree(session, first@[k], records@[k], legacy));
            }
            assert(a =~= b);
        }
    }
}

/// What is compared of a run is one entry per record, in their order, and each
/// says the step, the client and the message of its record.
pub proof fn law_every_record_is_compared(records: Seq<StepRecord>, session: Session, legacy: bool)
    ensures
        ({
            let list = compared_all(record_views(records), session, legacy);
            &&& list.len() == records.len()
            &&& forall|k: int|
                0 <= k < records.len() ==> {
                    &&& (#[trigger] list[k]).i == records[k].i
                    &&& list[k].client == records[k].client@
                    &&& list[k].message == records[k].message@
                    &&& !(list[k].outcome is Declared) ==> list[k].outcome == records[k].outcome
                }
        }),
{
}

/// The verdict on two identical runs.
pub open spec fn verdict_text(id: Seq<char>, second: Second) -> Seq<char> {
    match second {
        Second::Legacy(_) => "difftest "@ + id + ": identical (wire vs legacy)"@,
        Second::Again(_, why) => "difftest "@ + id
            + ": identical (wire self-diff; legacy driver: "@ + why@ + ")"@,
    }
}

/// What is said of two runs that differ.
pub open spec fn mismatch_text(id: Seq<char>, second: Second) -> Seq<char> {
    match second {
        Second::Legacy(_) => "session "@ + id + ": wire != legacy"@,
        Second::Again(..) => "session "@ + id + ": wire run 1 != run 2 (nondeterministic edge)"@,
    }
}

/// Compares a wire run of a session with a second run and states the verdict.
pub fn run(session: &Session, first: &Vec<StepRecord>, second: &Second) -> (r: Result<
    String,
    DiffError,
>)
    ensures
        match r {
            Ok(text) => identical(*session, record_views(first@), *second) && text@ == verdict_text(
                session.id@,
                *second,
            ),
            Err(e) => !identical(*session, record_views(first@), *second) && e@
                == DiffErrorView::Mismatch(mismatch_text(session.id@, *second)),
        },
        r is Ok <==> match *second {
            Second::Legacy(records) => first@.len() == records@.len() && forall|k: int|
                0 <= k < first@.len() ==> agree(*session, #[trigger] first@[k], records@[k], true),
            Second::Again(records, _) => first@.len() == records@.len() && forall|k: int|
                0 <= k < first@.len() ==> agree(*session, #[trigger] first@[k], records@[k], false),
        },
{
    proof {
        lemma_identical(*session, *first, *second);
    }
    let a = comparable(first, session, false);
    match second {
        Second::Legacy(records) => {
            let b = comparable(records, session, true);
            if !same_steps(&a, &b) {
                let mut out = "session ".to_owned();
                out.append(session.id.as_str());
                out.append(": wire != legacy");
                return Err(DiffError::Mismatch(out));
            }
            let mut out = "difftest ".to_owned();
            out.append(session.id.as_str());
            out.append(": identical (wire vs legacy)");
            Ok(out)
        },
        Second::Again(records, why) => {
            let b = comparable(records, session, false);
            if !same_steps(&a, &b) {
                let mut out = "session ".to_owned();
                out.append(session.id.as_str());
                out.append(": wire run 1 != run 2 (nondeterministic edge)");
                return Err(DiffError::Mismatch(out));
            }
            let mut out = "difftest ".to_owned();
            out.append(session.id.as_str());
            out.append(": identical (wire self-diff; legacy driver: ");
            out.append(why.as_str());
            out.append(")");
            Ok(out)
        },
    }
}

/// What to compare with, given how the legacy driver started: nothing more to
/// say where it did, why not where it is not there, and any other failure as
/// it is.
pub fn legacy_started(started: Result<(), DiffError>) -> (r: Result<Option<String>, DiffError>)
    ensures
        match started {
            Ok(()) => r matches Ok(None),
            Err(DiffError::Driver(_, why)) => r matches Ok(Some(w)) && w == why,
            Err(e) => r matches Err(f) && f == e,
        },
{
    match started {
        Ok(()) => Ok(None),
        Err(DiffError::Driver(_, why)) => Ok(Some(why)),
        Err(e) => Err(e),
    }
}

/// One thing to ask of a stack.
#[derive(Clone, Copy, Debug, PartialEq, Eq, Structural)]
pub enum Action {
    /// Start it.
    Start,
    /// Connect the client at this place of the session.
    Connect(usize),
    /// Send the step at this place of the session.
    Send(usize),
    /// Take what the server did.
    Outputs,
    /// Stop it.
    Stop,
}

/// What a replay asks of a stack, in order: every client connects before any
/// step is sent, and what the server did is taken before it stops.
pub open spec fn replay_plan(session: Session) -> Seq<Action> {
    seq![Action::Start] + Seq::new(
        session.clients@.len(),
        |i: int| Action::Connect(i as usize),
    ) + Seq::new(session.steps@.len(), |i: int| Action::Send(i as usize)) + seq![
        Action::Outputs,
        Action::Stop,
    ]
}

/// A replay starts the stack, connects the clients in the order of the session,
/// sends the steps in the order of the session, takes what the server did and
/// stops the stack, and asks for nothing else.
pub proof fn law_a_replay_asks_in_order(session: Session, i: int)
    ensures
        ({
            let plan = replay_plan(session);
            let c = session.clients@.len();
            let s = session.steps@.len();
            &&& plan.len() == c + s + 3
            &&& plan[0] == Action::Start
            &&& 0 <= i < c ==> plan[1 + i] == Action::Connect(i as usize)
            &&& 0 <= i < s ==> plan[1 + c + i] == Action::Send(i as usize)
            &&& plan[1int + c + s] == Action::Outputs
            &&& plan[2int + c + s] == Action::Stop
        }),
{
}

/// What to ask of a stack next, when `done` things were asked of it and the
/// last of them came to `last`: a failure of the stack, or of reading the step
/// that was to be sent, ends the replay and is its result; otherwise the next
/// thing of the plan, or nothing at its end.
pub fn next_action(session: &Session, done: usize, last: Result<(), DiffError>) -> (r: Result<
    Option<Action>,
    DiffError,
>)
    ensures
        match last {
            Err(e) => r matches Err(f) && f == e,
            Ok(()) => r matches Ok(next) && next == if done < replay_plan(*session).len() {
                Some(replay_plan(*session)[done as int])
            } else {
                None
            },
        },
{
    if let Err(e) = last {
        return Err(e);
    }
    if done == 0 {
        return Ok(Some(Action::Start));
    }
    let clients: usize = session.clients.len();
    let steps: usize = session.steps.len();
    let i: usize = done - 1;
    if i < clients {
        return Ok(Some(Action::Connect(i)));
    }
    let j: usize = i - clients;
    if j < steps {
        return Ok(Some(Action::Send(j)));
    }
    let rest: usize = j - steps;
    if rest == 0 {
        Ok(Some(Action::Outputs))
    } else if rest == 1 {
        Ok(Some(Action::Stop))
    } else {
        Ok(None)
    }
}

/// What a replay asks of a stack from its `k`th action on, given which actions
/// succeed: each next one only while none has failed.
pub open spec fn asked(plan: Seq<Action>, succeeds: spec_fn(int) -> bool, k: int) -> Seq<Action>
    decreases plan.len() - k,
{
    if k < 0 || k >= plan.len() {
        seq![]
    } else if succeeds(k) {
        seq![plan[k]] + asked(plan, succeeds, k + 1)
    } else {
        seq![plan[k]]
    }
}

/// The first failure ends a replay: the stack is asked for everything up to
/// the action that failed, in order, and for nothing after it; without a
/// failure it is asked for the whole plan.
pub proof fn law_the_first_failure_ends_a_replay(
    session: Session,
    succeeds: spec_fn(int) -> bool,
    failed: int,
)
    requires
        0 <= failed <= replay_plan(session).len(),
        forall|i: int| 0 <= i < failed ==> #[trigger] succeeds(i),
        failed < replay_plan(session).len() ==> !succeeds(failed),
    ensures
        asked(replay_plan(session), succeeds, 0) == if failed < replay_plan(session).len() {
            replay_plan(session).take(failed + 1)
        } else {
            replay_plan(session)
        },
{
    let plan = replay_plan(session);
    lemma_asked(plan, succeeds, failed, 0);
    if failed < plan.len() {
        assert(plan.subrange(0, failed + 1) =~= plan.take(failed + 1));
    } else {
        assert(plan.subrange(0, failed) =~= plan);
    }
}

proof fn lemma_asked(plan: Seq<Action>, succeeds: spec_fn(int) -> bool, failed: int, k: int)
    requires
        0 <= k <= failed <= plan.len(),
        forall|i: int| 0 <= i < failed ==> #[trigger] succeeds(i),
        failed < plan.len() ==> !succeeds(failed),
    ensures
        asked(plan, succeeds, k) == plan.subrange(
            k,
            if failed < plan.len() {
                failed + 1
            } else {
                failed
            },
        ),
    decreases plan.len() - k,
{
    let end = if failed < plan.len() {
        failed + 1
    } else {
        failed
    };
    if k < failed {
        lemma_asked(plan, succeeds, failed, k + 1);
        assert(succeeds(k));
        assert(plan.subrange(k, end) =~= seq![plan[k]] + plan.subrange(k + 1, end));
    } else if k < plan.len() {
        assert(plan.subrange(k, end) =~= seq![plan[k]]);
    } else {
        assert(plan.subrange(k, end) =~= seq![]);
    }
}

/// Reasons never decide a comparison: runs that differ only in them compare
/// alike.
pub proof fn law_reasons_are_not_compared(
    a: Seq<RecordView>,
    b: Seq<RecordView>,
    session: Session,
    legacy: bool,
)
    requires
        a.len() == b.len(),
        forall|i: int|
            0 <= i < a.len() ==> #[trigger] a[i] == (RecordView { reason: a[i].reason, ..b[i] }),
    ensures
        compared_all(a, session, legacy) == compared_all(b, session, legacy),
{
    assert(compared_all(a, session, legacy) =~= compared_all(b, session, legacy));
}

/// A step with a declaration matches exactly when the legacy stack did as
/// declared, whatever the wire stack did; a step without one matches exactly
/// when both stacks did the same.
pub proof fn law_declarations_decide(wire: RecordView, legacy: RecordView, session: Session)
    requires
        wire.i == legacy.i,
        wire.client == legacy.client,
        wire.message == legacy.message,
        !(wire.outcome is Declared),
        !(legacy.outcome is Declared),
    ensures
        (compared(wire, session, false) == compared(legacy, session, true)) == match declared(
            session,
            wire.i,
        ) {
            Some(d) => legacy.outcome == Recorded::Was(d),
            None => wire.outcome == legacy.outcome,
        },
{
}

/// A run is always identical with itself.
pub proof fn law_self_diff_is_identical(session: Session, first: Seq<RecordView>, second: Second)
    requires
        second is Again,
        second.records() == first,
    ensures
        identical(session, first, second),
{
}

/// An outcome is recorded under its name, and a declaration that was applied
/// under the name of what it declares.
pub proof fn law_outcomes_are_recorded_by_name(o: Outcome)
    ensures
        Recorded::Lost.text() == "lost"@,
        Recorded::Was(o).text() == match o {
            Outcome::Accept => "accepted"@,
            Outcome::Reject => "rejected"@,
            Outcome::Unsupported => "unsupported"@,
        },
        Recorded::Declared(o).text() == "declared:"@ + Recorded::Was(o).text(),
{
    reveal_strlit("declared:");
    reveal_strlit("accepted");
    reveal_strlit("rejected");
    reveal_strlit("unsupported");
    reveal_strlit("declared:accepted");
    reveal_strlit("declared:rejected");
    reveal_strlit("declared:unsupported");
    assert("declared:"@ + "accepted"@ =~= "declared:accepted"@);
    assert("declared:"@ + "rejected"@ =~= "declared:rejected"@);
    assert("declared:"@ + "unsupported"@ =~= "declared:unsupported"@);
}

} // verus!
