//! Wire driver: real clients into an in-process server that records what the
//! edge decided. The embedder runs the transports; what they report is
//! gathered and settled here.
use super::{record_views, DiffError, DiffErrorView, Outcome, RecordView, Recorded, StepRecord};
use crate::decimal::{append_decimal, decimal};
use crate::schema::{Message, MessageView};
use crate::transport::{inbound_views, Inbound, InboundView};
use vstd::prelude::*;
use vstd::string::StringExecFns;

verus! {

/// A client and the id the server gave it.
#[derive(Debug)]
pub struct ClientEntry {
    /// Its name in the session.
    pub name: String,
    /// Its id.
    pub id: u64,
}

/// What the wire driver knows of a run.
#[derive(Debug)]
pub struct Wire {
    /// The clients that connected.
    pub ids: Vec<ClientEntry>,
    /// What became of the steps so far.
    pub steps: Vec<StepRecord>,
    /// The session's clock.
    pub now_ms: u64,
    /// What the server reported and no step accounts for yet.
    pub events: Vec<Inbound>,
}

/// What a [`Wire`] holds.
#[verifier::ext_equal]
pub struct WireView {
    pub ids: Seq<(Seq<char>, u64)>,
    pub steps: Seq<RecordView>,
    pub now_ms: u64,
    pub events: Seq<InboundView>,
}

pub open spec fn entry_views(ids: Seq<ClientEntry>) -> Seq<(Seq<char>, u64)> {
    Seq::new(ids.len(), |i: int| (ids[i].name@, ids[i].id))
}

impl View for Wire {
    type V = WireView;

    open spec fn view(&self) -> WireView {
        WireView {
            ids: entry_views(self.ids@),
            steps: record_views(self.steps@),
            now_ms: self.now_ms,
            events: inbound_views(self.events@),
        }
    }
}

/// A client has this id.
pub open spec fn known(ids: Seq<(Seq<char>, u64)>, id: u64) -> bool {
    exists|i: int| 0 <= i < ids.len() && (#[trigger] ids[i]).1 == id
}

/// The place of a client, from the `i`th on.
pub open spec fn place_from(ids: Seq<(Seq<char>, u64)>, name: Seq<char>, i: int) -> Option<int>
    decreases ids.len() - i,
{
    if i < 0 || i >= ids.len() {
        None
    } else if ids[i].0 == name {
        Some(i)
    } else {
        place_from(ids, name, i + 1)
    }
}

/// The id of a client.
pub open spec fn id_of(ids: Seq<(Seq<char>, u64)>, name: Seq<char>) -> Option<u64> {
    match place_from(ids, name, 0) {
        Some(i) => Some(ids[i].1),
        None => None,
    }
}

/// The clients with one that now has this id.
pub open spec fn with_id(ids: Seq<(Seq<char>, u64)>, name: Seq<char>, id: u64) -> Seq<
    (Seq<char>, u64),
> {
    match place_from(ids, name, 0) {
        Some(i) => ids.update(i, (name, id)),
        None => ids.push((name, id)),
    }
}

/// The name of the first client, from the `i`th on, with an id.
pub open spec fn name_from(ids: Seq<(Seq<char>, u64)>, id: u64, i: int) -> Option<Seq<char>>
    decreases ids.len() - i,
{
    if i < 0 || i >= ids.len() {
        None
    } else if ids[i].1 == id {
        Some(ids[i].0)
    } else {
        name_from(ids, id, i + 1)
    }
}

/// The id in the first report, from the `i`th on, of a connection that no
/// client has yet.
pub open spec fn new_client_from(
    events: Seq<InboundView>,
    ids: Seq<(Seq<char>, u64)>,
    i: int,
) -> Option<u64>
    decreases events.len() - i,
{
    if i < 0 || i >= events.len() {
        None
    } else {
        match events[i] {
            InboundView::Connected { client } => if !known(ids, client) {
                Some(client)
            } else {
                new_client_from(events, ids, i + 1)
            },
            _ => new_client_from(events, ids, i + 1),
        }
    }
}

/// The report is what the edge did with a packet of this client.
pub open spec fn is_outcome_of(ev: InboundView, id: u64) -> bool {
    match ev {
        InboundView::Message { client, .. } => client == id,
        InboundView::Rejected { client, .. } => client == id,
        _ => false,
    }
}

/// The place of the first outcome, from the `i`th report on, for a client.
pub open spec fn outcome_from(events: Seq<InboundView>, id: u64, i: int) -> Option<int>
    decreases events.len() - i,
{
    if i < 0 || i >= events.len() {
        None
    } else if is_outcome_of(events[i], id) {
        Some(i)
    } else {
        outcome_from(events, id, i + 1)
    }
}

/// What is recorded of a step, given the report that accounts for it.
pub open spec fn settled(
    index: usize,
    client: Seq<char>,
    message: MessageView,
    report: InboundView,
) -> RecordView {
    let lost = RecordView {
        i: index,
        client,
        message: message.name(),
        outcome: Recorded::Lost,
        reason: None,
    };
    match report {
        InboundView::Message { client: _, msg } => RecordView {
            message: msg.name(),
            outcome: Recorded::Was(Outcome::Accept),
            ..lost
        },
        InboundView::Rejected { client: _, reject } => RecordView {
            outcome: Recorded::Was(Outcome::Reject),
            reason: Some(reject.text()),
            ..lost
        },
        _ => lost,
    }
}

/// The run after a step that the report at `k` accounts for: every other report
/// stays.
pub open spec fn after_step(
    w: WireView,
    index: usize,
    client: Seq<char>,
    message: MessageView,
    k: int,
) -> WireView {
    WireView {
        steps: w.steps.push(settled(index, client, message, w.events[k])),
        events: w.events.remove(k),
        ..w
    }
}

/// The clients with outcomes that no step accounts for, one for each outcome.
pub open spec fn unattributed_names(
    events: Seq<InboundView>,
    ids: Seq<(Seq<char>, u64)>,
) -> Seq<Seq<char>>
    decreases events.len(),
{
    if events.len() == 0 {
        seq![]
    } else {
        let before = unattributed_names(events.drop_last(), ids);
        let sender = match events.last() {
            InboundView::Message { client, .. } => Some(client),
            InboundView::Rejected { client, .. } => Some(client),
            _ => None,
        };
        match sender {
            Some(id) => match name_from(ids, id, 0) {
                Some(name) => before.push(name),
                None => before,
            },
            None => before,
        }
    }
}

/// A list of names as std's `Debug` writes it.
pub uninterp spec fn debug_list(names: Seq<Seq<char>>) -> Seq<char>;

/// std's `Debug` of a `Vec<String>`, through `format!`.
#[verifier::external_body]
fn listed(names: &Vec<String>) -> (r: String)
    ensures
        r@ == debug_list(super::legacy::text_views(names@)),
{
    format!("{names:?}")
}

impl Wire {
    /// A run with no client and no step.
    pub fn new() -> (r: Self)
        ensures
            r@ == (WireView { ids: seq![], steps: seq![], now_ms: 0, events: seq![] }),
    {
        let r = Self { ids: Vec::new(), steps: Vec::new(), now_ms: 0, events: Vec::new() };
        proof {
            assert(r@.ids =~= seq![]);
            assert(r@.steps =~= seq![]);
            assert(r@.events =~= seq![]);
        }
        r
    }

    fn is_known(&self, id: u64) -> (r: bool)
        ensures
            r == known(self@.ids, id),
    {
        let mut i: usize = 0;
        while i < self.ids.len()
            invariant
                i <= self.ids@.len(),
                forall|j: int| 0 <= j < i ==> (#[trigger] self@.ids[j]).1 != id,
            decreases self.ids@.len() - i,
        {
            if self.ids[i].id == id {
                assert(self@.ids[i as int].1 == id);
                return true;
            }
            i = i + 1;
        }
        false
    }

    /// The id in the first report of a connection that no client has yet.
    pub fn new_client(&self) -> (r: Option<u64>)
        ensures
            r == new_client_from(self@.events, self@.ids, 0),
    {
        let mut i: usize = 0;
        while i < self.events.len()
            invariant
                i <= self.events@.len(),
                new_client_from(self@.events, self@.ids, 0) == new_client_from(
                    self@.events,
                    self@.ids,
                    i as int,
                ),
            decreases self.events@.len() - i,
        {
            proof {
                assert(self@.events[i as int] == self.events@[i as int]@);
            }
            if let Inbound::Connected { client } = &self.events[i] {
                if !self.is_known(*client) {
                    return Some(*client);
                }
            }
            i = i + 1;
        }
        None
    }

    fn find(&self, name: &String) -> (r: Option<usize>)
        ensures
            match r {
                Some(i) => i < self.ids@.len() && place_from(self@.ids, name@, 0) == Some(i as int),
                None => place_from(self@.ids, name@, 0) is None,
            },
    {
        let mut i: usize = 0;
        while i < self.ids.len()
            invariant
                i <= self.ids@.len(),
                place_from(self@.ids, name@, 0) == place_from(self@.ids, name@, i as int),
            decreases self.ids@.len() - i,
        {
            if self.ids[i].name == *name {
                return Some(i);
            }
            i = i + 1;
        }
        None
    }

    /// Takes up a client that was to connect: `in_time` says whether a new
    /// connection was reported before the wait was over.
    pub fn connect(&mut self, client: &str, in_time: bool) -> (r: Result<(), DiffError>)
        ensures
            match r {
                Ok(()) => {
                    &&& in_time
                    &&& new_client_from(old(self)@.events, old(self)@.ids, 0) matches Some(id)
                    &&& final(self)@ == (WireView {
                        ids: with_id(old(self)@.ids, client@, id),
                        events: seq![],
                        ..old(self)@
                    })
                },
                Err(e) => {
                    &&& final(self)@ == old(self)@
                    &&& !in_time || new_client_from(old(self)@.events, old(self)@.ids, 0) is None
                    &&& e@ == DiffErrorView::Driver(
                        "wire"@,
                        if !in_time {
                            client@ + ": handshake timed out"@
                        } else {
                            "connected event vanished"@
                        },
                    )
                },
            },
    {
        if !in_time {
            let mut why = client.to_owned();
            why.append(": handshake timed out");
            return Err(DiffError::Driver("wire", why));
        }
        let id: u64 = match self.new_client() {
            Some(id) => id,
            None => {
                return Err(DiffError::Driver("wire", "connected event vanished".to_owned()));
            },
        };
        let name = client.to_owned();
        let entry = ClientEntry { name: client.to_owned(), id };
        match self.find(&name) {
            Some(i) => {
                self.ids[i] = entry;
                proof {
                    assert(self@.ids =~= old(self)@.ids.update(i as int, (client@, id)));
                }
            },
            None => {
                self.ids.push(entry);
                proof {
                    assert(self@.ids =~= old(self)@.ids.push((client@, id)));
                }
            },
        }
        self.events.clear();
        proof {
            assert(self@.events =~= seq![]);
        }
        Ok(())
    }

    /// How much transport time has to pass before a step of this time is sent.
    pub fn gap_to(&self, at_ms: u64) -> (gap: u64)
        ensures
            gap == if at_ms > self@.now_ms {
                at_ms - self@.now_ms
            } else {
                0
            },
    {
        at_ms.saturating_sub(self.now_ms)
    }

    /// Moves the clock to a step's time, never back, once that much transport
    /// time has passed.
    pub fn advance(&mut self, at_ms: u64)
        ensures
            final(self)@ == (WireView {
                now_ms: if at_ms > old(self)@.now_ms {
                    at_ms
                } else {
                    old(self)@.now_ms
                },
                ..old(self)@
            }),
    {
        if self.gap_to(at_ms) > 0 {
            self.now_ms = at_ms;
        }
    }

    /// The id of a client that connected.
    pub fn client_id(&self, client: &str) -> (r: Result<u64, DiffError>)
        ensures
            match r {
                Ok(id) => id_of(self@.ids, client@) == Some(id),
                Err(e) => id_of(self@.ids, client@) is None && e@ == DiffErrorView::Driver(
                    "wire"@,
                    client@ + ": not connected"@,
                ),
            },
    {
        let name = client.to_owned();
        match self.find(&name) {
            Some(i) => Ok(self.ids[i].id),
            None => {
                let mut why = name;
                why.append(": not connected");
                Err(DiffError::Driver("wire", why))
            },
        }
    }

    fn find_outcome(&self, id: u64) -> (r: Option<usize>)
        ensures
            match r {
                Some(i) => i < self.events@.len() && outcome_from(self@.events, id, 0) == Some(
                    i as int,
                ) && is_outcome_of(self.events@[i as int]@, id),
                None => outcome_from(self@.events, id, 0) is None,
            },
    {
        let mut i: usize = 0;
        while i < self.events.len()
            invariant
                i <= self.events@.len(),
                outcome_from(self@.events, id, 0) == outcome_from(self@.events, id, i as int),
            decreases self.events@.len() - i,
        {
            proof {
                assert(self@.events[i as int] == self.events@[i as int]@);
            }
            let hit = match &self.events[i] {
                Inbound::Message { client, .. } => *client == id,
                Inbound::Rejected { client, .. } => *client == id,
                _ => false,
            };
            if hit {
                return Some(i);
            }
            i = i + 1;
        }
        None
    }

    /// Whether an outcome for a client was reported.
    pub fn has_outcome(&self, id: u64) -> (r: bool)
        ensures
            r == (outcome_from(self@.events, id, 0) is Some),
    {
        self.find_outcome(id).is_some()
    }

    /// Records a step that the client with this id sent, once the wait for its
    /// outcome is over: the first outcome reported for the client accounts for
    /// it.
    pub fn send(&mut self, index: usize, client: &str, id: u64, message: &Message) -> (r: Result<
        (),
        DiffError,
    >)
        ensures
            match r {
                Ok(()) => outcome_from(old(self)@.events, id, 0) matches Some(k) && final(self)@
                    == after_step(old(self)@, index, client@, message@, k),
                Err(e) => {
                    &&& outcome_from(old(self)@.events, id, 0) is None
                    &&& final(self)@ == old(self)@
                    &&& e@ == DiffErrorView::Driver(
                        "wire"@,
                        "step "@ + decimal(index as nat) + ": no outcome from the edge within 2 s"@,
                    )
                },
            },
    {
        let k: usize = match self.find_outcome(id) {
            Some(k) => k,
            None => {
                let mut why = "step ".to_owned();
                append_decimal(&mut why, index as u64);
                why.append(": no outcome from the edge within 2 s");
                return Err(DiffError::Driver("wire", why));
            },
        };
        let mut record = StepRecord {
            i: index,
            client: client.to_owned(),
            message: message.name(),
            outcome: Recorded::Lost,
            reason: None,
        };
        proof {
            assert(old(self)@.events[k as int] == old(self).events@[k as int]@);
        }
        match self.events.remove(k) {
            Inbound::Message { client: _, msg } => {
                record.message = msg.name();
                record.outcome = Recorded::Was(Outcome::Accept);
            },
            Inbound::Rejected { client: _, reject } => {
                record.outcome = Recorded::Was(Outcome::Reject);
                record.reason = Some(reject.to_string());
            },
            _ => {},
        }
        proof {
            assert(self@.events =~= old(self)@.events.remove(k as int));
        }
        let ghost view = record@;
        self.steps.push(record);
        proof {
            assert(self@.steps =~= old(self)@.steps.push(view));
        }
        Ok(())
    }

    /// The name of the client with an id.
    pub fn client_name(&self, id: u64) -> (r: Option<String>)
        ensures
            match r {
                Some(name) => name_from(self@.ids, id, 0) == Some(name@),
                None => name_from(self@.ids, id, 0) is None,
            },
    {
        let mut i: usize = 0;
        while i < self.ids.len()
            invariant
                i <= self.ids@.len(),
                name_from(self@.ids, id, 0) == name_from(self@.ids, id, i as int),
            decreases self.ids@.len() - i,
        {
            if self.ids[i].id == id {
                return Some(self.ids[i].name.clone());
            }
            i = i + 1;
        }
        None
    }

    /// Whether the run is a result: outcomes that no step accounts for make it
    /// none.
    pub fn finished(&self) -> (r: Result<(), DiffError>)
        ensures
            match r {
                Ok(()) => unattributed_names(self@.events, self@.ids).len() == 0,
                Err(e) => {
                    let names = unattributed_names(self@.events, self@.ids);
                    &&& names.len() > 0
                    &&& e@ == DiffErrorView::Driver(
                        "wire"@,
                        "unattributed outcomes for "@ + debug_list(names),
                    )
                },
            },
    {
        let names = self.unattributed();
        proof {
            assert(super::legacy::text_views(names@).len() == names@.len());
        }
        if names.len() == 0 {
            return Ok(());
        }
        let mut why = "unattributed outcomes for ".to_owned();
        why.append(listed(&names).as_str());
        Err(DiffError::Driver("wire", why))
    }

    /// The clients with outcomes that no step accounts for, one for each
    /// outcome.
    pub fn unattributed(&self) -> (r: Vec<String>)
        ensures
            super::legacy::text_views(r@) == unattributed_names(self@.events, self@.ids),
    {
        let mut names: Vec<String> = Vec::new();
        let mut i: usize = 0;
        proof {
            assert(self@.events.take(0) =~= seq![]);
            assert(super::legacy::text_views(names@) =~= seq![]);
        }
        while i < self.events.len()
            invariant
                i <= self.events@.len(),
                super::legacy::text_views(names@) == unattributed_names(
                    self@.events.take(i as int),
                    self@.ids,
                ),
            decreases self.events@.len() - i,
        {
            let ghost before = names@;
            let sender: Option<u64> = match &self.events[i] {
                Inbound::Message { client, .. } => Some(*client),
                Inbound::Rejected { client, .. } => Some(*client),
                _ => None,
            };
            if let Some(id) = sender {
                if let Some(name) = self.client_name(id) {
                    let ghost view = name@;
                    names.push(name);
                    proof {
                        assert(super::legacy::text_views(names@) =~= super::legacy::text_views(
                            before,
                        ).push(view));
                    }
                }
            }
            i = i + 1;
            proof {
                assert(self@.events.take(i as int).drop_last() =~= self@.events.take(i - 1));
                assert(self@.events.take(i as int).last() == self.events@[i - 1]@);
            }
        }
        proof {
            assert(self@.events.take(i as int) =~= self@.events);
        }
        names
    }
}

/// Milliseconds a client may take to connect.
pub const CONNECT_WAIT_MS: u64 = 5_000;

/// Milliseconds the outcome of a step may take.
pub const OUTCOME_WAIT_MS: u64 = 2_000;

/// What to do next while waiting for a report.
#[derive(Clone, Copy, Debug, PartialEq, Eq, Structural)]
pub enum Waiting {
    /// Run the transports once more, and look again.
    Pump,
    /// What was waited for has come.
    Came,
    /// It has not come in time.
    GaveUp,
}

/// Milliseconds between two looks.
pub const WAIT_STEP_MS: u64 = 5;

/// A wait for a report, of a limited length.
#[derive(Clone, Copy, Debug)]
pub struct Wait {
    /// Milliseconds it may take.
    pub budget_ms: u64,
    /// Milliseconds it has taken.
    pub spent_ms: u64,
}

impl Wait {
    /// A wait that has not begun.
    pub fn new(budget_ms: u64) -> (r: Self)
        ensures
            r.budget_ms == budget_ms,
            r.spent_ms == 0,
    {
        Wait { budget_ms, spent_ms: 0 }
    }

    /// What to do before the first look.
    pub fn first(&self) -> (r: Waiting)
        ensures
            r == if self.spent_ms < self.budget_ms {
                Waiting::Pump
            } else {
                Waiting::GaveUp
            },
    {
        if self.spent_ms < self.budget_ms {
            Waiting::Pump
        } else {
            Waiting::GaveUp
        }
    }

    /// What to do after a look: `done` says whether what is waited for has
    /// come. Where it has not, a step of time is counted.
    pub fn looked(&mut self, done: bool) -> (r: Waiting)
        ensures
            final(self).budget_ms == old(self).budget_ms,
            done ==> r == Waiting::Came && *final(self) == *old(self),
            !done ==> final(self).spent_ms == crate::transport::later(
                old(self).spent_ms,
                WAIT_STEP_MS,
            ),
            !done ==> r == if final(self).spent_ms < final(self).budget_ms {
                Waiting::Pump
            } else {
                Waiting::GaveUp
            },
    {
        if done {
            return Waiting::Came;
        }
        self.spent_ms = self.spent_ms.saturating_add(WAIT_STEP_MS);
        self.first()
    }
}

proof fn lemma_outcome_from(events: Seq<InboundView>, id: u64, i: int)
    requires
        0 <= i,
    ensures
        match outcome_from(events, id, i) {
            Some(k) => i <= k < events.len() && is_outcome_of(events[k], id) && forall|j: int|
                i <= j < k ==> !is_outcome_of(#[trigger] events[j], id),
            None => forall|j: int| i <= j < events.len() ==> !is_outcome_of(
                #[trigger] events[j],
                id,
            ),
        },
    decreases events.len() - i,
{
    if i < events.len() && !is_outcome_of(events[i], id) {
        lemma_outcome_from(events, id, i + 1);
    }
}

/// A step takes one report, the first outcome for its sender, and leaves all
/// others; it is accepted or rejected, never lost, and has a reason exactly
/// where it is rejected.
pub proof fn law_a_step_takes_the_first_outcome(
    w: WireView,
    index: usize,
    client: Seq<char>,
    message: MessageView,
    id: u64,
)
    ensures
        outcome_from(w.events, id, 0) matches Some(k) ==> {
            let after = after_step(w, index, client, message, k);
            let record = after.steps.last();
            &&& 0 <= k < w.events.len()
            &&& is_outcome_of(w.events[k], id)
            &&& forall|j: int| 0 <= j < k ==> !is_outcome_of(#[trigger] w.events[j], id)
            &&& after.events == w.events.remove(k)
            &&& after.steps.drop_last() == w.steps
            &&& record.i == index
            &&& record.client == client
            &&& record.outcome == Recorded::Was(Outcome::Accept) || record.outcome == Recorded::Was(
                Outcome::Reject,
            )
            &&& record.outcome == Recorded::Was(Outcome::Reject) <==> record.reason is Some
        },
        outcome_from(w.events, id, 0) is None ==> forall|j: int|
            0 <= j < w.events.len() ==> !is_outcome_of(#[trigger] w.events[j], id),
{
    lemma_outcome_from(w.events, id, 0);
    if let Some(k) = outcome_from(w.events, id, 0) {
        let after = after_step(w, index, client, message, k);
        assert(after.steps.drop_last() =~= w.steps);
    }
}

/// A new client never shares its id with one that connected before.
pub proof fn law_ids_are_distinct(events: Seq<InboundView>, ids: Seq<(Seq<char>, u64)>, i: int)
    requires
        0 <= i,
    ensures
        new_client_from(events, ids, i) matches Some(id) ==> !known(ids, id),
    decreases events.len() - i,
{
    if i < events.len() {
        law_ids_are_distinct(events, ids, i + 1);
    }
}

/// A wait ends: every look that finds nothing brings it closer to its budget.
pub proof fn law_waits_end(wait: Wait)
    requires
        wait.spent_ms < wait.budget_ms,
    ensures
        crate::transport::later(wait.spent_ms, WAIT_STEP_MS) > wait.spent_ms,
{
}

/// What is recorded of a step: its place and its client; accepted under the name
/// of the message that came through, or rejected under the name of the message
/// that was sent, with the text of the rejection.
pub proof fn law_reports_settle_steps(
    index: usize,
    client: Seq<char>,
    message: MessageView,
    report: InboundView,
)
    ensures
        ({
            let r = settled(index, client, message, report);
            &&& r.i == index
            &&& r.client == client
            &&& match report {
                InboundView::Message { client: _, msg } => r.outcome == Recorded::Was(
                    Outcome::Accept,
                ) && r.message == msg.name() && r.reason is None,
                InboundView::Rejected { client: _, reject } => r.outcome == Recorded::Was(
                    Outcome::Reject,
                ) && r.message == message.name() && r.reason == Some(reject.text()),
                _ => r.outcome == Recorded::Lost && r.message == message.name() && r.reason is None,
            }
        }),
{
}

/// A report is an outcome of a client exactly when it is of a message or of a
/// rejection and of that client.
pub proof fn law_outcomes_are_of_their_client(ev: InboundView, id: u64)
    ensures
        is_outcome_of(ev, id) <==> ((ev is Message && ev->Message_client == id) || (ev is Rejected
            && ev->Rejected_client == id)),
{
}

proof fn lemma_place_from(ids: Seq<(Seq<char>, u64)>, name: Seq<char>, i: int)
    requires
        0 <= i,
    ensures
        match place_from(ids, name, i) {
            Some(k) => i <= k < ids.len() && ids[k].0 == name && forall|j: int|
                i <= j < k ==> (#[trigger] ids[j]).0 != name,
            None => forall|j: int| i <= j < ids.len() ==> (#[trigger] ids[j]).0 != name,
        },
    decreases ids.len() - i,
{
    if i < ids.len() && ids[i].0 != name {
        lemma_place_from(ids, name, i + 1);
    }
}

proof fn lemma_same_place(
    a: Seq<(Seq<char>, u64)>,
    b: Seq<(Seq<char>, u64)>,
    name: Seq<char>,
    k: int,
)
    requires
        0 <= k < a.len(),
        a[k].0 == name,
        k < b.len(),
        b[k].0 == name,
        forall|j: int| 0 <= j < k ==> (#[trigger] a[j]).0 != name,
        forall|j: int| 0 <= j < k ==> (#[trigger] b[j]).0 != name,
    ensures
        place_from(a, name, 0) == Some(k),
        place_from(b, name, 0) == Some(k),
{
    lemma_place_from(a, name, 0);
    lemma_place_from(b, name, 0);
}

/// A client that connected has the id it was given last, and no other client's
/// id changes by it.
pub proof fn law_ids_are_kept(
    ids: Seq<(Seq<char>, u64)>,
    name: Seq<char>,
    id: u64,
    other: Seq<char>,
)
    ensures
        id_of(with_id(ids, name, id), name) == Some(id),
        other != name ==> id_of(with_id(ids, name, id), other) == id_of(ids, other),
{
    let after = with_id(ids, name, id);
    lemma_place_from(ids, name, 0);
    lemma_place_from(after, name, 0);
    let place = match place_from(ids, name, 0) {
        Some(i) => i,
        None => ids.len() as int,
    };
    assert(after[place] == (name, id));
    assert forall|j: int| 0 <= j < after.len() && j != place implies after[j] == ids[j] by {}
    if let Some(k) = place_from(after, name, 0) {
        if k < place {
            assert(after[k] == ids[k]);
            assert(ids[k].0 != name);
        }
    }
    if other != name {
        lemma_place_from(ids, other, 0);
        lemma_place_from(after, other, 0);
        match place_from(ids, other, 0) {
            Some(k) => {
                assert(after[k] == ids[k]);
                assert forall|j: int| 0 <= j < k implies (#[trigger] after[j]).0 != other by {
                    if j != place {
                        assert(after[j] == ids[j]);
                    }
                }
                lemma_same_place(ids, after, other, k);
            },
            None => {
                if let Some(k) = place_from(after, other, 0) {
                    assert(k != place);
                    assert(after[k] == ids[k]);
                }
            },
        }
    }
}

/// A new client is the first reported connection whose id none of the clients
/// has: where one is found all connections before it are known, where none is
/// found all are.
pub proof fn law_the_first_unknown_connection_is_new(
    events: Seq<InboundView>,
    ids: Seq<(Seq<char>, u64)>,
    i: int,
)
    requires
        0 <= i,
    ensures
        match new_client_from(events, ids, i) {
            Some(id) => !known(ids, id) && exists|k: int|
                i <= k < events.len() && #[trigger] events[k] == (InboundView::Connected {
                    client: id,
                }) && forall|j: int|
                    i <= j < k ==> ((#[trigger] events[j]) matches InboundView::Connected { client }
                        ==> known(ids, client)),
            None => forall|j: int|
                i <= j < events.len() ==> ((#[trigger] events[j]) matches InboundView::Connected {
                    client,
                } ==> known(ids, client)),
        },
    decreases events.len() - i,
{
    if i < events.len() {
        let found = events[i] is Connected && !known(ids, events[i]->Connected_client);
        if found {
            assert(events[i] == (InboundView::Connected { client: events[i]->Connected_client }));
        } else {
            law_the_first_unknown_connection_is_new(events, ids, i + 1);
            if let Some(id) = new_client_from(events, ids, i + 1) {
                let k = choose|k: int|
                    i + 1 <= k < events.len() && #[trigger] events[k] == (InboundView::Connected {
                        client: id,
                    }) && forall|j: int|
                        i + 1 <= j < k ==> ((#[trigger] events[j]) matches InboundView::Connected {
                            client,
                        } ==> known(ids, client));
                assert(events[k] == (InboundView::Connected { client: id }));
                assert forall|j: int| i <= j < k implies ((
                #[trigger] events[j]) matches InboundView::Connected { client } ==> known(
                    ids,
                    client,
                )) by {}
            }
        }
    }
}

/// The name of an id is that of the first client that has it; without one, no
/// client has it.
pub proof fn law_names_are_found(ids: Seq<(Seq<char>, u64)>, id: u64, i: int)
    requires
        0 <= i,
    ensures
        match name_from(ids, id, i) {
            Some(name) => exists|k: int|
                i <= k < ids.len() && #[trigger] ids[k] == (name, id) && forall|j: int|
                    i <= j < k ==> (#[trigger] ids[j]).1 != id,
            None => forall|j: int| i <= j < ids.len() ==> (#[trigger] ids[j]).1 != id,
        },
    decreases ids.len() - i,
{
    if i < ids.len() {
        if ids[i].1 == id {
            assert(ids[i] == (ids[i].0, id));
        } else {
            law_names_are_found(ids, id, i + 1);
            if let Some(name) = name_from(ids, id, i + 1) {
                let k = choose|k: int|
                    i + 1 <= k < ids.len() && #[trigger] ids[k] == (name, id) && forall|j: int|
                        i + 1 <= j < k ==> (#[trigger] ids[j]).1 != id;
                assert(ids[k] == (name, id));
            }
        }
    }
}

/// Every outcome of a client that is left counts once, in order, under the
/// client's name; nothing else counts.
pub proof fn law_left_outcomes_are_named(
    events: Seq<InboundView>,
    ev: InboundView,
    ids: Seq<(Seq<char>, u64)>,
    id: u64,
)
    ensures
        unattributed_names(seq![], ids) == Seq::<Seq<char>>::empty(),
        is_outcome_of(ev, id) && name_from(ids, id, 0) is Some ==> unattributed_names(
            events.push(ev),
            ids,
        ) == unattributed_names(events, ids).push(name_from(ids, id, 0).unwrap()),
        is_outcome_of(ev, id) && name_from(ids, id, 0) is None ==> unattributed_names(
            events.push(ev),
            ids,
        ) == unattributed_names(events, ids),
        ev is Connected || ev is Disconnected ==> unattributed_names(events.push(ev), ids)
            == unattributed_names(events, ids),
{
    assert(events.push(ev).drop_last() =~= events);
}

/// A client may take five seconds to connect and a step two seconds to come to
/// something, looked at every five milliseconds.
pub proof fn law_waits_have_their_lengths(wait: Wait)
    ensures
        CONNECT_WAIT_MS == 5000,
        OUTCOME_WAIT_MS == 2000,
        wait.spent_ms + 5 <= u64::MAX ==> crate::transport::later(wait.spent_ms, WAIT_STEP_MS)
            == wait.spent_ms + 5,
{
}

} // verus!
