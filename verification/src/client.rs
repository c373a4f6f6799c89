//! The client library behind the C ABI for the Skyrim Platform client. The
//! C++ side never sees network bytes, only [`SkympWireEvent`] views.
//!
//! Events are delivered in the order the transport produced them (FIFO), so
//! the reliable-ordered channel's ordering survives the last hop.
use crate::codec::format::encoding;
use crate::scalar::F32;
use crate::schema::{FormId, Message, MessageView, MovementSample, Transform};
use crate::transport::channels::UNRELIABLE;
use crate::transport::client::{kept_all, message_views, ClientView, Outgoing, OutgoingView};
use crate::transport::token::ConnectToken;
use crate::transport::{self, later};
use crate::validate::GuardView;
use std::collections::VecDeque;
use vstd::prelude::*;

verus! {

/// A slot that was not filled.
pub const KIND_NONE: u32 = 0;

/// `Message::Welcome`.
pub const KIND_WELCOME: u32 = 1;

/// `Message::Refuse`; `reason` is set.
pub const KIND_REFUSE: u32 = 2;

/// `Message::InventoryApply`; `actor` is the owner, `target` the item,
/// `count` the signed count.
pub const KIND_INVENTORY_APPLY: u32 = 3;

/// `Message::HostGrant`; `actor` is the cell.
pub const KIND_HOST_GRANT: u32 = 4;

/// `Message::HostRelease`; `actor` is the cell.
pub const KIND_HOST_RELEASE: u32 = 5;

/// Event view handed to C++. Mirrors the bridge's flattening; keep in sync.
#[derive(Clone, Copy, Debug, PartialEq)]
pub struct SkympWireEvent {
    /// One of the `KIND_*` constants.
    pub kind: u32,
    /// Message sequence number, when the message has one.
    pub seq: u32,
    /// Primary form id (owner, cell).
    pub actor: u32,
    /// Secondary form id (item).
    pub target: u32,
    /// Weapon form id.
    pub weapon: u32,
    /// World x.
    pub x: F32,
    /// World y.
    pub y: F32,
    /// World z.
    pub z: F32,
    /// Heading, radians.
    pub yaw: F32,
    /// Look pitch, radians.
    pub pitch: F32,
    /// Flag bits per kind.
    pub flags: u32,
    /// Signed item count for inventory events.
    pub count: i32,
    /// Reason code for `KIND_REFUSE`, else 0.
    pub reason: u16,
}

/// An event of a kind, with nothing else in it.
pub open spec fn bare(kind: u32) -> SkympWireEvent {
    SkympWireEvent {
        kind,
        seq: 0,
        actor: 0,
        target: 0,
        weapon: 0,
        x: F32 { bits: 0 },
        y: F32 { bits: 0 },
        z: F32 { bits: 0 },
        yaw: F32 { bits: 0 },
        pitch: F32 { bits: 0 },
        flags: 0,
        count: 0,
        reason: 0,
    }
}

/// The flattened form of a message.
pub open spec fn flattened(m: MessageView) -> SkympWireEvent {
    match m {
        MessageView::Welcome { .. } => bare(KIND_WELCOME),
        MessageView::Refuse { reason } => SkympWireEvent { reason, ..bare(KIND_REFUSE) },
        MessageView::InventoryApply { owner, delta } => SkympWireEvent {
            actor: owner.0,
            target: delta.item.0,
            count: delta.count,
            ..bare(KIND_INVENTORY_APPLY)
        },
        MessageView::HostGrant { cell } => SkympWireEvent {
            actor: cell.0,
            ..bare(KIND_HOST_GRANT)
        },
        MessageView::HostRelease { cell } => SkympWireEvent {
            actor: cell.0,
            ..bare(KIND_HOST_RELEASE)
        },
        _ => bare(KIND_NONE),
    }
}

/// A slot that was not filled.
pub fn empty_event() -> (r: SkympWireEvent)
    ensures
        r == bare(KIND_NONE),
{
    let origin = F32::from_bits(0);
    SkympWireEvent {
        kind: KIND_NONE,
        seq: 0,
        actor: 0,
        target: 0,
        weapon: 0,
        x: origin,
        y: origin,
        z: origin,
        yaw: origin,
        pitch: origin,
        flags: 0,
        count: 0,
        reason: 0,
    }
}

/// Flattens one message.
pub fn flatten(msg: &Message) -> (r: SkympWireEvent)
    ensures
        r == flattened(msg@),
{
    let mut e = empty_event();
    match msg {
        Message::Welcome { .. } => {
            e.kind = KIND_WELCOME;
        },
        Message::Refuse { reason } => {
            e.kind = KIND_REFUSE;
            e.reason = *reason;
        },
        Message::InventoryApply { owner, delta } => {
            e.kind = KIND_INVENTORY_APPLY;
            e.actor = owner.0;
            e.target = delta.item.0;
            e.count = delta.count;
        },
        Message::HostGrant { cell } => {
            e.kind = KIND_HOST_GRANT;
            e.actor = cell.0;
        },
        Message::HostRelease { cell } => {
            e.kind = KIND_HOST_RELEASE;
            e.actor = cell.0;
        },
        _ => {
            e.kind = KIND_NONE;
        },
    }
    e
}

/// Client handle.
pub struct Client {
    inner: transport::Client,
    pending: VecDeque<Message>,
}

/// What a [`Client`] holds.
#[verifier::ext_equal]
pub struct HandleView {
    pub inner: ClientView,
    /// Messages not handed out yet, oldest first.
    pub pending: Seq<MessageView>,
}

impl View for Client {
    type V = HandleView;

    closed spec fn view(&self) -> HandleView {
        HandleView { inner: self.inner@, pending: message_views(self.pending@) }
    }
}

/// How many of `waiting` messages fit into `room` slots.
pub open spec fn fitting(waiting: nat, room: nat) -> nat {
    if waiting <= room {
        waiting
    } else {
        room
    }
}

impl Client {
    /// Connect with a token. `addr_parsed` says whether the address was an
    /// `ip:port`, `opened` whether the embedder could open a socket to it.
    pub fn connect(addr_parsed: bool, opened: bool, token: Vec<u8>) -> (r: Option<Self>)
        ensures
            match r {
                Some(c) => addr_parsed && opened && c@ == (HandleView {
                    inner: ClientView {
                        now_ms: 0,
                        guard: GuardView::fresh(),
                        unsecure: token@.len() == 0,
                        inbox: seq![],
                        outbox: seq![],
                    },
                    pending: seq![],
                }),
                None => !addr_parsed || !opened,
            },
    {
        if !addr_parsed {
            return None;
        }
        match transport::Client::connect(opened, &ConnectToken(token)) {
            Ok(inner) => {
                let c = Client { inner, pending: VecDeque::new() };
                assert(c@.pending =~= seq![]);
                Some(c)
            },
            Err(_) => None,
        }
    }

    /// Takes one packet's payload off the network layer, for the next poll.
    pub fn deliver(&mut self, bytes: Vec<u8>)
        ensures
            final(self)@ == (HandleView {
                inner: ClientView {
                    inbox: old(self)@.inner.inbox.push(bytes@),
                    ..old(self)@.inner
                },
                ..old(self)@
            }),
    {
        self.inner.deliver(bytes);
    }

    /// Hands what was sent, oldest first, to the network layer.
    pub fn take_outgoing(&mut self) -> (r: Vec<Outgoing>)
        ensures
            transport::client::outgoing_views(r@) == old(self)@.inner.outbox,
            final(self)@ == (HandleView {
                inner: ClientView { outbox: seq![], ..old(self)@.inner },
                ..old(self)@
            }),
    {
        self.inner.take_outgoing()
    }

    /// Advance by `dt_ms` and fill `out` from the front, oldest first. Returns
    /// the count written. Events not returned this call are returned next call.
    pub fn poll(&mut self, dt_ms: u64, out: &mut [SkympWireEvent]) -> (n: usize)
        ensures
            ({
                let before = old(self)@.inner;
                let now_ms = later(before.now_ms, dt_ms);
                let waiting = old(self)@.pending + kept_all(before.inbox, before.guard, now_ms);
                &&& n == fitting(waiting.len(), old(out)@.len())
                &&& final(out)@.len() == old(out)@.len()
                &&& forall|i: int| 0 <= i < n ==> #[trigger] final(out)@[i] == flattened(waiting[i])
                &&& forall|i: int|
                    n <= i < old(out)@.len() ==> #[trigger] final(out)@[i] == old(out)@[i]
                &&& final(self)@ == (HandleView {
                    inner: ClientView { now_ms, inbox: seq![], ..before },
                    pending: waiting.skip(n as int),
                })
            }),
    {
        let mut fresh: Vec<Message> = Vec::new();
        self.inner.poll(dt_ms, &mut fresh);
        let ghost inner = self.inner;
        let ghost old_pending = self.pending@;
        let ghost fresh_views = message_views(fresh@);
        proof {
            assert(fresh@.skip(0) =~= fresh@);
        }
        for msg in iter: fresh
            invariant
                iter.seq() == fresh@,
                self.inner == inner,
                self.pending@ == old_pending + fresh@.take(iter.index() as int),
        {
            self.pending.push_back(msg);
            proof {
                let i = iter.index() as int;
                assert(fresh@.take(i + 1) =~= fresh@.take(i).push(fresh@[i]));
                assert(self.pending@ =~= old_pending + fresh@.take(i + 1));
            }
        }
        let ghost all = self.pending@;
        let ghost waiting = message_views(all);
        proof {
            assert(fresh@.take(fresh@.len() as int) =~= fresh@);
            assert(waiting =~= old(self)@.pending + fresh_views);
        }
        let mut n: usize = 0;
        while n < out.len() && self.pending.len() > 0
            invariant
                n <= out@.len(),
                n <= all.len(),
                self.inner == inner,
                out@.len() == old(out)@.len(),
                waiting == message_views(all),
                self.pending@ == all.skip(n as int),
                forall|i: int| 0 <= i < n ==> #[trigger] out@[i] == flattened(waiting[i]),
                forall|i: int| n <= i < out@.len() ==> #[trigger] out@[i] == old(out)@[i],
            decreases out@.len() - n,
        {
            match self.pending.pop_front() {
                Some(msg) => {
                    let e = flatten(&msg);
                    out[n] = e;
                },
                None => {},
            }
            n = n + 1;
            proof {
                assert(self.pending@ =~= all.skip(n as int));
            }
        }
        proof {
            assert(self@.pending =~= waiting.skip(n as int));
        }
        n
    }

    /// Send a movement sample.
    pub fn send_movement(
        &mut self,
        seq: u32,
        actor: u32,
        transform: Transform,
        run: bool,
        sneak: bool,
    ) -> (r: bool)
        ensures
            r,
            final(self)@ == (HandleView {
                inner: ClientView {
                    outbox: old(self)@.inner.outbox.push(
                        OutgoingView {
                            channel: UNRELIABLE,
                            bytes: encoding(
                                MessageView::Movement(
                                    MovementSample {
                                        seq,
                                        actor: FormId(actor),
                                        transform,
                                        run,
                                        sneak,
                                    },
                                ),
                            ),
                        },
                    ),
                    ..old(self)@.inner
                },
                ..old(self)@
            }),
    {
        let msg = Message::Movement(
            MovementSample { seq, actor: FormId(actor), transform, run, sneak },
        );
        self.inner.send(&msg).is_ok()
    }
}

/// What a run of polls hands out, each given what came in before it and how
/// many slots it had.
pub open spec fn handed_out(
    pending: Seq<MessageView>,
    polls: Seq<(Seq<MessageView>, nat)>,
) -> Seq<MessageView>
    decreases polls.len(),
{
    if polls.len() == 0 {
        seq![]
    } else {
        let (fresh, room) = polls.last();
        let waiting = left_over(pending, polls.drop_last()) + fresh;
        handed_out(pending, polls.drop_last()) + waiting.take(
            fitting(waiting.len(), room) as int,
        )
    }
}

/// What a run of polls leaves for the next.
pub open spec fn left_over(
    pending: Seq<MessageView>,
    polls: Seq<(Seq<MessageView>, nat)>,
) -> Seq<MessageView>
    decreases polls.len(),
{
    if polls.len() == 0 {
        pending
    } else {
        let (fresh, room) = polls.last();
        let waiting = left_over(pending, polls.drop_last()) + fresh;
        waiting.skip(fitting(waiting.len(), room) as int)
    }
}

/// All that came in during a run of polls.
pub open spec fn came_in(polls: Seq<(Seq<MessageView>, nat)>) -> Seq<MessageView>
    decreases polls.len(),
{
    if polls.len() == 0 {
        seq![]
    } else {
        came_in(polls.drop_last()) + polls.last().0
    }
}

/// First in, first out, and nothing lost: over any run of polls, whatever the
/// slots, what was handed out and what is left, one after the other, is what
/// was waiting at first and what came in, in the order the transport produced
/// it.
pub proof fn law_fifo(pending: Seq<MessageView>, polls: Seq<(Seq<MessageView>, nat)>)
    ensures
        handed_out(pending, polls) + left_over(pending, polls) == pending + came_in(polls),
    decreases polls.len(),
{
    if polls.len() == 0 {
        assert(seq![] + pending =~= pending + seq![]);
    } else {
        let (fresh, room) = polls.last();
        let init = polls.drop_last();
        law_fifo(pending, init);
        let waiting = left_over(pending, init) + fresh;
        let n = fitting(waiting.len(), room) as int;
        let out = handed_out(pending, init);
        assert(out + waiting.take(n) + waiting.skip(n) =~= out + left_over(pending, init) + fresh);
        assert(pending + (came_in(init) + fresh) =~= pending + came_in(init) + fresh);
    }
}

/// Every kind of message that a server sends has a kind of event of its own,
/// and an event of any kind but inventory leaves the count at zero.
pub proof fn law_kinds_are_apart(a: MessageView, b: MessageView)
    requires
        !transport::from_client(a),
        !transport::from_client(b),
    ensures
        flattened(a).kind != KIND_NONE,
        flattened(a).kind == flattened(b).kind <==> a.name() == b.name(),
        !(a is InventoryApply) ==> flattened(a).count == 0,
{
    reveal_strlit("Welcome");
    reveal_strlit("Refuse");
    reveal_strlit("InventoryApply");
    reveal_strlit("HostGrant");
    reveal_strlit("HostRelease");
    assert("Welcome"@.len() == 7);
    assert("Refuse"@.len() == 6);
    assert("InventoryApply"@.len() == 14);
    assert("HostGrant"@.len() == 9);
    assert("HostRelease"@.len() == 11);
}

/// Every field that applies is carried over as it is, and the rest are zero: the
/// code of a refusal, the owner, the item and the count of an inventory change,
/// the cell that is granted or released. What a client sends makes no event.
pub proof fn law_fields_are_carried_over(m: MessageView)
    ensures
        ({
            let e = flattened(m);
            &&& e.kind == match m {
                MessageView::Welcome { .. } => 1,
                MessageView::Refuse { .. } => 2,
                MessageView::InventoryApply { .. } => 3,
                MessageView::HostGrant { .. } => 4,
                MessageView::HostRelease { .. } => 5,
                _ => 0u32,
            }
            &&& m matches MessageView::Refuse { reason } ==> e.reason == reason
            &&& !(m is Refuse) ==> e.reason == 0
            &&& m matches MessageView::InventoryApply { owner, delta } ==> e.actor == owner.0
                && e.target == delta.item.0 && e.count == delta.count
            &&& !(m is InventoryApply) ==> e.target == 0 && e.count == 0
            &&& m matches MessageView::HostGrant { cell } ==> e.actor == cell.0
            &&& m matches MessageView::HostRelease { cell } ==> e.actor == cell.0
            &&& !(m is InventoryApply || m is HostGrant || m is HostRelease) ==> e.actor == 0
            &&& e.seq == 0 && e.weapon == 0 && e.flags == 0
            &&& e.x.bits == 0 && e.y.bits == 0 && e.z.bits == 0 && e.yaw.bits == 0 && e.pitch.bits
                == 0
        }),
{
}

/// A poll hands out as much as there is room for: either every slot is filled or
/// nothing is left waiting.
pub proof fn law_slots_are_filled(waiting: Seq<MessageView>, room: nat)
    ensures
        ({
            let n = fitting(waiting.len(), room);
            &&& n <= room
            &&& n <= waiting.len()
            &&& n == room || n == waiting.len()
        }),
{
}

} // verus!
