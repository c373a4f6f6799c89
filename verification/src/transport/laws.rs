//! What holds of the transport as a whole.
use super::client::{kept, kept_all};
use super::limits::Limits;
use super::meter::ByteMeter;
use super::{
    after_packet, code_of, conn_of, conns_after, conns_after_all, delivers, from_client,
    inbox_after, later, queued, screened, told, told_all, ConnectionView, InboundView,
    NetEventView, RejectKind, ServerView, TransportError,
};
use crate::codec::format::encoding;
use crate::codec::laws::{
    law_apply_bytes, law_cell_bytes, law_hello_bytes, law_hit_bytes, law_hosted_bytes,
    law_movement_bytes, law_refuse_bytes, law_welcome_bytes,
};
use crate::codec::{
    decoded, law_decode_undoes_encode, law_encode_undoes_decode, law_encoding_is_bounded, WireError,
};
use crate::schema::{Message, MessageView};
use crate::validate::laws::law_guard_stays_well_formed;
use crate::validate::{guard_after, verdict, GuardView, Reject};
use vstd::prelude::*;

verus! {

/// One event goes in, one comes out, in the same order, each screened with the
/// conns that the events before it left.
pub proof fn law_events_come_out_one_for_one(
    events: Seq<NetEventView>,
    limits: Limits,
    conns: Map<u64, ConnectionView>,
    now_ms: u64,
    i: int,
)
    requires
        0 <= i < events.len(),
    ensures
        told_all(events, limits, conns, now_ms).len() == events.len(),
        told_all(events, limits, conns, now_ms)[i] == told(
            events[i],
            limits,
            conns_after_all(events.take(i), limits, conns, now_ms),
            now_ms,
        ),
    decreases events.len(),
{
    let init = events.drop_last();
    lemma_told_len(events, limits, conns, now_ms);
    if i == events.len() - 1 {
        assert(events.take(i) =~= init);
        lemma_told_len(init, limits, conns, now_ms);
    } else {
        law_events_come_out_one_for_one(init, limits, conns, now_ms, i);
        assert(init.take(i) =~= events.take(i));
    }
}

proof fn lemma_told_len(
    events: Seq<NetEventView>,
    limits: Limits,
    conns: Map<u64, ConnectionView>,
    now_ms: u64,
)
    ensures
        told_all(events, limits, conns, now_ms).len() == events.len(),
    decreases events.len(),
{
    if events.len() > 0 {
        lemma_told_len(events.drop_last(), limits, conns, now_ms);
    }
}

/// Every message that comes out of a poll has passed all four checks: it came
/// in a packet of its sender's that is within the limits and is the message's
/// canonical encoding, it is one a client may send, and the sender's guard
/// accepted it.
pub proof fn law_messages_have_passed_all_checks(
    events: Seq<NetEventView>,
    limits: Limits,
    conns: Map<u64, ConnectionView>,
    now_ms: u64,
    i: int,
)
    requires
        0 <= i < events.len(),
    ensures
        told_all(events, limits, conns, now_ms)[i] matches InboundView::Message { client, msg }
            ==> {
            let conn = conn_of(conns_after_all(events.take(i), limits, conns, now_ms), client);
            &&& events[i] == (NetEventView::Packet { client, bytes: encoding(msg) })
            &&& conn.has_room(encoding(msg).len(), limits, now_ms)
            &&& msg.valid()
            &&& from_client(msg)
            &&& verdict(msg, conn.guard, now_ms) is None
        },
{
    law_events_come_out_one_for_one(events, limits, conns, now_ms, i);
    if let NetEventView::Packet { client, bytes } = events[i] {
        law_encode_undoes_decode(bytes);
    }
}

/// A packet that is over the limits, does not decode, or comes from the wrong
/// side leaves its sender's guard as it was, and one that is over the limits
/// leaves the byte meter too.
pub proof fn law_unread_packets_leave_the_guard(
    bytes: Seq<u8>,
    limits: Limits,
    conn: ConnectionView,
    now_ms: u64,
)
    ensures
        screened(bytes, limits, conn, now_ms) matches Err(e) && !(e is Validate) ==> after_packet(
            bytes,
            limits,
            conn,
            now_ms,
        ).guard == conn.guard,
        screened(bytes, limits, conn, now_ms) matches Err(e) && e is Limit ==> after_packet(
            bytes,
            limits,
            conn,
            now_ms,
        ) == conn,
{
}

/// No event of one client touches what is kept of another.
pub proof fn law_clients_are_apart(
    ev: NetEventView,
    limits: Limits,
    conns: Map<u64, ConnectionView>,
    now_ms: u64,
    other: u64,
)
    requires
        match ev {
            NetEventView::Connected { client } => client != other,
            NetEventView::Disconnected { client, .. } => client != other,
            NetEventView::Packet { client, .. } => client != other,
            NetEventView::Refused { client } => client != other,
        },
    ensures
        conns_after(ev, limits, conns, now_ms).contains_key(other) == conns.contains_key(other),
        conns.contains_key(other) ==> conns_after(ev, limits, conns, now_ms)[other]
            == conns[other],
{
}

/// Every guard a server keeps stays in its invariant, whatever comes in.
pub proof fn law_guards_stay_well_formed(
    events: Seq<NetEventView>,
    limits: Limits,
    conns: Map<u64, ConnectionView>,
    now_ms: u64,
)
    requires
        forall|c: u64| conns.contains_key(c) ==> (#[trigger] conns[c]).guard.wf(),
    ensures
        forall|c: u64|
            conns_after_all(events, limits, conns, now_ms).contains_key(c) ==> (
            #[trigger] conns_after_all(events, limits, conns, now_ms)[c]).guard.wf(),
    decreases events.len(),
{
    if events.len() > 0 {
        let before = conns_after_all(events.drop_last(), limits, conns, now_ms);
        law_guards_stay_well_formed(events.drop_last(), limits, conns, now_ms);
        if let NetEventView::Packet { client, bytes } = events.last() {
            let guard = conn_of(before, client).guard;
            assert(guard.wf());
            if let Ok(m) = decoded(bytes) {
                law_guard_stays_well_formed(m, guard, now_ms);
            }
        }
    }
}

/// Polling twice without time passing is polling once: events may be
/// delivered in any batches.
pub proof fn law_batches_do_not_matter(
    first: Seq<NetEventView>,
    second: Seq<NetEventView>,
    limits: Limits,
    conns: Map<u64, ConnectionView>,
    now_ms: u64,
)
    ensures
        conns_after_all(first + second, limits, conns, now_ms) == conns_after_all(
            second,
            limits,
            conns_after_all(first, limits, conns, now_ms),
            now_ms,
        ),
        told_all(first + second, limits, conns, now_ms) == told_all(first, limits, conns, now_ms)
            + told_all(
            second,
            limits,
            conns_after_all(first, limits, conns, now_ms),
            now_ms,
        ),
    decreases second.len(),
{
    if second.len() == 0 {
        assert(first + second =~= first);
        assert(told_all(first, limits, conns, now_ms) + seq![] =~= told_all(
            first,
            limits,
            conns,
            now_ms,
        ));
    } else {
        law_batches_do_not_matter(first, second.drop_last(), limits, conns, now_ms);
        assert((first + second).drop_last() =~= first + second.drop_last());
        let all = told_all(first + second, limits, conns, now_ms);
        let mid = conns_after_all(first, limits, conns, now_ms);
        assert(all =~= told_all(first, limits, conns, now_ms) + told_all(
            second,
            limits,
            mid,
            now_ms,
        ));
    }
}

/// What a client sends is what the server gets: a message of a client's
/// families, in the packet that sending it makes, comes out as it went in, or
/// is rejected by the validator and by nothing else, as long as the limits
/// leave room for it.
pub proof fn law_client_messages_arrive(
    m: MessageView,
    limits: Limits,
    conn: ConnectionView,
    now_ms: u64,
)
    requires
        m.valid(),
        from_client(m),
        conn.has_room(encoding(m).len(), limits, now_ms),
    ensures
        screened(encoding(m), limits, conn, now_ms) == match verdict(m, conn.guard, now_ms) {
            None => Ok::<MessageView, RejectKind>(m),
            Some(e) => Err(RejectKind::Validate(e)),
        },
{
    law_decode_undoes_encode(m);
}

/// The standard limits leave room for any message on a new connection.
pub proof fn law_standard_limits_fit_every_message(m: MessageView, now_ms: u64)
    requires
        m.valid(),
    ensures
        ConnectionView::fresh().has_room(encoding(m).len(), Limits::standard(), now_ms),
{
    law_encoding_is_bounded(m);
}

/// What a server sends is what the client gets: a message of a server's
/// families, in the packet that sending it makes, comes out as it went in.
pub proof fn law_server_messages_arrive(m: MessageView, guard: GuardView, now_ms: u64)
    requires
        m.valid(),
        !from_client(m),
    ensures
        kept(encoding(m), guard, now_ms) == Some(m),
{
    law_decode_undoes_encode(m);
}

/// Neither side accepts the other's families from its peer.
pub proof fn law_direction_is_enforced(
    m: MessageView,
    limits: Limits,
    conn: ConnectionView,
    now_ms: u64,
)
    requires
        m.valid(),
        conn.has_room(encoding(m).len(), limits, now_ms),
    ensures
        !from_client(m) ==> screened(encoding(m), limits, conn, now_ms) == Err::<
            MessageView,
            RejectKind,
        >(RejectKind::Direction),
        from_client(m) ==> kept(encoding(m), conn.guard, now_ms) is None,
{
    law_decode_undoes_encode(m);
}

/// A packet over the limits is refused before it is read: whatever is in it,
/// the reason is the limit; and no other packet is refused for it. As long as
/// the size limit is a message's largest size or less, the decoder never sees
/// an over-long input.
pub proof fn law_limits_come_first(
    bytes: Seq<u8>,
    limits: Limits,
    conn: ConnectionView,
    now_ms: u64,
)
    ensures
        (screened(bytes, limits, conn, now_ms) == Err::<MessageView, RejectKind>(RejectKind::Limit))
            == !conn.has_room(bytes.len(), limits, now_ms),
        limits.max_packet <= Message::MAX_ENCODED_LEN ==> !(screened(
            bytes,
            limits,
            conn,
            now_ms,
        ) matches Err(RejectKind::Decode(WireError::TooLong { .. }))),
{
}

/// No client ever has more undelivered packets than the limit.
pub proof fn law_queues_are_bounded(s: ServerView, ev: NetEventView, client: u64)
    requires
        queued(s.inbox, client) <= s.limits.max_queued_per_client,
    ensures
        queued(inbox_after(s, ev), client) <= s.limits.max_queued_per_client,
        queued(s.inbox, client) <= queued(inbox_after(s, ev), client),
{
    assert(inbox_after(s, ev).drop_last() =~= s.inbox);
}

/// No report is dropped in silence: each leaves one event for the next poll,
/// and a packet over the queue limit comes out of it as rejected for the limit,
/// with what is kept of every connection untouched.
pub proof fn law_packets_over_the_queue_are_told(
    s: ServerView,
    ev: NetEventView,
    conns: Map<u64, ConnectionView>,
    now_ms: u64,
)
    ensures
        inbox_after(s, ev).len() == s.inbox.len() + 1,
        inbox_after(s, ev).drop_last() == s.inbox,
        !delivers(s, ev) ==> {
            let last = inbox_after(s, ev).last();
            &&& ev matches NetEventView::Packet { client, .. }
            &&& told(last, s.limits, conns, now_ms) == (InboundView::Rejected {
                client,
                reject: RejectKind::Limit,
            })
            &&& conns_after(last, s.limits, conns, now_ms) == conns
        },
{
    assert(inbox_after(s, ev).drop_last() =~= s.inbox);
}

/// The number of every reason: decode failures from 101, validation from 201,
/// transport from 301, each in the order of its kind.
pub proof fn law_reason_codes_are_stable(len: usize, max: usize, extra: usize)
    ensures
        code_of(RejectKind::Decode(WireError::TooLong { len, max })) == 101,
        code_of(RejectKind::Decode(WireError::Malformed)) == 102,
        code_of(RejectKind::Decode(WireError::Trailing(extra))) == 103,
        code_of(RejectKind::Decode(WireError::NonCanonical)) == 104,
        code_of(RejectKind::Validate(Reject::SchemaVersion)) == 201,
        code_of(RejectKind::Validate(Reject::NonFinite)) == 202,
        code_of(RejectKind::Validate(Reject::OutOfWorld)) == 203,
        code_of(RejectKind::Validate(Reject::Rate)) == 204,
        code_of(RejectKind::Validate(Reject::ZeroDelta)) == 205,
        code_of(RejectKind::Validate(Reject::SeqReplay)) == 206,
        code_of(RejectKind::Limit) == 301,
        code_of(RejectKind::Direction) == 302,
{
}

/// The direction of a message can be told from its first byte on the wire: a
/// client sends the ids 0, 3, 4 and 5, a server the ids 1, 2, 6, 7 and 8.
pub proof fn law_the_id_tells_the_direction(m: MessageView)
    ensures
        ({
            let id = encoding(m)[0];
            &&& from_client(m) <==> id == 0 || id == 3 || id == 4 || id == 5
            &&& !from_client(m) <==> id == 1 || id == 2 || id == 6 || id == 7 || id == 8
        }),
{
    match m {
        MessageView::Hello(h) => law_hello_bytes(h, 0),
        MessageView::Welcome { client_id, server_time_ms } => law_welcome_bytes(
            client_id,
            server_time_ms,
        ),
        MessageView::Refuse { reason } => law_refuse_bytes(reason),
        MessageView::Movement(s) => law_movement_bytes(s),
        MessageView::Hit(h) => law_hit_bytes(h),
        MessageView::HostedActor(s) => law_hosted_bytes(s, 0),
        MessageView::InventoryApply { owner, delta } => law_apply_bytes(owner, delta),
        MessageView::HostGrant { cell } => law_cell_bytes(cell),
        MessageView::HostRelease { cell } => law_cell_bytes(cell),
    }
}

/// A packet is refused for a limit exactly when it is larger than the size limit
/// or does not fit into what is left of its second, whatever is in it.
pub proof fn law_size_and_rate_are_the_limits(
    bytes: Seq<u8>,
    limits: Limits,
    conn: ConnectionView,
    now_ms: u64,
)
    ensures
        ({
            let left = if conn.meter.second == now_ms / 1000 {
                limits.bytes_per_s_per_client - conn.meter.bytes
            } else {
                limits.bytes_per_s_per_client as int
            };
            screened(bytes, limits, conn, now_ms) == Err::<MessageView, RejectKind>(
                RejectKind::Limit,
            ) <==> bytes.len() > limits.max_packet || bytes.len() > left
        }),
{
}

/// A packet within the limits that does not decode is refused for what the
/// decoder says, and one that decodes never is.
pub proof fn law_decode_failures_are_passed_on(
    bytes: Seq<u8>,
    limits: Limits,
    conn: ConnectionView,
    now_ms: u64,
    e: WireError,
)
    requires
        bytes.len() <= limits.max_packet,
        conn.meter.allows(bytes.len(), limits.bytes_per_s_per_client, now_ms),
    ensures
        screened(bytes, limits, conn, now_ms) == Err::<MessageView, RejectKind>(
            RejectKind::Decode(e),
        ) <==> decoded(bytes) == Err::<MessageView, WireError>(e),
{
}

/// A packet within the limits is metered whatever becomes of it, and one whose
/// message reaches the validator is held against the guard exactly once.
pub proof fn law_packets_are_metered(
    bytes: Seq<u8>,
    limits: Limits,
    conn: ConnectionView,
    now_ms: u64,
)
    requires
        bytes.len() <= limits.max_packet,
        conn.meter.allows(bytes.len(), limits.bytes_per_s_per_client, now_ms),
    ensures
        ({
            let after = after_packet(bytes, limits, conn, now_ms);
            &&& after.meter.second == now_ms / 1000
            &&& conn.meter.second == now_ms / 1000 ==> after.meter.bytes == conn.meter.bytes
                + bytes.len()
            &&& conn.meter.second != now_ms / 1000 ==> after.meter.bytes == bytes.len()
            &&& decoded(bytes) matches Ok(m) ==> from_client(m) ==> after.guard == guard_after(
                m,
                conn.guard,
                now_ms,
            )
        }),
{
}

/// What the network layer reports is told of the client it was reported of: a
/// connection as one, a disconnection as one with its reason, a packet as a
/// message or a rejection.
pub proof fn law_events_keep_their_client(
    ev: NetEventView,
    limits: Limits,
    conns: Map<u64, ConnectionView>,
    now_ms: u64,
)
    ensures
        ({
            let t = told(ev, limits, conns, now_ms);
            match ev {
                NetEventView::Connected { client } => t == (InboundView::Connected { client }),
                NetEventView::Disconnected { client, reason } => t == (InboundView::Disconnected {
                    client,
                    reason,
                }),
                NetEventView::Packet { client, bytes } => match t {
                    InboundView::Message { client: sender, .. } => sender == client,
                    InboundView::Rejected { client: sender, .. } => sender == client,
                    _ => false,
                },
                NetEventView::Refused { client } => t == (InboundView::Rejected {
                    client,
                    reject: RejectKind::Limit,
                }),
            }
        }),
{
}

/// A connection starts with nothing kept of it, also of a client that was there
/// before, and ends with nothing kept of it. A packet of a client that is not
/// known is held to what a new connection is held to.
pub proof fn law_connections_start_afresh(
    client: u64,
    reason: Seq<char>,
    bytes: Seq<u8>,
    limits: Limits,
    conns: Map<u64, ConnectionView>,
    now_ms: u64,
)
    ensures
        ({
            let after = conns_after(NetEventView::Connected { client }, limits, conns, now_ms);
            &&& after.contains_key(client)
            &&& after[client].guard == GuardView::fresh()
            &&& after[client].meter == ByteMeter::fresh()
        }),
        !conns_after(
            NetEventView::Disconnected { client, reason },
            limits,
            conns,
            now_ms,
        ).contains_key(client),
        ({
            let after = conns_after(NetEventView::Packet { client, bytes }, limits, conns, now_ms);
            &&& after.contains_key(client)
            &&& conns.contains_key(client) ==> after[client] == after_packet(
                bytes,
                limits,
                conns[client],
                now_ms,
            )
            &&& !conns.contains_key(client) ==> after[client] == after_packet(
                bytes,
                limits,
                ConnectionView::fresh(),
                now_ms,
            )
        }),
{
}

/// The packets of a client that wait are counted one by one, and nothing else
/// is.
pub proof fn law_waiting_packets_are_counted(
    inbox: Seq<NetEventView>,
    ev: NetEventView,
    client: u64,
)
    ensures
        queued(seq![], client) == 0,
        match ev {
            NetEventView::Packet { client: sender, .. } if sender == client => queued(
                inbox.push(ev),
                client,
            ) == queued(inbox, client) + 1,
            _ => queued(inbox.push(ev), client) == queued(inbox, client),
        },
{
    assert(inbox.push(ev).drop_last() =~= inbox);
}

/// A report that is taken waits at the end of the queue as it is; only a packet
/// can be refused, and only one of a client with as many waiting as the limit.
pub proof fn law_reports_wait_in_order(s: ServerView, ev: NetEventView)
    ensures
        !(ev is Packet) ==> delivers(s, ev),
        ev matches NetEventView::Packet { client, .. } ==> (delivers(s, ev) <==> queued(
            s.inbox,
            client,
        ) < s.limits.max_queued_per_client),
        delivers(s, ev) ==> inbox_after(s, ev) == s.inbox.push(ev),
{
}

/// The clock goes forward by the time that passed, and stops at the largest
/// `u64`.
pub proof fn law_the_clock_goes_forward(now_ms: u64, dt_ms: u64)
    ensures
        now_ms + dt_ms <= u64::MAX ==> later(now_ms, dt_ms) == now_ms + dt_ms,
        now_ms + dt_ms > u64::MAX ==> later(now_ms, dt_ms) == u64::MAX,
        later(now_ms, dt_ms) >= now_ms,
{
}

/// What a server sends is what the client gets, all of it and in order: the
/// packets that sending a run of messages makes come out as that run.
pub proof fn law_runs_of_server_messages_arrive(
    messages: Seq<MessageView>,
    guard: GuardView,
    now_ms: u64,
)
    requires
        forall|i: int|
            0 <= i < messages.len() ==> (#[trigger] messages[i]).valid() && !from_client(
                messages[i],
            ),
    ensures
        kept_all(
            Seq::new(messages.len(), |i: int| encoding(messages[i])),
            guard,
            now_ms,
        ) == messages,
    decreases messages.len(),
{
    let packets = Seq::new(messages.len(), |i: int| encoding(messages[i]));
    if messages.len() > 0 {
        let init = messages.drop_last();
        let m = messages[messages.len() - 1];
        assert forall|i: int| 0 <= i < init.len() implies (#[trigger] init[i]).valid()
            && !from_client(init[i]) by {
            assert(init[i] == messages[i]);
        }
        law_runs_of_server_messages_arrive(init, guard, now_ms);
        assert(packets.drop_last() =~= Seq::new(init.len(), |i: int| encoding(init[i])));
        law_server_messages_arrive(m, guard, now_ms);
        assert(messages =~= init.push(m));
    } else {
        assert(packets =~= seq![]);
        assert(messages =~= seq![]);
    }
}

/// Packets that a client does not take leave no trace: the others come out as if
/// those had not come.
pub proof fn law_dropped_packets_leave_no_trace(
    packets: Seq<Seq<u8>>,
    bytes: Seq<u8>,
    guard: GuardView,
    now_ms: u64,
)
    ensures
        (decoded(bytes) is Err || from_client(decoded(bytes)->Ok_0)) ==> kept_all(
            packets.push(bytes),
            guard,
            now_ms,
        ) == kept_all(packets, guard, now_ms),
{
    assert(packets.push(bytes).drop_last() =~= packets);
}

/// The text of a rejection is the text of whoever refused: the decoder's, the
/// validator's, or the transport's own.
pub proof fn law_rejections_say_who_refused(e: WireError, r: Reject)
    ensures
        RejectKind::Decode(e).text() == e.text(),
        RejectKind::Validate(r).text() == r.text(),
        RejectKind::Limit.text() == "E_TX_LIMIT"@,
        RejectKind::Direction.text() == "E_TX_DIRECTION"@,
        r.text() == match r {
            Reject::SchemaVersion => "E_VAL_SCHEMA_VERSION"@,
            Reject::NonFinite => "E_VAL_NONFINITE"@,
            Reject::OutOfWorld => "E_VAL_OUT_OF_WORLD"@,
            Reject::Rate => "E_VAL_RATE"@,
            Reject::ZeroDelta => "E_VAL_ZERO_DELTA"@,
            Reject::SeqReplay => "E_VAL_SEQ_REPLAY"@,
        },
        TransportError::Bind.text() == "E_TX_BIND"@,
        TransportError::Encode.text() == "E_TX_ENCODE"@,
        TransportError::Limit.text() == "E_TX_LIMIT"@,
        TransportError::Token.text() == "E_TX_TOKEN"@,
{
}

/// Events are taken one after the other, all of them: one more event at the end
/// of a run is told with what the run before it left, and leaves what it leaves
/// of that.
pub proof fn law_events_are_taken_in_order(
    events: Seq<NetEventView>,
    ev: NetEventView,
    limits: Limits,
    conns: Map<u64, ConnectionView>,
    now_ms: u64,
)
    ensures
        ({
            let before = conns_after_all(events, limits, conns, now_ms);
            &&& conns_after_all(seq![], limits, conns, now_ms) == conns
            &&& told_all(seq![], limits, conns, now_ms) == Seq::<InboundView>::empty()
            &&& conns_after_all(events.push(ev), limits, conns, now_ms) == conns_after(
                ev,
                limits,
                before,
                now_ms,
            )
            &&& told_all(events.push(ev), limits, conns, now_ms) == told_all(
                events,
                limits,
                conns,
                now_ms,
            ).push(told(ev, limits, before, now_ms))
        }),
{
    assert(events.push(ev).drop_last() =~= events);
}

} // verus!
