//! The byte meter behind the inbound rate limit.
use vstd::prelude::*;

verus! {

/// Counts the bytes a client got in during one second of the server's clock.
#[derive(Clone, Copy, Debug, PartialEq, Eq, Structural)]
pub struct ByteMeter {
    /// The second that is counted.
    pub second: u64,
    /// The bytes of that second so far.
    pub bytes: u64,
}

impl ByteMeter {
    /// A meter before any packet.
    pub open spec fn fresh() -> ByteMeter {
        ByteMeter { second: 0, bytes: 0 }
    }

    /// The bytes already counted for the second of `now_ms`.
    pub open spec fn used(self, now_ms: u64) -> u64 {
        if self.second == now_ms / 1000 {
            self.bytes
        } else {
            0
        }
    }

    /// Whether `len` bytes more stay within `limit` bytes per second.
    pub open spec fn allows(self, len: nat, limit: u32, now_ms: u64) -> bool {
        self.used(now_ms) + len <= limit
    }

    /// The meter after a packet of `len` bytes. A packet that is over the limit
    /// is not counted.
    pub open spec fn after(self, len: nat, limit: u32, now_ms: u64) -> ByteMeter {
        if self.allows(len, limit, now_ms) {
            ByteMeter { second: now_ms / 1000, bytes: (self.used(now_ms) + len) as u64 }
        } else {
            self
        }
    }

    /// A meter before any packet.
    pub fn new() -> (r: Self)
        ensures
            r == ByteMeter::fresh(),
    {
        ByteMeter { second: 0, bytes: 0 }
    }

    /// Counts a packet, if it stays within the limit.
    pub fn count(&mut self, len: usize, limit: u32, now_ms: u64) -> (r: bool)
        ensures
            r == old(self).allows(len as nat, limit, now_ms),
            *final(self) == old(self).after(len as nat, limit, now_ms),
    {
        let second: u64 = now_ms / 1000;
        let used: u64 = if self.second == second {
            self.bytes
        } else {
            0
        };
        let limit: u64 = limit as u64;
        if len as u64 > limit || used > limit - len as u64 {
            return false;
        }
        self.second = second;
        self.bytes = used + len as u64;
        true
    }
}

/// The meter after a run of packets, each with its length and the time it came
/// at.
pub open spec fn after_all(m: ByteMeter, packets: Seq<(nat, u64)>, limit: u32) -> ByteMeter
    decreases packets.len(),
{
    if packets.len() == 0 {
        m
    } else {
        let (len, now_ms) = packets.last();
        after_all(m, packets.drop_last(), limit).after(len, limit, now_ms)
    }
}

/// The bytes of a run that the meter lets in during one second.
pub open spec fn let_in(m: ByteMeter, packets: Seq<(nat, u64)>, limit: u32, second: u64) -> nat
    decreases packets.len(),
{
    if packets.len() == 0 {
        0
    } else {
        let (len, now_ms) = packets.last();
        let before = let_in(m, packets.drop_last(), limit, second);
        if now_ms / 1000 == second && after_all(m, packets.drop_last(), limit).allows(
            len,
            limit,
            now_ms,
        ) {
            before + len
        } else {
            before
        }
    }
}

/// The times never decrease, and the first is not before the meter's second.
pub open spec fn in_time_order(m: ByteMeter, packets: Seq<(nat, u64)>) -> bool {
    &&& forall|i: int|
        0 <= i < packets.len() ==> m.second <= #[trigger] packets[i].1 / 1000
    &&& forall|i: int, j: int|
        0 <= i <= j < packets.len() ==> #[trigger] packets[i].1 <= #[trigger] packets[j].1
}

proof fn lemma_let_in(m: ByteMeter, packets: Seq<(nat, u64)>, limit: u32, second: u64)
    requires
        m.bytes <= limit,
        in_time_order(m, packets),
    ensures
        ({
            let after = after_all(m, packets, limit);
            &&& after.bytes <= limit
            &&& m.second <= after.second
            &&& packets.len() > 0 ==> after.second <= packets.last().1 / 1000
            &&& packets.len() == 0 ==> after == m
            &&& second > after.second ==> let_in(m, packets, limit, second) == 0
            &&& second == after.second ==> let_in(m, packets, limit, second) <= after.bytes
            &&& let_in(m, packets, limit, second) <= limit
        }),
    decreases packets.len(),
{
    if packets.len() > 0 {
        let init = packets.drop_last();
        let last = packets.last();
        assert(packets[packets.len() - 1] == last);
        assert forall|i: int| 0 <= i < init.len() implies m.second <= #[trigger] init[i].1 / 1000 by {
            assert(init[i] == packets[i]);
        }
        assert forall|i: int, j: int| 0 <= i <= j < init.len() implies #[trigger] init[i].1
            <= #[trigger] init[j].1 by {
            assert(init[i] == packets[i] && init[j] == packets[j]);
        }
        lemma_let_in(m, init, limit, second);
        if init.len() > 0 {
            assert(init.last() == packets[packets.len() - 2]);
            assert(packets[packets.len() - 2].1 <= packets[packets.len() - 1].1);
            assert(init.last().1 / 1000 <= last.1 / 1000) by (nonlinear_arith)
                requires
                    init.last().1 <= last.1,
            ;
        }
    }
}

/// In no second of the clock are more bytes let in than the limit, as long as
/// the clock never runs backwards.
pub proof fn law_bytes_per_second_are_bounded(
    m: ByteMeter,
    packets: Seq<(nat, u64)>,
    limit: u32,
    second: u64,
)
    requires
        m.bytes <= limit,
        in_time_order(m, packets),
    ensures
        let_in(m, packets, limit, second) <= limit,
{
    lemma_let_in(m, packets, limit, second);
}

/// A packet is let in exactly when it and what was let in before it in the same
/// second of the clock are within the limit together; in a second in which
/// nothing was let in yet, when it is by itself.
pub proof fn law_a_second_is_filled_up(m: ByteMeter, len: nat, limit: u32, now_ms: u64)
    ensures
        m.second == now_ms / 1000 ==> (m.allows(len, limit, now_ms) <==> m.bytes + len <= limit),
        m.second != now_ms / 1000 ==> (m.allows(len, limit, now_ms) <==> len <= limit),
        m.allows(len, limit, now_ms) ==> {
            let after = m.after(len, limit, now_ms);
            &&& after.second == now_ms / 1000
            &&& m.second == now_ms / 1000 ==> after.bytes == m.bytes + len
            &&& m.second != now_ms / 1000 ==> after.bytes == len
        },
        !m.allows(len, limit, now_ms) ==> m.after(len, limit, now_ms) == m,
        ByteMeter::fresh().bytes == 0,
{
}

} // verus!
