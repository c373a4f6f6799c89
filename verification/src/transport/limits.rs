//! Resource bounds enforced before decode. Every number here is a cap the lab
//! can hit on purpose.
use crate::schema::Message;
use vstd::prelude::*;

verus! {

/// Transport limits. Defaults are for a 64-player server; tune per gamemode.
#[derive(Clone, Copy, Debug, PartialEq, Eq, Structural)]
pub struct Limits {
    /// Connections the transport accepts at once; netcode counts them.
    pub max_clients: usize,
    /// Largest packet handed to the decoder; larger than
    /// `Message::MAX_ENCODED_LEN` is never legitimate.
    pub max_packet: usize,
    /// Undelivered messages buffered per client before the connection drops.
    pub max_queued_per_client: usize,
    /// Handshake attempts accepted per source address per minute; for whoever
    /// owns the socket.
    pub connects_per_source_per_min: u32,
    /// Inbound bytes per second per client before packets are dropped.
    pub bytes_per_s_per_client: u32,
    /// Milliseconds before an unacknowledged reliable message is sent again.
    pub resend_ms: u64,
    /// Bytes a channel may hold unacknowledged, per connection.
    pub channel_memory_bytes: usize,
    /// Bytes a connection may send per update.
    pub bytes_per_tick: u64,
}

impl Limits {
    /// The limits of a 64-player server.
    pub open spec fn standard() -> Limits {
        Limits {
            max_clients: 64,
            max_packet: Message::MAX_ENCODED_LEN,
            max_queued_per_client: 256,
            connects_per_source_per_min: 10,
            bytes_per_s_per_client: 65_536,
            resend_ms: 300,
            channel_memory_bytes: 5_242_880,
            bytes_per_tick: 60_000,
        }
    }
}

impl Default for Limits {
    fn default() -> (r: Self)
        ensures
            r == Limits::standard(),
    {
        Self {
            max_clients: 64,
            max_packet: Message::MAX_ENCODED_LEN,
            max_queued_per_client: 256,
            connects_per_source_per_min: 10,
            bytes_per_s_per_client: 64 * 1024,
            resend_ms: 300,
            channel_memory_bytes: 5 * 1024 * 1024,
            bytes_per_tick: 60_000,
        }
    }
}

/// The standard limits let the largest message through, at the rate of
/// twenty-four of them per second and no more, for 64 clients with up to 256
/// waiting packets each.
pub proof fn law_standard_limits(n: nat)
    ensures
        ({
            let l = Limits::standard();
            &&& n <= l.max_packet <==> n <= 2626
            &&& n * 2626 <= l.bytes_per_s_per_client <==> n <= 24
            &&& n <= l.bytes_per_s_per_client <==> n <= 64 * 1024
            &&& n <= l.max_clients <==> n <= 64
            &&& n <= l.max_queued_per_client <==> n <= 256
            &&& n <= l.connects_per_source_per_min <==> n <= 10
            &&& n <= l.resend_ms <==> n <= 300
            &&& n <= l.channel_memory_bytes <==> n <= 5 * 1024 * 1024
            &&& n <= l.bytes_per_tick <==> n <= 60_000
        }),
{
}

} // verus!
