//! Channel map. SkyMP's RakNet reliability choices map onto renet's three
//! send types one to one; this file is the whole of that decision.
use super::limits::Limits;
use crate::schema::{Message, MessageView};
use vstd::prelude::*;

verus! {

/// Session, ownership, inventory, quests, chat, snippets: order matters.
pub const RELIABLE_ORDERED: u8 = 0;

/// Effects, container deltas, hits: must arrive, order does not matter.
pub const RELIABLE_UNORDERED: u8 = 1;

/// Movement, animation events, aim: newest wins, losses are fine.
pub const UNRELIABLE: u8 = 2;

/// Every channel, for polling loops.
pub const ALL: [u8; 3] = [RELIABLE_ORDERED, RELIABLE_UNORDERED, UNRELIABLE];

/// The channel of a message's family.
pub open spec fn channel_of(m: MessageView) -> u8 {
    match m {
        MessageView::Movement(_) => UNRELIABLE,
        MessageView::Hit(_)
        | MessageView::HostedActor(_)
        | MessageView::InventoryApply { .. } => RELIABLE_UNORDERED,
        _ => RELIABLE_ORDERED,
    }
}

/// Which channel a message family rides.
pub fn for_message(msg: &Message) -> (r: u8)
    ensures
        r == channel_of(msg@),
        r == UNRELIABLE <==> msg is Movement,
        r == RELIABLE_UNORDERED <==> msg is Hit || msg is HostedActor || msg is InventoryApply,
        r == RELIABLE_ORDERED <==> msg is Hello || msg is Welcome || msg is Refuse
            || msg is HostGrant || msg is HostRelease,
{
    match msg {
        Message::Movement(_) => UNRELIABLE,
        Message::Hit(_) | Message::HostedActor(_) | Message::InventoryApply { .. } => {
            RELIABLE_UNORDERED
        },
        _ => RELIABLE_ORDERED,
    }
}

/// How a channel delivers.
#[derive(Clone, Copy, Debug, PartialEq, Eq, Structural)]
pub enum Delivery {
    /// Every message, in order.
    ReliableOrdered {
        /// Milliseconds before an unacknowledged message is sent again.
        resend_ms: u64,
    },
    /// Every message, in any order.
    ReliableUnordered {
        /// Milliseconds before an unacknowledged message is sent again.
        resend_ms: u64,
    },
    /// Messages may be lost or come out of order.
    Unreliable,
}

/// One channel's settings.
#[derive(Clone, Copy, Debug, PartialEq, Eq, Structural)]
pub struct ChannelPlan {
    /// The channel.
    pub channel_id: u8,
    /// Bytes it may hold unacknowledged.
    pub max_memory_usage_bytes: usize,
    /// How it delivers.
    pub delivery: Delivery,
}

/// `renet::ChannelConfig`, opaque: what one says is known by the name below.
#[verifier::external_type_specification]
#[verifier::external_body]
pub struct ExChannelConfig(renet::ChannelConfig);

/// `renet::ConnectionConfig`, opaque: what one says is known by the names below.
#[verifier::external_type_specification]
#[verifier::external_body]
pub struct ExConnectionConfig(renet::ConnectionConfig);

/// What a channel's configuration says.
pub uninterp spec fn channel_settings(c: renet::ChannelConfig) -> ChannelPlan;

/// The channels a server sends on, in order of priority.
pub uninterp spec fn server_channels(c: renet::ConnectionConfig) -> Seq<renet::ChannelConfig>;

/// The channels a client sends on, in order of priority.
pub uninterp spec fn client_channels(c: renet::ConnectionConfig) -> Seq<renet::ChannelConfig>;

/// The bytes a connection may send per update.
pub uninterp spec fn tick_budget(c: renet::ConnectionConfig) -> u64;

/// A `renet::ChannelConfig` with these settings, field by field.
#[verifier::external_body]
fn channel_config(plan: &ChannelPlan) -> (r: renet::ChannelConfig)
    ensures
        channel_settings(r) == *plan,
{
    let send_type = match plan.delivery {
        Delivery::ReliableOrdered { resend_ms } => renet::SendType::ReliableOrdered {
            resend_time: std::time::Duration::from_millis(resend_ms),
        },
        Delivery::ReliableUnordered { resend_ms } => renet::SendType::ReliableUnordered {
            resend_time: std::time::Duration::from_millis(resend_ms),
        },
        Delivery::Unreliable => renet::SendType::Unreliable,
    };
    renet::ChannelConfig {
        channel_id: plan.channel_id,
        max_memory_usage_bytes: plan.max_memory_usage_bytes,
        send_type,
    }
}

/// A `renet::ConnectionConfig` with these settings, field by field.
#[verifier::external_body]
fn whole_config(
    bytes_per_tick: u64,
    server: Vec<renet::ChannelConfig>,
    client: Vec<renet::ChannelConfig>,
) -> (r: renet::ConnectionConfig)
    ensures
        tick_budget(r) == bytes_per_tick,
        server_channels(r) == server@,
        client_channels(r) == client@,
{
    renet::ConnectionConfig {
        available_bytes_per_tick: bytes_per_tick,
        server_channels_config: server,
        client_channels_config: client,
    }
}

/// The channel with this id, sized from `limits`.
pub open spec fn planned(limits: Limits, channel_id: u8) -> ChannelPlan {
    ChannelPlan {
        channel_id,
        max_memory_usage_bytes: limits.channel_memory_bytes,
        delivery: if channel_id == RELIABLE_ORDERED {
            Delivery::ReliableOrdered { resend_ms: limits.resend_ms }
        } else if channel_id == RELIABLE_UNORDERED {
            Delivery::ReliableUnordered { resend_ms: limits.resend_ms }
        } else {
            Delivery::Unreliable
        },
    }
}

/// These are the three channels, session traffic first, movement last.
pub open spec fn has_the_channels(list: Seq<renet::ChannelConfig>, limits: Limits) -> bool {
    &&& list.len() == 3
    &&& channel_settings(list[0]) == planned(limits, RELIABLE_ORDERED)
    &&& channel_settings(list[1]) == planned(limits, RELIABLE_UNORDERED)
    &&& channel_settings(list[2]) == planned(limits, UNRELIABLE)
}

fn channel_list(limits: &Limits) -> (r: Vec<renet::ChannelConfig>)
    ensures
        has_the_channels(r@, *limits),
{
    let mut list: Vec<renet::ChannelConfig> = Vec::new();
    list.push(
        channel_config(
            &ChannelPlan {
                channel_id: RELIABLE_ORDERED,
                max_memory_usage_bytes: limits.channel_memory_bytes,
                delivery: Delivery::ReliableOrdered { resend_ms: limits.resend_ms },
            },
        ),
    );
    list.push(
        channel_config(
            &ChannelPlan {
                channel_id: RELIABLE_UNORDERED,
                max_memory_usage_bytes: limits.channel_memory_bytes,
                delivery: Delivery::ReliableUnordered { resend_ms: limits.resend_ms },
            },
        ),
    );
    list.push(
        channel_config(
            &ChannelPlan {
                channel_id: UNRELIABLE,
                max_memory_usage_bytes: limits.channel_memory_bytes,
                delivery: Delivery::Unreliable,
            },
        ),
    );
    list
}

/// The three channels for both directions, sized from `limits`. Channel
/// order is send priority per tick: session traffic first, movement last.
pub fn connection_config(limits: &Limits) -> (r: renet::ConnectionConfig)
    ensures
        tick_budget(r) == limits.bytes_per_tick,
        has_the_channels(server_channels(r), *limits),
        has_the_channels(client_channels(r), *limits),
{
    whole_config(limits.bytes_per_tick, channel_list(limits), channel_list(limits))
}

/// Every message rides one of the three channels of [`ALL`].
pub proof fn law_every_message_has_a_channel(m: MessageView)
    ensures
        ALL@.contains(channel_of(m)),
{
    assert(ALL@[channel_of(m) as int] == channel_of(m));
}

/// Only movement may be lost. Hits, hosted actors and applied inventory changes
/// always arrive, in any order; everything else arrives in order.
pub proof fn law_families_ride_their_channels(m: MessageView)
    ensures
        channel_of(m) == UNRELIABLE <==> m is Movement,
        channel_of(m) == RELIABLE_UNORDERED <==> m is Hit || m is HostedActor
            || m is InventoryApply,
        channel_of(m) == RELIABLE_ORDERED <==> m is Hello || m is Welcome || m is Refuse
            || m is HostGrant || m is HostRelease,
        RELIABLE_ORDERED == 0,
        RELIABLE_UNORDERED == 1,
        UNRELIABLE == 2,
{
}

/// On the configured channels a movement may be lost, a hit, a hosted actor or
/// an applied inventory change is sent again until it arrives, in any order,
/// and everything else until it arrives in order; each channel may hold the
/// memory that the limits give it, and sends again after their resend time.
pub proof fn law_families_are_delivered(
    m: MessageView,
    list: Seq<renet::ChannelConfig>,
    limits: Limits,
)
    requires
        has_the_channels(list, limits),
    ensures
        ({
            let plan = channel_settings(list[channel_of(m) as int]);
            &&& 0 <= channel_of(m) < list.len()
            &&& plan.channel_id == channel_of(m)
            &&& plan.max_memory_usage_bytes == limits.channel_memory_bytes
            &&& plan.delivery is Unreliable <==> m is Movement
            &&& plan.delivery is ReliableUnordered <==> m is Hit || m is HostedActor
                || m is InventoryApply
            &&& plan.delivery matches Delivery::ReliableOrdered { resend_ms } ==> resend_ms
                == limits.resend_ms
            &&& plan.delivery matches Delivery::ReliableUnordered { resend_ms } ==> resend_ms
                == limits.resend_ms
        }),
{
}

/// The configured channels are those of [`ALL`], in that order, so each is
/// there once and a message's channel is always configured.
pub proof fn law_configured_channels_are_all(list: Seq<renet::ChannelConfig>, limits: Limits)
    requires
        has_the_channels(list, limits),
    ensures
        list.len() == ALL@.len(),
        forall|i: int| 0 <= i < 3 ==> (#[trigger] channel_settings(list[i])).channel_id == ALL@[i],
        forall|i: int, j: int| 0 <= i < j < 3 ==> #[trigger] ALL@[i] != #[trigger] ALL@[j],
{
}

} // verus!
