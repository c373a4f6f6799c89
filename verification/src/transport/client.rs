//! Client-side transport.
use super::channels::{channel_of, for_message};
use super::token::ConnectToken;
use super::{client_may_send, encoded, from_client, later, TransportError};
use crate::codec::format::encoding;
use crate::codec::{decode, decoded};
use crate::schema::{Message, MessageView};
use crate::validate::{validate, verdict, ClientGuard, GuardView};
use vstd::prelude::*;

verus! {

/// One message on its way to the server.
#[derive(Debug)]
pub struct Outgoing {
    /// The channel it rides.
    pub channel: u8,
    /// Its encoding.
    pub bytes: Vec<u8>,
}

/// What an [`Outgoing`] says.
#[verifier::ext_equal]
pub struct OutgoingView {
    pub channel: u8,
    pub bytes: Seq<u8>,
}

impl View for Outgoing {
    type V = OutgoingView;

    open spec fn view(&self) -> OutgoingView {
        OutgoingView { channel: self.channel, bytes: self.bytes@ }
    }
}

/// Client-side transport, used by the client library and by the replay
/// driver. Sockets are the embedder's: it hands over what came off the wire
/// with [`Client::deliver`] and sends what [`Client::take_outgoing`] hands back.
pub struct Client {
    now_ms: u64,
    guard: ClientGuard,
    unsecure: bool,
    inbox: Vec<Vec<u8>>,
    outbox: Vec<Outgoing>,
}

/// What a [`Client`] holds.
#[verifier::ext_equal]
pub struct ClientView {
    /// The client's clock.
    pub now_ms: u64,
    pub guard: GuardView,
    pub unsecure: bool,
    /// Come off the wire and not polled yet.
    pub inbox: Seq<Seq<u8>>,
    /// Sent and not taken by the network layer yet.
    pub outbox: Seq<OutgoingView>,
}

pub open spec fn packet_views(packets: Seq<Vec<u8>>) -> Seq<Seq<u8>> {
    Seq::new(packets.len(), |i: int| packets[i]@)
}

pub open spec fn outgoing_views(list: Seq<Outgoing>) -> Seq<OutgoingView> {
    Seq::new(list.len(), |i: int| list[i]@)
}

pub open spec fn message_views(list: Seq<Message>) -> Seq<MessageView> {
    Seq::new(list.len(), |i: int| list[i]@)
}

impl View for Client {
    type V = ClientView;

    closed spec fn view(&self) -> ClientView {
        ClientView {
            now_ms: self.now_ms,
            guard: self.guard@,
            unsecure: self.unsecure,
            inbox: packet_views(self.inbox@),
            outbox: outgoing_views(self.outbox@),
        }
    }
}

/// The message in a packet from the server, if it decodes, is one a server
/// sends, and is valid.
pub open spec fn kept(bytes: Seq<u8>, guard: GuardView, now_ms: u64) -> Option<MessageView> {
    match decoded(bytes) {
        Ok(m) => if !from_client(m) && verdict(m, guard, now_ms) is None {
            Some(m)
        } else {
            None
        },
        Err(_) => None,
    }
}

/// The messages that a run of packets comes to, in order.
pub open spec fn kept_all(packets: Seq<Seq<u8>>, guard: GuardView, now_ms: u64) -> Seq<MessageView>
    decreases packets.len(),
{
    if packets.len() == 0 {
        seq![]
    } else {
        let before = kept_all(packets.drop_last(), guard, now_ms);
        match kept(packets.last(), guard, now_ms) {
            Some(m) => before.push(m),
            None => before,
        }
    }
}

/// Takes one packet from the server through decode, direction and validation.
fn sift(bytes: &[u8], guard: &mut ClientGuard, now_ms: u64) -> (r: Option<Message>)
    ensures
        final(guard)@ == old(guard)@,
        match r {
            Some(msg) => kept(bytes@, old(guard)@, now_ms) == Some(msg@),
            None => kept(bytes@, old(guard)@, now_ms) is None,
        },
{
    match decode(bytes) {
        Err(_) => None,
        Ok(msg) => {
            if client_may_send(&msg) {
                return None;
            }
            match validate(&msg, guard, now_ms) {
                Err(_) => None,
                Ok(()) => Some(msg),
            }
        },
    }
}

impl Client {
    /// Connect with a token from the issuer, over a socket that the embedder
    /// tried to open: `opened` says whether it could. Unsecure tokens are
    /// lab-only.
    pub fn connect(opened: bool, tok: &ConnectToken) -> (r: Result<Self, TransportError>)
        ensures
            match r {
                Ok(c) => opened && c@ == (ClientView {
                    now_ms: 0,
                    guard: GuardView::fresh(),
                    unsecure: tok.0@.len() == 0,
                    inbox: seq![],
                    outbox: seq![],
                }),
                Err(e) => !opened && e == TransportError::Bind,
            },
    {
        if !opened {
            return Err(TransportError::Bind);
        }
        let c = Self {
            now_ms: 0,
            guard: ClientGuard::default(),
            unsecure: tok.is_unsecure(),
            inbox: Vec::new(),
            outbox: Vec::new(),
        };
        assert(c@.inbox =~= seq![]);
        assert(c@.outbox =~= seq![]);
        Ok(c)
    }

    /// True for a client that connected with an unsigned token.
    pub fn is_unsecure(&self) -> (r: bool)
        ensures
            r == self@.unsecure,
    {
        self.unsecure
    }

    /// Takes one packet's payload off the network layer, for the next poll.
    pub fn deliver(&mut self, bytes: Vec<u8>)
        ensures
            final(self)@ == (ClientView { inbox: old(self)@.inbox.push(bytes@), ..old(self)@ }),
    {
        self.inbox.push(bytes);
        proof {
            assert(self@.inbox =~= old(self)@.inbox.push(bytes@));
        }
    }

    /// Drain decoded, validated server messages into `out`, oldest first.
    pub fn poll(&mut self, dt_ms: u64, out: &mut Vec<Message>)
        ensures
            ({
                let now_ms = later(old(self)@.now_ms, dt_ms);
                let fresh = kept_all(old(self)@.inbox, old(self)@.guard, now_ms);
                &&& final(self)@ == (ClientView { now_ms, inbox: seq![], ..old(self)@ })
                &&& final(out)@.len() == old(out)@.len() + fresh.len()
                &&& final(out)@.take(old(out)@.len() as int) == old(out)@
                &&& message_views(final(out)@.skip(old(out)@.len() as int)) == fresh
            }),
    {
        self.now_ms = self.now_ms.saturating_add(dt_ms);
        let ghost packets = self@.inbox;
        let ghost guard = self.guard@;
        let ghost before = out@;
        let mut i: usize = 0;
        proof {
            assert(packets.take(0) =~= seq![]);
            assert(out@.take(before.len() as int) =~= before);
            assert(message_views(out@.skip(before.len() as int)) =~= seq![]);
        }
        while i < self.inbox.len()
            invariant
                i <= self.inbox@.len(),
                self.inbox == old(self).inbox,
                self.outbox == old(self).outbox,
                self.unsecure == old(self).unsecure,
                self.guard@ == guard,
                self.now_ms == later(old(self)@.now_ms, dt_ms),
                packets == packet_views(self.inbox@),
                before == old(out)@,
                out@.len() >= before.len(),
                out@.take(before.len() as int) == before,
                message_views(out@.skip(before.len() as int)) == kept_all(
                    packets.take(i as int),
                    guard,
                    self.now_ms,
                ),
            decreases self.inbox@.len() - i,
        {
            let ghost shown = out@;
            let sifted = sift(self.inbox[i].as_slice(), &mut self.guard, self.now_ms);
            proof {
                assert(packets.take(i + 1).drop_last() =~= packets.take(i as int));
                assert(packets.take(i + 1).last() == self.inbox@[i as int]@);
            }
            match sifted {
                Some(msg) => {
                    out.push(msg);
                    proof {
                        assert(out@.take(before.len() as int) =~= shown.take(before.len() as int));
                        assert(message_views(out@.skip(before.len() as int)) =~= message_views(
                            shown.skip(before.len() as int),
                        ).push(msg@));
                    }
                },
                None => {},
            }
            i = i + 1;
        }
        proof {
            assert(packets.take(i as int) =~= packets);
            assert(out@.skip(before.len() as int).len() == kept_all(
                packets,
                guard,
                self.now_ms,
            ).len());
        }
        self.inbox.clear();
        proof {
            assert(self@.inbox =~= seq![]);
        }
    }

    /// Encode and send.
    pub fn send(&mut self, msg: &Message) -> (r: Result<(), TransportError>)
        ensures
            r is Ok,
            msg@.valid(),
            final(self)@ == (ClientView {
                outbox: old(self)@.outbox.push(
                    OutgoingView { channel: channel_of(msg@), bytes: encoding(msg@) },
                ),
                ..old(self)@
            }),
    {
        let bytes = match encoded(msg) {
            Ok(bytes) => bytes,
            Err(e) => {
                return Err(e);
            },
        };
        let outgoing = Outgoing { channel: for_message(msg), bytes };
        let ghost view = outgoing@;
        self.outbox.push(outgoing);
        proof {
            assert(self@.outbox =~= old(self)@.outbox.push(view));
        }
        Ok(())
    }

    /// Hands what was sent, oldest first, to the network layer.
    pub fn take_outgoing(&mut self) -> (r: Vec<Outgoing>)
        ensures
            outgoing_views(r@) == old(self)@.outbox,
            final(self)@ == (ClientView { outbox: seq![], ..old(self)@ }),
    {
        let mut taken: Vec<Outgoing> = Vec::new();
        std::mem::swap(&mut taken, &mut self.outbox);
        proof {
            assert(self@.outbox =~= seq![]);
        }
        taken
    }
}

} // verus!
