//! The broadcast bridge: the one subscriber to the cross-process medium.
//!
//! The bridge listens to three channels — `subscribe`, `unsubscribe` and
//! `chat_message` — and turns each arriving envelope into a router event;
//! malformed envelopes are dropped silently.  A locally-originated message is
//! only published outward: the router sees it again when the medium echoes
//! it back, so local and remote messages take one delivery path.
//!
//! On startup the bridge subscribes to all three channels before signaling
//! readiness.  After the stream terminates it stays silently inert; nothing
//! here transitions back to `Connecting`.

use vstd::prelude::*;

use crate::codec::{
    decode_subscription, decode_chat_message, encode_chat_message, subscription_json,
    chat_message_json, match_lit,
};
use crate::messages::ChatMessage;
use crate::numbers::in_i64;
use crate::router::{RouterEvent, SubscriptionEvent, SubscriptionKind, event_wf};

verus! {

/// Where the bridge stands with the broadcast medium.
#[derive(Clone, Copy, PartialEq, Eq, Structural, Debug)]
pub enum BridgeState {
    Disconnected,
    Connecting,
    Subscribed,
}

/// The bridge's state machine.  The stream consumer and the publisher live
/// outside; this records and guards the startup order.
pub struct BroadcastBridge {
    pub state: BridgeState,
}

impl BroadcastBridge {
    /// A bridge that has not reached for the medium yet.
    pub fn new() -> (r: BroadcastBridge)
        ensures
            r.state is Disconnected,
    {
        BroadcastBridge { state: BridgeState::Disconnected }
    }

    /// The connection to the medium is being opened.
    pub fn start_connecting(&mut self)
        requires
            old(self).state is Disconnected,
        ensures
            final(self).state is Connecting,
    {
        self.state = BridgeState::Connecting;
    }

    /// All three channel subscriptions stand; the bridge is ready.
    pub fn mark_subscribed(&mut self)
        requires
            old(self).state is Connecting,
        ensures
            final(self).state is Subscribed,
    {
        self.state = BridgeState::Subscribed;
    }

    /// Readiness: only a subscribed bridge forwards envelopes.
    pub open spec fn ready(&self) -> bool {
        self.state is Subscribed
    }

    pub fn is_ready(&self) -> (r: bool)
        ensures
            r == self.ready(),
    {
        match self.state {
            BridgeState::Subscribed => true,
            _ => false,
        }
    }
}

/// `subscribe` as bytes.
pub open spec fn bytes_channel_subscribe() -> Seq<u8> {
    seq![0x73u8, 0x75u8, 0x62u8, 0x73u8, 0x63u8, 0x72u8, 0x69u8, 0x62u8, 0x65u8]
}

/// `unsubscribe` as bytes.
pub open spec fn bytes_channel_unsubscribe() -> Seq<u8> {
    seq![0x75u8, 0x6eu8, 0x73u8, 0x75u8, 0x62u8, 0x73u8, 0x63u8, 0x72u8, 0x69u8, 0x62u8, 0x65u8]
}

/// `chat_message` as bytes.
pub open spec fn bytes_channel_chat_message() -> Seq<u8> {
    seq![0x63u8, 0x68u8, 0x61u8, 0x74u8, 0x5fu8, 0x6du8, 0x65u8, 0x73u8, 0x73u8, 0x61u8, 0x67u8, 0x65u8]
}

fn make_channel_subscribe() -> (r: Vec<u8>)
    ensures
        r@ == bytes_channel_subscribe(),
{
    let mut v: Vec<u8> = Vec::new();
    v.push(0x73);
    v.push(0x75);
    v.push(0x62);
    v.push(0x73);
    v.push(0x63);
    v.push(0x72);
    v.push(0x69);
    v.push(0x62);
    v.push(0x65);
    proof {
        assert(v@ =~= bytes_channel_subscribe());
    }
    v
}

fn make_channel_unsubscribe() -> (r: Vec<u8>)
    ensures
        r@ == bytes_channel_unsubscribe(),
{
    let mut v: Vec<u8> = Vec::new();
    v.push(0x75);
    v.push(0x6e);
    v.push(0x73);
    v.push(0x75);
    v.push(0x62);
    v.push(0x73);
    v.push(0x63);
    v.push(0x72);
    v.push(0x69);
    v.push(0x62);
    v.push(0x65);
    proof {
        assert(v@ =~= bytes_channel_unsubscribe());
    }
    v
}

fn make_channel_chat_message() -> (r: Vec<u8>)
    ensures
        r@ == bytes_channel_chat_message(),
{
    let mut v: Vec<u8> = Vec::new();
    v.push(0x63);
    v.push(0x68);
    v.push(0x61);
    v.push(0x74);
    v.push(0x5f);
    v.push(0x6d);
    v.push(0x65);
    v.push(0x73);
    v.push(0x73);
    v.push(0x61);
    v.push(0x67);
    v.push(0x65);
    proof {
        assert(v@ =~= bytes_channel_chat_message());
    }
    v
}

/// The channel names the bridge subscribes to on startup, before readiness.
pub fn bridge_channels() -> (r: (&'static str, &'static str, &'static str))
    ensures
        r.0@ == "subscribe"@,
        r.1@ == "unsubscribe"@,
        r.2@ == "chat_message"@,
{
    ("subscribe", "unsubscribe", "chat_message")
}

/// Whether the slice holds exactly these bytes.
fn slice_is(a: &[u8], lit: &Vec<u8>) -> (r: bool)
    ensures
        r <==> a@ == lit@,
{
    let n = a.len();
    if n != lit.len() {
        return false;
    }
    let r = match_lit(a, 0, lit);
    proof {
        if r {
            assert(a@.subrange(0, a@.len() as int) =~= a@);
        } else {
            assert(a@.subrange(0, a@.len() as int) =~= a@);
        }
    }
    r
}

/// Turns one received envelope into the router event it stands for.
///
/// A `subscribe` or `unsubscribe` envelope becomes a subscription change, a
/// `chat_message` envelope an incoming message — exactly when the payload is
/// the canonical spelling; anything else, and every envelope of an unknown
/// channel, is dropped as malformed.  No envelope ever becomes a connection
/// event, so nothing arriving over the medium triggers a storage fetch.
pub fn route_envelope(channel: &[u8], payload: &[u8]) -> (r: Option<RouterEvent>)
    ensures
        r matches Some(e) ==> !(e is ConnectionOpened) && !(e is ConnectionClosed) && event_wf(e),
        channel@ == bytes_channel_subscribe() ==> match r {
            Some(e) => e matches RouterEvent::SubscriptionChanged { event } && event.kind
                is Subscribe && payload@ == subscription_json(event.chat@, event.user as int),
            None => forall|c: Seq<u8>, u: int|
                !(c.len() == 16 && in_i64(u) && payload@ == subscription_json(c, u)),
        },
        channel@ == bytes_channel_unsubscribe() ==> match r {
            Some(e) => e matches RouterEvent::SubscriptionChanged { event } && event.kind
                is Unsubscribe && payload@ == subscription_json(event.chat@, event.user as int),
            None => forall|c: Seq<u8>, u: int|
                !(c.len() == 16 && in_i64(u) && payload@ == subscription_json(c, u)),
        },
        channel@ == bytes_channel_chat_message() ==> match r {
            Some(e) => e matches RouterEvent::IncomingMessage { msg } && payload@
                == chat_message_json(
                msg.chat_id@,
                msg.sender_id as int,
                msg.date.millis as int,
                msg.msg_text@,
            ),
            None => forall|c: Seq<u8>, s: int, d: int, t: Seq<u8>|
                !(c.len() == 16 && in_i64(s) && in_i64(d) && payload@ == chat_message_json(
                    c,
                    s,
                    d,
                    t,
                )),
        },
        channel@ != bytes_channel_subscribe() && channel@ != bytes_channel_unsubscribe()
            && channel@ != bytes_channel_chat_message() ==> r is None,
{
    let sub = make_channel_subscribe();
    let unsub = make_channel_unsubscribe();
    let chat = make_channel_chat_message();
    if slice_is(channel, &sub) {
        match decode_subscription(payload) {
            Some(data) => Some(
                RouterEvent::SubscriptionChanged {
                    event: SubscriptionEvent {
                        chat: data.chat_id,
                        user: data.user_id,
                        kind: SubscriptionKind::Subscribe,
                    },
                },
            ),
            None => None,
        }
    } else if slice_is(channel, &unsub) {
        match decode_subscription(payload) {
            Some(data) => Some(
                RouterEvent::SubscriptionChanged {
                    event: SubscriptionEvent {
                        chat: data.chat_id,
                        user: data.user_id,
                        kind: SubscriptionKind::Unsubscribe,
                    },
                },
            ),
            None => None,
        }
    } else if slice_is(channel, &chat) {
        match decode_chat_message(payload) {
            Some(msg) => Some(RouterEvent::IncomingMessage { msg }),
            None => None,
        }
    } else {
        None
    }
}

/// The payload the bridge publishes for a locally-originated message: the
/// same spelling the fan-out pushes, so every instance (this one included)
/// sees the message by the same path.
pub fn publish_payload(msg: &ChatMessage) -> (r: Vec<u8>)
    requires
        msg.wf(),
    ensures
        r@ == chat_message_json(
            msg.chat_id@,
            msg.sender_id as int,
            msg.date.millis as int,
            msg.msg_text@,
        ),
{
    encode_chat_message(msg)
}

} // verus!
