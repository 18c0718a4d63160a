use chat::bridge::{bridge_channels, route_envelope, BroadcastBridge};
use chat::codec::encode_chat_message;
use chat::codec::encode_subscription;
use chat::ids::ChatId;
use chat::messages::{ChatMessage, SerializableDuration, SubscriptionData};
use chat::registry::ConnectionRegistry;
use chat::router::{Router, RouterAction, RouterEvent, SubscriptionEvent, SubscriptionKind};
use chat::subscriptions::SubscriptionTable;

fn chat_c() -> ChatId {
    ChatId::from_bytes(vec![
        0x67, 0xe5, 0x50, 0x44, 0x10, 0xb1, 0x42, 0x6f, 0x92, 0x47, 0xbb, 0x68, 0x0e, 0x5f, 0xe0,
        0xc8,
    ])
    .unwrap()
}

fn chat_d() -> ChatId {
    ChatId::from_bytes(vec![0; 16]).unwrap()
}

fn message(chat: ChatId, sender: i64, text: &[u8]) -> ChatMessage {
    ChatMessage {
        chat_id: chat,
        sender_id: sender,
        date: SerializableDuration { millis: 1700000000123 },
        msg_text: text.to_vec(),
    }
}

fn push_conns(acts: &[RouterAction]) -> Vec<u64> {
    acts.iter()
        .map(|a| match a {
            RouterAction::Push { conn, .. } => *conn,
            RouterAction::FetchChats { .. } => panic!("unexpected fetch"),
        })
        .collect()
}

#[test]
fn opened_registers_and_asks_for_backfill() {
    let mut router = Router::new();
    let acts = router.handle_event(RouterEvent::ConnectionOpened { user: 1, conn: 10 });
    assert_eq!(acts.len(), 1);
    assert!(matches!(acts[0], RouterAction::FetchChats { user: 1 }));
    assert_eq!(router.registry.connections_of(1), vec![10]);
}

#[test]
fn backfill_success_subscribes_to_every_chat() {
    let mut router = Router::new();
    router.handle_event(RouterEvent::ConnectionOpened { user: 1, conn: 10 });
    router.handle_backfill_result(1, Ok(vec![chat_c(), chat_d()]));
    assert_eq!(router.subs.subscribers_of(&chat_c()), vec![1]);
    assert_eq!(router.subs.subscribers_of(&chat_d()), vec![1]);
}

#[test]
fn backfill_failure_leaves_table_unchanged() {
    let mut router = Router::new();
    router.handle_event(RouterEvent::ConnectionOpened { user: 1, conn: 10 });
    router.handle_backfill_result(
        1,
        Err(chat::database::DBError::QueryError("no storage".to_string())),
    );
    assert!(router.subs.subscribers_of(&chat_c()).is_empty());
    assert_eq!(router.registry.connections_of(1), vec![10]);
}

#[test]
fn empty_backfill_then_subscribe_then_message_delivers_once() {
    // User A opens a connection with no prior membership, an explicit
    // subscribe arrives, then a message: exactly one push, exact payload.
    let mut router = Router::new();
    let acts = router.handle_event(RouterEvent::ConnectionOpened { user: 1, conn: 10 });
    assert!(matches!(acts[0], RouterAction::FetchChats { user: 1 }));
    router.handle_backfill_result(1, Ok(vec![]));
    assert!(router.subs.subscribers_of(&chat_c()).is_empty());

    let acts = router.handle_event(RouterEvent::SubscriptionChanged {
        event: SubscriptionEvent { chat: chat_c(), user: 1, kind: SubscriptionKind::Subscribe },
    });
    assert!(acts.is_empty());
    assert_eq!(router.subs.subscribers_of(&chat_c()), vec![1]);

    let msg = message(chat_c(), 2, b"hi");
    let expected = encode_chat_message(&msg);
    let acts = router.handle_event(RouterEvent::IncomingMessage { msg });
    assert_eq!(acts.len(), 1);
    match &acts[0] {
        RouterAction::Push { conn, payload } => {
            assert_eq!(*conn, 10);
            assert_eq!(payload, &expected);
            assert_eq!(
                payload,
                &format!(
                    "{{\"chat_id\":\"67e55044-10b1-426f-9247-bb680e5fe0c8\",\
                     \"sender_id\":2,\"date\":1700000000123,\"msg_text\":\"hi\"}}"
                )
                .into_bytes()
            );
        },
        _ => panic!("expected a push"),
    }
}

#[test]
fn closing_one_connection_keeps_the_other() {
    // User A holds two connections; one closes; a message reaches only the
    // surviving connection.
    let mut router = Router::new();
    router.handle_event(RouterEvent::ConnectionOpened { user: 1, conn: 10 });
    router.handle_event(RouterEvent::ConnectionOpened { user: 1, conn: 11 });
    router.handle_backfill_result(1, Ok(vec![chat_c()]));
    let acts = router.handle_event(RouterEvent::ConnectionClosed { user: 1, conn: 10 });
    assert!(acts.is_empty());
    assert_eq!(router.registry.connections_of(1), vec![11]);

    let acts = router.handle_event(RouterEvent::IncomingMessage {
        msg: message(chat_c(), 1, b"still here"),
    });
    assert_eq!(push_conns(&acts), vec![11]);
}

#[test]
fn unsubscribe_then_message_delivers_nothing() {
    let mut router = Router::new();
    router.handle_event(RouterEvent::ConnectionOpened { user: 1, conn: 10 });
    router.handle_backfill_result(1, Ok(vec![chat_c()]));
    router.handle_event(RouterEvent::SubscriptionChanged {
        event: SubscriptionEvent { chat: chat_c(), user: 1, kind: SubscriptionKind::Unsubscribe },
    });
    let acts = router.handle_event(RouterEvent::IncomingMessage {
        msg: message(chat_c(), 2, b"anyone?"),
    });
    assert!(acts.is_empty());
}

#[test]
fn fanout_reaches_every_subscriber_connection_exactly_once() {
    let mut router = Router::new();
    router.handle_event(RouterEvent::ConnectionOpened { user: 1, conn: 10 });
    router.handle_event(RouterEvent::ConnectionOpened { user: 1, conn: 11 });
    router.handle_event(RouterEvent::ConnectionOpened { user: 2, conn: 20 });
    router.handle_event(RouterEvent::ConnectionOpened { user: 3, conn: 30 });
    router.handle_backfill_result(1, Ok(vec![chat_c()]));
    router.handle_backfill_result(2, Ok(vec![chat_c()]));
    router.handle_backfill_result(3, Ok(vec![chat_d()]));

    let acts = router.handle_event(RouterEvent::IncomingMessage {
        msg: message(chat_c(), 1, b"fan out"),
    });
    let mut conns = push_conns(&acts);
    conns.sort();
    assert_eq!(conns, vec![10, 11, 20]);
}

#[test]
fn message_for_unknown_chat_is_a_silent_no_op() {
    let mut router = Router::new();
    router.handle_event(RouterEvent::ConnectionOpened { user: 1, conn: 10 });
    let acts = router.handle_event(RouterEvent::IncomingMessage {
        msg: message(chat_c(), 1, b"void"),
    });
    assert!(acts.is_empty());
}

#[test]
fn register_and_unsubscribe_are_idempotent() {
    let mut reg = ConnectionRegistry::new();
    reg.register(1, 10);
    reg.register(1, 10);
    assert_eq!(reg.connections_of(1), vec![10]);
    reg.unregister(1, 99);
    assert_eq!(reg.connections_of(1), vec![10]);

    let mut subs = SubscriptionTable::new();
    subs.subscribe(&chat_c(), 1);
    subs.subscribe(&chat_c(), 1);
    assert_eq!(subs.subscribers_of(&chat_c()), vec![1]);
    subs.unsubscribe(&chat_c(), 1);
    let once = subs.subscribers_of(&chat_c());
    subs.unsubscribe(&chat_c(), 1);
    let twice = subs.subscribers_of(&chat_c());
    assert_eq!(once, twice);
    assert!(twice.is_empty());
}

#[test]
fn backfill_merges_without_touching_unrelated_chats() {
    let mut subs = SubscriptionTable::new();
    subs.subscribe(&chat_d(), 5);
    subs.backfill(1, &vec![chat_c()]);
    assert_eq!(subs.subscribers_of(&chat_c()), vec![1]);
    assert_eq!(subs.subscribers_of(&chat_d()), vec![5]);
}

#[test]
fn bridge_reaches_readiness_in_order() {
    let mut bridge = BroadcastBridge::new();
    assert!(!bridge.is_ready());
    bridge.start_connecting();
    assert!(!bridge.is_ready());
    bridge.mark_subscribed();
    assert!(bridge.is_ready());
    let (a, b, c) = bridge_channels();
    assert_eq!(a, "subscribe");
    assert_eq!(b, "unsubscribe");
    assert_eq!(c, "chat_message");
}

#[test]
fn envelopes_route_to_their_events() {
    let sub = SubscriptionData { chat_id: chat_c(), user_id: 9 };
    let payload = encode_subscription(&sub);
    match route_envelope(b"subscribe", &payload) {
        Some(RouterEvent::SubscriptionChanged { event }) => {
            assert_eq!(event.user, 9);
            assert!(matches!(event.kind, SubscriptionKind::Subscribe));
            assert_eq!(event.chat.as_bytes(), chat_c().as_bytes());
        },
        _ => panic!("expected a subscribe event"),
    }
    match route_envelope(b"unsubscribe", &payload) {
        Some(RouterEvent::SubscriptionChanged { event }) => {
            assert!(matches!(event.kind, SubscriptionKind::Unsubscribe));
        },
        _ => panic!("expected an unsubscribe event"),
    }
    let msg = message(chat_c(), 2, b"over the wire");
    let payload = encode_chat_message(&msg);
    match route_envelope(b"chat_message", &payload) {
        Some(RouterEvent::IncomingMessage { msg }) => {
            assert_eq!(msg.sender_id, 2);
            assert_eq!(msg.msg_text, b"over the wire".to_vec());
        },
        _ => panic!("expected an incoming message"),
    }
}

#[test]
fn bridge_drops_malformed_and_unknown() {
    assert!(route_envelope(b"subscribe", b"not json").is_none());
    assert!(route_envelope(b"chat_message", b"{}").is_none());
    assert!(route_envelope(b"presence", b"{}").is_none());
    assert!(route_envelope(b"", b"").is_none());
}

#[test]
fn bridged_message_never_triggers_storage() {
    // A message on the chat_message channel goes through the router without
    // a single storage fetch; only a connection opening asks for one.
    let mut router = Router::new();
    router.handle_event(RouterEvent::ConnectionOpened { user: 1, conn: 10 });
    router.handle_backfill_result(1, Ok(vec![chat_c()]));
    let payload = encode_chat_message(&message(chat_c(), 2, b"no fetch"));
    let event = route_envelope(b"chat_message", &payload).unwrap();
    let acts = router.handle_event(event);
    assert!(acts.iter().all(|a| matches!(a, RouterAction::Push { .. })));
    assert_eq!(acts.len(), 1);

    let sub_payload = encode_subscription(&SubscriptionData { chat_id: chat_d(), user_id: 1 });
    let event = route_envelope(b"subscribe", &sub_payload).unwrap();
    let acts = router.handle_event(event);
    assert!(acts.is_empty());
}
