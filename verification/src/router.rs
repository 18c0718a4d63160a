//! The local router: one event in, table changes and actions out.
//!
//! The router owns the connection registry and the subscription table and is
//! a stateless handler over them.  It never performs I/O itself: an event
//! comes in, the tables change as specified, and what must happen outside
//! comes back as actions — fetch a membership list from storage, or push a
//! payload to one connection.  Delivery is fire-and-forget per connection:
//! the caller attempts every push independently.
//!
//! Only `ConnectionOpened` ever asks for a storage fetch; a message arriving
//! over the broadcast medium never does.

use vstd::prelude::*;

use crate::ids::ChatId;
use crate::messages::{ChatMessage, copy_bytes};
use crate::codec::{chat_message_json, encode_chat_message};
use crate::registry::{ConnectionRegistry, spec_register, spec_unregister, spec_conns_of};
use crate::subscriptions::{SubscriptionTable, spec_backfill, spec_subscribers};
use crate::database::DBError;

verus! {

/// Whether a subscription event adds or removes a listener.
#[derive(Clone, Copy, PartialEq, Eq, Structural)]
pub enum SubscriptionKind {
    Subscribe,
    Unsubscribe,
}

/// One subscription change for one user and one conversation.
pub struct SubscriptionEvent {
    pub chat: ChatId,
    pub user: i64,
    pub kind: SubscriptionKind,
}

/// What the router reacts to.
pub enum RouterEvent {
    /// The transport accepted a session for `user` with handle `conn`.
    ConnectionOpened { user: i64, conn: u64 },
    /// The transport reported that `conn` of `user` ended.
    ConnectionClosed { user: i64, conn: u64 },
    /// A subscribe or unsubscribe envelope arrived over the bridge.
    SubscriptionChanged { event: SubscriptionEvent },
    /// A chat message arrived over the bridge.
    IncomingMessage { msg: ChatMessage },
}

/// What the router asks its caller to do.
pub enum RouterAction {
    /// Ask storage for the user's full membership list, then hand the result
    /// to `Router::handle_backfill_result`.
    FetchChats { user: i64 },
    /// Push this payload to this one connection, fire-and-forget.
    Push { conn: u64, payload: Vec<u8> },
}

/// Conversation identities named by an event are well-formed.
pub open spec fn event_wf(e: RouterEvent) -> bool {
    match e {
        RouterEvent::SubscriptionChanged { event } => event.chat.wf(),
        RouterEvent::IncomingMessage { msg } => msg.wf(),
        _ => true,
    }
}

/// The connections that must receive a message for `chat`: every connection
/// whose owner is believed to listen to `chat`.
pub open spec fn fanout_targets(m: Map<u64, i64>, t: Set<(Seq<u8>, i64)>, chat: Seq<u8>) -> Set<
    u64,
> {
    Set::new(|c: u64| m.contains_key(c) && t.contains((chat, m[c])))
}

/// Whether some action in the list pushes to connection `c`.
pub open spec fn pushes_to(acts: Seq<RouterAction>, c: u64) -> bool {
    exists|i: int| 0 <= i < acts.len() && (#[trigger] acts[i])->Push_conn == c
}

/// The router: the two tables and nothing else.
pub struct Router {
    pub registry: ConnectionRegistry,
    pub subs: SubscriptionTable,
}

impl Router {
    pub open spec fn wf(&self) -> bool {
        self.registry.wf() && self.subs.wf()
    }

    /// A router with empty tables, as a fresh process starts.
    pub fn new() -> (r: Router)
        ensures
            r.wf(),
            r.registry@ == Map::<u64, i64>::empty(),
            r.subs@ == Set::<(Seq<u8>, i64)>::empty(),
    {
        Router { registry: ConnectionRegistry::new(), subs: SubscriptionTable::new() }
    }

    /// Handles one event.
    ///
    /// - `ConnectionOpened` registers the connection, leaves the table
    ///   alone, and asks for exactly one storage fetch.
    /// - `ConnectionClosed` unregisters only that one connection.
    /// - `SubscriptionChanged` applies the change to the table only.
    /// - `IncomingMessage` changes nothing and pushes the encoded message to
    ///   exactly the connections of the current subscribers of its
    ///   conversation, each connection exactly once.
    ///
    /// A storage fetch is requested only for `ConnectionOpened`.
    pub fn handle_event(&mut self, e: RouterEvent) -> (acts: Vec<RouterAction>)
        requires
            old(self).wf(),
            event_wf(e),
        ensures
            final(self).wf(),
            forall|i: int|
                0 <= i < acts@.len() && acts@[i] is FetchChats ==> e is ConnectionOpened,
            match e {
                RouterEvent::ConnectionOpened { user, conn } => {
                    &&& final(self).registry@ == spec_register(old(self).registry@, user, conn)
                    &&& final(self).subs@ == old(self).subs@
                    &&& acts@ =~= seq![RouterAction::FetchChats { user }]
                },
                RouterEvent::ConnectionClosed { user, conn } => {
                    &&& final(self).registry@ == spec_unregister(old(self).registry@, user, conn)
                    &&& final(self).subs@ == old(self).subs@
                    &&& acts@.len() == 0
                },
                RouterEvent::SubscriptionChanged { event } => {
                    &&& final(self).registry@ == old(self).registry@
                    &&& (event.kind is Subscribe ==> final(self).subs@ == old(self).subs@.insert(
                        (event.chat@, event.user),
                    ))
                    &&& (event.kind is Unsubscribe ==> final(self).subs@ == old(self).subs@.remove(
                        (event.chat@, event.user),
                    ))
                    &&& acts@.len() == 0
                },
                RouterEvent::IncomingMessage { msg } => {
                    &&& final(self).registry@ == old(self).registry@
                    &&& final(self).subs@ == old(self).subs@
                    &&& forall|i: int|
                        0 <= i < acts@.len() ==> #[trigger] acts@[i] is Push
                            && acts@[i]->Push_payload@ == chat_message_json(
                            msg.chat_id@,
                            msg.sender_id as int,
                            msg.date.millis as int,
                            msg.msg_text@,
                        )
                    &&& forall|i: int, j: int|
                        0 <= i < j < acts@.len() ==> acts@[i]->Push_conn != acts@[j]->Push_conn
                    &&& forall|c: u64|
                        fanout_targets(old(self).registry@, old(self).subs@, msg.chat_id@).contains(
                            c,
                        ) <==> #[trigger] pushes_to(acts@, c)
                },
            },
    {
        match e {
            RouterEvent::ConnectionOpened { user, conn } => {
                self.registry.register(user, conn);
                let mut acts: Vec<RouterAction> = Vec::new();
                acts.push(RouterAction::FetchChats { user });
                acts
            },
            RouterEvent::ConnectionClosed { user, conn } => {
                self.registry.unregister(user, conn);
                Vec::new()
            },
            RouterEvent::SubscriptionChanged { event } => {
                match event.kind {
                    SubscriptionKind::Subscribe => {
                        self.subs.subscribe(&event.chat, event.user);
                    },
                    SubscriptionKind::Unsubscribe => {
                        self.subs.unsubscribe(&event.chat, event.user);
                    },
                }
                Vec::new()
            },
            RouterEvent::IncomingMessage { msg } => self.fan_out(&msg),
        }
    }

    /// Read the tables at this instant and push to every connection of every
    /// current subscriber of the message's conversation, each exactly once.
    fn fan_out(&self, msg: &ChatMessage) -> (acts: Vec<RouterAction>)
        requires
            self.wf(),
            msg.wf(),
        ensures
            forall|i: int|
                0 <= i < acts@.len() ==> #[trigger] acts@[i] is Push && acts@[i]->Push_payload@
                    == chat_message_json(
                    msg.chat_id@,
                    msg.sender_id as int,
                    msg.date.millis as int,
                    msg.msg_text@,
                ),
            forall|i: int, j: int|
                0 <= i < j < acts@.len() ==> acts@[i]->Push_conn != acts@[j]->Push_conn,
            forall|c: u64|
                fanout_targets(self.registry@, self.subs@, msg.chat_id@).contains(c)
                    <==> #[trigger] pushes_to(acts@, c),
    {
        let ghost m = self.registry@;
        let ghost t = self.subs@;
        let ghost chat = msg.chat_id@;
        let payload = encode_chat_message(msg);
        let users = self.subs.subscribers_of(&msg.chat_id);
        let mut acts: Vec<RouterAction> = Vec::new();
        let mut ui: usize = 0;
        while ui < users.len()
            invariant
                self.wf(),
                msg.wf(),
                m == self.registry@,
                t == self.subs@,
                chat == msg.chat_id@,
                payload@ == chat_message_json(
                    msg.chat_id@,
                    msg.sender_id as int,
                    msg.date.millis as int,
                    msg.msg_text@,
                ),
                ui <= users@.len(),
                users@.no_duplicates(),
                forall|u: i64| #[trigger] users@.contains(u) <==> spec_subscribers(
                    t,
                    chat,
                ).contains(u),
                forall|i: int|
                    0 <= i < acts@.len() ==> #[trigger] acts@[i] is Push && acts@[i]->Push_payload@
                        == chat_message_json(
                        msg.chat_id@,
                        msg.sender_id as int,
                        msg.date.millis as int,
                        msg.msg_text@,
                    ),
                forall|i: int, j: int|
                    0 <= i < j < acts@.len() ==> acts@[i]->Push_conn != acts@[j]->Push_conn,
                forall|c: u64| #[trigger] pushes_to(acts@, c) <==> (fanout_targets(
                    m,
                    t,
                    chat,
                ).contains(c) && users@.take(ui as int).contains(m[c])),
            decreases users@.len() - ui,
        {
            let u = users[ui];
            let conns = self.registry.connections_of(u);
            let mut ci: usize = 0;
            while ci < conns.len()
                invariant
                    self.wf(),
                    msg.wf(),
                    m == self.registry@,
                    t == self.subs@,
                    chat == msg.chat_id@,
                    payload@ == chat_message_json(
                        msg.chat_id@,
                        msg.sender_id as int,
                        msg.date.millis as int,
                        msg.msg_text@,
                    ),
                    ui < users@.len(),
                    u == users@[ui as int],
                    users@.no_duplicates(),
                    forall|uu: i64| #[trigger] users@.contains(uu) <==> spec_subscribers(
                        t,
                        chat,
                    ).contains(uu),
                    ci <= conns@.len(),
                    conns@.no_duplicates(),
                    forall|c: u64| #[trigger] conns@.contains(c) <==> spec_conns_of(m, u).contains(
                        c,
                    ),
                    forall|i: int|
                        0 <= i < acts@.len() ==> #[trigger] acts@[i] is Push
                            && acts@[i]->Push_payload@ == chat_message_json(
                            msg.chat_id@,
                            msg.sender_id as int,
                            msg.date.millis as int,
                            msg.msg_text@,
                        ),
                    forall|i: int, j: int|
                        0 <= i < j < acts@.len() ==> acts@[i]->Push_conn != acts@[j]->Push_conn,
                    forall|c: u64| #[trigger] pushes_to(acts@, c) <==> ((fanout_targets(
                        m,
                        t,
                        chat,
                    ).contains(c) && users@.take(ui as int).contains(m[c])) || conns@.take(
                        ci as int,
                    ).contains(c)),
                decreases conns@.len() - ci,
            {
                let c = conns[ci];
                proof {
                    assert(conns@.contains(c));
                    assert(spec_conns_of(m, u).contains(c));
                    if pushes_to(acts@, c) {
                        if conns@.take(ci as int).contains(c) {
                            let k = choose|k: int|
                                0 <= k < ci && #[trigger] conns@.take(ci as int)[k] == c;
                            assert(conns@[k] == conns@[ci as int]);
                            assert(false);
                        } else {
                            assert(users@.take(ui as int).contains(m[c]));
                            assert(m[c] == u);
                            let k = choose|k: int|
                                0 <= k < ui && #[trigger] users@.take(ui as int)[k] == u;
                            assert(users@[k] == users@[ui as int]);
                            assert(false);
                        }
                    }
                }
                let ghost acts0 = acts@;
                acts.push(RouterAction::Push { conn: c, payload: copy_bytes(&payload) });
                proof {
                    assert forall|cc: u64| #[trigger] pushes_to(acts@, cc) implies ((fanout_targets(
                        m,
                        t,
                        chat,
                    ).contains(cc) && users@.take(ui as int).contains(m[cc])) || conns@.take(
                        ci + 1,
                    ).contains(cc)) by {
                        let i = choose|i: int|
                            0 <= i < acts@.len() && (#[trigger] acts@[i])->Push_conn == cc;
                        if i < acts0.len() {
                            assert(acts0[i]->Push_conn == cc);
                            assert(pushes_to(acts0, cc));
                            if conns@.take(ci as int).contains(cc) {
                                let k = choose|k: int|
                                    0 <= k < ci && #[trigger] conns@.take(ci as int)[k] == cc;
                                assert(conns@.take(ci + 1)[k] == cc);
                            }
                        } else {
                            assert(cc == c);
                            assert(conns@.take(ci + 1)[ci as int] == c);
                        }
                    }
                    assert forall|cc: u64|
                        ((fanout_targets(m, t, chat).contains(cc) && users@.take(
                            ui as int,
                        ).contains(m[cc])) || conns@.take(ci + 1).contains(cc)) implies #[trigger]
                        pushes_to(acts@, cc) by {
                        if conns@.take(ci + 1).contains(cc) && !conns@.take(ci as int).contains(
                            cc,
                        ) {
                            let k = choose|k: int|
                                0 <= k < ci + 1 && #[trigger] conns@.take(ci + 1)[k] == cc;
                            if k < ci {
                                assert(conns@.take(ci as int)[k] == cc);
                            }
                            assert(cc == c);
                            assert(acts@[acts@.len() - 1]->Push_conn == cc);
                        } else {
                            assert(pushes_to(acts0, cc));
                            let i = choose|i: int|
                                0 <= i < acts0.len() && (#[trigger] acts0[i])->Push_conn == cc;
                            assert(acts@[i]->Push_conn == cc);
                        }
                    }
                }
                ci = ci + 1;
            }
            proof {
                assert(conns@.take(conns@.len() as int) =~= conns@);
                assert forall|cc: u64| #[trigger] pushes_to(acts@, cc) implies (fanout_targets(
                    m,
                    t,
                    chat,
                ).contains(cc) && users@.take(ui + 1).contains(m[cc])) by {
                    if conns@.contains(cc) {
                        assert(spec_conns_of(m, u).contains(cc));
                        assert(t.contains((chat, u))) by {
                            assert(users@.contains(u));
                        }
                        assert(fanout_targets(m, t, chat).contains(cc));
                        assert(users@.take(ui + 1)[ui as int] == u);
                        assert(users@.take(ui + 1).contains(m[cc]));
                    } else {
                        assert(users@.take(ui as int).contains(m[cc]));
                        let k = choose|k: int|
                            0 <= k < ui && #[trigger] users@.take(ui as int)[k] == m[cc];
                        assert(users@.take(ui + 1)[k] == m[cc]);
                    }
                }
                assert forall|cc: u64|
                    (fanout_targets(m, t, chat).contains(cc) && users@.take(ui + 1).contains(
                        m[cc],
                    )) implies #[trigger] pushes_to(acts@, cc) by {
                    let k = choose|k: int|
                        0 <= k < ui + 1 && #[trigger] users@.take(ui + 1)[k] == m[cc];
                    if k < ui {
                        assert(users@.take(ui as int)[k] == m[cc]);
                        assert(users@.take(ui as int).contains(m[cc]));
                    } else {
                        assert(m[cc] == u);
                        assert(spec_conns_of(m, u).contains(cc));
                        assert(conns@.contains(cc));
                    }
                }
            }
            ui = ui + 1;
        }
        proof {
            assert(users@.take(users@.len() as int) =~= users@);
            assert forall|c: u64|
                fanout_targets(m, t, chat).contains(c) implies #[trigger] pushes_to(acts@, c) by {
                assert(t.contains((chat, m[c])));
                assert(spec_subscribers(t, chat).contains(m[c]));
                assert(users@.contains(m[c]));
            }
        }
        acts
    }

    /// Applies the outcome of the storage fetch that a `ConnectionOpened`
    /// asked for.  On success the membership list is merged into the
    /// subscription table; on failure everything is left unchanged — the
    /// user may miss messages until the next reconnect, a soft degradation.
    /// The registry is never touched.
    pub fn handle_backfill_result(&mut self, user: i64, fetched: Result<Vec<ChatId>, DBError>)
        requires
            old(self).wf(),
        ensures
            final(self).wf(),
            final(self).registry@ == old(self).registry@,
            fetched matches Ok(chats) ==> final(self).subs@ == spec_backfill(
                old(self).subs@,
                chats@.map_values(|c: ChatId| c@),
                user,
            ),
            fetched is Err ==> final(self).subs@ == old(self).subs@,
    {
        match fetched {
            Ok(chats) => {
                self.subs.backfill(user, &chats);
            },
            Err(_) => {},
        }
    }
}

} // verus!
