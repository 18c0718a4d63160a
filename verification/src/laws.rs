//! The laws of the router's tables, proved once and for all states.
//!
//! Each proof function here states a property of the table transitions that
//! the operations' own contracts describe, for every table and every input.

use vstd::prelude::*;

use crate::registry::{spec_register, spec_unregister, spec_conns_of};
use crate::subscriptions::{spec_backfill, spec_subscribers};

verus! {

/// After a successful backfill of `chats` for `user`, the user is a
/// subscriber of every one of those conversations.  A `ConnectionOpened`
/// before the backfill only touches the registry, so this holds of the
/// opened-then-backfilled sequence as a whole.
pub proof fn lemma_backfill_subscribes(
    t: Set<(Seq<u8>, i64)>,
    chats: Seq<Seq<u8>>,
    user: i64,
)
    ensures
        forall|i: int|
            0 <= i < chats.len() ==> spec_subscribers(
                spec_backfill(t, chats, user),
                #[trigger] chats[i],
            ).contains(user),
{
    assert forall|i: int| 0 <= i < chats.len() implies spec_subscribers(
        spec_backfill(t, chats, user),
        #[trigger] chats[i],
    ).contains(user) by {
        assert(spec_backfill(t, chats, user).contains((chats[i], user)));
    }
}

/// The backfill is purely additive: every pair already believed stays, and
/// a conversation not in the fetched list keeps exactly its subscribers.
pub proof fn lemma_backfill_additive(t: Set<(Seq<u8>, i64)>, chats: Seq<Seq<u8>>, user: i64)
    ensures
        forall|p: (Seq<u8>, i64)| t.contains(p) ==> spec_backfill(t, chats, user).contains(p),
        forall|chat: Seq<u8>, u: i64|
            !chats.contains(chat) ==> (spec_subscribers(
                spec_backfill(t, chats, user),
                chat,
            ).contains(u) <==> spec_subscribers(t, chat).contains(u)),
{
    assert forall|chat: Seq<u8>, u: i64| !chats.contains(chat) implies (spec_subscribers(
        spec_backfill(t, chats, user),
        chat,
    ).contains(u) <==> spec_subscribers(t, chat).contains(u)) by {
        if spec_backfill(t, chats, user).contains((chat, u)) && !t.contains((chat, u)) {
            let i = choose|i: int| 0 <= i < chats.len() && chats[i] == chat;
            assert(chats.contains(chat));
        }
    }
}

/// Unsubscribing twice is unsubscribing once: the table transition is
/// idempotent.
pub proof fn lemma_unsubscribe_idempotent(t: Set<(Seq<u8>, i64)>, chat: Seq<u8>, user: i64)
    ensures
        t.remove((chat, user)).remove((chat, user)) == t.remove((chat, user)),
{
    assert(t.remove((chat, user)).remove((chat, user)) =~= t.remove((chat, user)));
}

/// Subscribing twice is subscribing once.
pub proof fn lemma_subscribe_idempotent(t: Set<(Seq<u8>, i64)>, chat: Seq<u8>, user: i64)
    ensures
        t.insert((chat, user)).insert((chat, user)) == t.insert((chat, user)),
{
    assert(t.insert((chat, user)).insert((chat, user)) =~= t.insert((chat, user)));
}

/// Registering the same pair twice changes nothing further.
pub proof fn lemma_register_idempotent(m: Map<u64, i64>, user: i64, conn: u64)
    ensures
        spec_register(spec_register(m, user, conn), user, conn) == spec_register(m, user, conn),
{
}

/// Unregistering the same pair twice changes nothing further.
pub proof fn lemma_unregister_idempotent(m: Map<u64, i64>, user: i64, conn: u64)
    ensures
        spec_unregister(spec_unregister(m, user, conn), user, conn) == spec_unregister(
            m,
            user,
            conn,
        ),
{
}

/// Closing one connection removes no other: any connection other than the
/// closed one belongs to a user afterwards exactly as it did before.  The
/// subscription table is not involved at all: a close changes the registry
/// only.
pub proof fn lemma_close_keeps_other_connections(
    m: Map<u64, i64>,
    user: i64,
    conn: u64,
    v: i64,
    c2: u64,
)
    requires
        c2 != conn,
    ensures
        spec_conns_of(spec_unregister(m, user, conn), v).contains(c2) <==> spec_conns_of(
            m,
            v,
        ).contains(c2),
{
}

} // verus!
