//! The subscription table: which users are believed to listen to which
//! conversations.
//!
//! The table is a set of (conversation, user) pairs.  Subscribing and the
//! backfill only ever add pairs; an explicit unsubscribe removes exactly one
//! pair; nothing else removes anything.  A conversation nobody is known to
//! listen to simply has no pairs — absence is not authoritative, storage is.

use vstd::prelude::*;

use crate::ids::ChatId;

verus! {

/// One listener: a user believed to be a member of a conversation.
pub struct SubEntry {
    pub chat: ChatId,
    pub user: i64,
}

/// The table of believed memberships.
pub struct SubscriptionTable {
    pub entries: Vec<SubEntry>,
}

/// The pair set a list of entries stands for.
pub open spec fn pairs_set(s: Seq<SubEntry>) -> Set<(Seq<u8>, i64)>
    decreases s.len(),
{
    if s.len() == 0 {
        Set::empty()
    } else {
        pairs_set(s.drop_last()).insert((s.last().chat@, s.last().user))
    }
}

/// The users subscribed to one conversation under a pair set.
pub open spec fn spec_subscribers(t: Set<(Seq<u8>, i64)>, chat: Seq<u8>) -> Set<i64> {
    Set::new(|u: i64| t.contains((chat, u)))
}

/// What the backfill does: every listed conversation gains this user, and
/// nothing else changes.
pub open spec fn spec_backfill(
    t: Set<(Seq<u8>, i64)>,
    chats: Seq<Seq<u8>>,
    user: i64,
) -> Set<(Seq<u8>, i64)> {
    Set::new(
        |p: (Seq<u8>, i64)|
            t.contains(p) || (p.1 == user && exists|i: int| 0 <= i < chats.len() && chats[i]
                == p.0),
    )
}

/// A pair is in the set exactly when some entry spells it.
pub proof fn lemma_pairs_set(s: Seq<SubEntry>)
    ensures
        forall|p: (Seq<u8>, i64)| #[trigger] pairs_set(s).contains(p) <==> exists|i: int|
            0 <= i < s.len() && (s[i].chat@, s[i].user) == p,
    decreases s.len(),
{
    if s.len() > 0 {
        lemma_pairs_set(s.drop_last());
        assert forall|p: (Seq<u8>, i64)| #[trigger] pairs_set(s).contains(p) implies exists|i: int|
            0 <= i < s.len() && (s[i].chat@, s[i].user) == p by {
            if p == (s.last().chat@, s.last().user) {
                assert((s[s.len() - 1].chat@, s[s.len() - 1].user) == p);
            } else {
                assert(pairs_set(s.drop_last()).contains(p));
                let i = choose|i: int|
                    0 <= i < s.drop_last().len() && (s.drop_last()[i].chat@, s.drop_last()[i].user)
                        == p;
                assert(s.drop_last()[i] == s[i]);
                assert((s[i].chat@, s[i].user) == p);
            }
        }
        assert forall|p: (Seq<u8>, i64)| (exists|i: int|
            0 <= i < s.len() && (s[i].chat@, s[i].user) == p) implies #[trigger] pairs_set(
            s,
        ).contains(p) by {
            let i = choose|i: int| 0 <= i < s.len() && (s[i].chat@, s[i].user) == p;
            if i < s.len() - 1 {
                assert((s.drop_last()[i].chat@, s.drop_last()[i].user) == p);
                assert(pairs_set(s.drop_last()).contains(p));
            }
        }
    }
}

/// Removing one entry of a duplicate-free list removes exactly its pair.
proof fn lemma_pairs_set_remove(s: Seq<SubEntry>, i: int)
    requires
        forall|a: int, b: int|
            0 <= a < b < s.len() ==> !(s[a].chat@ == s[b].chat@ && s[a].user == s[b].user),
        0 <= i < s.len(),
    ensures
        pairs_set(s.remove(i)) == pairs_set(s).remove((s[i].chat@, s[i].user)),
    decreases s.len(),
{
    lemma_pairs_set(s);
    lemma_pairs_set(s.drop_last());
    let p = (s[i].chat@, s[i].user);
    if i == s.len() - 1 {
        assert(s.remove(i) =~= s.drop_last());
        assert(!pairs_set(s.drop_last()).contains(p)) by {
            if pairs_set(s.drop_last()).contains(p) {
                let j = choose|j: int|
                    0 <= j < s.drop_last().len() && (s.drop_last()[j].chat@, s.drop_last()[j].user)
                        == p;
                assert((s[j].chat@, s[j].user) == p);
            }
        }
        assert(pairs_set(s.drop_last()) =~= pairs_set(s).remove(p));
    } else {
        assert(s.remove(i).drop_last() =~= s.drop_last().remove(i));
        assert(s.remove(i).last() == s.last());
        lemma_pairs_set_remove(s.drop_last(), i);
        assert(pairs_set(s.remove(i)) == pairs_set(s.drop_last()).remove(p).insert(
            (s.last().chat@, s.last().user),
        ));
        assert(p != (s.last().chat@, s.last().user));
        assert(pairs_set(s.drop_last()).remove(p).insert((s.last().chat@, s.last().user))
            =~= pairs_set(s).remove(p));
    }
}

impl View for SubscriptionTable {
    type V = Set<(Seq<u8>, i64)>;

    open spec fn view(&self) -> Set<(Seq<u8>, i64)> {
        pairs_set(self.entries@)
    }
}

impl SubscriptionTable {
    /// No pair is listed twice.
    pub open spec fn wf(&self) -> bool {
        forall|a: int, b: int|
            0 <= a < b < self.entries@.len() ==> !(self.entries@[a].chat@ == self.entries@[b].chat@
                && self.entries@[a].user == self.entries@[b].user)
    }

    /// An empty table.
    pub fn new() -> (r: SubscriptionTable)
        ensures
            r.wf(),
            r@ == Set::<(Seq<u8>, i64)>::empty(),
    {
        SubscriptionTable { entries: Vec::new() }
    }

    /// Notes that `user` listens to `chat`.  Idempotent.
    pub fn subscribe(&mut self, chat: &ChatId, user: i64)
        requires
            old(self).wf(),
        ensures
            final(self).wf(),
            final(self)@ == old(self)@.insert((chat@, user)),
    {
        proof {
            lemma_pairs_set(self.entries@);
        }
        let mut i: usize = 0;
        while i < self.entries.len()
            invariant
                self == old(self),
                self.wf(),
                i <= self.entries@.len(),
                forall|j: int| 0 <= j < i ==> !(self.entries@[j].chat@ == chat@
                    && self.entries@[j].user == user),
            decreases self.entries@.len() - i,
        {
            if self.entries[i].chat == *chat && self.entries[i].user == user {
                proof {
                    lemma_pairs_set(self.entries@);
                    assert((self.entries@[i as int].chat@, self.entries@[i as int].user) == (
                        chat@,
                        user,
                    ));
                    assert(self@.contains((chat@, user)));
                    assert(self@ =~= self@.insert((chat@, user)));
                }
                return ;
            }
            i = i + 1;
        }
        let ghost s0 = self.entries@;
        let entry = SubEntry { chat: chat.clone(), user };
        proof {
            lemma_pairs_set(s0);
        }
        self.entries.push(entry);
        proof {
            assert(self.entries@.drop_last() =~= s0);
            assert(self.entries@.last().chat@ == chat@ && self.entries@.last().user == user);
            assert(pairs_set(self.entries@) == pairs_set(s0).insert((chat@, user)));
            assert forall|a: int, b: int|
                0 <= a < b < self.entries@.len() implies !(self.entries@[a].chat@
                == self.entries@[b].chat@ && self.entries@[a].user == self.entries@[b].user) by {
                if b == self.entries@.len() - 1 {
                    assert(self.entries@[a] == s0[a]);
                }
            }
        }
    }

    /// Forgets that `user` listens to `chat`.  Removing an absent pair is a
    /// no-op; no other pair is ever touched.
    pub fn unsubscribe(&mut self, chat: &ChatId, user: i64)
        requires
            old(self).wf(),
        ensures
            final(self).wf(),
            final(self)@ == old(self)@.remove((chat@, user)),
    {
        let mut i: usize = 0;
        while i < self.entries.len()
            invariant
                self == old(self),
                self.wf(),
                i <= self.entries@.len(),
                forall|j: int| 0 <= j < i ==> !(self.entries@[j].chat@ == chat@
                    && self.entries@[j].user == user),
            decreases self.entries@.len() - i,
        {
            if self.entries[i].chat == *chat && self.entries[i].user == user {
                let ghost s0 = self.entries@;
                proof {
                    lemma_pairs_set_remove(s0, i as int);
                }
                self.entries.remove(i);
                proof {
                    assert forall|a: int, b: int|
                        0 <= a < b < self.entries@.len() implies !(self.entries@[a].chat@
                        == self.entries@[b].chat@ && self.entries@[a].user
                        == self.entries@[b].user) by {
                        let aa = if a < i as int { a } else { a + 1 };
                        let bb = if b < i as int { b } else { b + 1 };
                        assert(self.entries@[a] == s0[aa] && self.entries@[b] == s0[bb]);
                    }
                }
                return ;
            }
            i = i + 1;
        }
        proof {
            lemma_pairs_set(self.entries@);
            if self@.contains((chat@, user)) {
                let j = choose|j: int|
                    0 <= j < self.entries@.len() && (self.entries@[j].chat@, self.entries@[j].user)
                        == (chat@, user);
                assert(self.entries@[j].chat@ == chat@ && self.entries@[j].user == user);
            }
            assert(self@ =~= self@.remove((chat@, user)));
        }
    }

    /// Merges `user` into every listed conversation's listeners; unrelated
    /// pairs are untouched.  This is the backfill a fresh connection runs
    /// against the storage membership list.
    pub fn backfill(&mut self, user: i64, chats: &Vec<ChatId>)
        requires
            old(self).wf(),
        ensures
            final(self).wf(),
            final(self)@ == spec_backfill(old(self)@, chats@.map_values(|c: ChatId| c@), user),
    {
        let ghost cviews = chats@.map_values(|c: ChatId| c@);
        let mut i: usize = 0;
        while i < chats.len()
            invariant
                self.wf(),
                i <= chats@.len(),
                cviews == chats@.map_values(|c: ChatId| c@),
                self@ == spec_backfill(old(self)@, cviews.take(i as int), user),
            decreases chats@.len() - i,
        {
            proof {
                if i == 0 {
                }
            }
            self.subscribe(&chats[i], user);
            proof {
                assert(cviews[i as int] == chats@[i as int]@);
                assert(self@ =~= spec_backfill(old(self)@, cviews.take(i + 1), user)) by {
                    assert forall|p: (Seq<u8>, i64)| #[trigger] self@.contains(p) implies
                        spec_backfill(old(self)@, cviews.take(i + 1), user).contains(p) by {
                        if p == (chats@[i as int]@, user) {
                            assert(cviews.take(i + 1)[i as int] == p.0);
                        } else {
                            if !old(self)@.contains(p) {
                                let j = choose|j: int|
                                    0 <= j < i && cviews.take(i as int)[j] == p.0;
                                assert(cviews.take(i + 1)[j] == p.0);
                            }
                        }
                    }
                    assert forall|p: (Seq<u8>, i64)|
                        spec_backfill(old(self)@, cviews.take(i + 1), user).contains(p) implies
                        #[trigger] self@.contains(p) by {
                        if !old(self)@.contains(p) {
                            let j = choose|j: int|
                                0 <= j < i + 1 && #[trigger] cviews.take(i + 1)[j] == p.0;
                            if j < i {
                                assert(cviews.take(i as int)[j] == p.0);
                            } else {
                                assert(p.0 == chats@[i as int]@);
                            }
                        }
                    }
                }
            }
            i = i + 1;
        }
        proof {
            assert(cviews.take(chats@.len() as int) =~= cviews);
        }
    }

    /// Every user believed to listen to `chat`, each exactly once.
    pub fn subscribers_of(&self, chat: &ChatId) -> (r: Vec<i64>)
        requires
            self.wf(),
        ensures
            r@.no_duplicates(),
            forall|u: i64| #[trigger] r@.contains(u) <==> spec_subscribers(self@, chat@).contains(
                u,
            ),
    {
        proof {
            lemma_pairs_set(self.entries@);
        }
        let mut out: Vec<i64> = Vec::new();
        let mut i: usize = 0;
        while i < self.entries.len()
            invariant
                self.wf(),
                i <= self.entries@.len(),
                out@.no_duplicates(),
                forall|u: i64| #[trigger] out@.contains(u) <==> exists|j: int|
                    0 <= j < i && self.entries@[j].chat@ == chat@ && self.entries@[j].user == u,
            decreases self.entries@.len() - i,
        {
            let ghost out0 = out@;
            let ghost ii = i as int;
            if self.entries[i].chat == *chat {
                let u = self.entries[i].user;
                proof {
                    if out0.contains(u) {
                        let j = choose|j: int| 0 <= j < ii && self.entries@[j].chat@ == chat@
                            && self.entries@[j].user == u;
                        assert(false);
                    }
                }
                out.push(u);
                proof {
                    assert(out@ == out0.push(u));
                    assert forall|a: int, b: int| 0 <= a < b < out@.len() implies out@[a]
                        != out@[b] by {
                        if b < out0.len() {
                            assert(out0[a] != out0[b]);
                        } else {
                            if out@[a] == u {
                                assert(out0.contains(u));
                            }
                        }
                    }
                    assert forall|uu: i64| #[trigger] out@.contains(uu) implies exists|j: int|
                        0 <= j < ii + 1 && self.entries@[j].chat@ == chat@ && self.entries@[j].user
                        == uu by {
                        let k = choose|k: int| 0 <= k < out@.len() && out@[k] == uu;
                        if k < out0.len() {
                            assert(out0[k] == uu);
                            assert(out0.contains(uu));
                            let j = choose|j: int| 0 <= j < ii && self.entries@[j].chat@ == chat@
                                && self.entries@[j].user == uu;
                            assert(0 <= j < ii + 1 && self.entries@[j].chat@ == chat@
                                && self.entries@[j].user == uu);
                        } else {
                            assert(uu == u);
                            assert(self.entries@[ii].chat@ == chat@ && self.entries@[ii].user
                                == uu);
                        }
                    }
                    assert forall|uu: i64| (exists|j: int|
                        0 <= j < ii + 1 && self.entries@[j].chat@ == chat@ && self.entries@[j].user
                            == uu) implies #[trigger] out@.contains(uu) by {
                        let j = choose|j: int| 0 <= j < ii + 1 && self.entries@[j].chat@ == chat@
                            && self.entries@[j].user == uu;
                        if j < ii {
                            assert(out0.contains(uu));
                            let k = choose|k: int| 0 <= k < out0.len() && out0[k] == uu;
                            assert(out@[k] == uu);
                        } else {
                            assert(out@[out@.len() - 1] == uu);
                        }
                    }
                }
            } else {
                proof {
                    assert forall|uu: i64| (exists|j: int|
                        0 <= j < ii + 1 && self.entries@[j].chat@ == chat@ && self.entries@[j].user
                            == uu) implies #[trigger] out@.contains(uu) by {
                        let j = choose|j: int| 0 <= j < ii + 1 && self.entries@[j].chat@ == chat@
                            && self.entries@[j].user == uu;
                        assert(j < ii);
                    }
                }
            }
            i = i + 1;
        }
        proof {
            assert forall|u: i64| #[trigger] out@.contains(u) implies spec_subscribers(
                self@,
                chat@,
            ).contains(u) by {
                let j = choose|j: int| 0 <= j < self.entries@.len() && self.entries@[j].chat@
                    == chat@ && self.entries@[j].user == u;
                assert((self.entries@[j].chat@, self.entries@[j].user) == (chat@, u));
                assert(self@.contains((chat@, u)));
            }
            assert forall|u: i64| spec_subscribers(self@, chat@).contains(u) implies #[trigger]
                out@.contains(u) by {
                assert(self@.contains((chat@, u)));
                let j = choose|j: int|
                    0 <= j < self.entries@.len() && (self.entries@[j].chat@, self.entries@[j].user)
                        == (chat@, u);
                assert(self.entries@[j].chat@ == chat@ && self.entries@[j].user == u);
            }
        }
        out
    }
}

} // verus!
