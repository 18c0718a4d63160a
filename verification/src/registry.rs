//! The connection registry: which live connections each user holds.
//!
//! A connection handle is an opaque comparable value owned by exactly one
//! user, so the registry is a map from connection to owner; a user's
//! connection set is everything mapped to that user.  Registering a pair
//! twice, or a handle already owned, changes nothing; unregistering an
//! unknown pair is a no-op and never touches another connection.

use vstd::prelude::*;

verus! {

/// One live connection and the user that owns it.
pub struct ConnEntry {
    pub conn: u64,
    pub user: i64,
}

/// The registry of live connections.
pub struct ConnectionRegistry {
    pub entries: Vec<ConnEntry>,
}

/// The map a list of entries stands for, later entries winning.
pub open spec fn entries_map(s: Seq<ConnEntry>) -> Map<u64, i64>
    decreases s.len(),
{
    if s.len() == 0 {
        Map::empty()
    } else {
        entries_map(s.drop_last()).insert(s.last().conn, s.last().user)
    }
}

/// What registering does: a handle already present keeps its owner.
pub open spec fn spec_register(m: Map<u64, i64>, user: i64, conn: u64) -> Map<u64, i64> {
    if m.contains_key(conn) {
        m
    } else {
        m.insert(conn, user)
    }
}

/// What unregistering does: only the exact pair is removed.
pub open spec fn spec_unregister(m: Map<u64, i64>, user: i64, conn: u64) -> Map<u64, i64> {
    if m.contains_key(conn) && m[conn] == user {
        m.remove(conn)
    } else {
        m
    }
}

/// The connections a user holds under a registry map.
pub open spec fn spec_conns_of(m: Map<u64, i64>, user: i64) -> Set<u64> {
    Set::new(|c: u64| m.contains_key(c) && m[c] == user)
}

/// A key of the map is exactly a connection among the entries, with its
/// listed owner, as long as no connection is listed twice.
pub proof fn lemma_entries_map(s: Seq<ConnEntry>)
    requires
        forall|i: int, j: int| 0 <= i < j < s.len() ==> s[i].conn != s[j].conn,
    ensures
        forall|c: u64| #[trigger] entries_map(s).contains_key(c) <==> exists|i: int|
            0 <= i < s.len() && s[i].conn == c,
        forall|i: int| 0 <= i < s.len() ==> entries_map(s)[#[trigger] s[i].conn] == s[i].user,
    decreases s.len(),
{
    if s.len() > 0 {
        lemma_entries_map(s.drop_last());
        assert forall|i: int| 0 <= i < s.len() implies entries_map(s)[#[trigger] s[i].conn]
            == s[i].user by {
            if i < s.len() - 1 {
                assert(s[i].conn != s.last().conn);
                assert(s.drop_last()[i] == s[i]);
            }
        }
        assert forall|c: u64| #[trigger] entries_map(s).contains_key(c) implies exists|i: int|
            0 <= i < s.len() && s[i].conn == c by {
            if c == s.last().conn {
                assert(s[s.len() - 1].conn == c);
            } else {
                assert(entries_map(s) == entries_map(s.drop_last()).insert(
                    s.last().conn,
                    s.last().user,
                ));
                assert(entries_map(s.drop_last()).contains_key(c));
                let i = choose|i: int|
                    0 <= i < s.drop_last().len() && s.drop_last()[i].conn == c;
                assert(s.drop_last()[i] == s[i]);
                assert(s[i].conn == c);
            }
        }
        assert forall|c: u64| (exists|i: int| 0 <= i < s.len() && s[i].conn == c) implies #[trigger]
            entries_map(s).contains_key(c) by {
            let i = choose|i: int| 0 <= i < s.len() && s[i].conn == c;
            if i < s.len() - 1 {
                assert(s.drop_last()[i].conn == c);
            }
        }
    }
}

/// Removing one entry removes exactly its key from the map.
proof fn lemma_entries_map_remove(s: Seq<ConnEntry>, i: int)
    requires
        forall|a: int, b: int| 0 <= a < b < s.len() ==> s[a].conn != s[b].conn,
        0 <= i < s.len(),
    ensures
        entries_map(s.remove(i)) == entries_map(s).remove(s[i].conn),
    decreases s.len(),
{
    lemma_entries_map(s);
    lemma_entries_map(s.drop_last());
    if i == s.len() - 1 {
        assert(s.remove(i) =~= s.drop_last());
        assert(!entries_map(s.drop_last()).contains_key(s[i].conn)) by {
            if entries_map(s.drop_last()).contains_key(s[i].conn) {
                let j = choose|j: int| 0 <= j < s.len() - 1 && s.drop_last()[j].conn == s[i].conn;
                assert(s[j].conn == s[i].conn);
            }
        }
        assert(entries_map(s.drop_last()) =~= entries_map(s).remove(s[i].conn));
    } else {
        let c = s[i].conn;
        assert(s.remove(i).drop_last() =~= s.drop_last().remove(i));
        assert(s.remove(i).last() == s.last());
        lemma_entries_map_remove(s.drop_last(), i);
        assert(entries_map(s.remove(i)) == entries_map(s.drop_last()).remove(c).insert(
            s.last().conn,
            s.last().user,
        ));
        assert(c != s.last().conn);
        assert(entries_map(s.drop_last()).remove(c).insert(s.last().conn, s.last().user)
            =~= entries_map(s).remove(c));
    }
}

impl View for ConnectionRegistry {
    type V = Map<u64, i64>;

    open spec fn view(&self) -> Map<u64, i64> {
        entries_map(self.entries@)
    }
}

impl ConnectionRegistry {
    /// No connection is listed under two users, nor twice under one.
    pub open spec fn wf(&self) -> bool {
        forall|i: int, j: int|
            0 <= i < j < self.entries@.len() ==> self.entries@[i].conn != self.entries@[j].conn
    }

    /// An empty registry.
    pub fn new() -> (r: ConnectionRegistry)
        ensures
            r.wf(),
            r@ == Map::<u64, i64>::empty(),
    {
        ConnectionRegistry { entries: Vec::new() }
    }

    /// Notes that `user` holds the live connection `conn`.  Idempotent: a
    /// handle already present, under whatever owner, is left as it is.
    pub fn register(&mut self, user: i64, conn: u64)
        requires
            old(self).wf(),
        ensures
            final(self).wf(),
            final(self)@ == spec_register(old(self)@, user, conn),
    {
        proof {
            lemma_entries_map(self.entries@);
        }
        let mut i: usize = 0;
        while i < self.entries.len()
            invariant
                self == old(self),
                self.wf(),
                i <= self.entries@.len(),
                forall|j: int| 0 <= j < i ==> self.entries@[j].conn != conn,
            decreases self.entries@.len() - i,
        {
            if self.entries[i].conn == conn {
                proof {
                    lemma_entries_map(self.entries@);
                    assert(self@.contains_key(conn));
                }
                return ;
            }
            i = i + 1;
        }
        proof {
            lemma_entries_map(self.entries@);
            assert(!self@.contains_key(conn));
        }
        let ghost s0 = self.entries@;
        self.entries.push(ConnEntry { conn, user });
        proof {
            assert(self.entries@.drop_last() =~= s0);
            assert(self.entries@.last() == ConnEntry { conn, user });
            assert(entries_map(self.entries@) == entries_map(s0).insert(conn, user));
            assert forall|a: int, b: int|
                0 <= a < b < self.entries@.len() implies self.entries@[a].conn
                != self.entries@[b].conn by {
                if b == self.entries@.len() - 1 {
                    assert(self.entries@[a] == s0[a]);
                }
            }
        }
    }

    /// Forgets the pair `(user, conn)`.  Unknown pairs are a no-op; other
    /// connections of the same user are never touched.
    pub fn unregister(&mut self, user: i64, conn: u64)
        requires
            old(self).wf(),
        ensures
            final(self).wf(),
            final(self)@ == spec_unregister(old(self)@, user, conn),
    {
        let mut i: usize = 0;
        while i < self.entries.len()
            invariant
                self == old(self),
                self.wf(),
                i <= self.entries@.len(),
                forall|j: int| 0 <= j < i ==> !(self.entries@[j].conn == conn
                    && self.entries@[j].user == user),
            decreases self.entries@.len() - i,
        {
            if self.entries[i].conn == conn && self.entries[i].user == user {
                let ghost s0 = self.entries@;
                proof {
                    lemma_entries_map(s0);
                    lemma_entries_map_remove(s0, i as int);
                }
                self.entries.remove(i);
                proof {
                    assert forall|a: int, b: int|
                        0 <= a < b < self.entries@.len() implies self.entries@[a].conn
                        != self.entries@[b].conn by {
                        let aa = if a < i as int { a } else { a + 1 };
                        let bb = if b < i as int { b } else { b + 1 };
                        assert(self.entries@[a] == s0[aa] && self.entries@[b] == s0[bb]);
                    }
                }
                return ;
            }
            i = i + 1;
        }
        proof {
            lemma_entries_map(self.entries@);
            if self@.contains_key(conn) && self@[conn] == user {
                let j = choose|j: int| 0 <= j < self.entries@.len() && self.entries@[j].conn
                    == conn;
                assert(self.entries@[j].user == user);
            }
        }
    }

    /// Every connection the user holds, each exactly once.
    pub fn connections_of(&self, user: i64) -> (r: Vec<u64>)
        requires
            self.wf(),
        ensures
            r@.no_duplicates(),
            forall|c: u64| #[trigger] r@.contains(c) <==> spec_conns_of(self@, user).contains(c),
    {
        proof {
            lemma_entries_map(self.entries@);
        }
        let mut out: Vec<u64> = Vec::new();
        let mut i: usize = 0;
        while i < self.entries.len()
            invariant
                self.wf(),
                i <= self.entries@.len(),
                out@.no_duplicates(),
                forall|c: u64| #[trigger] out@.contains(c) <==> exists|j: int|
                    0 <= j < i && self.entries@[j].conn == c && self.entries@[j].user == user,
            decreases self.entries@.len() - i,
        {
            let ghost out0 = out@;
            let ghost ii = i as int;
            if self.entries[i].user == user {
                let c = self.entries[i].conn;
                proof {
                    if out0.contains(c) {
                        let j = choose|j: int| 0 <= j < ii && self.entries@[j].conn == c
                            && self.entries@[j].user == user;
                        assert(self.entries@[j].conn == self.entries@[ii].conn);
                        assert(false);
                    }
                }
                out.push(c);
                proof {
                    assert(out@ == out0.push(c));
                    assert forall|a: int, b: int| 0 <= a < b < out@.len() implies out@[a]
                        != out@[b] by {
                        if b < out0.len() {
                            assert(out0[a] != out0[b]);
                        } else {
                            if out@[a] == c {
                                assert(out0.contains(c));
                            }
                        }
                    }
                    assert forall|cc: u64| #[trigger] out@.contains(cc) implies exists|j: int|
                        0 <= j < ii + 1 && self.entries@[j].conn == cc && self.entries@[j].user
                        == user by {
                        let k = choose|k: int| 0 <= k < out@.len() && out@[k] == cc;
                        if k < out0.len() {
                            assert(out0[k] == cc);
                            assert(out0.contains(cc));
                            let j = choose|j: int| 0 <= j < ii && self.entries@[j].conn == cc
                                && self.entries@[j].user == user;
                            assert(0 <= j < ii + 1 && self.entries@[j].conn == cc
                                && self.entries@[j].user == user);
                        } else {
                            assert(cc == c);
                            assert(self.entries@[ii].conn == cc && self.entries@[ii].user == user);
                        }
                    }
                    assert forall|cc: u64| (exists|j: int|
                        0 <= j < ii + 1 && self.entries@[j].conn == cc && self.entries@[j].user
                            == user) implies #[trigger] out@.contains(cc) by {
                        let j = choose|j: int| 0 <= j < ii + 1 && self.entries@[j].conn == cc
                            && self.entries@[j].user == user;
                        if j < ii {
                            assert(out0.contains(cc));
                            let k = choose|k: int| 0 <= k < out0.len() && out0[k] == cc;
                            assert(out@[k] == cc);
                        } else {
                            assert(out@[out@.len() - 1] == cc);
                        }
                    }
                }
            } else {
                proof {
                    assert forall|cc: u64| (exists|j: int|
                        0 <= j < ii + 1 && self.entries@[j].conn == cc && self.entries@[j].user
                            == user) implies #[trigger] out@.contains(cc) by {
                        let j = choose|j: int| 0 <= j < ii + 1 && self.entries@[j].conn == cc
                            && self.entries@[j].user == user;
                        assert(j < ii);
                    }
                }
            }
            i = i + 1;
        }
        proof {
            assert forall|c: u64| #[trigger] out@.contains(c) implies spec_conns_of(
                self@,
                user,
            ).contains(c) by {
                let j = choose|j: int| 0 <= j < self.entries@.len() && self.entries@[j].conn == c
                    && self.entries@[j].user == user;
                assert(self@.contains_key(c));
            }
            assert forall|c: u64| spec_conns_of(self@, user).contains(c) implies #[trigger]
                out@.contains(c) by {
                let j = choose|j: int| 0 <= j < self.entries@.len() && self.entries@[j].conn == c;
                assert(self.entries@[j].user == user);
            }
        }
        out
    }
}

} // verus!
