//! Logged-in users: open connections grouped by user and by session.

use crate::grouping::{entry_index, keys_increasing, keys_of, lemma_text_less_total};
use crate::process::Pid;
use crate::sorted::{increasing, insert_sorted};
use vstd::prelude::*;

verus! {

/// Identifier of a login session
pub type SessionId = i64;

/// One open connection of a user, as the operating system reports it
pub struct UserConnection {
    /// Name of the connected user
    pub username: String,
    /// Session the connection belongs to
    pub session_id: SessionId,
    /// PID of the login process of the connection
    pub pid: Pid,
}

/// What we know about a logged-in system user
#[derive(Debug)]
pub struct UserStats {
    /// Total number of connections opened by this user
    pub connection_count: usize,
    /// The user's sessions in increasing order, each with the PIDs of its
    /// login processes in increasing order
    pub sessions: Vec<(SessionId, Vec<Pid>)>,
}

/// Inconsistent user connection data
#[derive(Copy, Clone, Debug, Eq, PartialEq, Structural)]
pub enum UserError {
    /// The same login PID was observed twice in one session of one user
    DuplicateLoginPid { session_id: SessionId, pid: Pid },
}

/// Connection `j` repeats the user, session and login PID of an earlier one.
pub open spec fn repeats_login(c: Seq<UserConnection>, j: int) -> bool {
    exists|i: int|
        0 <= i < j && c[i].username@ == c[j].username@ && c[i].session_id == c[j].session_id
            && c[i].pid == c[j].pid
}

/// No connection repeats the user, session and login PID of another.
pub open spec fn logins_distinct(c: Seq<UserConnection>) -> bool {
    forall|j: int| 0 <= j < c.len() ==> !repeats_login(c, j)
}

/// Number of connections of user `name`.
pub open spec fn connection_count(c: Seq<UserConnection>, name: Seq<char>) -> nat
    decreases c.len(),
{
    if c.len() == 0 {
        0
    } else {
        connection_count(c.drop_last(), name) + if c.last().username@ == name {
            1nat
        } else {
            0nat
        }
    }
}

/// Some connection of user `name` belongs to session `sid`.
pub open spec fn has_session(c: Seq<UserConnection>, name: Seq<char>, sid: SessionId) -> bool {
    exists|i: int| 0 <= i < c.len() && c[i].username@ == name && c[i].session_id == sid
}

/// The login PIDs of session `sid` of user `name`.
pub open spec fn session_pids(c: Seq<UserConnection>, name: Seq<char>, sid: SessionId) -> Set<Pid> {
    Set::new(
        |p: Pid|
            exists|i: int|
                0 <= i < c.len() && c[i].username@ == name && c[i].session_id == sid && c[i].pid
                    == p,
    )
}

/// Whether session identifiers strictly increase along a sequence.
pub open spec fn ids_increasing(s: Seq<SessionId>) -> bool {
    forall|i: int, j: int| 0 <= i < j < s.len() ==> s[i] < s[j]
}

/// The session identifiers of a session list.
pub open spec fn session_ids(s: Seq<(SessionId, Vec<Pid>)>) -> Seq<SessionId> {
    s.map_values(|e: (SessionId, Vec<Pid>)| e.0)
}

/// The statistics of user `name` are those of the connections `c`.
pub open spec fn describes_user(stats: UserStats, c: Seq<UserConnection>, name: Seq<char>) -> bool {
    &&& stats.connection_count == connection_count(c, name)
    &&& ids_increasing(session_ids(stats.sessions@))
    &&& forall|sid: SessionId| #[trigger]
        session_ids(stats.sessions@).contains(sid) <==> has_session(c, name, sid)
    &&& forall|k: int|
        0 <= k < stats.sessions@.len() ==> increasing(#[trigger] stats.sessions@[k].1@)
            && stats.sessions@[k].1@.to_set() == session_pids(c, name, stats.sessions@[k].0)
}

/// The grouped statistics are those of the connections `c`: one entry per
/// user, in increasing order of user names.
pub open spec fn describes_users(entries: Seq<(String, UserStats)>, c: Seq<UserConnection>) -> bool {
    &&& keys_increasing(keys_of(entries))
    &&& forall|name: Seq<char>| #[trigger]
        keys_of(entries).contains(name) <==> exists|i: int|
            0 <= i < c.len() && c[i].username@ == name
    &&& forall|k: int| 0 <= k < entries.len() ==> describes_user(#[trigger] entries[k].1, c, entries[k].0@)
}


/// Find the entry of session `sid` in a session list with increasing
/// identifiers, or insert an empty one where it keeps them increasing.
fn session_entry(sessions: &mut Vec<(SessionId, Vec<Pid>)>, sid: SessionId) -> (i: usize)
    requires
        ids_increasing(session_ids(old(sessions)@)),
    ensures
        ids_increasing(session_ids(final(sessions)@)),
        i < final(sessions)@.len(),
        i <= old(sessions)@.len(),
        final(sessions)@[i as int].0 == sid,
        session_ids(old(sessions)@).contains(sid) ==> final(sessions)@ == old(sessions)@,
        !session_ids(old(sessions)@).contains(sid) ==> final(sessions)@ == old(sessions)@.insert(
            i as int,
            final(sessions)@[i as int],
        ) && final(sessions)@[i as int].1@.len() == 0,
{
    let ghost ids = session_ids(sessions@);
    let mut i: usize = 0;
    while i < sessions.len() && sessions[i].0 < sid
        invariant
            i <= sessions@.len(),
            ids == session_ids(sessions@),
            ids_increasing(ids),
            forall|k: int| 0 <= k < i ==> #[trigger] ids[k] < sid,
        decreases sessions.len() - i,
    {
        assert(ids[i as int] == sessions@[i as int].0);
        i = i + 1;
    }
    if i < sessions.len() && sessions[i].0 == sid {
        assert(ids[i as int] == sid);
        return i;
    }
    proof {
        assert forall|k: int| i <= k < ids.len() implies sid < #[trigger] ids[k] by {
            assert(ids[i as int] == sessions@[i as int].0);
            if k > i {
                assert(ids[i as int] < ids[k]);
            }
        }
        assert(!ids.contains(sid)) by {
            if ids.contains(sid) {
                let k = choose|k: int| 0 <= k < ids.len() && ids[k] == sid;
            }
        }
    }
    sessions.insert(i, (sid, Vec::new()));
    proof {
        let ni = session_ids(sessions@);
        assert(ni =~= ids.insert(i as int, sid));
    }
    i
}

/// How the grouping functions change when one more connection is seen.
proof fn lemma_one_more_connection(c: Seq<UserConnection>, k: int, name: Seq<char>, sid: SessionId)
    requires
        0 <= k < c.len(),
    ensures
        connection_count(c.take(k + 1), name) == connection_count(c.take(k), name) + if c[k].username@
            == name {
            1nat
        } else {
            0nat
        },
        has_session(c.take(k + 1), name, sid) <==> has_session(c.take(k), name, sid) || (
        c[k].username@ == name && c[k].session_id == sid),
        session_pids(c.take(k + 1), name, sid) == if c[k].username@ == name && c[k].session_id
            == sid {
            session_pids(c.take(k), name, sid).insert(c[k].pid)
        } else {
            session_pids(c.take(k), name, sid)
        },
{
    let t = c.take(k + 1);
    assert(t.drop_last() =~= c.take(k));
    if has_session(t, name, sid) {
        let i = choose|i: int| 0 <= i < t.len() && t[i].username@ == name && t[i].session_id == sid;
        if i < k {
            assert(c.take(k)[i] == t[i]);
        }
    }
    if has_session(c.take(k), name, sid) {
        let i = choose|i: int|
            0 <= i < c.take(k).len() && c.take(k)[i].username@ == name && c.take(k)[i].session_id
                == sid;
        assert(t[i] == c.take(k)[i]);
    }
    if c[k].username@ == name && c[k].session_id == sid {
        assert(t[k] == c[k]);
    }
    let lhs = session_pids(t, name, sid);
    let rhs = if c[k].username@ == name && c[k].session_id == sid {
        session_pids(c.take(k), name, sid).insert(c[k].pid)
    } else {
        session_pids(c.take(k), name, sid)
    };
    assert forall|p: Pid| lhs.contains(p) <==> rhs.contains(p) by {
        if lhs.contains(p) {
            let i = choose|i: int|
                0 <= i < t.len() && t[i].username@ == name && t[i].session_id == sid && t[i].pid == p;
            if i < k {
                assert(c.take(k)[i] == t[i]);
            }
        }
        if session_pids(c.take(k), name, sid).contains(p) {
            let i = choose|i: int|
                0 <= i < c.take(k).len() && c.take(k)[i].username@ == name && c.take(k)[i].session_id
                    == sid && c.take(k)[i].pid == p;
            assert(t[i] == c.take(k)[i]);
        }
        if c[k].username@ == name && c[k].session_id == sid && p == c[k].pid {
            assert(t[k] == c[k]);
        }
    }
    assert(lhs =~= rhs);
}

/// At most one connection for each connection seen.
proof fn lemma_connection_count_bound(c: Seq<UserConnection>, name: Seq<char>)
    ensures
        connection_count(c, name) <= c.len(),
    decreases c.len(),
{
    if c.len() > 0 {
        lemma_connection_count_bound(c.drop_last(), name);
    }
}


/// The statistics of another user are not changed by a further connection.
proof fn lemma_other_user_unchanged(stats: UserStats, c: Seq<UserConnection>, k: int, name: Seq<char>)
    requires
        0 <= k < c.len(),
        c[k].username@ != name,
        describes_user(stats, c.take(k), name),
    ensures
        describes_user(stats, c.take(k + 1), name),
{
    lemma_one_more_connection(c, k, name, 0);
    assert forall|sid: SessionId| #[trigger]
        session_ids(stats.sessions@).contains(sid) <==> has_session(c.take(k + 1), name, sid) by {
        lemma_one_more_connection(c, k, name, sid);
    }
    assert forall|j: int| 0 <= j < stats.sessions@.len() implies increasing(
        #[trigger] stats.sessions@[j].1@,
    ) && stats.sessions@[j].1@.to_set() == session_pids(c.take(k + 1), name, stats.sessions@[j].0) by {
        lemma_one_more_connection(c, k, name, stats.sessions@[j].0);
    }
}

/// Register one more connection in the groups of the connections before it.
fn register(
    entries: &mut Vec<(String, UserStats)>,
    conn: UserConnection,
    Ghost(c): Ghost<Seq<UserConnection>>,
    Ghost(k): Ghost<int>,
) -> (r: Result<(), UserError>)
    requires
        0 <= k < c.len() <= usize::MAX,
        c[k] == conn,
        describes_users(old(entries)@, c.take(k)),
    ensures
        r is Ok <==> !repeats_login(c, k),
        r is Ok ==> describes_users(final(entries)@, c.take(k + 1)),
        r matches Err(e) ==> e == (UserError::DuplicateLoginPid {
            session_id: c[k].session_id,
            pid: c[k].pid,
        }),
{
    let UserConnection { username, session_id, pid } = conn;
    let ghost name = username@;
    let ghost e0 = entries@;
    let ghost t0 = c.take(k);
    let ghost t1 = c.take(k + 1);
    let fresh = UserStats { connection_count: 0, sessions: Vec::new() };
    assert(fresh.sessions@.len() == 0);
    let ghost key = username;
    let ghost fresh_value = fresh;
    let idx = entry_index(entries, username, fresh);
    let ghost e1 = entries@;
    let ghost st1 = e1[idx as int].1;
    proof {
        lemma_connection_count_bound(t0, name);
        assert(describes_user(st1, t0, name)) by {
            if keys_of(e0).contains(name) {
                assert(e1 == e0);
                assert(e0[idx as int].0@ == name);
                assert(describes_user(e0[idx as int].1, t0, e0[idx as int].0@));
            } else {
                // A new user: no connection of it before this one
                assert forall|i: int| 0 <= i < t0.len() implies t0[i].username@ != name by {
                    if t0[i].username@ == name {
                        assert(keys_of(e0).contains(name));
                    }
                }
                lemma_no_connection_count(t0, name);
                e0.insert_ensures(idx as int, (key, fresh_value));
                assert(st1 == fresh_value);
                assert(session_ids(st1.sessions@) =~= Seq::empty());
            }
        }
    }
    let entry = &mut entries[idx];
    entry.1.connection_count = entry.1.connection_count + 1;
    let ghost sess1 = entry.1.sessions@;
    let sidx = session_entry(&mut entry.1.sessions, session_id);
    let ghost sess2 = entry.1.sessions@;
    let ghost pids0 = sess2[sidx as int].1@;
    proof {
        // The login PIDs registered so far for this session
        assert(pids0.to_set() == session_pids(t0, name, session_id)) by {
            if session_ids(sess1).contains(session_id) {
                assert(sess2 == sess1);
                assert(session_ids(sess1)[sidx as int] == session_id);
            } else {
                assert(!has_session(t0, name, session_id));
                assert(pids0.to_set() =~= Set::empty());
                assert forall|p: Pid| !session_pids(t0, name, session_id).contains(p) by {
                    if session_pids(t0, name, session_id).contains(p) {
                        let i = choose|i: int|
                            0 <= i < t0.len() && t0[i].username@ == name && t0[i].session_id
                                == session_id && t0[i].pid == p;
                        assert(has_session(t0, name, session_id));
                    }
                }
                assert(session_pids(t0, name, session_id) =~= Set::empty());
            }
        }
        assert(repeats_login(c, k) == pids0.contains(pid)) by {
            assert(pids0.contains(pid) == pids0.to_set().contains(pid));
            if repeats_login(c, k) {
                let i = choose|i: int|
                    0 <= i < k && c[i].username@ == c[k].username@ && c[i].session_id == c[k].session_id
                        && c[i].pid == c[k].pid;
                assert(t0[i] == c[i]);
            }
            if session_pids(t0, name, session_id).contains(pid) {
                let i = choose|i: int|
                    0 <= i < t0.len() && t0[i].username@ == name && t0[i].session_id == session_id
                        && t0[i].pid == pid;
                assert(t0[i] == c[i]);
            }
        }
    }
    let inserted = insert_sorted(&mut entry.1.sessions[sidx].1, pid);
    if !inserted {
        return Err(UserError::DuplicateLoginPid { session_id, pid });
    }
    proof {
        let e2 = entries@;
        let st2 = e2[idx as int].1;
        let sess3 = st2.sessions@;
        assert(e2 == e1.update(idx as int, (e1[idx as int].0, st2)));
        assert(sess3 == sess2.update(sidx as int, (session_id, sess3[sidx as int].1)));
        assert(session_ids(sess3) =~= session_ids(sess2));
        lemma_one_more_connection(c, k, name, session_id);
        // The updated user
        assert(sess1 == st1.sessions@);
        assert(describes_user(st1, t0, name));
        let ids1 = session_ids(sess1);
        let ids2 = session_ids(sess2);
        if !ids1.contains(session_id) {
            sess1.insert_ensures(sidx as int, sess2[sidx as int]);
            assert(ids2 =~= ids1.insert(sidx as int, session_id));
        }
        assert forall|sid: SessionId| #[trigger]
            session_ids(sess3).contains(sid) <==> has_session(t1, name, sid) by {
            lemma_one_more_connection(c, k, name, sid);
            if ids1.contains(session_id) {
                assert(sess2 == sess1);
            } else {
                if ids2.contains(sid) {
                    let j = choose|j: int| 0 <= j < ids2.len() && ids2[j] == sid;
                    if j < sidx {
                        assert(ids1[j] == sid);
                    } else if j > sidx {
                        assert(ids1[j - 1] == sid);
                    }
                }
                if ids1.contains(sid) {
                    let j = choose|j: int| 0 <= j < ids1.len() && ids1[j] == sid;
                    if j < sidx {
                        assert(ids2[j] == sid);
                    } else {
                        assert(ids2[j + 1] == sid);
                    }
                }
                if sid == session_id {
                    assert(ids2[sidx as int] == sid);
                }
            }
        }
        assert forall|j: int| 0 <= j < sess3.len() implies increasing(#[trigger] sess3[j].1@)
            && sess3[j].1@.to_set() == session_pids(t1, name, sess3[j].0) by {
            lemma_one_more_connection(c, k, name, sess3[j].0);
            if j == sidx {
                assert(sess3[j].1@.to_set() == pids0.to_set().insert(pid));
            } else {
                // Another session of this user: the same as before
                let j1 = if ids1.contains(session_id) || j < sidx {
                    j
                } else {
                    j - 1
                };
                assert(sess2[j] == sess1[j1]);
                assert(ids1[j1] == sess1[j1].0);
                assert(increasing(sess1[j1].1@));
                assert(sess1[j1].0 != session_id) by {
                    if ids1.contains(session_id) {
                        assert(sess2 == sess1);
                        assert(ids1[sidx as int] == session_id);
                        assert(j1 != sidx);
                    } else {
                        assert(ids1.contains(ids1[j1]));
                    }
                }
            }
        }
        assert(describes_user(st2, t1, name));
        // The other users
        assert(keys_of(e2) =~= keys_of(e1));
        assert forall|j: int| 0 <= j < e2.len() implies describes_user(#[trigger] e2[j].1, t1, e2[j].0@) by {
            if j != idx {
                assert(keys_of(e1)[j] != keys_of(e1)[idx as int]) by {
                    if j < idx {
                        lemma_text_less_total(keys_of(e1)[j], keys_of(e1)[j]);
                    } else {
                        lemma_text_less_total(keys_of(e1)[idx as int], keys_of(e1)[idx as int]);
                    }
                }
                if keys_of(e0).contains(name) {
                    assert(e1 == e0);
                    assert(describes_user(e0[j].1, t0, e0[j].0@));
                } else if j < idx {
                    assert(e1[j] == e0[j]);
                    assert(describes_user(e0[j].1, t0, e0[j].0@));
                } else {
                    assert(e1[j] == e0[j - 1]);
                    assert(describes_user(e0[j - 1].1, t0, e0[j - 1].0@));
                }
                lemma_other_user_unchanged(e2[j].1, c, k, e2[j].0@);
            }
        }
        assert forall|n: Seq<char>| #[trigger] keys_of(e2).contains(n) <==> exists|i: int|
            0 <= i < t1.len() && t1[i].username@ == n by {
            if keys_of(e2).contains(n) {
                let j = choose|j: int| 0 <= j < keys_of(e2).len() && keys_of(e2)[j] == n;
                if n == name {
                    assert(t1[k] == c[k]);
                } else if keys_of(e0).contains(name) {
                    assert(keys_of(e0).contains(n));
                    let i = choose|i: int| 0 <= i < t0.len() && t0[i].username@ == n;
                    assert(t1[i] == t0[i]);
                } else {
                    assert(keys_of(e1) =~= keys_of(e0).insert(idx as int, name));
                    assert(keys_of(e0).contains(n)) by {
                        if j < idx {
                            assert(keys_of(e0)[j] == n);
                        } else {
                            assert(keys_of(e0)[j - 1] == n);
                        }
                    }
                    let i = choose|i: int| 0 <= i < t0.len() && t0[i].username@ == n;
                    assert(t1[i] == t0[i]);
                }
            }
            if exists|i: int| 0 <= i < t1.len() && t1[i].username@ == n {
                let i = choose|i: int| 0 <= i < t1.len() && t1[i].username@ == n;
                if i == k {
                    assert(keys_of(e2)[idx as int] == n);
                } else {
                    assert(t0[i] == t1[i]);
                    assert(keys_of(e0).contains(n));
                    let j = choose|j: int| 0 <= j < keys_of(e0).len() && keys_of(e0)[j] == n;
                    if keys_of(e0).contains(name) {
                        assert(keys_of(e2)[j] == n);
                    } else {
                        assert(keys_of(e1) =~= keys_of(e0).insert(idx as int, name));
                        if j < idx {
                            assert(keys_of(e2)[j] == n);
                        } else {
                            assert(keys_of(e2)[j + 1] == n);
                        }
                    }
                }
            }
        }
    }
    Ok(())
}

/// No connection of user `name` gives it no connection count.
proof fn lemma_no_connection_count(c: Seq<UserConnection>, name: Seq<char>)
    requires
        forall|i: int| 0 <= i < c.len() ==> c[i].username@ != name,
    ensures
        connection_count(c, name) == 0,
    decreases c.len(),
{
    if c.len() > 0 {
        lemma_no_connection_count(c.drop_last(), name);
    }
}


/// Connection `j` is the first that repeats the user, session and login PID
/// of an earlier one.
pub open spec fn first_login_repeat(c: Seq<UserConnection>, j: int) -> bool {
    &&& 0 <= j < c.len()
    &&& repeats_login(c, j)
    &&& forall|i: int| 0 <= i < j ==> !repeats_login(c, i)
}

/// Group the host's open user connections by user, in increasing order of
/// user names, and within each user by session. The same login PID twice in
/// one session of one user is inconsistent: the first such connection fails
/// the grouping.
pub fn group_users(connections: Vec<UserConnection>) -> (r: Result<Vec<(String, UserStats)>, UserError>)
    ensures
        r is Ok <==> logins_distinct(connections@),
        r matches Ok(v) ==> describes_users(v@, connections@),
        r matches Err(e) ==> exists|j: int|
            first_login_repeat(connections@, j) && e == (UserError::DuplicateLoginPid {
                session_id: connections@[j].session_id,
                pid: connections@[j].pid,
            }),
{
    let ghost c = connections@;
    let n = connections.len();
    let mut entries: Vec<(String, UserStats)> = Vec::new();
    proof {
        assert(keys_of(entries@) =~= Seq::empty());
        assert(c.take(0) =~= Seq::empty());
    }
    for conn in it: connections.into_iter()
        invariant
            it.seq() == c,
            n == c.len(),
            describes_users(entries@, c.take(it.index() as int)),
            forall|j: int| 0 <= j < it.index() ==> !repeats_login(c, j),
    {
        let ghost k = it.index() as int;
        match register(&mut entries, conn, Ghost(c), Ghost(k)) {
            Ok(()) => {},
            Err(e) => {
                assert(first_login_repeat(c, k));
                return Err(e);
            },
        }
    }
    assert(c.take(c.len() as int) =~= c);
    Ok(entries)
}

} // verus!
