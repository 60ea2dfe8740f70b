//! Segment locks shared by the editors of a project, and the messages of a
//! project's live connection: a segment is held by at most one user, only
//! its holder releases it, and a closed connection gives back what it held.

use vstd::prelude::*;
use crate::text::{concat, str_eq, strs};

verus! {

/// Who holds a segment.
pub struct SegmentLock {
    pub user_id: String,
    pub username: String,
}

/// One held segment, as listed to a client.
pub struct LockInfo {
    pub segment_id: String,
    pub user_id: String,
    pub username: String,
}

/// Query of the connection request: the caller's access token.
pub struct WsQuery {
    pub token: String,
}

/// A message from a client.
pub enum ClientMsg {
    Lock { segment_id: String },
    Unlock { segment_id: String },
    Update { segment_id: String, target: String, status: String },
}

/// A message to clients, sent to one or to every client of the project.
pub enum ServerMsg {
    SegmentLocked { segment_id: String, user_id: String, username: String },
    SegmentUnlocked { segment_id: String },
    SegmentUpdated { segment_id: String, target: String, status: String, user_id: String },
    Error { message: String },
    CurrentLocks { locks: Vec<LockInfo> },
}

/// The locks held, by segment: holder id and holder name.
pub open spec fn map_of(s: Seq<LockInfo>) -> Map<Seq<char>, (Seq<char>, Seq<char>)>
    decreases s.len(),
{
    if s.len() == 0 {
        Map::empty()
    } else {
        map_of(s.drop_last()).insert(
            s.last().segment_id@,
            (s.last().user_id@, s.last().username@),
        )
    }
}

/// No segment is listed twice.
pub open spec fn unique_keys(s: Seq<LockInfo>) -> bool {
    forall|i: int, j: int|
        0 <= i < j < s.len() ==> (#[trigger] s[i]).segment_id@ != (#[trigger] s[j]).segment_id@
}

/// The map of a list without repeated segments has exactly its entries.
pub proof fn lemma_map_of(s: Seq<LockInfo>)
    requires
        unique_keys(s),
    ensures
        forall|i: int|
            0 <= i < s.len() ==> map_of(s).contains_key((#[trigger] s[i]).segment_id@) && map_of(s)[s[i].segment_id@] == (s[i].user_id@, s[i].username@),
        forall|k: Seq<char>|
            map_of(s).contains_key(k) ==> exists|i: int| 0 <= i < s.len() && (#[trigger] s[i]).segment_id@ == k,
    decreases s.len(),
{
    if s.len() > 0 {
        let t = s.drop_last();
        assert(unique_keys(t)) by {
            assert forall|i: int, j: int| 0 <= i < j < t.len() implies (#[trigger] t[i]).segment_id@
                != (#[trigger] t[j]).segment_id@ by {
                assert(t[i] == s[i] && t[j] == s[j]);
            }
        }
        lemma_map_of(t);
        assert forall|i: int| 0 <= i < s.len() implies map_of(s).contains_key(
            (#[trigger] s[i]).segment_id@,
        ) && map_of(s)[s[i].segment_id@] == (s[i].user_id@, s[i].username@) by {
            if i < s.len() - 1 {
                assert(t[i] == s[i]);
                assert(s[i].segment_id@ != s[s.len() - 1].segment_id@);
            }
        }
        assert forall|k: Seq<char>| map_of(s).contains_key(k) implies exists|i: int|
            0 <= i < s.len() && (#[trigger] s[i]).segment_id@ == k by {
            if k != s.last().segment_id@ {
                assert(map_of(t).contains_key(k));
                let i = choose|i: int| 0 <= i < t.len() && (#[trigger] t[i]).segment_id@ == k;
                assert(s[i] == t[i]);
            } else {
                assert(s[s.len() - 1].segment_id@ == k);
            }
        }
    }
}

/// Removing one entry of a list without repeats removes its segment from
/// the map.
proof fn lemma_map_of_remove(s: Seq<LockInfo>, i: int)
    requires
        unique_keys(s),
        0 <= i < s.len(),
    ensures
        unique_keys(s.remove(i)),
        map_of(s.remove(i)) == map_of(s).remove(s[i].segment_id@),
{
    let t = s.remove(i);
    let k = s[i].segment_id@;
    assert forall|a: int, b: int| 0 <= a < b < t.len() implies (#[trigger] t[a]).segment_id@
        != (#[trigger] t[b]).segment_id@ by {
        let a0 = if a < i { a } else { a + 1 };
        let b0 = if b < i { b } else { b + 1 };
        assert(t[a] == s[a0] && t[b] == s[b0]);
    }
    lemma_map_of(s);
    lemma_map_of(t);
    assert forall|key: Seq<char>| #[trigger] map_of(t).contains_key(key) <==> map_of(s).remove(
        k,
    ).contains_key(key) by {
        if map_of(t).contains_key(key) {
            let a = choose|a: int| 0 <= a < t.len() && (#[trigger] t[a]).segment_id@ == key;
            let a0 = if a < i { a } else { a + 1 };
            assert(t[a] == s[a0]);
        }
        if map_of(s).remove(k).contains_key(key) {
            let a = choose|a: int| 0 <= a < s.len() && (#[trigger] s[a]).segment_id@ == key;
            assert(a != i);
            let a1 = if a < i { a } else { a - 1 };
            assert(t[a1] == s[a]);
        }
    }
    assert forall|key: Seq<char>| #[trigger] map_of(t).contains_key(key) implies map_of(t)[key]
        == map_of(s)[key] by {
        let a = choose|a: int| 0 <= a < t.len() && (#[trigger] t[a]).segment_id@ == key;
        let a0 = if a < i { a } else { a + 1 };
        assert(t[a] == s[a0]);
    }
    assert(map_of(t) =~= map_of(s).remove(k));
}

/// The segments of `s` other than `x`, in order.
pub open spec fn without(s: Seq<Seq<char>>, x: Seq<char>) -> Seq<Seq<char>>
    decreases s.len(),
{
    if s.len() == 0 {
        s
    } else if s.last() == x {
        without(s.drop_last(), x)
    } else {
        without(s.drop_last(), x).push(s.last())
    }
}

/// The locks after the segments `segs` are given back, one after the other,
/// by `user`: each is released if `user` holds it at that moment.
pub open spec fn released_map(
    m: Map<Seq<char>, (Seq<char>, Seq<char>)>,
    segs: Seq<Seq<char>>,
    user: Seq<char>,
) -> Map<Seq<char>, (Seq<char>, Seq<char>)>
    decreases segs.len(),
{
    if segs.len() == 0 {
        m
    } else {
        let before = released_map(m, segs.drop_last(), user);
        let k = segs.last();
        if before.contains_key(k) && before[k].0 == user {
            before.remove(k)
        } else {
            before
        }
    }
}

/// The segments actually released by giving back `segs`, in order.
pub open spec fn released_list(
    m: Map<Seq<char>, (Seq<char>, Seq<char>)>,
    segs: Seq<Seq<char>>,
    user: Seq<char>,
) -> Seq<Seq<char>>
    decreases segs.len(),
{
    if segs.len() == 0 {
        seq![]
    } else {
        let before = released_map(m, segs.drop_last(), user);
        let k = segs.last();
        if before.contains_key(k) && before[k].0 == user {
            released_list(m, segs.drop_last(), user).push(k)
        } else {
            released_list(m, segs.drop_last(), user)
        }
    }
}

/// The locks after `user` (named `name`) asks for segment `k`, and the
/// outcome: 0 taken, 1 already held by `user`, 2 refused.
pub open spec fn lock_step(
    m: Map<Seq<char>, (Seq<char>, Seq<char>)>,
    k: Seq<char>,
    user: Seq<char>,
    name: Seq<char>,
) -> (Map<Seq<char>, (Seq<char>, Seq<char>)>, int) {
    if !m.contains_key(k) {
        (m.insert(k, (user, name)), 0)
    } else if m[k].0 == user {
        (m, 1)
    } else {
        (m, 2)
    }
}

/// The locks after `user` gives segment `k` back, and whether it did.
pub open spec fn unlock_step(
    m: Map<Seq<char>, (Seq<char>, Seq<char>)>,
    k: Seq<char>,
    user: Seq<char>,
) -> (Map<Seq<char>, (Seq<char>, Seq<char>)>, bool) {
    if m.contains_key(k) && m[k].0 == user {
        (m.remove(k), true)
    } else {
        (m, false)
    }
}

/// The number of a lock outcome, as `lock_step` gives it.
pub open spec fn outcome_code(o: LockOutcome) -> int {
    match o {
        LockOutcome::Locked => 0,
        LockOutcome::AlreadyHeld => 1,
        LockOutcome::Refused(_) => 2,
    }
}

/// A segment taken by one user is refused to every other user, and the
/// table does not change.
pub proof fn lemma_lock_exclusive(
    m: Map<Seq<char>, (Seq<char>, Seq<char>)>,
    k: Seq<char>,
    a: Seq<char>,
    a_name: Seq<char>,
    b: Seq<char>,
    b_name: Seq<char>,
)
    requires
        !m.contains_key(k),
        a != b,
    ensures
        lock_step(lock_step(m, k, a, a_name).0, k, b, b_name) == (lock_step(m, k, a, a_name).0, 2int),
{
}

/// Asking again for a segment one holds changes nothing.
pub proof fn lemma_lock_idempotent(
    m: Map<Seq<char>, (Seq<char>, Seq<char>)>,
    k: Seq<char>,
    u: Seq<char>,
    n: Seq<char>,
)
    ensures
        lock_step(lock_step(m, k, u, n).0, k, u, n).0 == lock_step(m, k, u, n).0,
        lock_step(m, k, u, n).1 != 2 ==> lock_step(lock_step(m, k, u, n).0, k, u, n).1 == 1,
{
}

/// Taking a free segment and giving it back leaves the table as it was.
pub proof fn lemma_lock_unlock(
    m: Map<Seq<char>, (Seq<char>, Seq<char>)>,
    k: Seq<char>,
    u: Seq<char>,
    n: Seq<char>,
)
    requires
        !m.contains_key(k),
    ensures
        unlock_step(lock_step(m, k, u, n).0, k, u) == (m, true),
{
    assert(m.insert(k, (u, n)).remove(k) =~= m);
}

/// Only the holder can give a segment back; anyone else's request changes
/// nothing.
pub proof fn lemma_unlock_by_other(
    m: Map<Seq<char>, (Seq<char>, Seq<char>)>,
    k: Seq<char>,
    u: Seq<char>,
)
    requires
        !(m.contains_key(k) && m[k].0 == u),
    ensures
        unlock_step(m, k, u) == (m, false),
{
}

/// After a closed connection gives its segments back, its user holds none
/// of them, the segments of other users are untouched, and so is every
/// segment it did not list.
pub proof fn lemma_release(
    m: Map<Seq<char>, (Seq<char>, Seq<char>)>,
    segs: Seq<Seq<char>>,
    u: Seq<char>,
)
    ensures
        forall|i: int|
            0 <= i < segs.len() ==> !(released_map(m, segs, u).contains_key(#[trigger] segs[i])
                && released_map(m, segs, u)[segs[i]].0 == u),
        forall|k: Seq<char>|
            #[trigger] m.contains_key(k) && m[k].0 != u ==> released_map(m, segs, u).contains_key(k)
                && released_map(m, segs, u)[k] == m[k],
        forall|k: Seq<char>|
            !segs.contains(k) ==> (#[trigger] released_map(m, segs, u).contains_key(k)
                == m.contains_key(k)) && (m.contains_key(k) ==> released_map(m, segs, u)[k]
                == m[k]),
        forall|k: Seq<char>|
            #[trigger] released_map(m, segs, u).contains_key(k) ==> m.contains_key(k)
                && released_map(m, segs, u)[k] == m[k],
    decreases segs.len(),
{
    if segs.len() > 0 {
        let t = segs.drop_last();
        let last = segs.last();
        lemma_release(m, t, u);
        let r0 = released_map(m, t, u);
        assert(released_map(m, segs, u) == (if r0.contains_key(last) && r0[last].0 == u {
            r0.remove(last)
        } else {
            r0
        }));
        assert(segs[segs.len() - 1] == last);
        assert forall|k: Seq<char>| !segs.contains(k) implies !t.contains(k) by {
            if t.contains(k) {
                let i = choose|i: int| 0 <= i < t.len() && t[i] == k;
                assert(segs[i] == k);
            }
        }
        assert forall|i: int| 0 <= i < segs.len() implies !(released_map(m, segs, u).contains_key(
            #[trigger] segs[i],
        ) && released_map(m, segs, u)[segs[i]].0 == u) by {
            if i < segs.len() - 1 {
                assert(segs[i] == t[i]);
            }
        }
        assert forall|k: Seq<char>| !segs.contains(k) implies (#[trigger] released_map(
            m,
            segs,
            u,
        ).contains_key(k) == m.contains_key(k)) && (m.contains_key(k) ==> released_map(m, segs, u)[k]
            == m[k]) by {
            if k == last {
                assert(segs.contains(k));
            }
        }
    }
}

/// The table of held segments of every project.
pub struct LockTable {
    entries: Vec<LockInfo>,
}

impl View for LockTable {
    type V = Map<Seq<char>, (Seq<char>, Seq<char>)>;

    closed spec fn view(&self) -> Map<Seq<char>, (Seq<char>, Seq<char>)> {
        map_of(self.entries@)
    }
}

/// What a lock request came to.
pub enum LockOutcome {
    /// The segment was free and is now held by the caller.
    Locked,
    /// The caller already held it.
    AlreadyHeld,
    /// Someone else holds it; the text says who.
    Refused(String),
}

impl LockTable {
    /// Every segment is listed once.
    pub closed spec fn wf(&self) -> bool {
        unique_keys(self.entries@)
    }

    /// An empty table.
    pub fn new() -> (r: LockTable)
        ensures
            r.wf(),
            r@ == Map::<Seq<char>, (Seq<char>, Seq<char>)>::empty(),
    {
        LockTable { entries: Vec::new() }
    }

    fn find(&self, segment_id: &str) -> (r: Option<usize>)
        requires
            self.wf(),
        ensures
            match r {
                Some(i) => i < self.entries@.len() && self.entries@[i as int].segment_id@
                    == segment_id@,
                None => !self@.contains_key(segment_id@),
            },
    {
        let mut i: usize = 0;
        while i < self.entries.len()
            invariant
                i <= self.entries@.len(),
                forall|j: int| 0 <= j < i ==> (#[trigger] self.entries@[j]).segment_id@ != segment_id@,
            decreases self.entries@.len() - i,
        {
            if str_eq(self.entries[i].segment_id.as_str(), segment_id) {
                return Some(i);
            }
            i = i + 1;
        }
        proof {
            lemma_map_of(self.entries@);
        }
        None
    }

    /// The holder of a segment, if any.
    pub fn holder(&self, segment_id: &str) -> (r: Option<SegmentLock>)
        requires
            self.wf(),
        ensures
            match r {
                Some(h) => self@.contains_key(segment_id@) && self@[segment_id@] == (h.user_id@, h.username@),
                None => !self@.contains_key(segment_id@),
            },
    {
        match self.find(segment_id) {
            Some(i) => {
                proof {
                    lemma_map_of(self.entries@);
                }
                let e = &self.entries[i];
                Some(SegmentLock { user_id: e.user_id.clone(), username: e.username.clone() })
            },
            None => None,
        }
    }

    /// A request by `user_id` (named `username`) to hold a segment: a free
    /// segment is taken, a segment held by another user is refused.
    pub fn lock(&mut self, segment_id: &str, user_id: &str, username: &str) -> (r: LockOutcome)
        requires
            old(self).wf(),
        ensures
            final(self).wf(),
            (final(self)@, outcome_code(r)) == lock_step(old(self)@, segment_id@, user_id@, username@),
            r matches LockOutcome::Refused(m) ==> m@ == "Segment is locked by "@ + old(self)@[segment_id@].1,
    {
        proof {
            lemma_map_of(self.entries@);
        }
        match self.find(segment_id) {
            Some(i) => {
                if str_eq(self.entries[i].user_id.as_str(), user_id) {
                    LockOutcome::AlreadyHeld
                } else {
                    let m = concat("Segment is locked by ", self.entries[i].username.as_str());
                    LockOutcome::Refused(m)
                }
            },
            None => {
                let ghost before = self.entries@;
                let info = LockInfo {
                    segment_id: String::from_str(segment_id),
                    user_id: String::from_str(user_id),
                    username: String::from_str(username),
                };
                self.entries.push(info);
                proof {
                    let s = self.entries@;
                    assert(s.drop_last() =~= before);
                    assert forall|a: int, b: int| 0 <= a < b < s.len() implies (#[trigger] s[a]).segment_id@
                        != (#[trigger] s[b]).segment_id@ by {
                        if b == s.len() - 1 {
                            assert(s[a] == before[a]);
                        } else {
                            assert(s[a] == before[a] && s[b] == before[b]);
                        }
                    }
                }
                LockOutcome::Locked
            },
        }
    }

    /// A request by `user_id` to give a segment back; only the holder can.
    /// Returns whether the segment was released.
    pub fn unlock(&mut self, segment_id: &str, user_id: &str) -> (r: bool)
        requires
            old(self).wf(),
        ensures
            final(self).wf(),
            (final(self)@, r) == unlock_step(old(self)@, segment_id@, user_id@),
    {
        proof {
            lemma_map_of(self.entries@);
        }
        match self.find(segment_id) {
            Some(i) => {
                if str_eq(self.entries[i].user_id.as_str(), user_id) {
                    proof {
                        lemma_map_of_remove(self.entries@, i as int);
                    }
                    self.entries.remove(i);
                    true
                } else {
                    false
                }
            },
            None => false,
        }
    }

    /// Gives back, in order, the segments `segments` on behalf of `user_id`
    /// (when its connection closes); those it no longer holds are left
    /// alone. Returns the segments released.
    pub fn release(&mut self, segments: &Vec<String>, user_id: &str) -> (r: Vec<String>)
        requires
            old(self).wf(),
        ensures
            final(self).wf(),
            final(self)@ == released_map(old(self)@, strs(segments@), user_id@),
            strs(r@) == released_list(old(self)@, strs(segments@), user_id@),
    {
        let ghost start = self@;
        let ghost segs = strs(segments@);
        let mut out: Vec<String> = Vec::new();
        let mut i: usize = 0;
        while i < segments.len()
            invariant
                i <= segments@.len(),
                segs == strs(segments@),
                self.wf(),
                self@ == released_map(start, segs.take(i as int), user_id@),
                strs(out@) == released_list(start, segs.take(i as int), user_id@),
            decreases segments@.len() - i,
        {
            let ghost pre = segs.take(i as int);
            assert(segs.take(i + 1).drop_last() =~= pre);
            assert(segs.take(i + 1).last() == segments@[i as int]@);
            let seg = segments[i].as_str();
            if self.unlock(seg, user_id) {
                out.push(segments[i].clone());
                assert(strs(out@) =~= released_list(start, pre, user_id@).push(segments@[i as int]@));
            }
            i = i + 1;
        }
        assert(segs.take(segments@.len() as int) =~= segs);
        out
    }

    /// Every held segment with its holder, each once (the order is not
    /// part of the answer).
    pub fn snapshot(&self) -> (r: Vec<LockInfo>)
        requires
            self.wf(),
        ensures
            unique_keys(r@),
            map_of(r@) == self@,
    {
        let mut out: Vec<LockInfo> = Vec::new();
        let mut i: usize = 0;
        while i < self.entries.len()
            invariant
                i <= self.entries@.len(),
                out@ == self.entries@.take(i as int),
            decreases self.entries@.len() - i,
        {
            let e = &self.entries[i];
            let info = LockInfo {
                segment_id: e.segment_id.clone(),
                user_id: e.user_id.clone(),
                username: e.username.clone(),
            };
            out.push(info);
            assert(out@ =~= self.entries@.take(i + 1));
            i = i + 1;
        }
        assert(out@ =~= self.entries@);
        out
    }
}

/// What one live connection knows: its user and the segments it locked.
pub struct Connection {
    pub user_id: String,
    pub username: String,
    pub held: Vec<String>,
}

/// What the server does after a client message.
pub enum Reply {
    /// Nothing is sent.
    Nothing,
    /// A message to this client only.
    Direct(ServerMsg),
    /// A message to every client of the project.
    Broadcast(ServerMsg),
    /// The translation is to be saved; the update is broadcast if it was.
    Save { segment_id: String, target: String, status: String },
}

/// The view of a message: kind, then up to four texts.
pub open spec fn msg_view(m: ServerMsg) -> (int, Seq<char>, Seq<char>, Seq<char>, Seq<char>) {
    match m {
        ServerMsg::SegmentLocked { segment_id, user_id, username } => (
            0,
            segment_id@,
            user_id@,
            username@,
            seq![],
        ),
        ServerMsg::SegmentUnlocked { segment_id } => (1, segment_id@, seq![], seq![], seq![]),
        ServerMsg::SegmentUpdated { segment_id, target, status, user_id } => (
            2,
            segment_id@,
            target@,
            status@,
            user_id@,
        ),
        ServerMsg::Error { message } => (3, message@, seq![], seq![], seq![]),
        ServerMsg::CurrentLocks { .. } => (4, seq![], seq![], seq![], seq![]),
    }
}

/// Removes every occurrence of `x` from `v`.
fn remove_all(v: &Vec<String>, x: &str) -> (r: Vec<String>)
    ensures
        strs(r@) == without(strs(v@), x@),
{
    let mut out: Vec<String> = Vec::new();
    let mut i: usize = 0;
    while i < v.len()
        invariant
            i <= v@.len(),
            strs(out@) == without(strs(v@).take(i as int), x@),
        decreases v@.len() - i,
    {
        assert(strs(v@).take(i + 1).drop_last() =~= strs(v@).take(i as int));
        if !str_eq(v[i].as_str(), x) {
            out.push(v[i].clone());
            assert(strs(out@) =~= without(strs(v@).take(i as int), x@).push(v@[i as int]@));
        }
        i = i + 1;
    }
    assert(strs(v@).take(v@.len() as int) =~= strs(v@));
    out
}

impl Connection {
    /// A new connection holding nothing.
    pub fn new(user_id: String, username: String) -> (r: Connection)
        ensures
            r.user_id == user_id,
            r.username == username,
            r.held@.len() == 0,
    {
        Connection { user_id, username, held: Vec::new() }
    }

    /// Handles a client message against the lock table.
    ///  - `Lock`: a free segment is taken and the lock broadcast; one held
    ///    by someone else is refused to this client; one already held is
    ///    ignored.
    ///  - `Unlock`: the holder's segment is released and broadcast;
    ///    otherwise nothing happens.
    ///  - `Update`: the save is asked for; the lock table is not consulted.
    pub fn handle(&mut self, table: &mut LockTable, msg: ClientMsg) -> (r: Reply)
        requires
            old(table).wf(),
        ensures
            final(table).wf(),
            final(self).user_id == old(self).user_id,
            final(self).username == old(self).username,
            match msg {
                ClientMsg::Lock { segment_id } => {
                    let m = old(table)@;
                    let k = segment_id@;
                    let u = old(self).user_id@;
                    if !m.contains_key(k) {
                        &&& final(table)@ == m.insert(k, (u, old(self).username@))
                        &&& strs(final(self).held@) == strs(old(self).held@).push(k)
                        &&& r matches Reply::Broadcast(b) && msg_view(b) == (
                            0int,
                            k,
                            u,
                            old(self).username@,
                            Seq::<char>::empty(),
                        )
                    } else if m[k].0 == u {
                        &&& final(table)@ == m
                        &&& final(self).held@ == old(self).held@
                        &&& r is Nothing
                    } else {
                        &&& final(table)@ == m
                        &&& final(self).held@ == old(self).held@
                        &&& r matches Reply::Direct(d) && msg_view(d) == (
                            3int,
                            "Segment is locked by "@ + m[k].1,
                            Seq::<char>::empty(),
                            Seq::<char>::empty(),
                            Seq::<char>::empty(),
                        )
                    }
                },
                ClientMsg::Unlock { segment_id } => {
                    let m = old(table)@;
                    let k = segment_id@;
                    if m.contains_key(k) && m[k].0 == old(self).user_id@ {
                        &&& final(table)@ == m.remove(k)
                        &&& strs(final(self).held@) == without(strs(old(self).held@), k)
                        &&& r matches Reply::Broadcast(b) && msg_view(b) == (
                            1int,
                            k,
                            Seq::<char>::empty(),
                            Seq::<char>::empty(),
                            Seq::<char>::empty(),
                        )
                    } else {
                        &&& final(table)@ == m
                        &&& final(self).held@ == old(self).held@
                        &&& r is Nothing
                    }
                },
                ClientMsg::Update { segment_id, target, status } => {
                    &&& final(table)@ == old(table)@
                    &&& final(self).held@ == old(self).held@
                    &&& r matches Reply::Save { segment_id: s, target: t, status: st } && s@
                        == segment_id@ && t@ == target@ && st@ == status@
                },
            },
    {
        match msg {
            ClientMsg::Lock { segment_id } => {
                let outcome = table.lock(segment_id.as_str(), self.user_id.as_str(), self.username.as_str());
                match outcome {
                    LockOutcome::Locked => {
                        self.held.push(segment_id.clone());
                        assert(strs(self.held@) =~= strs(old(self).held@).push(segment_id@));
                        Reply::Broadcast(
                            ServerMsg::SegmentLocked {
                                segment_id,
                                user_id: self.user_id.clone(),
                                username: self.username.clone(),
                            },
                        )
                    },
                    LockOutcome::AlreadyHeld => Reply::Nothing,
                    LockOutcome::Refused(message) => Reply::Direct(ServerMsg::Error { message }),
                }
            },
            ClientMsg::Unlock { segment_id } => {
                if table.unlock(segment_id.as_str(), self.user_id.as_str()) {
                    let kept = remove_all(&self.held, segment_id.as_str());
                    self.held = kept;
                    Reply::Broadcast(ServerMsg::SegmentUnlocked { segment_id })
                } else {
                    Reply::Nothing
                }
            },
            ClientMsg::Update { segment_id, target, status } => {
                Reply::Save { segment_id, target, status }
            },
        }
    }

    /// Gives back, after the connection closed, the segments this
    /// connection locked and its user still holds; one unlock message per
    /// released segment, to broadcast.
    pub fn close(&self, table: &mut LockTable) -> (r: Vec<ServerMsg>)
        requires
            old(table).wf(),
        ensures
            final(table).wf(),
            final(table)@ == released_map(old(table)@, strs(self.held@), self.user_id@),
            r@.len() == released_list(old(table)@, strs(self.held@), self.user_id@).len(),
            forall|i: int|
                0 <= i < r@.len() ==> msg_view(#[trigger] r@[i]) == (
                    1int,
                    released_list(old(table)@, strs(self.held@), self.user_id@)[i],
                    Seq::<char>::empty(),
                    Seq::<char>::empty(),
                    Seq::<char>::empty(),
                ),
    {
        let released = table.release(&self.held, self.user_id.as_str());
        let mut out: Vec<ServerMsg> = Vec::new();
        let mut i: usize = 0;
        while i < released.len()
            invariant
                i <= released@.len(),
                out@.len() == i,
                forall|j: int|
                    0 <= j < i ==> msg_view(#[trigger] out@[j]) == (
                        1int,
                        released@[j]@,
                        Seq::<char>::empty(),
                        Seq::<char>::empty(),
                        Seq::<char>::empty(),
                    ),
            decreases released@.len() - i,
        {
            out.push(ServerMsg::SegmentUnlocked { segment_id: released[i].clone() });
            i = i + 1;
        }
        assert forall|j: int| 0 <= j < out@.len() implies msg_view(#[trigger] out@[j]) == (
            1int,
            released_list(old(table)@, strs(self.held@), self.user_id@)[j],
            Seq::<char>::empty(),
            Seq::<char>::empty(),
            Seq::<char>::empty(),
        ) by {
            assert(strs(released@)[j] == released@[j]@);
        }
        out
    }
}

/// The broadcast that follows a save: the update when the segment was
/// saved, nothing otherwise.
pub fn after_save(saved: bool, segment_id: String, target: String, status: String, user_id: String) -> (r: Reply)
    ensures
        saved ==> (r matches Reply::Broadcast(b) && msg_view(b) == (
            2int,
            segment_id@,
            target@,
            status@,
            user_id@,
        )),
        !saved ==> r is Nothing,
{
    if saved {
        Reply::Broadcast(ServerMsg::SegmentUpdated { segment_id, target, status, user_id })
    } else {
        Reply::Nothing
    }
}

/// The first message of a connection: the locks currently held.
pub fn current_locks(table: &LockTable) -> (r: ServerMsg)
    requires
        table.wf(),
    ensures
        r matches ServerMsg::CurrentLocks { locks } && unique_keys(locks@) && map_of(locks@)
            == table@,
{
    ServerMsg::CurrentLocks { locks: table.snapshot() }
}

} // verus!
