use memoq::locks::{after_save, current_locks, ClientMsg, Connection, LockOutcome, LockTable, Reply, ServerMsg};

fn s(x: &str) -> String {
    x.to_string()
}

fn holder(table: &LockTable, seg: &str) -> Option<(String, String)> {
    table.holder(seg).map(|h| (h.user_id, h.username))
}

#[test]
fn second_user_is_refused_a_held_segment() {
    let mut table = LockTable::new();
    assert!(matches!(table.lock("seg-1", "u1", "alice"), LockOutcome::Locked));
    match table.lock("seg-1", "u2", "bob") {
        LockOutcome::Refused(m) => assert_eq!(m, "Segment is locked by alice"),
        _ => panic!("expected a refusal"),
    }
    assert_eq!(holder(&table, "seg-1"), Some((s("u1"), s("alice"))));
    assert!(matches!(table.lock("seg-1", "u1", "alice"), LockOutcome::AlreadyHeld));
}

#[test]
fn only_the_holder_unlocks() {
    let mut table = LockTable::new();
    table.lock("seg-1", "u1", "alice");
    assert!(!table.unlock("seg-1", "u2"));
    assert_eq!(holder(&table, "seg-1"), Some((s("u1"), s("alice"))));
    assert!(table.unlock("seg-1", "u1"));
    assert_eq!(holder(&table, "seg-1"), None);
    assert!(!table.unlock("seg-1", "u1"));
}

#[test]
fn release_gives_back_only_what_the_user_holds() {
    let mut table = LockTable::new();
    table.lock("a", "u1", "alice");
    table.lock("b", "u2", "bob");
    table.lock("c", "u1", "alice");
    let released = table.release(&vec![s("a"), s("b"), s("c"), s("a")], "u1");
    assert_eq!(released, vec![s("a"), s("c")]);
    assert_eq!(holder(&table, "a"), None);
    assert_eq!(holder(&table, "b"), Some((s("u2"), s("bob"))));
    assert_eq!(holder(&table, "c"), None);
}

#[test]
fn snapshot_lists_every_lock_once() {
    let mut table = LockTable::new();
    table.lock("a", "u1", "alice");
    table.lock("b", "u2", "bob");
    table.lock("a", "u2", "bob");
    let mut snap: Vec<(String, String, String)> = table
        .snapshot()
        .into_iter()
        .map(|l| (l.segment_id, l.user_id, l.username))
        .collect();
    snap.sort();
    assert_eq!(snap, vec![(s("a"), s("u1"), s("alice")), (s("b"), s("u2"), s("bob"))]);
    assert!(matches!(current_locks(&table), ServerMsg::CurrentLocks { locks } if locks.len() == 2));
}

#[test]
fn two_connections_conflict_then_close_releases() {
    let mut table = LockTable::new();
    let mut alice = Connection::new(s("u1"), s("alice"));
    let mut bob = Connection::new(s("u2"), s("bob"));
    match alice.handle(&mut table, ClientMsg::Lock { segment_id: s("seg") }) {
        Reply::Broadcast(ServerMsg::SegmentLocked { segment_id, user_id, username }) => {
            assert_eq!((segment_id, user_id, username), (s("seg"), s("u1"), s("alice")));
        }
        _ => panic!("expected a lock broadcast"),
    }
    match bob.handle(&mut table, ClientMsg::Lock { segment_id: s("seg") }) {
        Reply::Direct(ServerMsg::Error { message }) => assert_eq!(message, "Segment is locked by alice"),
        _ => panic!("expected an error to bob"),
    }
    assert!(matches!(bob.handle(&mut table, ClientMsg::Unlock { segment_id: s("seg") }), Reply::Nothing));
    assert_eq!(alice.held, vec![s("seg")]);
    let msgs = alice.close(&mut table);
    assert_eq!(msgs.len(), 1);
    assert!(matches!(&msgs[0], ServerMsg::SegmentUnlocked { segment_id } if segment_id == "seg"));
    assert!(matches!(bob.handle(&mut table, ClientMsg::Lock { segment_id: s("seg") }), Reply::Broadcast(_)));
}

#[test]
fn unlock_forgets_the_segment_and_update_asks_for_a_save() {
    let mut table = LockTable::new();
    let mut c = Connection::new(s("u1"), s("alice"));
    c.handle(&mut table, ClientMsg::Lock { segment_id: s("x") });
    c.handle(&mut table, ClientMsg::Lock { segment_id: s("y") });
    match c.handle(&mut table, ClientMsg::Unlock { segment_id: s("x") }) {
        Reply::Broadcast(ServerMsg::SegmentUnlocked { segment_id }) => assert_eq!(segment_id, "x"),
        _ => panic!("expected an unlock broadcast"),
    }
    assert_eq!(c.held, vec![s("y")]);
    match c.handle(&mut table, ClientMsg::Update { segment_id: s("z"), target: s("t"), status: s("draft") }) {
        Reply::Save { segment_id, target, status } => assert_eq!((segment_id, target, status), (s("z"), s("t"), s("draft"))),
        _ => panic!("expected a save"),
    }
    assert!(matches!(after_save(false, s("z"), s("t"), s("draft"), s("u1")), Reply::Nothing));
    assert!(matches!(
        after_save(true, s("z"), s("t"), s("draft"), s("u1")),
        Reply::Broadcast(ServerMsg::SegmentUpdated { .. })
    ));
}
