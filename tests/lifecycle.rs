use zkb::coordinator::{CommandQueue, HashManager, Reply};
use zkb::store::{HashState, HashTable};
use zkb::{CmdEvent, DailyReport, DataEvent, IdHashBinary};

fn rec(id: i32, hex: &str) -> IdHashBinary {
    IdHashBinary::try_from((id, hex)).unwrap()
}

fn report(entries: &[(i32, &str)]) -> DailyReport {
    let mut r = DailyReport::new(String::from("2022-01-01"));
    for (id, hex) in entries {
        r.killmails.push(rec(*id, hex));
    }
    r
}

fn snapshot(t: &HashTable, ids: &[i32]) -> Vec<Option<(i32, [u8; 20], HashState)>> {
    ids.iter()
        .map(|id| t.get(*id).map(|r| (r.id, r.hash, r.state)))
        .collect()
}

#[test]
fn upsert_then_query_then_mark() {
    let aa = "aa".repeat(20);
    let mut t = HashTable::new();
    assert_eq!(t.upsert_pending_batch(&vec![rec(1, &aa)]), 1);
    assert_eq!(t.query_pending(5), vec![(1, aa.clone())]);
    assert_eq!(t.mark_complete(&vec![1]), 1);
    assert_eq!(t.query_pending(5), vec![]);
}

#[test]
fn save_handled_hash_is_never_pending() {
    let mut m = HashManager::new();
    let r = m.handle(CmdEvent::SaveHandledHash((2, "bb".repeat(20))));
    assert!(matches!(r, Ok(Reply::Stored)));
    let r = m.handle(CmdEvent::RequestLastHashes(5));
    match r {
        Ok(Reply::Publish(DataEvent::HashesToHandle(v))) => assert!(v.is_empty()),
        _ => panic!("expected a published batch"),
    }
    let row = m.table().get(2).unwrap();
    assert_eq!(row.state, HashState::Complete);
    assert_eq!(row.hash, [0xbb; 20]);
}

#[test]
fn upsert_twice_is_upsert_once() {
    let batch = vec![rec(5, &"01".repeat(20)), rec(3, &"02".repeat(20)), rec(5, &"03".repeat(20))];
    let mut once = HashTable::new();
    assert_eq!(once.upsert_pending_batch(&batch), 3);
    let mut twice = HashTable::new();
    twice.upsert_pending_batch(&batch);
    assert_eq!(twice.upsert_pending_batch(&batch), 3);
    assert_eq!(once.len(), 2);
    assert_eq!(twice.len(), 2);
    assert_eq!(snapshot(&once, &[3, 5]), snapshot(&twice, &[3, 5]));
    // The first of two records with one id wins.
    assert_eq!(once.get(5).unwrap().hash, [0x01; 20]);
}

#[test]
fn insert_complete_twice_is_insert_once() {
    let r = rec(9, &"0f".repeat(20));
    let mut t = HashTable::new();
    t.insert_complete(&r);
    let first = snapshot(&t, &[9]);
    t.insert_complete(&r);
    assert_eq!(t.len(), 1);
    assert_eq!(snapshot(&t, &[9]), first);
}

#[test]
fn duplicate_ids_keep_first_digest() {
    let mut t = HashTable::new();
    t.upsert_pending_batch(&vec![rec(4, &"aa".repeat(20))]);
    t.upsert_pending_batch(&vec![rec(4, &"bb".repeat(20))]);
    assert_eq!(t.get(4).unwrap().hash, [0xaa; 20]);
}

#[test]
fn complete_never_goes_back_to_pending() {
    let mut m = HashManager::new();
    m.handle(CmdEvent::SaveDailyReport(report(&[(1, &"aa".repeat(20))]))).unwrap();
    assert_eq!(m.table().get(1).unwrap().state, HashState::Pending);
    m.handle(CmdEvent::MarkComplete(vec![1])).unwrap();
    assert_eq!(m.table().get(1).unwrap().state, HashState::Complete);
    m.handle(CmdEvent::SaveDailyReport(report(&[(1, &"aa".repeat(20))]))).unwrap();
    assert_eq!(m.table().get(1).unwrap().state, HashState::Complete);
    m.handle(CmdEvent::SaveHandledHash((1, "cc".repeat(20)))).unwrap();
    let row = m.table().get(1).unwrap();
    assert_eq!(row.state, HashState::Complete);
    assert_eq!(row.hash, [0xaa; 20]);
}

#[test]
fn marked_id_is_not_offered_again() {
    let mut t = HashTable::new();
    t.upsert_pending_batch(&vec![rec(1, &"01".repeat(20)), rec(2, &"02".repeat(20)), rec(3, &"03".repeat(20))]);
    t.mark_complete(&vec![2]);
    for n in [0u32, 1, 2, 3, 10] {
        assert!(t.query_pending(n).iter().all(|(id, _)| *id != 2));
    }
    assert_eq!(
        t.query_pending(10),
        vec![(3, "03".repeat(20)), (1, "01".repeat(20))]
    );
}

#[test]
fn query_orders_by_id_descending_and_limits() {
    let mut t = HashTable::new();
    t.upsert_pending_batch(&vec![rec(10, &"0a".repeat(20)), rec(30, &"1e".repeat(20)), rec(20, &"14".repeat(20))]);
    assert_eq!(t.query_pending(2), vec![(30, "1e".repeat(20)), (20, "14".repeat(20))]);
    assert_eq!(t.query_pending(0), vec![]);
    assert_eq!(t.query_pending(100).len(), 3);
    assert_eq!(t.query_pending(100)[2], (10, "0a".repeat(20)));
}

#[test]
fn mark_complete_counts_only_changed_rows() {
    let mut t = HashTable::new();
    t.upsert_pending_batch(&vec![rec(1, &"01".repeat(20)), rec(2, &"02".repeat(20))]);
    assert_eq!(t.mark_complete(&vec![1, 1, 7]), 1);
    assert_eq!(t.mark_complete(&vec![1, 2]), 1);
    assert_eq!(t.mark_complete(&vec![]), 0);
}

#[test]
fn save_handled_hash_with_bad_digest_is_an_error() {
    let mut m = HashManager::new();
    let r = m.handle(CmdEvent::SaveHandledHash((2, String::from("xyz"))));
    assert_eq!(r.unwrap_err(), IdHashBinary::ERR_DECODE);
    let r = m.handle(CmdEvent::SaveHandledHash((2, "ab".repeat(10))));
    assert_eq!(r.unwrap_err(), IdHashBinary::ERR_ARRAY);
    assert!(m.table().get(2).is_none());
}

#[test]
fn replies_of_each_command() {
    let mut m = HashManager::new();
    let r = m.handle(CmdEvent::SaveDailyReport(report(&[(1, &"aa".repeat(20)), (2, &"bb".repeat(20))])));
    assert!(matches!(r, Ok(Reply::Inserted(2))));
    let r = m.handle(CmdEvent::MarkComplete(vec![2, 3]));
    assert!(matches!(r, Ok(Reply::Marked(1))));
    let r = m.handle(CmdEvent::ReturnHash((1, "aa".repeat(20))));
    assert!(matches!(r, Ok(Reply::Ignored)));
    let r = m.handle(CmdEvent::Quit);
    assert!(matches!(r, Ok(Reply::Quit)));
    match m.handle(CmdEvent::RequestLastHashes(8)) {
        Ok(Reply::Publish(DataEvent::HashesToHandle(v))) => assert_eq!(v, vec![(1, "aa".repeat(20))]),
        _ => panic!("expected a published batch"),
    }
}

#[test]
fn command_queue_is_fifo() {
    let mut q = CommandQueue::new();
    assert!(q.is_empty());
    assert!(q.dequeue().is_none());
    q.enqueue(CmdEvent::RequestLastHashes(1));
    q.enqueue(CmdEvent::Quit);
    q.enqueue(CmdEvent::MarkComplete(vec![4]));
    assert_eq!(q.dequeue(), Some(CmdEvent::RequestLastHashes(1)));
    assert_eq!(q.dequeue(), Some(CmdEvent::Quit));
    assert_eq!(q.dequeue(), Some(CmdEvent::MarkComplete(vec![4])));
    assert!(q.is_empty());
}
