use intent_core::history::{HistoryStore, InMemoryHistoryStore, LastOutcomeHistoryStore};
use intent_core::model::CommandHistoryRecord;

fn rec(sig: &str, ts: u64) -> CommandHistoryRecord {
    CommandHistoryRecord {
        signature: sig.into(),
        input: format!("input-{sig}"),
        intents_summary: vec!["a".into()],
        overall_status: "success".into(),
        created_at: ts,
        plan_size: 1,
        explain_used: false,
    }
}

#[test]
fn save_and_list_ordering() {
    let mut store = InMemoryHistoryStore::new(30);
    let base = intent_core::util::now_ms();
    store.save(rec("s1", base), base);
    store.save(rec("s2", base + 10), base);
    let listed = store.list(10, None);
    assert_eq!(listed.len(), 2);
    assert_eq!(listed[0].signature, "s2");
    assert_eq!(listed[1].signature, "s1");
}

#[test]
fn pagination_after() {
    let mut store = InMemoryHistoryStore::new(30);
    let base = intent_core::util::now_ms();
    store.save(rec("s1", base), base);
    store.save(rec("s2", base + 10), base);
    store.save(rec("s3", base + 20), base);
    let after = base + 10;
    let listed = store.list(10, Some(after));
    assert_eq!(listed.len(), 1);
    assert_eq!(listed[0].signature, "s3");
}

#[test]
fn retention_purge() {
    let mut store = InMemoryHistoryStore::new(30);
    let now = intent_core::util::now_ms();
    let old = now - (31 * 24 * 60 * 60 * 1000);
    store.save(rec("old", old), old);
    store.save(rec("new", now), now);
    let listed = store.list(10, None);
    assert_eq!(listed.len(), 1);
    assert_eq!(listed[0].signature, "new");
}

#[test]
fn assigned_created_at_is_fresh_and_unique() {
    let mut store = InMemoryHistoryStore::new(30);
    store.save(rec("a", 0), 500);
    store.save(rec("b", 0), 500);
    store.save(rec("c", 0), 500);
    let listed = store.list(10, None);
    assert_eq!(listed.len(), 3);
    assert_eq!(listed[0].created_at, 502);
    assert_eq!(listed[1].created_at, 501);
    assert_eq!(listed[2].created_at, 500);
}

#[test]
fn list_before_pages_downward() {
    let mut store = InMemoryHistoryStore::new(30);
    for k in 0..5u64 {
        store.save(rec(&format!("s{k}"), 100 + k), 100);
    }
    let first = store.list_before(2, None);
    assert_eq!(first.len(), 2);
    assert_eq!(first[0].signature, "s4");
    assert_eq!(first[1].signature, "s3");
    let second = store.list_before(2, Some(first[1].created_at));
    assert_eq!(second.len(), 2);
    assert_eq!(second[0].signature, "s2");
    assert_eq!(second[1].signature, "s1");
    let third = store.list_before(2, Some(second[1].created_at));
    assert_eq!(third.len(), 1);
    assert_eq!(third[0].signature, "s0");
}

#[test]
fn purge_older_than_reports_count() {
    let mut store = InMemoryHistoryStore::new(30);
    store.save(rec("a", 100), 100);
    store.save(rec("b", 200), 100);
    store.save(rec("c", 300), 100);
    let removed = store.purge_older_than(250);
    assert_eq!(removed, 2);
    let listed = store.list(10, None);
    assert_eq!(listed.len(), 1);
    assert_eq!(listed[0].signature, "c");
}

#[test]
fn same_signature_replaces_prior_record() {
    let mut store = LastOutcomeHistoryStore::new(30);
    let mut first = rec("sig-1", 100);
    first.overall_status = "failed".into();
    store.save(first, 100);
    let mut second = rec("sig-1", 0);
    second.overall_status = "success".into();
    store.save(second, 200);
    let listed = store.list(10, None);
    assert_eq!(listed.len(), 1);
    assert_eq!(listed[0].signature, "sig-1");
    assert_eq!(listed[0].overall_status, "success");
    assert_eq!(listed[0].created_at, 200);
}

#[test]
fn distinct_signatures_keep_both_records() {
    let mut store = LastOutcomeHistoryStore::new(30);
    store.save(rec("sig-1", 100), 100);
    store.save(rec("sig-2", 150), 150);
    let listed = store.list(10, None);
    assert_eq!(listed.len(), 2);
    assert_eq!(listed[0].signature, "sig-2");
    assert_eq!(listed[1].signature, "sig-1");
}
