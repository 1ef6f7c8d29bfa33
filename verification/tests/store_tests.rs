use polo::clock::{Clock, Hlc};
use polo::db::{RecordParams, RetractParams, ScanQuery};
use polo::error::Error;
use polo::fact::{Attr, BranchName, EntityId, FactId, Namespace, Timestamp, TxId, Value};
use polo::gc::GcParams;
use polo::merge::{ConflictResolution, DiffParams, MergeParams};
use polo::namespace::{MergePolicy, NamespaceOpts};
use polo::store::MemoryStore;

fn now() -> Timestamp {
    let d = chrono::Utc::now();
    Timestamp { secs: d.timestamp(), nanos: d.timestamp_subsec_nanos() }
}

fn tick() -> Hlc {
    Clock::new().try_tick().unwrap()
}

fn params(ns: &str, branch: &str, entity: &str, attr: &str, value: Value) -> RecordParams {
    RecordParams {
        namespace: Namespace::new(ns),
        entity: EntityId::new(entity),
        attr: Attr::new(attr),
        value,
        branch: BranchName::new(branch),
        author: None,
        message: None,
        valid_from: now(),
        valid_to: None,
        tx_time: tick(),
        tx_id: TxId::new(),
        caused_by: None,
        idempotency_key: None,
    }
}

fn record_one(store: &mut MemoryStore, entity: &str, attr: &str, value: Value) -> FactId {
    store.record(params("default", "main", entity, attr, value)).fact_id
}

fn retract_params() -> RetractParams {
    RetractParams {
        namespace: Namespace::default(),
        branch: BranchName::main(),
        author: None,
        message: None,
        tx_time: tick(),
        tx_id: TxId::new(),
    }
}

fn all_of_main(include_retracted: bool) -> ScanQuery {
    let mut q = ScanQuery::default();
    q.include_retracted = include_retracted;
    q
}

#[test]
fn record_and_retrieve() {
    let mut store = MemoryStore::new();
    let fid = record_one(&mut store, "user/1", "name", Value::Str("alice".into()));
    let fact = store.get_fact(fid).unwrap();
    assert_eq!(fact.entity.as_str(), "user/1");
    assert_eq!(fact.attr.as_str(), "name");
    assert!(matches!(fact.value, Value::Str(s) if s == "alice"));
}

#[test]
fn get_fact_missing_returns_error() {
    let store = MemoryStore::new();
    let missing = FactId::new();
    assert!(store.get_fact(missing).is_err(), "expected error for unknown fact");
}

#[test]
fn typed_values_roundtrip() {
    let cases: Vec<(&str, Value)> = vec![
        ("str", Value::Str("hello".into())),
        ("int", Value::Int(42)),
        ("float", Value::Float(3.14f64.to_bits())),
        ("bool_t", Value::Bool(true)),
        ("bool_f", Value::Bool(false)),
        ("null", Value::Null),
        ("json", Value::Json("{\"x\":1}".into())),
    ];
    let mut store = MemoryStore::new();
    for (attr, val) in &cases {
        let fid = record_one(&mut store, "e/1", attr, val.clone());
        let fact = store.get_fact(fid).unwrap();
        assert_eq!(&fact.value, val, "{attr}");
    }
}

#[test]
fn retract_marks_fact() {
    let mut store = MemoryStore::new();
    let fid = record_one(&mut store, "u/1", "age", Value::Int(30));
    store.retract(fid, retract_params()).unwrap();
    let fact = store.get_fact(fid).unwrap();
    assert!(fact.retracted, "fact should be retracted");
    assert!(fact.valid_to.is_some());
}

#[test]
fn retract_unknown_returns_error() {
    let mut store = MemoryStore::new();
    let err = store.retract(FactId::new(), retract_params());
    assert!(matches!(err, Err(Error::FactNotFound(_))), "expected error for unknown fact");
}

#[test]
fn scan_filters_retracted_by_default() {
    let mut store = MemoryStore::new();
    let fid = record_one(&mut store, "u/1", "x", Value::Int(1));
    store.retract(fid, retract_params()).unwrap();
    let live = store.scan(&all_of_main(false));
    assert!(live.is_empty(), "retracted fact should not appear in default scan");
}

#[test]
fn scan_include_retracted() {
    let mut store = MemoryStore::new();
    let fid = record_one(&mut store, "u/2", "y", Value::Bool(true));
    store.retract(fid, retract_params()).unwrap();
    let all = store.scan(&all_of_main(true));
    assert_eq!(all.len(), 1);
    assert!(all[0].retracted);
}

#[test]
fn scan_limit_and_offset() {
    let mut store = MemoryStore::new();
    for i in 0..5i64 {
        record_one(&mut store, &format!("e/{i}"), "n", Value::Int(i));
    }
    let mut q = all_of_main(false);
    q.limit = Some(2);
    q.offset = Some(1);
    let page = store.scan(&q);
    assert_eq!(page.len(), 2);
}

#[test]
fn scan_is_newest_first() {
    let mut store = MemoryStore::new();
    let mut p1 = params("default", "main", "e", "a", Value::Int(1));
    p1.tx_time = Hlc(10);
    let mut p2 = params("default", "main", "e", "a", Value::Int(2));
    p2.tx_time = Hlc(30);
    let mut p3 = params("default", "main", "e", "a", Value::Int(3));
    p3.tx_time = Hlc(20);
    store.record(p1);
    store.record(p2);
    store.record(p3);
    let all = store.scan(&all_of_main(false));
    let times: Vec<u64> = all.iter().map(|f| f.tx_time.0).collect();
    assert_eq!(times, vec![30, 20, 10]);
}

#[test]
fn idempotency_key_deduplicates() {
    let mut store = MemoryStore::new();
    let key = "ikey-1".to_string();
    let mut p1 = params("default", "main", "e/1", "v", Value::Int(10));
    p1.idempotency_key = Some(key.clone());
    let r1 = store.record(p1);
    let mut p2 = params("default", "main", "e/1", "v", Value::Int(99));
    p2.idempotency_key = Some(key);
    let r2 = store.record(p2);
    assert!(r2.was_duplicate);
    assert_eq!(r1.fact_id, r2.fact_id);
    assert_eq!(r1.tx_id, r2.tx_id);
    assert_eq!(store.scan(&all_of_main(true)).len(), 1);
}

#[test]
fn create_and_get_namespace() {
    let mut store = MemoryStore::new();
    let ns = Namespace::new("orders");
    store
        .create_namespace(Namespace::new("orders"), NamespaceOpts { merge_policy: MergePolicy::LastWriteWins, schema: None })
        .unwrap();
    let info = store.get_namespace(&ns).unwrap();
    assert_eq!(info.name.as_str(), ns.as_str());
    assert_eq!(info.merge_policy, MergePolicy::LastWriteWins);
    let b = store.get_branch(&ns, &BranchName::main()).unwrap();
    assert!(b.is_root());
}

#[test]
fn duplicate_namespace_errors() {
    let mut store = MemoryStore::new();
    store.create_namespace(Namespace::new("dup-ns"), NamespaceOpts::default()).unwrap();
    let err = store.create_namespace(Namespace::new("dup-ns"), NamespaceOpts::default());
    assert!(matches!(err, Err(Error::NamespaceExists(_))), "expected duplicate namespace error");
}

#[test]
fn create_and_list_branches() {
    let mut store = MemoryStore::new();
    let ns = Namespace::default();
    store.create_branch(&ns, BranchName::new("feat"), BranchName::main(), tick()).unwrap();
    let branches = store.list_branches(&ns);
    let names: Vec<_> = branches.iter().map(|b| b.name.as_str()).collect();
    assert!(names.contains(&"main"));
    assert!(names.contains(&"feat"));
}

#[test]
fn create_branch_errors() {
    let mut store = MemoryStore::new();
    let ns = Namespace::default();
    assert!(matches!(
        store.create_branch(&ns, BranchName::main(), BranchName::main(), tick()),
        Err(Error::BranchExists(_, _))
    ));
    assert!(matches!(
        store.create_branch(&Namespace::new("nope"), BranchName::new("x"), BranchName::main(), tick()),
        Err(Error::NamespaceNotFound(_))
    ));
}

#[test]
fn delete_branch() {
    let mut store = MemoryStore::new();
    let ns = Namespace::default();
    let branch = BranchName::new("to-delete");
    store.create_branch(&ns, BranchName::new("to-delete"), BranchName::main(), tick()).unwrap();
    store.delete_branch(&ns, &branch).unwrap();
    let branches = store.list_branches(&ns);
    assert!(!branches.iter().any(|b| b.name.as_str() == branch.as_str()));
    assert!(matches!(store.delete_branch(&ns, &branch), Err(Error::BranchNotFound(_, _))));
}

#[test]
fn cannot_delete_root_branch() {
    let mut store = MemoryStore::new();
    let err = store.delete_branch(&Namespace::default(), &BranchName::main());
    assert!(matches!(err, Err(Error::CannotDeleteRoot(_, _))), "should not be able to delete root branch");
}

#[test]
fn get_tx_after_record() {
    let mut store = MemoryStore::new();
    let mut p = params("default", "main", "e/1", "a", Value::Str("v".into()));
    p.author = Some("alice".into());
    p.message = Some("init".into());
    let tx_id = p.tx_id;
    store.record(p);
    let tx = store.get_tx(&tx_id).unwrap();
    assert_eq!(tx.id, tx_id);
    assert_eq!(tx.author.as_deref(), Some("alice"));
    assert_eq!(tx.fact_count, 1);
    assert!(matches!(store.get_tx(&TxId::new()), Err(Error::TxNotFound(_))));
}

#[test]
fn gc_removes_retracted_facts() {
    let mut store = MemoryStore::new();
    let fid = record_one(&mut store, "u/1", "z", Value::Null);
    store.retract(fid, retract_params()).unwrap();
    let report = store.gc(&GcParams { before_ms: None, branch: None, dry_run: false });
    assert_eq!(report.facts_removed, 1);
    let all = store.scan(&all_of_main(true));
    assert!(all.is_empty(), "fact should be purged after gc");
}

#[test]
fn gc_dry_run_does_not_delete() {
    let mut store = MemoryStore::new();
    let fid = record_one(&mut store, "u/1", "dry", Value::Null);
    store.retract(fid, retract_params()).unwrap();
    let report = store.gc(&GcParams { before_ms: None, branch: None, dry_run: true });
    assert!(report.dry_run);
    assert_eq!(report.facts_removed, 1);
    assert_eq!(report.transactions_removed, 0);
    let all = store.scan(&all_of_main(true));
    assert_eq!(all.len(), 1, "fact should survive dry-run gc");
}

#[test]
fn stats_counts_correctly() {
    let mut store = MemoryStore::new();
    record_one(&mut store, "e/1", "a", Value::Int(1));
    record_one(&mut store, "e/2", "b", Value::Int(2));
    let stats = store.stats();
    assert_eq!(stats.facts, 2);
    assert!(stats.transactions >= 2);
    assert!(stats.namespaces >= 1);
    assert!(stats.branches >= 1);
    assert_eq!(stats.retracted, 0);
    assert_eq!(stats.estimated_bytes, 2 * 256 + 2 * 128);
}

#[test]
fn list_entities_and_attrs() {
    let mut store = MemoryStore::new();
    record_one(&mut store, "u/1", "name", Value::Str("a".into()));
    record_one(&mut store, "u/1", "age", Value::Int(30));
    record_one(&mut store, "u/2", "name", Value::Str("b".into()));
    let entities = store.list_entities(&Namespace::default(), &BranchName::main());
    assert_eq!(entities.len(), 2);
    assert_eq!(entities[0].as_str(), "u/1");
    assert_eq!(entities[1].as_str(), "u/2");
    let attrs = store.list_attrs(&Namespace::default(), &BranchName::main(), &EntityId::new("u/1"));
    assert_eq!(attrs.len(), 2);
    assert_eq!(attrs[0].as_str(), "age");
    assert_eq!(attrs[1].as_str(), "name");
}

#[test]
fn tags_crud() {
    let mut store = MemoryStore::new();
    let tx_id = TxId::new();
    store.put_tag("release-1.0", tx_id);
    let got = store.get_tag("release-1.0").unwrap();
    assert_eq!(got, tx_id);
    let all = store.list_tags();
    assert!(all.iter().any(|(l, _)| l == "release-1.0"));
    store.delete_tag("release-1.0").unwrap();
    assert!(store.get_tag("release-1.0").is_err());
    assert!(matches!(store.delete_tag("release-1.0"), Err(Error::TagNotFound(_))));
}

#[test]
fn tag_overwrite() {
    let mut store = MemoryStore::new();
    let tx1 = TxId::new();
    let tx2 = TxId::new();
    store.put_tag("v1", tx1);
    store.put_tag("v1", tx2);
    let got = store.get_tag("v1").unwrap();
    assert_eq!(got, tx2, "put_tag should overwrite");
    assert_eq!(store.list_tags().len(), 1);
}

#[test]
fn list_tags_sorted() {
    let mut store = MemoryStore::new();
    store.put_tag("b", TxId::new());
    store.put_tag("a", TxId::new());
    store.put_tag("c", TxId::new());
    let labels: Vec<String> = store.list_tags().into_iter().map(|(l, _)| l).collect();
    assert_eq!(labels, vec!["a", "b", "c"]);
}

#[test]
fn diff_between_branches() {
    let mut store = MemoryStore::new();
    let ns = Namespace::default();
    store.create_branch(&ns, BranchName::new("diff-feat"), BranchName::main(), tick()).unwrap();
    store.record(params("default", "main", "u/1", "role", Value::Str("admin".into())));
    let entries = store.diff(&DiffParams {
        namespace: Namespace::default(),
        source: BranchName::main(),
        target: BranchName::new("diff-feat"),
    });
    assert_eq!(entries.len(), 1);
    assert!(entries[0].target.is_none(), "target branch has no fact");
    let same = store.diff(&DiffParams {
        namespace: Namespace::default(),
        source: BranchName::main(),
        target: BranchName::main(),
    });
    assert!(same.is_empty());
}

#[test]
fn merge_last_write_wins() {
    let mut store = MemoryStore::new();
    let ns = Namespace::new("merge-test-memory");
    store
        .create_namespace(Namespace::new("merge-test-memory"), NamespaceOpts { merge_policy: MergePolicy::LastWriteWins, schema: None })
        .unwrap();
    store.create_branch(&ns, BranchName::new("feat"), BranchName::main(), tick()).unwrap();
    store.record(params("merge-test-memory", "feat", "u/1", "score", Value::Int(100)));
    let result = store
        .merge(&MergeParams {
            namespace: Namespace::new("merge-test-memory"),
            source: BranchName::new("feat"),
            target: BranchName::main(),
            author: None,
            message: None,
            caused_by: None,
        })
        .unwrap();
    assert_eq!(result.facts_applied, 1);
    let facts = store.scan(&ScanQuery::of_branch(Namespace::new("merge-test-memory"), BranchName::main()));
    assert_eq!(facts.len(), 1, "merged fact should appear on main");
}

#[test]
fn merge_conflicts_by_policy() {
    for (policy, applied, resolution) in [
        (MergePolicy::LastWriteWins, 1usize, Some(ConflictResolution::SourceWins)),
        (MergePolicy::FirstWriteWins, 0usize, Some(ConflictResolution::TargetWins)),
        (MergePolicy::ErrorOnConflict, 0usize, None),
    ] {
        let mut store = MemoryStore::new();
        let ns = Namespace::new("m");
        store.create_namespace(Namespace::new("m"), NamespaceOpts { merge_policy: policy, schema: None }).unwrap();
        store.create_branch(&ns, BranchName::new("feat"), BranchName::main(), tick()).unwrap();
        let mut on_main = params("m", "main", "u/1", "score", Value::Int(1));
        on_main.tx_time = Hlc(5);
        store.record(on_main);
        let mut on_feat = params("m", "feat", "u/1", "score", Value::Int(2));
        on_feat.tx_time = Hlc(9);
        store.record(on_feat);
        let r = store.merge(&MergeParams {
            namespace: Namespace::new("m"),
            source: BranchName::new("feat"),
            target: BranchName::main(),
            author: None,
            message: None,
            caused_by: None,
        });
        match resolution {
            Some(res) => {
                let r = r.unwrap();
                assert_eq!(r.facts_applied, applied);
                assert_eq!(r.conflicts.len(), 1);
                assert_eq!(r.conflicts[0].resolution, res);
            }
            None => match r {
                Err(Error::Conflict(m)) => assert_eq!(m, "entity=u/1 attr=score"),
                _ => panic!("expected a conflict"),
            },
        }
    }
}

#[test]
fn merge_unknown_namespace() {
    let mut store = MemoryStore::new();
    let r = store.merge(&MergeParams {
        namespace: Namespace::new("nope"),
        source: BranchName::new("feat"),
        target: BranchName::main(),
        author: None,
        message: None,
        caused_by: None,
    });
    assert!(matches!(r, Err(Error::NamespaceNotFound(_))));
}

#[test]
fn causal_chain_preserved() {
    let mut store = MemoryStore::new();
    let cause_id = TxId::new();
    let mut p = params("default", "main", "e/1", "derived", Value::Bool(true));
    p.caused_by = Some(cause_id);
    let res = store.record(p);
    let fact = store.get_fact(res.fact_id).unwrap();
    assert_eq!(fact.caused_by.as_ref(), Some(&cause_id));
}

#[test]
fn list_tx_newest_first_and_limited() {
    let mut store = MemoryStore::new();
    for t in [3u64, 7, 5] {
        let mut p = params("default", "main", "e", "a", Value::Int(t as i64));
        p.tx_time = Hlc(t);
        store.record(p);
    }
    let txs = store.list_tx(&Namespace::default(), &BranchName::main(), 2);
    let ts: Vec<u64> = txs.iter().map(|t| t.ts.0).collect();
    assert_eq!(ts, vec![7, 5]);
}

#[test]
fn list_namespaces_sorted() {
    let mut store = MemoryStore::new();
    store.create_namespace(Namespace::new("zeta"), NamespaceOpts::default()).unwrap();
    store.create_namespace(Namespace::new("alpha"), NamespaceOpts::default()).unwrap();
    let names: Vec<String> = store.list_namespaces().iter().map(|n| n.name.as_str().to_owned()).collect();
    assert_eq!(names, vec!["alpha", "default", "zeta"]);
}
