use polo::schema::{AttrSpec, AttrType, Schema};
use polo::clock::{Clock, Hlc};
use polo::db::{RecordParams, ScanQuery};
use polo::fact::{Attr, BranchName, EntityId, Namespace, Timestamp, TxId, Value};
use polo::merge::MergeParams;
use polo::namespace::{MergePolicy, NamespaceOpts};
use polo::store::MemoryStore;

fn ts(secs: i64) -> Timestamp {
    Timestamp { secs, nanos: 0 }
}

fn params(ns: &str, branch: &str, entity: &str, value: i64, tx_time: u64) -> RecordParams {
    RecordParams {
        namespace: Namespace::new(ns),
        entity: EntityId::new(entity),
        attr: Attr::new("a"),
        value: Value::Int(value),
        branch: BranchName::new(branch),
        author: None,
        message: None,
        valid_from: ts(0),
        valid_to: None,
        tx_time: Hlc(tx_time),
        tx_id: TxId(tx_time as u128),
        caused_by: None,
        idempotency_key: None,
    }
}

#[test]
fn hlc_parts_roundtrip_concrete() {
    let h = Hlc::from_parts(1_700_000_000_123, 42);
    assert_eq!(h.physical_ms(), 1_700_000_000_123);
    assert_eq!(h.logical(), 42);
    let top = Hlc::from_parts(0xffff_ffff_ffff, 0xffff);
    assert_eq!(top, Hlc(u64::MAX));
}

#[test]
fn tick_and_observe_advance_concrete() {
    let mut c = Clock::starting_at(Hlc::from_parts(1000, 5));
    let a = c.tick_at(900).unwrap();
    assert_eq!(a, Hlc::from_parts(1000, 6));
    let b = c.tick_at(2000).unwrap();
    assert_eq!(b, Hlc::from_parts(2000, 0));
    let seen = Hlc::from_parts(3000, 7);
    let o = c.observe_at(seen, 2500).unwrap();
    assert!(o > seen && o > b);
    assert_eq!(o, Hlc::from_parts(3000, 8));
    let mut full = Clock::starting_at(Hlc::from_parts(10, 0xffff));
    assert_eq!(full.tick_at(10), None);
    assert_eq!(full.now(), Hlc::from_parts(10, 0xffff));
}

#[test]
fn text_roundtrips_concrete() {
    let h = Hlc(0x0123_4567_89ab_cdef);
    assert_eq!(Hlc::parse(&h.to_string()), Ok(h));
    let id = TxId(u128::MAX - 5);
    assert_eq!(TxId::parse(&id.to_string()), Ok(id));
    for p in [MergePolicy::LastWriteWins, MergePolicy::FirstWriteWins, MergePolicy::ErrorOnConflict] {
        assert_eq!(MergePolicy::parse(p.to_string()), Ok(p));
    }
}

#[test]
fn write_to_one_branch_leaves_another_unchanged() {
    let mut s = MemoryStore::new();
    s.create_branch(&Namespace::default(), BranchName::new("dev"), BranchName::main(), Hlc(1)).unwrap();
    s.record(params("default", "main", "e", 1, 10));
    let before = s.scan(&ScanQuery::default()).len();
    s.record(params("default", "dev", "e", 2, 20));
    s.record(params("other", "main", "e", 3, 30));
    assert_eq!(s.scan(&ScanQuery::default()).len(), before);
}

#[test]
fn new_namespace_has_root_main() {
    let mut s = MemoryStore::new();
    s.create_namespace(Namespace::new("fresh"), NamespaceOpts::default()).unwrap();
    let b = s.get_branch(&Namespace::new("fresh"), &BranchName::main()).unwrap();
    assert!(b.is_root());
    assert!(b.parent.is_none());
}

#[test]
fn merge_applies_unmatched_and_newer_concrete() {
    let mut s = MemoryStore::new();
    let ns = Namespace::default();
    s.create_branch(&ns, BranchName::new("f"), BranchName::main(), Hlc(1)).unwrap();
    s.record(params("default", "main", "old", 1, 10));
    s.record(params("default", "f", "old", 2, 20));
    s.record(params("default", "f", "new", 3, 30));
    let r = s
        .merge(&MergeParams {
            namespace: ns,
            source: BranchName::new("f"),
            target: BranchName::main(),
            author: None,
            message: None,
            caused_by: None,
        })
        .unwrap();
    assert_eq!(r.facts_applied, 2);
    assert!(r.conflicts.iter().all(|c| c.entity.as_str() == "old"));
}

#[test]
fn value_equals_itself_concrete() {
    for v in [Value::Null, Value::Int(-3), Value::Str("s".into()), Value::Bool(true), Value::Float(1.5f64.to_bits())] {
        assert!(v.equals(&v.clone()));
    }
    let nan = Value::Float(f64::NAN.to_bits());
    assert!(!nan.equals(&nan.clone()));
}

#[test]
fn trimming_twice_is_trimming_once() {
    for s in ["  a b  ", "\u{3000}x", "y\t", "", "   "] {
        let once = polo::db::trim_text(s);
        assert_eq!(polo::db::trim_text(&once), once);
    }
    let label = polo::db::tag_label(" v2 ").unwrap();
    assert_eq!(polo::db::tag_label(&label).unwrap(), label);
}

#[test]
fn restoring_a_fact_twice_writes_it_once() {
    let mut s = MemoryStore::new();
    s.record(params("default", "main", "e", 1, 10));
    let dumped = s.scan(&ScanQuery::default()).remove(0);
    let restore = |s: &mut MemoryStore| {
        let opts = polo::requests::restore_opts(&dumped);
        let p = polo::db::record_params(
            Namespace::new("copy"),
            EntityId::new(dumped.entity.as_str()),
            Attr::new(dumped.attr.as_str()),
            dumped.value.clone(),
            BranchName::main(),
            opts,
            ts(0),
            Hlc(50),
            TxId(50),
        );
        s.record(p)
    };
    let first = restore(&mut s);
    let second = restore(&mut s);
    assert!(!first.was_duplicate);
    assert!(second.was_duplicate);
    assert_eq!(first.fact_id, second.fact_id);
}

#[test]
fn reads_give_back_the_latest_write() {
    let mut s = MemoryStore::new();
    s.record(params("default", "main", "u", 1, 10));
    let second = s.record(params("default", "main", "u", 2, 20));
    let asof = polo::db::asof_query(Namespace::default(), BranchName::main(), EntityId::new("u"), Attr::new("a"), Hlc(25));
    let got = s.scan(&asof);
    assert_eq!(got.len(), 1);
    assert_eq!(got[0].id, second.fact_id);
    let earlier = polo::db::asof_query(Namespace::default(), BranchName::main(), EntityId::new("u"), Attr::new("a"), Hlc(15));
    assert!(matches!(s.scan(&earlier)[0].value, Value::Int(1)));
    let eff = polo::db::effective_query(Namespace::default(), BranchName::main(), EntityId::new("u"), Attr::new("a"), ts(5));
    assert_eq!(s.scan(&eff)[0].id, second.fact_id);
}

#[test]
fn history_has_every_version() {
    let mut s = MemoryStore::new();
    let a = s.record(params("default", "main", "h", 1, 10)).fact_id;
    let b = s.record(params("default", "main", "h", 2, 20)).fact_id;
    let c = s.record(params("default", "main", "h", 3, 30)).fact_id;
    let mut rp = polo::db::RetractParams {
        namespace: Namespace::default(),
        branch: BranchName::main(),
        author: None,
        message: None,
        tx_time: Hlc(40),
        tx_id: TxId(40),
    };
    rp.message = Some("gone".into());
    s.retract(b, rp).unwrap();
    let hist = s.scan(&polo::db::history_query(Namespace::default(), BranchName::main(), EntityId::new("h"), Attr::new("a")));
    let ids: Vec<_> = hist.iter().map(|f| f.id).collect();
    assert_eq!(ids, vec![c, b, a]);
}

#[test]
fn merge_leaves_other_branches_alone() {
    let mut s = MemoryStore::new();
    let ns = Namespace::default();
    s.create_branch(&ns, BranchName::new("feat"), BranchName::main(), Hlc(1)).unwrap();
    s.create_branch(&ns, BranchName::new("other"), BranchName::main(), Hlc(2)).unwrap();
    s.record(params("default", "other", "o", 1, 10));
    s.record(params("default", "feat", "f", 2, 20));
    let other = ScanQuery::of_branch(Namespace::default(), BranchName::new("other"));
    let before: Vec<_> = s.scan(&other).iter().map(|f| f.id).collect();
    let r = s
        .merge(&MergeParams {
            namespace: Namespace::default(),
            source: BranchName::new("feat"),
            target: BranchName::main(),
            author: None,
            message: None,
            caused_by: None,
        })
        .unwrap();
    assert_eq!(r.facts_applied, 1);
    let after: Vec<_> = s.scan(&other).iter().map(|f| f.id).collect();
    assert_eq!(before, after);
}

#[test]
fn gc_keeps_live_facts() {
    let mut s = MemoryStore::new();
    let live = s.record(params("default", "main", "g", 1, 10)).fact_id;
    let dead = s.record(params("default", "main", "g", 2, 20)).fact_id;
    s.retract(
        dead,
        polo::db::RetractParams {
            namespace: Namespace::default(),
            branch: BranchName::main(),
            author: None,
            message: None,
            tx_time: Hlc(30),
            tx_id: TxId(30),
        },
    )
    .unwrap();
    let report = s.gc(&polo::gc::GcParams::default());
    assert_eq!(report.facts_removed, 1);
    assert!(s.get_fact(live).is_ok());
    assert!(s.get_fact(dead).is_err());
}

#[test]
fn gc_cutoff_counts_milliseconds() {
    let mut s = MemoryStore::new();
    let old = s.record(params("default", "main", "c", 1, Hlc::from_parts(50, 0).0)).fact_id;
    let young = s.record(params("default", "main", "c", 2, Hlc::from_parts(150, 0).0)).fact_id;
    for (id, t) in [(old, 60u64), (young, 160u64)] {
        s.retract(
            id,
            polo::db::RetractParams {
                namespace: Namespace::default(),
                branch: BranchName::main(),
                author: None,
                message: None,
                tx_time: Hlc::from_parts(t, 0),
                tx_id: TxId(t as u128),
            },
        )
        .unwrap();
    }
    let report = s.gc(&polo::gc::GcParams { before_ms: Some(100), branch: None, dry_run: false });
    assert_eq!(report.facts_removed, 1);
    assert!(s.get_fact(old).is_err());
    assert!(s.get_fact(young).is_ok());
}

#[test]
fn asof_sees_what_was_known_then() {
    let mut s = MemoryStore::new();
    let f = s.record(params("default", "main", "k", 1, Hlc::from_parts(10, 0).0)).fact_id;
    s.retract(
        f,
        polo::db::RetractParams {
            namespace: Namespace::default(),
            branch: BranchName::main(),
            author: None,
            message: None,
            tx_time: Hlc::from_parts(30, 0),
            tx_id: TxId(99),
        },
    )
    .unwrap();
    let at = |ms: u64| polo::db::asof_query(Namespace::default(), BranchName::main(), EntityId::new("k"), Attr::new("a"), Hlc::from_parts(ms, 0));
    let then = s.scan(&at(20));
    assert_eq!(then.len(), 1);
    assert_eq!(then[0].id, f);
    assert!(s.scan(&at(40)).is_empty());
    assert!(s.scan(&ScanQuery::default()).iter().all(|x| x.id != f));
}

#[test]
fn diff_compares_the_newest_values() {
    let mut s = MemoryStore::new();
    let ns = Namespace::default();
    s.create_branch(&ns, BranchName::new("b"), BranchName::main(), Hlc(1)).unwrap();
    // Same value on both sides (different facts): no entry.
    s.record(params("default", "main", "same", 7, 10));
    s.record(params("default", "b", "same", 7, 11));
    // Values differ on the newest facts: one entry, carrying the newest.
    s.record(params("default", "main", "moved", 1, 12));
    s.record(params("default", "b", "moved", 1, 13));
    let newest = s.record(params("default", "b", "moved", 2, 14)).fact_id;
    // Back to the same value on the newest fact: no entry.
    s.record(params("default", "main", "back", 5, 15));
    s.record(params("default", "b", "back", 4, 16));
    s.record(params("default", "b", "back", 5, 17));
    let entries = s.diff(&polo::merge::DiffParams {
        namespace: Namespace::default(),
        source: BranchName::new("b"),
        target: BranchName::main(),
    });
    assert_eq!(entries.len(), 1);
    assert_eq!(entries[0].entity, "moved");
    assert_eq!(entries[0].source.as_ref().map(|f| f.id), Some(newest));
    assert!(matches!(entries[0].target.as_ref().map(|f| &f.value), Some(Value::Int(1))));
}

#[test]
fn namespace_schema_is_kept_whole() {
    let mut s = MemoryStore::new();
    let mut schema = Schema::new(true);
    let mut spec = AttrSpec::new(AttrType::Int).required();
    spec.description = Some("age in years".into());
    schema.insert("age", spec);
    s.create_namespace(Namespace::new("people"), NamespaceOpts { merge_policy: MergePolicy::FirstWriteWins, schema: Some(schema) })
        .unwrap();
    let info = s.get_namespace(&Namespace::new("people")).unwrap();
    let got = info.schema.unwrap();
    assert!(got.strict);
    assert_eq!(got.attrs.len(), 1);
    assert_eq!(got.attrs[0].0, "age");
    assert!(got.attrs[0].1.required);
    assert_eq!(got.attrs[0].1.description.as_deref(), Some("age in years"));
}

#[test]
fn asof_sees_a_retraction_later_in_the_same_millisecond() {
    let mut s = MemoryStore::new();
    let f = s.record(params("default", "main", "m", 1, Hlc::from_parts(1, 0).0)).fact_id;
    s.retract(
        f,
        polo::db::RetractParams {
            namespace: Namespace::default(),
            branch: BranchName::main(),
            author: None,
            message: None,
            tx_time: Hlc::from_parts(2, 1),
            tx_id: TxId(77),
        },
    )
    .unwrap();
    let at = |h: Hlc| polo::db::asof_query(Namespace::default(), BranchName::main(), EntityId::new("m"), Attr::new("a"), h);
    let then = s.scan(&at(Hlc::from_parts(2, 0)));
    assert_eq!(then.len(), 1);
    assert_eq!(then[0].id, f);
    assert_eq!(then[0].retracted_at, Some(Hlc::from_parts(2, 1)));
    assert!(s.scan(&at(Hlc::from_parts(2, 1))).is_empty());
}

#[test]
fn ping_messages() {
    assert!(polo::api::is_ping("{\"type\":\"ping\"}"));
    assert!(polo::api::is_ping("\"ping\""));
    assert!(!polo::api::is_ping("ping"));
    assert!(!polo::api::is_ping("{\"type\":\"pong\"}"));
    assert!(!polo::api::is_ping(""));
}
