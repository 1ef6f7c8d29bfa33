use polo::api::{authorized, error_answer, event_matches, record_status, tx_list_limit, EventKind, FactEvent, StreamQuery};
use polo::bulk::{bulk_params, BulkSpec};
use polo::clock::{Hlc, HexError};
use polo::db::{check_write, record_params, tag_label, trim_text, RecordOpts, RecordResult};
use polo::error::Error;
use polo::fact::{Attr, BranchName, EntityId, Fact, FactId, Namespace, Timestamp, TxId, Value};
use polo::gc::{retention_cutoff, retention_eligible, RetentionPolicy};
use polo::namespace::MergePolicy;
use polo::requests::{
    branch_or_main, dump_query, restore_opts, AsofQuery, CreateNamespaceRequest, DiffQuery,
    EntitiesQuery, MergeRequest, PutTagBody, RecordResponse, RestoreResult, TagEntry, TxListQuery,
};
use polo::schema::{AttrSpec, AttrType, Schema};

fn ts(secs: i64) -> Timestamp {
    Timestamp { secs, nanos: 0 }
}

fn fact(entity: &str, attr: &str, tx_time: u64, retracted: bool) -> Fact {
    Fact {
        id: FactId(tx_time as u128 + 1),
        namespace: Namespace::default(),
        entity: EntityId::new(entity),
        attr: Attr::new(attr),
        value: Value::Int(tx_time as i64),
        valid_from: ts(0),
        valid_to: None,
        tx_id: TxId(7),
        tx_time: Hlc(tx_time),
        branch: BranchName::main(),
        author: Some("ann".to_string()),
        retracted,
        retracted_at: if retracted { Some(Hlc(tx_time + 1)) } else { None },
        caused_by: None,
    }
}

#[test]
fn tag_label_trims_white_space() {
    assert_eq!(tag_label("  v1.0 \t\n").unwrap(), "v1.0");
    assert_eq!(tag_label("\u{3000}release\u{2009}").unwrap(), "release");
    assert_eq!(tag_label("a b").unwrap(), "a b");
}

#[test]
fn tag_label_refuses_blank() {
    match tag_label(" \u{85}\u{a0} ") {
        Err(Error::Other(m)) => assert_eq!(m, "tag label must not be empty"),
        other => panic!("unexpected {:?}", other),
    }
    assert!(matches!(tag_label(""), Err(Error::Other(_))));
}

#[test]
fn trim_text_matches_str_trim() {
    for s in ["", " ", "x", "  x  ", "\u{2028}x y\u{205f}", "\u{200b}x", "\u{1680}\u{180e}"] {
        assert_eq!(trim_text(s), s.trim(), "input {:?}", s);
    }
}

#[test]
fn error_answers() {
    assert_eq!(error_answer(&Error::FactNotFound(FactId(1))).0, 404);
    assert_eq!(error_answer(&Error::TagNotFound("t".to_string())).0, 404);
    assert_eq!(error_answer(&Error::Conflict("c".to_string())), (409, "c".to_string()));
    assert_eq!(error_answer(&Error::InvalidTimeRange).0, 422);
    let sv = Error::SchemaViolation { attr: "a".to_string(), reason: "r".to_string() };
    assert_eq!(error_answer(&sv).0, 422);
    assert_eq!(error_answer(&Error::Query("bad".to_string())), (400, "bad".to_string()));
    assert_eq!(
        error_answer(&Error::Other("boom".to_string())),
        (500, "internal server error".to_string())
    );
    assert_eq!(
        error_answer(&Error::NamespaceExists(Namespace::default())),
        (500, "internal server error".to_string())
    );
}

#[test]
fn authorization_by_bearer_token() {
    assert!(authorized(None, None));
    assert!(authorized(None, Some("anything")));
    assert!(authorized(Some("s3"), Some("Bearer s3")));
    assert!(!authorized(Some("s3"), Some("Bearer s4")));
    assert!(!authorized(Some("s3"), Some("s3")));
    assert!(!authorized(Some("s3"), None));
}

#[test]
fn statuses_and_limits() {
    assert_eq!(record_status(false), 201);
    assert_eq!(record_status(true), 200);
    assert_eq!(tx_list_limit(None), 50);
    assert_eq!(tx_list_limit(Some(7)), 7);
    assert_eq!(tx_list_limit(Some(501)), 500);
    let q = TxListQuery { branch: None, limit: Some(10_000) };
    assert_eq!(q.effective_limit(), 500);
    assert_eq!(q.branch_name().as_str(), "main");
}

#[test]
fn stream_filters() {
    let f = fact("user/1", "name", 5, false);
    let all = StreamQuery { ns: None, branch: None, entity: None, attr: None };
    assert!(event_matches(&all, &f));
    let ent = StreamQuery { ns: Some("default".into()), branch: None, entity: Some("user/1".into()), attr: None };
    assert!(event_matches(&ent, &f));
    let other = StreamQuery { ns: None, branch: Some("dev".into()), entity: None, attr: None };
    assert!(!event_matches(&other, &f));
    let ev = FactEvent { kind: EventKind::Retracted, fact: f };
    assert_eq!(ev.kind, EventKind::Retracted);
}

#[test]
fn request_defaults_and_parsing() {
    assert_eq!(branch_or_main(&None).as_str(), "main");
    assert_eq!(branch_or_main(&Some("dev".into())).as_str(), "dev");
    assert_eq!(EntitiesQuery::default().branch, "main");

    let r = RecordResult { fact_id: FactId(255), tx_id: TxId(16), was_duplicate: true };
    let resp = RecordResponse::from_result(&r);
    assert_eq!(resp.fact_id, format!("{:032x}", 255u128));
    assert_eq!(resp.tx_id, format!("{:032x}", 16u128));
    assert!(resp.was_duplicate);

    let m = MergeRequest {
        source: "dev".into(),
        target: "main".into(),
        author: None,
        message: Some("m".into()),
        caused_by: Some("zz".into()),
    };
    assert!(m.params("default").is_none());
    let m2 = MergeRequest { caused_by: Some("1f".into()), ..m };
    let p = m2.params("ns").unwrap();
    assert_eq!(p.caused_by, Some(TxId(31)));
    assert_eq!(p.namespace.as_str(), "ns");
    assert_eq!(p.source.as_str(), "dev");

    let d = DiffQuery { source: "dev".into(), target: None }.params("ns");
    assert_eq!(d.target.as_str(), "main");

    let c = CreateNamespaceRequest { name: "x".into(), merge_policy: Some("first-write-wins".into()) };
    assert_eq!(c.opts().unwrap().merge_policy, MergePolicy::FirstWriteWins);
    let bad = CreateNamespaceRequest { name: "x".into(), merge_policy: Some("newest".into()) };
    assert_eq!(bad.opts().unwrap_err(), "unknown merge policy 'newest'");
    let none = CreateNamespaceRequest { name: "x".into(), merge_policy: None };
    assert_eq!(none.opts().unwrap().merge_policy, MergePolicy::LastWriteWins);

    let a = AsofQuery { entity: "e".into(), attr: "a".into(), branch: None, at: Some("0x10".into()) };
    assert_eq!(a.at_time(), Ok(Some(Hlc(16))));
    let a2 = AsofQuery { at: Some("xyz".into()), ..a };
    assert!(a2.at_time().is_err());
    let a3 = AsofQuery { at: None, ..a2 };
    assert_eq!(a3.at_time(), Ok(None));

    assert_eq!(PutTagBody { tx_id: "a".into() }.tx().unwrap(), TxId(10));
    assert_eq!(PutTagBody { tx_id: "".into() }.tx().unwrap_err(), HexError::Empty);
    let t = TagEntry::new("v1", &TxId(1));
    assert_eq!(t.label, "v1");
    assert_eq!(t.tx_id, format!("{:032x}", 1u128));
}

#[test]
fn restore_bookkeeping() {
    let mut r = RestoreResult::new();
    r.tally(true);
    r.tally(false);
    r.tally(true);
    assert_eq!(r, RestoreResult { imported: 2, skipped: 1 });

    let f = fact("e", "a", 9, false);
    let o = restore_opts(&f);
    assert_eq!(o.message.as_deref(), Some("restore"));
    assert_eq!(o.idempotency_key, Some(f.id.to_string()));
    assert_eq!(o.author.as_deref(), Some("ann"));
    assert_eq!(o.valid_from, Some(f.valid_from));
    assert!(o.caused_by.is_none());

    let q = dump_query(&Namespace::default(), &BranchName::new("dev"));
    assert!(q.include_retracted);
    assert_eq!(q.branch.as_str(), "dev");
    assert!(q.limit.is_none());
}

#[test]
fn write_checks() {
    assert!(check_write(ts(10), Some(ts(20)), None, &Attr::new("a"), &Value::Null).is_ok());
    assert!(matches!(
        check_write(ts(10), Some(ts(10)), None, &Attr::new("a"), &Value::Null),
        Err(Error::InvalidTimeRange)
    ));
    let mut s = Schema::new(true);
    s.insert("age", AttrSpec::new(AttrType::Int));
    assert!(check_write(ts(0), None, Some(&s), &Attr::new("age"), &Value::Int(3)).is_ok());
    assert!(matches!(
        check_write(ts(0), None, Some(&s), &Attr::new("age"), &Value::Bool(true)),
        Err(Error::SchemaViolation { .. })
    ));
    assert!(matches!(
        check_write(ts(0), None, Some(&s), &Attr::new("other"), &Value::Int(1)),
        Err(Error::SchemaViolation { .. })
    ));
}

#[test]
fn record_params_default_valid_from() {
    let p = record_params(
        Namespace::default(),
        EntityId::new("e"),
        Attr::new("a"),
        Value::Int(1),
        BranchName::main(),
        RecordOpts::default(),
        ts(42),
        Hlc(3),
        TxId(4),
    );
    assert_eq!(p.valid_from, ts(42));
    assert_eq!(p.tx_time, Hlc(3));
    let mut o = RecordOpts::default();
    o.valid_from = Some(ts(5));
    o.idempotency_key = Some("k".into());
    let p2 = record_params(
        Namespace::default(),
        EntityId::new("e"),
        Attr::new("a"),
        Value::Int(1),
        BranchName::main(),
        o,
        ts(42),
        Hlc(3),
        TxId(4),
    );
    assert_eq!(p2.valid_from, ts(5));
    assert_eq!(p2.idempotency_key.as_deref(), Some("k"));
}

#[test]
fn bulk_params_shares_the_transaction() {
    match bulk_params(&Namespace::default(), &BranchName::main(), vec![], &None, &None, ts(1), Hlc(1), TxId(1)) {
        Err(Error::Other(m)) => assert_eq!(m, "bulk_record: at least one spec required"),
        _ => panic!("empty bulk write accepted"),
    }
    let specs = vec![
        BulkSpec { entity: EntityId::new("a"), attr: Attr::new("x"), value: Value::Int(1), valid_from: None, valid_to: None },
        BulkSpec { entity: EntityId::new("b"), attr: Attr::new("y"), value: Value::Int(2), valid_from: Some(ts(9)), valid_to: None },
    ];
    let ps = bulk_params(&Namespace::default(), &BranchName::main(), specs, &Some("me".into()), &None, ts(1), Hlc(8), TxId(2)).unwrap();
    assert_eq!(ps.len(), 2);
    assert_eq!(ps[0].valid_from, ts(1));
    assert_eq!(ps[1].valid_from, ts(9));
    assert!(ps.iter().all(|p| p.tx_id == TxId(2) && p.tx_time == Hlc(8) && p.author.as_deref() == Some("me")));
}

#[test]
fn retention_selection() {
    assert_eq!(retention_cutoff(10_000, Some(3)), Some(7_000));
    assert_eq!(retention_cutoff(10_000, None), None);
    let hist = vec![fact("e", "a", 30, false), fact("e", "a", 10, true), fact("e", "a", 20, false)];
    let mut p = RetentionPolicy::default();
    p.max_versions = Some(1);
    let picked: Vec<u64> = retention_eligible(hist, &p, None).iter().map(|f| f.tx_time.0).collect();
    assert_eq!(picked, vec![10, 20]);
    // The cutoff counts milliseconds: facts recorded before 15 ms are old enough.
    let ms = |m: u64| Hlc::from_parts(m, 3).0;
    let hist2 = vec![fact("e", "a", ms(30), false), fact("e", "a", ms(10), true), fact("e", "a", ms(20), true)];
    let mut p2 = RetentionPolicy::default();
    p2.only_retracted = true;
    let picked2: Vec<u64> = retention_eligible(hist2, &p2, Some(15)).iter().map(|f| f.tx_time.0).collect();
    assert_eq!(picked2, vec![ms(10)]);
    let hist3 = vec![fact("e", "a", ms(14), false), fact("e", "a", ms(15), false)];
    let picked3: Vec<u64> = retention_eligible(hist3, &RetentionPolicy::default(), Some(15)).iter().map(|f| f.tx_time.0).collect();
    assert_eq!(picked3, vec![ms(14)]);
}
