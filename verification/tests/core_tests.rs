use polo::clock::{Clock, Hlc};
use polo::db::ScanQuery;
use polo::error::Error;
use polo::fact::{Attr, BranchName, EntityId, FactId, Namespace, TxId, Value};
use polo::gc::{GcParams, RetentionPolicy};
use polo::schema::{AttrSpec, AttrType, Schema};

// ── clock ─────────────────────────────────────────────────────────────────────

#[test]
fn clock_monotonic() {
    let mut clk = Clock::new();
    let mut prev = clk.try_tick().unwrap();
    for _ in 0..1000 {
        let next = clk.try_tick().unwrap();
        assert!(next > prev, "clock must be strictly monotonic");
        prev = next;
    }
}

#[test]
fn clock_observe_advances() {
    let mut clk = Clock::new();
    let now_ms = chrono::Utc::now().timestamp_millis() as u64;
    let future = Hlc(((now_ms + 1000) << 16) | 0);
    let _ = clk.observe(future);
    let t = clk.try_tick().unwrap();
    assert!(t > future, "tick after observe should be > observed value");
}

#[test]
fn clock_display_roundtrip() {
    let mut clk = Clock::new();
    let t = clk.try_tick().unwrap();
    let s = t.to_string();
    assert!(!s.is_empty());
}

#[test]
fn hlc_zero() {
    assert_eq!(Hlc::zero().0, 0);
}

// ── fact types ────────────────────────────────────────────────────────────────

#[test]
fn value_type_names() {
    assert_eq!(Value::Str("x".into()).kind_name(), "str");
    assert_eq!(Value::Int(0).kind_name(), "int");
    assert_eq!(Value::Float(0.0f64.to_bits()).kind_name(), "float");
    assert_eq!(Value::Bool(false).kind_name(), "bool");
    assert_eq!(Value::Json("{}".into()).kind_name(), "json");
    assert_eq!(Value::Null.kind_name(), "null");
}

#[test]
fn value_equality() {
    assert_eq!(Value::Int(42), Value::Int(42));
    assert_ne!(Value::Int(42), Value::Int(43));
    assert_ne!(Value::Str("a".into()), Value::Int(0));
}

#[test]
fn namespace_default_is_default() {
    let ns = Namespace::default();
    assert_eq!(ns.as_str(), "default");
}

#[test]
fn branch_main_is_main() {
    let b = BranchName::main();
    assert_eq!(b.as_str(), "main");
}

#[test]
fn entity_id_as_str() {
    let e = EntityId::new("user/42");
    assert_eq!(e.as_str(), "user/42");
}

#[test]
fn fact_id_display_parses() {
    let fid = FactId::new();
    let s = fid.to_string();
    let parsed = FactId::parse(&s).unwrap();
    assert_eq!(fid, parsed);
}

#[test]
fn tx_id_display_parses() {
    let tid = TxId::new();
    let s = tid.to_string();
    let parsed = TxId::parse(&s).unwrap();
    assert_eq!(tid, parsed);
}

// ── schema validation ─────────────────────────────────────────────────────────

#[test]
fn schema_accepts_correct_type() {
    let mut schema = Schema::new(false);
    schema.insert("age", AttrSpec::new(AttrType::Int));

    assert!(schema.validate(&Attr::new("age"), &Value::Int(30)).is_ok());
}

#[test]
fn schema_rejects_wrong_type() {
    let mut schema = Schema::new(false);
    schema.insert("age", AttrSpec::new(AttrType::Int));

    let err = schema.validate(&Attr::new("age"), &Value::Str("thirty".into()));
    assert!(err.is_err());
}

#[test]
fn schema_strict_mode_rejects_unknown_attr() {
    let schema = Schema::new(true);
    let err = schema.validate(&Attr::new("unknown"), &Value::Null);
    assert!(err.is_err());
}

#[test]
fn schema_non_strict_allows_unknown_attr() {
    let schema = Schema::new(false);
    assert!(schema.validate(&Attr::new("unknown"), &Value::Null).is_ok());
}

#[test]
fn schema_any_accepts_all_types() {
    let mut schema = Schema::new(false);
    schema.insert("flex", AttrSpec::new(AttrType::Any));

    let attr = Attr::new("flex");
    for v in [
        Value::Str("x".into()),
        Value::Int(1),
        Value::Float(1.0f64.to_bits()),
        Value::Bool(false),
        Value::Null,
        Value::Json("1".into()),
    ] {
        assert!(schema.validate(&attr, &v).is_ok(), "Any should accept {v:?}");
    }
}

// ── gc / retention ────────────────────────────────────────────────────────────

#[test]
fn gc_params_default() {
    let p = GcParams::default();
    assert!(p.before_ms.is_none());
    assert!(p.branch.is_none());
    assert!(!p.dry_run);
}

#[test]
fn retention_policy_default() {
    let p = RetentionPolicy::default();
    assert!(p.max_age_secs.is_none());
    assert!(p.max_versions.is_none());
    assert!(!p.only_retracted);
    assert!(p.branches.is_empty());
    assert!(!p.dry_run);
}

// ── scan query defaults ───────────────────────────────────────────────────────

#[test]
fn scan_query_default_fields() {
    let q = ScanQuery::default();
    assert!(q.entity.is_none());
    assert!(q.attr.is_none());
    assert!(q.asof_tx.is_none());
    assert!(q.asof_valid.is_none());
    assert!(!q.include_retracted);
    assert!(q.limit.is_none());
    assert!(q.offset.is_none());
}

// ── error helpers ─────────────────────────────────────────────────────────────

#[test]
fn error_is_not_found() {
    assert!(Error::FactNotFound(FactId::new()).is_not_found());
    assert!(Error::TxNotFound(TxId::new()).is_not_found());
    assert!(Error::NamespaceNotFound(Namespace::default()).is_not_found());
    assert!(Error::BranchNotFound(BranchName::main(), Namespace::default()).is_not_found());
    assert!(Error::TagNotFound("x".into()).is_not_found());
    assert!(!Error::other("misc").is_not_found());
}

fn tick(clk: &mut Clock) -> Hlc {
    loop {
        if let Some(h) = clk.try_tick() {
            return h;
        }
        std::hint::spin_loop();
    }
}

#[test]
fn tick_is_monotonic() {
    let mut clk = Clock::new();
    let mut prev = tick(&mut clk);
    for _ in 0..1000 {
        let next = tick(&mut clk);
        assert!(next > prev, "HLC went backwards: {:?} after {:?}", next, prev);
        prev = next;
    }
}

#[test]
fn hlc_roundtrip_display() {
    let h = Hlc::from_parts(1_700_000_000_000, 42);
    let s = h.to_string();
    let parsed: Hlc = Hlc::parse(&s).unwrap();
    assert_eq!(h, parsed);
}

#[test]
fn observe_rejects_excessive_drift() {
    let mut clk = Clock::new();
    let future = Hlc::from_parts(chrono::Utc::now().timestamp_millis() as u64 + 60_000 + 1, 0);
    assert!(clk.observe(future).is_err());
}
