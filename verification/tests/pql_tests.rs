use polo::clock::Hlc;
use polo::error::Error;
use polo::fact::{Attr, BranchName, EntityId, Fact, FactId, Namespace, Timestamp, TxId, Value};
use polo::pql::eval::{float_literals, like_match, Cell, Evaluator};
use polo::pql::numeric::i64_to_f64_bits;
use polo::pql::lexer::Lexer;
use polo::pql::parse;
use polo::pql::token::Token;

fn now() -> Timestamp {
    let d = chrono::Utc::now();
    Timestamp { secs: d.timestamp(), nanos: d.timestamp_subsec_nanos() }
}

fn make_fact(entity: &str, attr: &str, value: Value) -> Fact {
    Fact {
        id: FactId::new(),
        namespace: Namespace::default(),
        entity: EntityId::new(entity),
        attr: Attr::new(attr),
        value,
        valid_from: now(),
        valid_to: None,
        tx_id: TxId::new(),
        tx_time: Hlc::zero(),
        branch: BranchName::main(),
        author: None,
        retracted: false,
        retracted_at: None,
        caused_by: None,
    }
}

type Row = Vec<(String, Cell)>;

/// Parses and evaluates a query, giving each float literal its f64 value.
fn run(input: &str, branch: BranchName, facts: Vec<Fact>) -> Result<Vec<Row>, Error> {
    let q = parse(input)?;
    let floats: Vec<(String, u64)> = float_literals(&q)
        .into_iter()
        .map(|t| {
            let bits = t.parse::<f64>().unwrap().to_bits();
            (t, bits)
        })
        .collect();
    Evaluator::new(&q, branch, floats).eval_all(facts)
}

fn cell<'a>(row: &'a Row, name: &str) -> &'a Cell {
    &row.iter().find(|(n, _)| n == name).unwrap().1
}

fn is_str(c: &Cell, s: &str) -> bool {
    matches!(c, Cell::Str(x) if x == s)
}

#[test]
fn parse_basic_select() {
    let q = parse("SELECT entity, attr, value FROM default WHERE entity = 'user/1'").unwrap();
    assert_eq!(q.namespace, "default");
    assert!(q.filter.is_some());
}

#[test]
fn eval_filter_eq() {
    let facts = vec![
        make_fact("user/1", "name", Value::Str("alice".to_owned())),
        make_fact("user/2", "name", Value::Str("bob".to_owned())),
    ];
    let results = run(
        "SELECT entity, value FROM default WHERE entity = 'user/1'",
        BranchName::main(),
        facts,
    )
    .unwrap();
    assert_eq!(results.len(), 1);
    assert!(is_str(cell(&results[0], "entity"), "user/1"));
}

#[test]
fn eval_like() {
    let facts = vec![
        make_fact("user/1", "name", Value::Str("alice".to_owned())),
        make_fact("product/1", "name", Value::Str("widget".to_owned())),
    ];
    let results = run(
        "SELECT entity FROM default WHERE entity LIKE 'user/%'",
        BranchName::main(),
        facts,
    )
    .unwrap();
    assert_eq!(results.len(), 1);
}

#[test]
fn pql_parse_select_star() {
    let q = parse("SELECT * FROM default").unwrap();
    assert_eq!(q.namespace, "default");
    assert!(q.filter.is_none());
}

#[test]
fn pql_parse_with_entity_filter() {
    let q = parse("SELECT entity, attr, value FROM default WHERE entity = 'user/1'").unwrap();
    assert!(q.filter.is_some());
}

#[test]
fn pql_parse_limit() {
    let q = parse("SELECT * FROM default LIMIT 10").unwrap();
    assert_eq!(q.limit, Some(10));
}

#[test]
fn pql_eval_entity_eq() {
    let facts = vec![
        make_fact("user/1", "name", Value::Str("alice".into())),
        make_fact("user/2", "name", Value::Str("bob".into())),
    ];
    let result = run(
        "SELECT entity, value FROM default WHERE entity = 'user/1'",
        BranchName::main(),
        facts,
    )
    .unwrap();
    assert_eq!(result.len(), 1);
    assert!(is_str(cell(&result[0], "entity"), "user/1"));
}

#[test]
fn pql_eval_attr_filter() {
    let facts = vec![
        make_fact("u/1", "name", Value::Str("alice".into())),
        make_fact("u/1", "age", Value::Int(30)),
    ];
    let result = run("SELECT entity FROM default WHERE attr = 'age'", BranchName::main(), facts).unwrap();
    assert_eq!(result.len(), 1);
}

#[test]
fn pql_eval_like_prefix() {
    let facts = vec![
        make_fact("user/1", "x", Value::Null),
        make_fact("product/1", "x", Value::Null),
        make_fact("user/2", "x", Value::Null),
    ];
    let result = run(
        "SELECT entity FROM default WHERE entity LIKE 'user/%'",
        BranchName::main(),
        facts,
    )
    .unwrap();
    assert_eq!(result.len(), 2);
}

#[test]
fn pql_eval_limit() {
    let facts: Vec<Fact> = (0..10).map(|i| make_fact(&format!("e/{i}"), "v", Value::Int(i))).collect();
    let result = run("SELECT entity FROM default LIMIT 3", BranchName::main(), facts).unwrap();
    assert_eq!(result.len(), 3);
}

#[test]
fn pql_invalid_syntax_returns_error() {
    assert!(parse("SELECTFROM broken !!").is_err());
}

// ── further cases ─────────────────────────────────────────────────────────────

#[test]
fn lexer_reads_multiword_keywords() {
    let toks = Lexer::new("select * from ns effective at '2024-01-01T00:00:00Z' as of '0x1' order by entity desc")
        .tokenize()
        .unwrap();
    assert!(matches!(toks[0], Token::Select));
    assert!(matches!(toks[1], Token::Star));
    assert!(matches!(toks[2], Token::From));
    assert!(matches!(&toks[3], Token::Ident(s) if s == "ns"));
    assert!(matches!(toks[4], Token::EffectiveAt));
    assert!(matches!(&toks[5], Token::Str(s) if s == "2024-01-01T00:00:00Z"));
    assert!(matches!(toks[6], Token::AsOf));
    assert!(matches!(toks[8], Token::Order));
    assert!(matches!(&toks[9], Token::Ident(s) if s == "entity"));
    assert!(matches!(toks[10], Token::Desc));
    assert!(matches!(toks[11], Token::Eof));
}

#[test]
fn lexer_numbers_and_errors() {
    let toks = Lexer::new("42 -7 1.5e3").tokenize().unwrap();
    assert!(matches!(toks[0], Token::Int(42)));
    assert!(matches!(toks[1], Token::Int(-7)));
    assert!(matches!(&toks[2], Token::Float(s) if s == "1.5e3"));
    match Lexer::new("1.2.3").tokenize() {
        Err(Error::Query(m)) => assert_eq!(m, "invalid float literal: 1.2.3"),
        _ => panic!("expected a query error"),
    }
    match Lexer::new("99999999999999999999").tokenize() {
        Err(Error::Query(m)) => assert_eq!(m, "invalid integer literal: 99999999999999999999"),
        _ => panic!("expected a query error"),
    }
    match Lexer::new("'open").tokenize() {
        Err(Error::Query(m)) => assert_eq!(m, "unterminated string literal"),
        _ => panic!("expected a query error"),
    }
    match Lexer::new("a ! b").tokenize() {
        Err(Error::Query(m)) => assert_eq!(m, "unexpected '!'"),
        _ => panic!("expected a query error"),
    }
    match Lexer::new("a # b").tokenize() {
        Err(Error::Query(m)) => assert_eq!(m, "unexpected character '#'"),
        _ => panic!("expected a query error"),
    }
}

#[test]
fn lexer_string_escapes() {
    let toks = Lexer::new(r"'it\'s \\ \n \q'").tokenize().unwrap();
    assert!(matches!(&toks[0], Token::Str(s) if s == "it's \\ \n \\q"));
}

#[test]
fn parser_error_messages() {
    match parse("SELECT FROM x") {
        Err(Error::Query(m)) => assert_eq!(m, "SELECT needs at least one column"),
        _ => panic!("expected a query error"),
    }
    match parse("SELECT * x") {
        Err(Error::Query(m)) => assert_eq!(m, "expected From, got Ident(\"x\")"),
        _ => panic!("expected a query error"),
    }
    match parse("SELECT * FROM 5") {
        Err(Error::Query(m)) => assert_eq!(m, "expected namespace name after FROM, got Int(5)"),
        _ => panic!("expected a query error"),
    }
    match parse("SELECT * FROM d LIMIT -1") {
        Err(Error::Query(m)) => assert_eq!(m, "LIMIT expects a non-negative integer, got Int(-1)"),
        _ => panic!("expected a query error"),
    }
    match parse("SELECT * FROM d WHERE entity LIKE 3") {
        Err(Error::Query(m)) => assert_eq!(m, "LIKE expects a string pattern, got Int(3)"),
        _ => panic!("expected a query error"),
    }
}

#[test]
fn parse_full_query() {
    let q = parse(
        "SELECT entity, value FROM default WHERE (attr = 'age' AND value >= 18) OR entity IN ('a', 'b') \
         EFFECTIVE AT '2024-01-01T00:00:00Z' AS OF '0x10' ORDER BY entity DESC, tx_time LIMIT 5 OFFSET 2",
    )
    .unwrap();
    assert_eq!(q.columns.len(), 2);
    assert_eq!(q.limit, Some(5));
    assert_eq!(q.offset, Some(2));
    assert_eq!(q.asof, Some(Hlc(0x10)));
    assert_eq!(q.effective_at, Some(Timestamp { secs: 1704067200, nanos: 0 }));
    assert_eq!(q.order_by.len(), 2);
    assert!(q.filter.is_some());
}

#[test]
fn eval_orders_and_pages() {
    let facts: Vec<Fact> = (0..5).map(|i| make_fact(&format!("e/{i}"), "v", Value::Int(i))).collect();
    let rows = run(
        "SELECT entity FROM default WHERE attr = 'v' ORDER BY entity DESC LIMIT 2 OFFSET 1",
        BranchName::main(),
        facts,
    )
    .unwrap();
    assert_eq!(rows.len(), 2);
    assert!(is_str(cell(&rows[0], "entity"), "e/3"));
    assert!(is_str(cell(&rows[1], "entity"), "e/2"));
}

#[test]
fn eval_comparisons_and_nulls() {
    let facts = vec![
        make_fact("a", "n", Value::Int(5)),
        make_fact("b", "n", Value::Float(2.5f64.to_bits())),
        make_fact("c", "n", Value::Null),
        make_fact("d", "n", Value::Str("x".into())),
    ];
    let rows = run("SELECT entity FROM default WHERE value > 2.75", BranchName::main(), facts).unwrap();
    assert_eq!(rows.len(), 1);
    assert!(is_str(cell(&rows[0], "entity"), "a"));

    let facts = vec![make_fact("a", "n", Value::Int(5)), make_fact("c", "n", Value::Null)];
    let rows = run("SELECT entity FROM default WHERE value IS NULL", BranchName::main(), facts).unwrap();
    assert_eq!(rows.len(), 1);
    assert!(is_str(cell(&rows[0], "entity"), "c"));
}

#[test]
fn eval_unknown_column_is_an_error() {
    let facts = vec![make_fact("a", "n", Value::Int(5))];
    match run("SELECT nope FROM default", BranchName::main(), facts) {
        Err(Error::Query(m)) => assert_eq!(m, "unknown column 'nope'"),
        _ => panic!("expected a query error"),
    }
    assert!(run("SELECT nope FROM default", BranchName::main(), Vec::new()).unwrap().is_empty());
}

#[test]
fn eval_star_row_has_every_column() {
    let facts = vec![make_fact("a", "n", Value::Int(5))];
    let rows = run("SELECT * FROM default", BranchName::main(), facts).unwrap();
    assert_eq!(rows[0].len(), 12);
    assert!(matches!(cell(&rows[0], "value"), Cell::Int(5)));
    assert!(matches!(cell(&rows[0], "author"), Cell::Null));
}

#[test]
fn to_scan_query_pushes_down_equalities() {
    let q = parse("SELECT * FROM ns WHERE entity = 'e/1' AND attr = 'name'").unwrap();
    let sq = Evaluator::new(&q, BranchName::main(), Vec::new()).to_scan_query();
    assert_eq!(sq.namespace.as_str(), "ns");
    assert_eq!(sq.entity.as_ref().map(|e| e.as_str().to_owned()), Some("e/1".to_owned()));
    assert_eq!(sq.attr.as_ref().map(|a| a.as_str().to_owned()), Some("name".to_owned()));
    assert!(sq.limit.is_none());
    assert!(sq.offset.is_none());
    assert!(!sq.include_retracted);
}

#[test]
fn like_match_cases() {
    assert!(like_match("user/1", "user/%"));
    assert!(like_match("abc", "a%c"));
    assert!(like_match("abc", "%"));
    assert!(!like_match("abc", "abd"));
    assert!(like_match("abc", "abc"));
    assert!(like_match("axbxc", "a%b%c"));
    assert!(!like_match("ab", "a%b%c"));
}

#[test]
fn int_to_float_conversion_rounds_to_nearest() {
    for x in [0i64, 1, -1, 42, 1 << 53, (1 << 53) + 1, i64::MAX, i64::MIN, -123456789012345678] {
        assert_eq!(i64_to_f64_bits(x), (x as f64).to_bits(), "x = {x}");
    }
}

#[test]
fn run_parses_and_evaluates() {
    let facts = vec![
        make_fact("user/1", "age", Value::Int(30)),
        make_fact("user/2", "age", Value::Int(20)),
    ];
    let text = "SELECT entity FROM default WHERE value > 25.5";
    let floats = vec![("25.5".to_string(), 25.5f64.to_bits())];
    let rows = polo::pql::run(text, BranchName::main(), facts, floats).unwrap();
    assert_eq!(rows.len(), 1);
    assert!(is_str(cell(&rows[0], "entity"), "user/1"));
    let bad = polo::pql::run("SELECT FROM", BranchName::main(), vec![], vec![]);
    assert!(matches!(bad, Err(Error::Query(_))));
    let unknown = polo::pql::run("SELECT nope FROM default", BranchName::main(), vec![make_fact("e", "a", Value::Null)], vec![]);
    assert!(matches!(unknown, Err(Error::Query(_))));
}

#[test]
fn time_columns_are_rfc3339() {
    let mut f = make_fact("a", "n", Value::Int(1));
    f.valid_from = Timestamp { secs: 1704067200, nanos: 0 };
    f.valid_to = Some(Timestamp { secs: 1704067201, nanos: 500_000_000 });
    let rows = run("SELECT valid_from, valid_to FROM default", BranchName::main(), vec![f]).unwrap();
    assert!(is_str(cell(&rows[0], "valid_from"), "2024-01-01T00:00:00+00:00"));
    assert!(is_str(cell(&rows[0], "valid_to"), "2024-01-01T00:00:01.500+00:00"));
}

#[test]
fn unfiltered_query_pages_in_the_store_once() {
    let q = parse("SELECT entity FROM default LIMIT 5 OFFSET 2").unwrap();
    let ev = Evaluator::new(&q, BranchName::main(), Vec::new());
    let sq = ev.to_scan_query();
    assert_eq!(sq.limit, Some(5));
    assert_eq!(sq.offset, Some(2));
    // What the store answered is already the page: it is not paged again.
    let page: Vec<Fact> = (0..5).map(|i| make_fact(&format!("e/{i}"), "v", Value::Int(i))).collect();
    assert_eq!(ev.eval(page).unwrap().len(), 5);
    let filtered = parse("SELECT entity FROM default WHERE attr = 'v' LIMIT 5 OFFSET 2").unwrap();
    let ev2 = Evaluator::new(&filtered, BranchName::main(), Vec::new());
    let sq2 = ev2.to_scan_query();
    assert_eq!(sq2.limit, None);
    assert_eq!(sq2.offset, None);
    let all: Vec<Fact> = (0..10).map(|i| make_fact(&format!("e/{i}"), "v", Value::Int(i))).collect();
    assert_eq!(ev2.eval(all).unwrap().len(), 5);
}
