//! Evaluating a PQL query over facts: the scan a store answers, the filter,
//! the ordering, the page and the projection into rows.
use vstd::prelude::*;

use super::ast::{
    BinOp, Column, ColumnView, Direction, Expr, ExprView, LitView, Literal, OrderByView, Query,
    QueryView,
};
use super::numeric::{
    compare_i64, compare_int, compare_text, float_compare, float_order, i64_to_f64_bits, spec_i64_bits,
    Rel,
};
use crate::db::{ScanQuery, ScanView};
use crate::error::Error;
use crate::fact::{
    float_bits_eq, float_eq, spec_id_text, Attr, BranchName, EntityId, Fact, FactView, Namespace,
    Timestamp, Value, ValueView,
};
use crate::keyed::{find_key, key_index, lemma_key_index_view, names_view, vkey_index};
use crate::merge::fv;
use crate::sort::{
    chars_lt, key_le_dir, lemma_sort_views_dir, sort_stable_dir, stable_sort_dir, KeyView, SortKey,
};
use crate::store::{select, spec_page, ts_number};
use crate::text::{chars_of, copy_string, hex16, spec_hex16, string_from_chars, str_eq};

verus! {

/// The value an operand of a comparison takes; a float by its bit pattern.
pub enum Val {
    Str(Seq<char>),
    Int(i64),
    Float(u64),
    Bool(bool),
    Null,
}

/// The bit pattern of the quiet NaN.
pub open spec fn nan_bits() -> u64 {
    0x7ff8_0000_0000_0000
}

/// The value of the float literal written `t`, from the table of the
/// query's float literals (NaN when the table lacks it).
pub open spec fn float_value(tbl: Seq<(Seq<char>, u64)>, t: Seq<char>) -> u64 {
    let k = vkey_index(tbl, t);
    if k == -1 {
        nan_bits()
    } else {
        tbl[k].1
    }
}

/// The value of a literal.
pub open spec fn lit_val(l: LitView, tbl: Seq<(Seq<char>, u64)>) -> Val {
    match l {
        LitView::Str(s) => Val::Str(s),
        LitView::Int(n) => Val::Int(n),
        LitView::Float(t) => Val::Float(float_value(tbl, t)),
        LitView::Bool(b) => Val::Bool(b),
        LitView::Null => Val::Null,
    }
}

/// The value of a fact's column, when the column has one: the entity,
/// attribute, branch and namespace; the author when there is one; the value
/// when it is a string, integer, float or boolean.
pub open spec fn col_val(col: Seq<char>, f: FactView) -> Option<Val> {
    if col == "entity"@ {
        Some(Val::Str(f.entity))
    } else if col == "attr"@ {
        Some(Val::Str(f.attr))
    } else if col == "branch"@ {
        Some(Val::Str(f.branch))
    } else if col == "namespace"@ {
        Some(Val::Str(f.namespace))
    } else if col == "author"@ {
        match f.author {
            Some(a) => Some(Val::Str(a)),
            None => None,
        }
    } else if col == "value"@ {
        match f.value {
            ValueView::Str(s) => Some(Val::Str(s)),
            ValueView::Int(n) => Some(Val::Int(n)),
            ValueView::Float(b) => Some(Val::Float(b)),
            ValueView::Bool(b) => Some(Val::Bool(b)),
            _ => None,
        }
    } else {
        None
    }
}

/// Equality of values: same kind and equal, floats as floats.
pub open spec fn val_eq(a: Val, b: Val) -> bool {
    match (a, b) {
        (Val::Str(x), Val::Str(y)) => x == y,
        (Val::Int(x), Val::Int(y)) => x == y,
        (Val::Float(x), Val::Float(y)) => float_bits_eq(x, y),
        (Val::Bool(x), Val::Bool(y)) => x == y,
        (Val::Null, Val::Null) => true,
        _ => false,
    }
}

/// `false` before `true`.
pub open spec fn bool_rank(b: bool) -> int {
    if b {
        1
    } else {
        0
    }
}

/// The ordering of two values, when they are comparable: numbers (an integer
/// against a float as the float nearest to it), strings, booleans.
pub open spec fn val_order(a: Val, b: Val) -> Option<Rel> {
    match (a, b) {
        (Val::Int(x), Val::Int(y)) => Some(compare_int(x as int, y as int)),
        (Val::Float(x), Val::Float(y)) => float_order(x, y),
        (Val::Int(x), Val::Float(y)) => float_order(spec_i64_bits(x), y),
        (Val::Float(x), Val::Int(y)) => float_order(x, spec_i64_bits(y)),
        (Val::Str(x), Val::Str(y)) => Some(compare_text(x, y)),
        (Val::Bool(x), Val::Bool(y)) => Some(compare_int(bool_rank(x), bool_rank(y))),
        _ => None,
    }
}

/// What a comparison operand stands for: a column's value or a literal.
pub open spec fn resolve(e: ExprView, f: FactView, tbl: Seq<(Seq<char>, u64)>) -> Option<Val> {
    match e {
        ExprView::Column(c) => col_val(c, f),
        ExprView::Lit(l) => Some(lit_val(l, tbl)),
        _ => None,
    }
}

/// Whether `op` holds between `a` and `b`.
pub open spec fn binop_holds(op: BinOp, a: Val, b: Val) -> bool {
    match op {
        BinOp::Eq => val_eq(a, b),
        BinOp::Ne => !val_eq(a, b),
        BinOp::Lt => val_order(a, b) == Some(Rel::Less),
        BinOp::Le => val_order(a, b) == Some(Rel::Less) || val_order(a, b) == Some(Rel::Equal),
        BinOp::Gt => val_order(a, b) == Some(Rel::Greater),
        BinOp::Ge => val_order(a, b) == Some(Rel::Greater) || val_order(a, b) == Some(Rel::Equal),
    }
}

/// Whether the column has no value (or a null one).
pub open spec fn col_is_null(col: Seq<char>, f: FactView) -> bool {
    match col_val(col, f) {
        None => true,
        Some(v) => v is Null,
    }
}

/// The column's value when it is a string, else the empty string.
pub open spec fn col_text(col: Seq<char>, f: FactView) -> Seq<char> {
    match col_val(col, f) {
        Some(Val::Str(s)) => s,
        _ => Seq::empty(),
    }
}

/// Whether the column's value equals one of the first `n` literals.
pub open spec fn in_values(col: Seq<char>, f: FactView, values: Seq<LitView>, tbl: Seq<(Seq<char>, u64)>, n: int) -> bool
    decreases n,
{
    if n <= 0 {
        false
    } else {
        in_values(col, f, values, tbl, n - 1) || match col_val(col, f) {
            Some(v) => val_eq(v, lit_val(values[n - 1], tbl)),
            None => false,
        }
    }
}

/// `pattern` split at each `%`.
pub open spec fn split_pct(p: Seq<char>) -> Seq<Seq<char>>
    decreases p.len(),
{
    if p.len() == 0 {
        seq![Seq::empty()]
    } else {
        let rest = split_pct(p.drop_last());
        if p.last() == '%' {
            rest.push(Seq::empty())
        } else {
            rest.update(rest.len() - 1, rest.last().push(p.last()))
        }
    }
}

/// `s` starts with `p`.
pub open spec fn starts_with(s: Seq<char>, p: Seq<char>) -> bool {
    p.len() <= s.len() && s.take(p.len() as int) == p
}

/// `s` ends with `p`.
pub open spec fn ends_with(s: Seq<char>, p: Seq<char>) -> bool {
    p.len() <= s.len() && s.skip(s.len() - p.len()) == p
}

/// The first position at or after `k` where `p` occurs in `s`.
pub open spec fn find_from(s: Seq<char>, p: Seq<char>, k: int) -> Option<int>
    decreases s.len() + 1 - k,
{
    if k < 0 || k + p.len() > s.len() {
        None
    } else if s.subrange(k, k + p.len()) == p {
        Some(k)
    } else {
        find_from(s, p, k + 1)
    }
}

/// Whether the rest `r` of the text matches the pieces `parts[i..]` of a
/// pattern (the first piece already matched): each middle piece at its first
/// occurrence, the last piece at the end.
pub open spec fn like_rest(r: Seq<char>, parts: Seq<Seq<char>>, i: int) -> bool
    decreases parts.len() - i,
{
    if i < 0 || i >= parts.len() {
        true
    } else if i == parts.len() - 1 {
        ends_with(r, parts[i])
    } else {
        match find_from(r, parts[i], 0) {
            Some(k) => like_rest(r.skip(k + parts[i].len()), parts, i + 1),
            None => false,
        }
    }
}

/// SQL `LIKE` with `%` as the only wildcard: without `%` the text must equal
/// the pattern; otherwise it starts with the first piece, ends with the
/// last, and holds the middle pieces in order (each at its first place).
pub open spec fn spec_like(s: Seq<char>, pat: Seq<char>) -> bool {
    let parts = split_pct(pat);
    if parts.len() == 1 {
        s == pat
    } else {
        starts_with(s, parts[0]) && like_rest(s.skip(parts[0].len() as int), parts, 1)
    }
}

/// Whether a fact passes a filter.
pub open spec fn spec_eval_filter(e: ExprView, f: FactView, tbl: Seq<(Seq<char>, u64)>) -> bool
    decreases e,
{
    match e {
        ExprView::And(a, b) => spec_eval_filter(*a, f, tbl) && spec_eval_filter(*b, f, tbl),
        ExprView::Or(a, b) => spec_eval_filter(*a, f, tbl) || spec_eval_filter(*b, f, tbl),
        ExprView::Not(a) => !spec_eval_filter(*a, f, tbl),
        ExprView::IsNull(a) => match *a {
            ExprView::Column(c) => col_is_null(c, f),
            _ => false,
        },
        ExprView::IsNotNull(a) => match *a {
            ExprView::Column(c) => !col_is_null(c, f),
            _ => true,
        },
        ExprView::Like { expr, pattern } => match *expr {
            ExprView::Column(c) => spec_like(col_text(c, f), pattern),
            _ => false,
        },
        ExprView::In { expr, values } => match *expr {
            ExprView::Column(c) => in_values(c, f, values, tbl, values.len() as int),
            _ => false,
        },
        ExprView::BinOp { op, left, right } => match (resolve(*left, f, tbl), resolve(*right, f, tbl)) {
            (Some(a), Some(b)) => binop_holds(op, a, b),
            _ => false,
        },
        ExprView::Column(_) => true,
        ExprView::Lit(_) => true,
    }
}


/// An operand of a comparison.
pub enum Operand {
    Str(String),
    Int(i64),
    Float(u64),
    Bool(bool),
    Null,
}

impl View for Operand {
    type V = Val;

    open spec fn view(&self) -> Val {
        match self {
            Operand::Str(s) => Val::Str(s@),
            Operand::Int(n) => Val::Int(*n),
            Operand::Float(b) => Val::Float(*b),
            Operand::Bool(b) => Val::Bool(*b),
            Operand::Null => Val::Null,
        }
    }
}

/// The value of the float literal written `t`.
fn lookup_float(tbl: &Vec<(String, u64)>, t: &String) -> (r: u64)
    ensures
        r == float_value(names_view(tbl@), t@),
{
    proof {
        lemma_key_index_view(tbl@, t@, 0);
    }
    match find_key(tbl, t.as_str()) {
        Some(k) => tbl[k].1,
        None => 0x7ff8_0000_0000_0000,
    }
}

/// The value of a literal.
fn lit_operand(l: &Literal, tbl: &Vec<(String, u64)>) -> (r: Operand)
    ensures
        r@ == lit_val(l@, names_view(tbl@)),
{
    match l {
        Literal::Str(s) => Operand::Str(copy_string(s)),
        Literal::Int(n) => Operand::Int(*n),
        Literal::Float(t) => Operand::Float(lookup_float(tbl, t)),
        Literal::Bool(b) => Operand::Bool(*b),
        Literal::Null => Operand::Null,
    }
}

/// The value of a fact's column.
fn col_operand(col: &str, f: &Fact) -> (r: Option<Operand>)
    ensures
        match col_val(col@, f@) {
            Some(v) => r matches Some(x) && x@ == v,
            None => r is None,
        },
{
    proof {
        reveal_strlit("entity");
        reveal_strlit("attr");
        reveal_strlit("branch");
        reveal_strlit("namespace");
        reveal_strlit("author");
        reveal_strlit("value");
    }
    if str_eq(col, "entity") {
        Some(Operand::Str(copy_string(&f.entity.0)))
    } else if str_eq(col, "attr") {
        Some(Operand::Str(copy_string(&f.attr.0)))
    } else if str_eq(col, "branch") {
        Some(Operand::Str(copy_string(&f.branch.0)))
    } else if str_eq(col, "namespace") {
        Some(Operand::Str(copy_string(&f.namespace.0)))
    } else if str_eq(col, "author") {
        match &f.author {
            Some(a) => Some(Operand::Str(copy_string(a))),
            None => None,
        }
    } else if str_eq(col, "value") {
        match &f.value {
            Value::Str(s) => Some(Operand::Str(copy_string(s))),
            Value::Int(n) => Some(Operand::Int(*n)),
            Value::Float(b) => Some(Operand::Float(*b)),
            Value::Bool(b) => Some(Operand::Bool(*b)),
            _ => None,
        }
    } else {
        None
    }
}

/// Equality of two operands.
fn operand_eq(a: &Operand, b: &Operand) -> (r: bool)
    ensures
        r == val_eq(a@, b@),
{
    match (a, b) {
        (Operand::Str(x), Operand::Str(y)) => str_eq(x.as_str(), y.as_str()),
        (Operand::Int(x), Operand::Int(y)) => *x == *y,
        (Operand::Float(x), Operand::Float(y)) => float_eq(*x, *y),
        (Operand::Bool(x), Operand::Bool(y)) => *x == *y,
        (Operand::Null, Operand::Null) => true,
        _ => false,
    }
}

/// The comparison of two strings, character by character.
fn text_order(a: &str, b: &str) -> (r: Rel)
    ensures
        r == compare_text(a@, b@),
{
    let x = chars_of(a);
    let y = chars_of(b);
    if chars_lt(&x, &y) {
        Rel::Less
    } else if str_eq(a, b) {
        Rel::Equal
    } else {
        Rel::Greater
    }
}

/// The ordering of two operands, when they are comparable.
fn operand_order(a: &Operand, b: &Operand) -> (r: Option<Rel>)
    ensures
        r == val_order(a@, b@),
{
    match (a, b) {
        (Operand::Int(x), Operand::Int(y)) => Some(compare_i64(*x, *y)),
        (Operand::Float(x), Operand::Float(y)) => float_compare(*x, *y),
        (Operand::Int(x), Operand::Float(y)) => float_compare(i64_to_f64_bits(*x), *y),
        (Operand::Float(x), Operand::Int(y)) => float_compare(*x, i64_to_f64_bits(*y)),
        (Operand::Str(x), Operand::Str(y)) => Some(text_order(x.as_str(), y.as_str())),
        (Operand::Bool(x), Operand::Bool(y)) => {
            let xi: i64 = if *x {
                1
            } else {
                0
            };
            let yi: i64 = if *y {
                1
            } else {
                0
            };
            Some(compare_i64(xi, yi))
        },
        _ => None,
    }
}

/// What a comparison operand stands for.
fn resolve_operand(e: &Expr, f: &Fact, tbl: &Vec<(String, u64)>) -> (r: Option<Operand>)
    ensures
        match resolve(e@, f@, names_view(tbl@)) {
            Some(v) => r matches Some(x) && x@ == v,
            None => r is None,
        },
{
    match e {
        Expr::Column(c) => col_operand(c.as_str(), f),
        Expr::Lit(l) => Some(lit_operand(l, tbl)),
        _ => None,
    }
}

/// Whether `op` holds between `a` and `b`.
fn binop_test(op: BinOp, a: &Operand, b: &Operand) -> (r: bool)
    ensures
        r == binop_holds(op, a@, b@),
{
    match op {
        BinOp::Eq => operand_eq(a, b),
        BinOp::Ne => !operand_eq(a, b),
        BinOp::Lt => match operand_order(a, b) {
            Some(Rel::Less) => true,
            _ => false,
        },
        BinOp::Le => match operand_order(a, b) {
            Some(Rel::Less) => true,
            Some(Rel::Equal) => true,
            _ => false,
        },
        BinOp::Gt => match operand_order(a, b) {
            Some(Rel::Greater) => true,
            _ => false,
        },
        BinOp::Ge => match operand_order(a, b) {
            Some(Rel::Greater) => true,
            Some(Rel::Equal) => true,
            _ => false,
        },
    }
}

/// Whether the column's value equals one of the literals.
fn in_list(col: &str, f: &Fact, values: &Vec<Literal>, tbl: &Vec<(String, u64)>) -> (r: bool)
    ensures
        r == in_values(col@, f@, values@.map_values(|l: Literal| l@), names_view(tbl@), values@.len() as int),
{
    let ghost vs = values@.map_values(|l: Literal| l@);
    let cv = col_operand(col, f);
    let mut found = false;
    let mut i: usize = 0;
    while i < values.len()
        invariant
            i <= values@.len(),
            vs == values@.map_values(|l: Literal| l@),
            match col_val(col@, f@) {
                Some(v) => cv matches Some(x) && x@ == v,
                None => cv is None,
            },
            found == in_values(col@, f@, vs, names_view(tbl@), i as int),
        decreases values@.len() - i,
    {
        assert(vs[i as int] == values@[i as int]@);
        match &cv {
            Some(c) => {
                let lv = lit_operand(&values[i], tbl);
                if operand_eq(c, &lv) {
                    found = true;
                }
            },
            None => {},
        }
        i = i + 1;
    }
    found
}


/// The views of character vectors.
pub open spec fn char_seqs(v: Seq<Vec<char>>) -> Seq<Seq<char>> {
    v.map_values(|x: Vec<char>| x@)
}

/// `pattern` split at each `%`.
fn split_percent(p: &Vec<char>) -> (r: Vec<Vec<char>>)
    ensures
        char_seqs(r@) == split_pct(p@),
        r@.len() >= 1,
{
    let mut parts: Vec<Vec<char>> = Vec::new();
    parts.push(Vec::new());
    assert(char_seqs(parts@) =~= split_pct(p@.take(0)));
    let mut i: usize = 0;
    while i < p.len()
        invariant
            i <= p@.len(),
            parts@.len() >= 1,
            char_seqs(parts@) == split_pct(p@.take(i as int)),
        decreases p@.len() - i,
    {
        let c = p[i];
        let ghost before = char_seqs(parts@);
        assert(p@.take(i + 1).drop_last() =~= p@.take(i as int));
        assert(p@.take(i + 1).last() == c);
        if c == '%' {
            parts.push(Vec::new());
            assert(char_seqs(parts@) =~= before.push(Seq::empty()));
        } else {
            let mut cur = parts.pop().unwrap();
            cur.push(c);
            parts.push(cur);
            assert(char_seqs(parts@) =~= before.update(before.len() - 1, before.last().push(c)));
        }
        i = i + 1;
    }
    assert(p@.take(i as int) =~= p@);
    parts
}

/// Whether `p` occurs in `s` at `k`.
fn occurs_at(s: &Vec<char>, k: usize, p: &Vec<char>) -> (r: bool)
    requires
        k <= s@.len(),
    ensures
        r == (p@.len() <= s@.len() - k && s@.subrange(k as int, k + p@.len()) == p@),
{
    let n = s.len();
    if p.len() > n - k {
        return false;
    }
    let mut j: usize = 0;
    while j < p.len()
        invariant
            j <= p@.len(),
            n == s@.len(),
            p@.len() <= s@.len() - k,
            forall|q: int| 0 <= q < j ==> s@[k + q] == p@[q],
        decreases p@.len() - j,
    {
        if s[k + j] != p[j] {
            assert(s@.subrange(k as int, k + p@.len())[j as int] != p@[j as int]);
            return false;
        }
        j = j + 1;
    }
    assert(s@.subrange(k as int, k + p@.len()) =~= p@);
    true
}

/// The first place of `p` in `s` from `off` on, relative to `off`.
fn find_rel(s: &Vec<char>, off: usize, p: &Vec<char>) -> (r: Option<usize>)
    requires
        off <= s@.len(),
    ensures
        match find_from(s@.skip(off as int), p@, 0) {
            Some(k) => r matches Some(x) && x == k && off + k + p@.len() <= s@.len(),
            None => r is None,
        },
{
    let ghost rs = s@.skip(off as int);
    let mut k: usize = 0;
    while k <= s.len() - off && p.len() <= s.len() - off - k
        invariant
            off <= s@.len(),
            rs == s@.skip(off as int),
            find_from(rs, p@, 0) == find_from(rs, p@, k as int),
        decreases s@.len() - off - k + 1,
    {
        assert(rs.subrange(k as int, k + p@.len()) =~= s@.subrange(off + k, off + k + p@.len()));
        if p.len() == 0 {
            assert(rs.subrange(k as int, k as int) =~= p@);
            return Some(k);
        }
        if occurs_at(s, off + k, p) {
            return Some(k);
        }
        k = k + 1;
    }
    None
}

/// SQL `LIKE` with `%`: `spec_like`.
pub fn like_match(s: &str, pattern: &str) -> (r: bool)
    ensures
        r == spec_like(s@, pattern@),
{
    let pv = chars_of(pattern);
    let parts = split_percent(&pv);
    let ghost ps = char_seqs(parts@);
    if parts.len() == 1 {
        return str_eq(s, pattern);
    }
    let sv = chars_of(s);
    assert(ps[0] == parts@[0]@);
    if !occurs_at(&sv, 0, &parts[0]) {
        if parts[0].len() <= sv.len() {
            assert(sv@.subrange(0, parts@[0]@.len() as int) =~= sv@.take(parts@[0]@.len() as int));
        }
        return false;
    }
    assert(sv@.subrange(0, parts@[0]@.len() as int) =~= sv@.take(parts@[0]@.len() as int));
    let mut off: usize = parts[0].len();
    let mut i: usize = 1;
    let n = parts.len();
    let slen = sv.len();
    while i < n
        invariant
            1 <= i <= n,
            slen == sv@.len(),
            n == parts@.len(),
            ps == char_seqs(parts@),
            off <= sv@.len(),
            sv@ == s@,
            spec_like(s@, pattern@) == like_rest(sv@.skip(off as int), ps, i as int),
        decreases n - i,
    {
        let part = &parts[i];
        assert(ps[i as int] == part@);
        if i == n - 1 {
            if part.len() > sv.len() - off {
                return false;
            }
            let st = sv.len() - part.len();
            let ok = occurs_at(&sv, st, part);
            assert(sv@.skip(off as int).skip(sv@.skip(off as int).len() - part@.len()) =~= sv@.subrange(st as int, st + part@.len()));
            return ok;
        }
        match find_rel(&sv, off, part) {
            None => {
                return false;
            },
            Some(k) => {
                assert(sv@.skip(off as int).skip(k + part@.len()) =~= sv@.skip(off + k + part@.len()));
                off = off + k + part.len();
            },
        }
        i = i + 1;
    }
    true
}

/// Whether a fact passes a filter: `spec_eval_filter`.
pub fn eval_filter(e: &Expr, f: &Fact, tbl: &Vec<(String, u64)>) -> (r: bool)
    ensures
        r == spec_eval_filter(e@, f@, names_view(tbl@)),
    decreases e,
{
    proof {
        reveal_with_fuel(crate::pql::ast::expr_view, 2);
    }
    match e {
        Expr::And(a, b) => eval_filter(a, f, tbl) && eval_filter(b, f, tbl),
        Expr::Or(a, b) => eval_filter(a, f, tbl) || eval_filter(b, f, tbl),
        Expr::Not(a) => !eval_filter(a, f, tbl),
        Expr::IsNull(a) => match &**a {
            Expr::Column(c) => match col_operand(c.as_str(), f) {
                None => true,
                Some(v) => match v {
                    Operand::Null => true,
                    _ => false,
                },
            },
            _ => false,
        },
        Expr::IsNotNull(a) => match &**a {
            Expr::Column(c) => match col_operand(c.as_str(), f) {
                None => false,
                Some(v) => match v {
                    Operand::Null => false,
                    _ => true,
                },
            },
            _ => true,
        },
        Expr::Like { expr, pattern } => match &**expr {
            Expr::Column(c) => {
                let text = match col_operand(c.as_str(), f) {
                    Some(Operand::Str(t)) => t,
                    _ => String::new(),
                };
                like_match(text.as_str(), pattern.as_str())
            },
            _ => false,
        },
        Expr::In { expr, values } => match &**expr {
            Expr::Column(c) => in_list(c.as_str(), f, values, tbl),
            _ => false,
        },
        Expr::BinOp { op, left, right } => {
            let lv = resolve_operand(left, f, tbl);
            let rv = resolve_operand(right, f, tbl);
            match (lv, rv) {
                (Some(a), Some(b)) => binop_test(*op, &a, &b),
                _ => false,
            }
        },
        Expr::Column(_) => true,
        Expr::Lit(_) => true,
    }
}


/// A cell of a result row.
#[derive(Debug)]
pub enum Cell {
    Str(String),
    Int(i64),
    /// A binary64 number by its bit pattern.
    Float(u64),
    Bool(bool),
    /// A JSON document, as text.
    Json(String),
    Null,
}

/// The content of a cell.
pub enum CellView {
    Str(Seq<char>),
    Int(i64),
    Float(u64),
    Bool(bool),
    Json(Seq<char>),
    Null,
}

impl View for Cell {
    type V = CellView;

    open spec fn view(&self) -> CellView {
        match self {
            Cell::Str(s) => CellView::Str(s@),
            Cell::Int(n) => CellView::Int(*n),
            Cell::Float(b) => CellView::Float(*b),
            Cell::Bool(b) => CellView::Bool(*b),
            Cell::Json(s) => CellView::Json(s@),
            Cell::Null => CellView::Null,
        }
    }
}

/// The content of a row: (column, cell) pairs in order.
pub open spec fn row_view(r: Seq<(String, Cell)>) -> Seq<(Seq<char>, CellView)> {
    r.map_values(|e: (String, Cell)| (e.0@, e.1@))
}

/// The RFC 3339 text of an instant as `chrono` writes it (`to_rfc3339`,
/// offset `+00:00`); `None` when the instant is out of `chrono`'s range.
pub uninterp spec fn rfc3339_of(t: Timestamp) -> Option<Seq<char>>;

/// Writes `t` in RFC 3339 with `chrono`: `DateTime::from_timestamp` and then
/// `to_rfc3339`. Claimed only that the text is `rfc3339_of(t)`, which
/// depends on `t` alone; its characters are not stated.
#[verifier::external_body]
fn rfc3339(t: Timestamp) -> (r: Option<String>)
    ensures
        crate::fact::opt_str_view(r) == rfc3339_of(t),
{
    chrono::DateTime::from_timestamp(t.secs, t.nanos).map(|d| d.to_rfc3339())
}

/// The cell of an instant: its RFC 3339 text (null out of range).
pub open spec fn time_cell(t: Timestamp) -> CellView {
    match rfc3339_of(t) {
        Some(s) => CellView::Str(s),
        None => CellView::Null,
    }
}

/// The cell of a fact's value.
pub open spec fn value_cell(v: ValueView) -> CellView {
    match v {
        ValueView::Str(s) => CellView::Str(s),
        ValueView::Int(n) => CellView::Int(n),
        ValueView::Float(b) => CellView::Float(b),
        ValueView::Bool(b) => CellView::Bool(b),
        ValueView::Json(j) => CellView::Json(j),
        ValueView::Null => CellView::Null,
    }
}

/// The cell of a fact's column, for the known columns.
pub open spec fn named_cell(name: Seq<char>, f: FactView) -> Option<CellView> {
    if name == "id"@ {
        Some(CellView::Str(spec_id_text(f.id)))
    } else if name == "namespace"@ {
        Some(CellView::Str(f.namespace))
    } else if name == "entity"@ {
        Some(CellView::Str(f.entity))
    } else if name == "attr"@ {
        Some(CellView::Str(f.attr))
    } else if name == "value"@ {
        Some(value_cell(f.value))
    } else if name == "valid_from"@ {
        Some(time_cell(f.valid_from))
    } else if name == "valid_to"@ {
        Some(
            match f.valid_to {
                Some(t) => time_cell(t),
                None => CellView::Null,
            },
        )
    } else if name == "tx_id"@ {
        Some(CellView::Str(spec_id_text(f.tx_id)))
    } else if name == "tx_time"@ {
        Some(CellView::Str(spec_hex16(f.tx_time as nat)))
    } else if name == "branch"@ {
        Some(CellView::Str(f.branch))
    } else if name == "author"@ {
        Some(
            match f.author {
                Some(a) => CellView::Str(a),
                None => CellView::Null,
            },
        )
    } else if name == "caused_by"@ {
        Some(
            match f.caused_by {
                Some(c) => CellView::Str(spec_id_text(c)),
                None => CellView::Null,
            },
        )
    } else {
        None
    }
}

/// Whether `name` is a column a row can show.
pub open spec fn known_column(name: Seq<char>) -> bool {
    name == "id"@ || name == "namespace"@ || name == "entity"@ || name == "attr"@ || name == "value"@
        || name == "valid_from"@ || name == "valid_to"@ || name == "tx_id"@ || name == "tx_time"@
        || name == "branch"@ || name == "author"@ || name == "caused_by"@
}

/// The row of `SELECT *`: every column, in a fixed order.
pub open spec fn star_row(f: FactView) -> Seq<(Seq<char>, CellView)> {
    seq![
        ("id"@, named_cell("id"@, f)->0),
        ("namespace"@, named_cell("namespace"@, f)->0),
        ("entity"@, named_cell("entity"@, f)->0),
        ("attr"@, named_cell("attr"@, f)->0),
        ("value"@, named_cell("value"@, f)->0),
        ("valid_from"@, named_cell("valid_from"@, f)->0),
        ("valid_to"@, named_cell("valid_to"@, f)->0),
        ("tx_id"@, named_cell("tx_id"@, f)->0),
        ("tx_time"@, named_cell("tx_time"@, f)->0),
        ("branch"@, named_cell("branch"@, f)->0),
        ("author"@, named_cell("author"@, f)->0),
        ("caused_by"@, named_cell("caused_by"@, f)->0),
    ]
}

/// Whether `*` is among the first `n` columns.
pub open spec fn has_star(cols: Seq<ColumnView>, n: int) -> bool
    decreases n,
{
    if n <= 0 {
        false
    } else {
        has_star(cols, n - 1) || cols[n - 1] is Star
    }
}

/// The first unknown column name among the first `n` columns.
pub open spec fn first_unknown(cols: Seq<ColumnView>, n: int) -> Option<Seq<char>>
    decreases n,
{
    if n <= 0 {
        None
    } else {
        match first_unknown(cols, n - 1) {
            Some(x) => Some(x),
            None => match cols[n - 1] {
                ColumnView::Named(nm) => if known_column(nm) {
                    None
                } else {
                    Some(nm)
                },
                ColumnView::Star => None,
            },
        }
    }
}

/// The row of the first `n` named columns.
pub open spec fn named_row(cols: Seq<ColumnView>, f: FactView, n: int) -> Seq<(Seq<char>, CellView)>
    decreases n,
{
    if n <= 0 {
        Seq::empty()
    } else {
        let prev = named_row(cols, f, n - 1);
        match cols[n - 1] {
            ColumnView::Named(nm) => prev.push((nm, named_cell(nm, f)->0)),
            ColumnView::Star => prev,
        }
    }
}

/// The row a fact gives: every column under `*`, else the named columns in
/// order.
pub open spec fn spec_row(cols: Seq<ColumnView>, f: FactView) -> Seq<(Seq<char>, CellView)> {
    if has_star(cols, cols.len() as int) {
        star_row(f)
    } else {
        named_row(cols, f, cols.len() as int)
    }
}

/// The message for an unknown column.
pub open spec fn unknown_column_message(name: Seq<char>) -> Seq<char> {
    "unknown column '"@ + name + "'"@
}


/// The cell of an instant.
fn time_cell_of(t: Timestamp) -> (r: Cell)
    ensures
        r@ == time_cell(t),
{
    match rfc3339(t) {
        Some(s) => Cell::Str(s),
        None => Cell::Null,
    }
}

/// The cell of a fact's value.
fn value_cell_of(v: &Value) -> (r: Cell)
    ensures
        r@ == value_cell(v@),
{
    match v {
        Value::Str(s) => Cell::Str(copy_string(s)),
        Value::Int(n) => Cell::Int(*n),
        Value::Float(b) => Cell::Float(*b),
        Value::Bool(b) => Cell::Bool(*b),
        Value::Json(j) => Cell::Json(copy_string(j)),
        Value::Null => Cell::Null,
    }
}

/// The cell of a fact's column: `named_cell`.
fn cell_of(name: &str, f: &Fact) -> (r: Option<Cell>)
    ensures
        match named_cell(name@, f@) {
            Some(c) => r matches Some(x) && x@ == c,
            None => r is None,
        },
        r is Some <==> known_column(name@),
{
    proof {
        reveal_strlit("id");
        reveal_strlit("namespace");
        reveal_strlit("entity");
        reveal_strlit("attr");
        reveal_strlit("value");
        reveal_strlit("valid_from");
        reveal_strlit("valid_to");
        reveal_strlit("tx_id");
        reveal_strlit("tx_time");
        reveal_strlit("branch");
        reveal_strlit("author");
        reveal_strlit("caused_by");
    }
    if str_eq(name, "id") {
        Some(Cell::Str(f.id.to_string()))
    } else if str_eq(name, "namespace") {
        Some(Cell::Str(copy_string(&f.namespace.0)))
    } else if str_eq(name, "entity") {
        Some(Cell::Str(copy_string(&f.entity.0)))
    } else if str_eq(name, "attr") {
        Some(Cell::Str(copy_string(&f.attr.0)))
    } else if str_eq(name, "value") {
        Some(value_cell_of(&f.value))
    } else if str_eq(name, "valid_from") {
        Some(time_cell_of(f.valid_from))
    } else if str_eq(name, "valid_to") {
        Some(
            match f.valid_to {
                Some(t) => time_cell_of(t),
                None => Cell::Null,
            },
        )
    } else if str_eq(name, "tx_id") {
        Some(Cell::Str(f.tx_id.to_string()))
    } else if str_eq(name, "tx_time") {
        Some(Cell::Str(f.tx_time.to_string()))
    } else if str_eq(name, "branch") {
        Some(Cell::Str(copy_string(&f.branch.0)))
    } else if str_eq(name, "author") {
        Some(
            match &f.author {
                Some(a) => Cell::Str(copy_string(a)),
                None => Cell::Null,
            },
        )
    } else if str_eq(name, "caused_by") {
        Some(
            match f.caused_by {
                Some(c) => Cell::Str(c.to_string()),
                None => Cell::Null,
            },
        )
    } else {
        None
    }
}

/// Whether `name` is a column a row can show.
fn is_known_column(name: &str) -> (b: bool)
    ensures
        b == known_column(name@),
{
    proof {
        reveal_strlit("id");
        reveal_strlit("namespace");
        reveal_strlit("entity");
        reveal_strlit("attr");
        reveal_strlit("value");
        reveal_strlit("valid_from");
        reveal_strlit("valid_to");
        reveal_strlit("tx_id");
        reveal_strlit("tx_time");
        reveal_strlit("branch");
        reveal_strlit("author");
        reveal_strlit("caused_by");
    }
    str_eq(name, "id") || str_eq(name, "namespace") || str_eq(name, "entity") || str_eq(name, "attr")
        || str_eq(name, "value") || str_eq(name, "valid_from") || str_eq(name, "valid_to") || str_eq(
        name,
        "tx_id",
    ) || str_eq(name, "tx_time") || str_eq(name, "branch") || str_eq(name, "author") || str_eq(
        name,
        "caused_by",
    )
}

/// The views of selected columns.
pub open spec fn col_views(v: Seq<Column>) -> Seq<ColumnView> {
    v.map_values(|c: Column| c@)
}

/// Whether `*` is selected, and the first unknown column name.
fn check_columns(cols: &Vec<Column>) -> (r: (bool, Option<String>))
    ensures
        r.0 == has_star(col_views(cols@), cols@.len() as int),
        crate::fact::opt_str_view(r.1) == first_unknown(col_views(cols@), cols@.len() as int),
{
    let ghost cv = col_views(cols@);
    let mut star = false;
    let mut unknown: Option<String> = None;
    let mut i: usize = 0;
    while i < cols.len()
        invariant
            i <= cols@.len(),
            cv == col_views(cols@),
            star == has_star(cv, i as int),
            crate::fact::opt_str_view(unknown) == first_unknown(cv, i as int),
        decreases cols@.len() - i,
    {
        assert(cv[i as int] == cols@[i as int]@);
        match &cols[i] {
            Column::Star => {
                star = true;
            },
            Column::Named(n) => {
                if unknown.is_none() && !is_known_column(n.as_str()) {
                    unknown = Some(copy_string(n));
                }
            },
        }
        i = i + 1;
    }
    (star, unknown)
}


proof fn lemma_no_unknown(cv: Seq<ColumnView>, n: int)
    requires
        0 <= n <= cv.len(),
        first_unknown(cv, n) is None,
    ensures
        forall|j: int| 0 <= j < n ==> (#[trigger] cv[j] matches ColumnView::Named(nm) ==> known_column(nm)),
    decreases n,
{
    if n > 0 {
        lemma_no_unknown(cv, n - 1);
    }
}

/// Appends the cell of the known column `name`.
fn push_cell(row: &mut Vec<(String, Cell)>, name: &str, f: &Fact)
    requires
        known_column(name@),
    ensures
        row_view(final(row)@) == row_view(old(row)@).push((name@, named_cell(name@, f@)->0)),
{
    let ghost before = row@;
    let c = cell_of(name, f).unwrap();
    row.push((String::from_str(name), c));
    assert(row_view(row@) =~= row_view(before).push((name@, named_cell(name@, f@)->0)));
}

/// The row of a fact, for columns with `*` or without unknown names.
fn row_of(cols: &Vec<Column>, star: bool, f: &Fact) -> (r: Vec<(String, Cell)>)
    requires
        star == has_star(col_views(cols@), cols@.len() as int),
        star || first_unknown(col_views(cols@), cols@.len() as int) is None,
    ensures
        row_view(r@) == spec_row(col_views(cols@), f@),
{
    let ghost cv = col_views(cols@);
    let mut row: Vec<(String, Cell)> = Vec::new();
    proof {
        reveal_strlit("id");
        reveal_strlit("namespace");
        reveal_strlit("entity");
        reveal_strlit("attr");
        reveal_strlit("value");
        reveal_strlit("valid_from");
        reveal_strlit("valid_to");
        reveal_strlit("tx_id");
        reveal_strlit("tx_time");
        reveal_strlit("branch");
        reveal_strlit("author");
        reveal_strlit("caused_by");
    }
    if star {
        push_cell(&mut row, "id", f);
        push_cell(&mut row, "namespace", f);
        push_cell(&mut row, "entity", f);
        push_cell(&mut row, "attr", f);
        push_cell(&mut row, "value", f);
        push_cell(&mut row, "valid_from", f);
        push_cell(&mut row, "valid_to", f);
        push_cell(&mut row, "tx_id", f);
        push_cell(&mut row, "tx_time", f);
        push_cell(&mut row, "branch", f);
        push_cell(&mut row, "author", f);
        push_cell(&mut row, "caused_by", f);
        assert(row_view(row@) =~= star_row(f@));
        return row;
    }
    proof {
        lemma_no_unknown(cv, cols@.len() as int);
    }
    let mut i: usize = 0;
    while i < cols.len()
        invariant
            i <= cols@.len(),
            cv == col_views(cols@),
            forall|j: int| 0 <= j < cols@.len() ==> (#[trigger] cv[j] matches ColumnView::Named(nm) ==> known_column(nm)),
            row_view(row@) == named_row(cv, f@, i as int),
        decreases cols@.len() - i,
    {
        assert(cv[i as int] == cols@[i as int]@);
        match &cols[i] {
            Column::Named(n) => {
                push_cell(&mut row, n.as_str(), f);
            },
            Column::Star => {},
        }
        i = i + 1;
    }
    row
}

/// The entity and attribute a filter pins down by `entity = '...'` and
/// `attr = '...'` comparisons joined by `AND` (the last one of each wins).
pub open spec fn spec_extract(e: ExprView, acc: (Option<Seq<char>>, Option<Seq<char>>)) -> (Option<Seq<char>>, Option<Seq<char>>)
    decreases e,
{
    match e {
        ExprView::And(a, b) => spec_extract(*b, spec_extract(*a, acc)),
        ExprView::BinOp { op, left, right } => if op == BinOp::Eq {
            match (*left, *right) {
                (ExprView::Column(c), ExprView::Lit(LitView::Str(v))) => if c == "entity"@ {
                    (Some(v), acc.1)
                } else if c == "attr"@ {
                    (acc.0, Some(v))
                } else {
                    acc
                },
                _ => acc,
            }
        } else {
            acc
        },
        _ => acc,
    }
}

/// The scan a store answers for a query on `branch`: the namespace, the
/// pinned entity and attribute, the as-of and effective times, live facts
/// only. A query without `WHERE` hands its `LIMIT` and `OFFSET` to the store;
/// with a filter the store returns every candidate and the evaluator pages.
pub open spec fn spec_to_scan(q: QueryView, branch: Seq<char>) -> ScanView {
    let (ent, at) = match q.filter {
        Some(e) => spec_extract(e, (None, None)),
        None => (None, None),
    };
    ScanView {
        namespace: q.namespace,
        branch: branch,
        entity: ent,
        attr: at,
        asof_tx: match q.asof {
            Some(h) => Some(h.0),
            None => None,
        },
        asof_valid: q.effective_at,
        include_retracted: false,
        limit: if q.filter is None {
            q.limit
        } else {
            None
        },
        offset: if q.filter is None {
            q.offset
        } else {
            None
        },
    }
}

/// `spec_extract` in executable form.
fn extract(e: &Expr, ent: Option<String>, at: Option<String>) -> (r: (Option<String>, Option<String>))
    ensures
        (crate::fact::opt_str_view(r.0), crate::fact::opt_str_view(r.1)) == spec_extract(
            e@,
            (crate::fact::opt_str_view(ent), crate::fact::opt_str_view(at)),
        ),
    decreases e,
{
    proof {
        reveal_with_fuel(crate::pql::ast::expr_view, 2);
        reveal_strlit("entity");
        reveal_strlit("attr");
    }
    match e {
        Expr::And(a, b) => {
            let (e1, a1) = extract(a, ent, at);
            extract(b, e1, a1)
        },
        Expr::BinOp { op, left, right } => {
            match op {
                BinOp::Eq => {},
                _ => {
                    return (ent, at);
                },
            }
            match (&**left, &**right) {
                (Expr::Column(c), Expr::Lit(Literal::Str(v))) => {
                    if str_eq(c.as_str(), "entity") {
                        (Some(copy_string(v)), at)
                    } else if str_eq(c.as_str(), "attr") {
                        (ent, Some(copy_string(v)))
                    } else {
                        (ent, at)
                    }
                },
                _ => (ent, at),
            }
        },
        _ => (ent, at),
    }
}

/// The sort key of a fact under an `ORDER BY` column: the valid-from time,
/// the transaction time, the entity or the attribute (any other column
/// leaves the order as it is).
pub open spec fn col_key(col: Seq<char>, f: FactView) -> KeyView {
    if col == "valid_from"@ {
        KeyView { num: ts_number(f.valid_from), text: Seq::empty(), text2: Seq::empty() }
    } else if col == "tx_time"@ {
        KeyView { num: f.tx_time as int, text: Seq::empty(), text2: Seq::empty() }
    } else if col == "entity"@ {
        KeyView { num: 0, text: f.entity, text2: Seq::empty() }
    } else if col == "attr"@ {
        KeyView { num: 0, text: f.attr, text2: Seq::empty() }
    } else {
        KeyView { num: 0, text: Seq::empty(), text2: Seq::empty() }
    }
}

/// Ordering facts by a column.
pub open spec fn by_col(col: Seq<char>) -> spec_fn(FactView) -> KeyView {
    |f: FactView| col_key(col, f)
}

/// `s` sorted by the `ORDER BY` keys `obs[..n]`: stably by the last key
/// first, then by each earlier one, so the first key decides first.
pub open spec fn order_from(s: Seq<FactView>, obs: Seq<OrderByView>, n: int) -> Seq<FactView>
    decreases n,
{
    if n <= 0 {
        s
    } else {
        order_from(
            stable_sort_dir(s, by_col(obs[n - 1].column), obs[n - 1].direction == Direction::Desc),
            obs,
            n - 1,
        )
    }
}

/// The facts passing a query's filter, in order.
pub open spec fn spec_kept(q: QueryView, fs: Seq<FactView>, tbl: Seq<(Seq<char>, u64)>) -> Seq<FactView> {
    select(
        fs,
        |f: FactView|
            match q.filter {
                Some(e) => spec_eval_filter(e, f, tbl),
                None => true,
            },
        fs.len() as int,
    )
}

/// The facts a query answers: those passing the filter, ordered, then,
/// when `page` holds, paged by `OFFSET` and `LIMIT`.
pub open spec fn spec_answer(q: QueryView, fs: Seq<FactView>, tbl: Seq<(Seq<char>, u64)>, page: bool) -> Seq<FactView> {
    let ordered = order_from(spec_kept(q, fs, tbl), q.order_by, q.order_by.len() as int);
    if page {
        spec_page(ordered, q.offset, q.limit)
    } else {
        ordered
    }
}

/// The rows a query gives over `fs` (paged when `page` holds): one per
/// answered fact; an unknown column (without `*`) is an error when there is
/// at least one row.
pub open spec fn spec_eval_paged(q: QueryView, fs: Seq<FactView>, tbl: Seq<(Seq<char>, u64)>, page: bool) -> Result<
    Seq<Seq<(Seq<char>, CellView)>>,
    Seq<char>,
> {
    let ans = spec_answer(q, fs, tbl, page);
    let n = q.columns.len() as int;
    if ans.len() > 0 && !has_star(q.columns, n) && first_unknown(q.columns, n) is Some {
        Err(unknown_column_message(first_unknown(q.columns, n)->0))
    } else {
        Ok(ans.map_values(|f: FactView| spec_row(q.columns, f)))
    }
}

/// The rows a query gives over the answer of its scan (`spec_to_scan`):
/// the store has already paged a query without `WHERE`, so only a filtered
/// query is paged here; paging happens once either way.
pub open spec fn spec_eval(q: QueryView, fs: Seq<FactView>, tbl: Seq<(Seq<char>, u64)>) -> Result<
    Seq<Seq<(Seq<char>, CellView)>>,
    Seq<char>,
> {
    spec_eval_paged(q, fs, tbl, q.filter is Some)
}

/// `col_key` in executable form.
fn col_sort_key(col: &str, f: &Fact) -> (k: SortKey)
    ensures
        k@ == col_key(col@, f@),
{
    proof {
        reveal_strlit("valid_from");
        reveal_strlit("tx_time");
        reveal_strlit("entity");
        reveal_strlit("attr");
    }
    if str_eq(col, "valid_from") {
        SortKey::number(f.valid_from.secs as i128 * 4294967296 + f.valid_from.nanos as i128)
    } else if str_eq(col, "tx_time") {
        SortKey::number(f.tx_time.0 as i128)
    } else if str_eq(col, "entity") {
        SortKey::text(f.entity.0.as_str())
    } else if str_eq(col, "attr") {
        SortKey::text(f.attr.0.as_str())
    } else {
        SortKey::number(0)
    }
}

/// Sorts facts stably by a column, in a direction.
fn sort_by_col(v: Vec<Fact>, col: &str, desc: bool) -> (r: Vec<Fact>)
    ensures
        fv(r@) == stable_sort_dir(fv(v@), by_col(col@), desc),
{
    let ghost key2 = |f: Fact| col_key(col@, f@);
    let mut keys: Vec<SortKey> = Vec::new();
    let mut i: usize = 0;
    while i < v.len()
        invariant
            i <= v@.len(),
            keys@.len() == i,
            key2 == (|f: Fact| col_key(col@, f@)),
            forall|m: int| 0 <= m < i ==> #[trigger] keys@[m]@ == key2(v@[m]),
        decreases v@.len() - i,
    {
        keys.push(col_sort_key(col, &v[i]));
        i = i + 1;
    }
    let ghost vv = v@;
    let r = sort_stable_dir(v, keys, desc, Ghost(key2));
    proof {
        lemma_sort_views_dir(vv, |f: Fact| f@, by_col(col@), key2, desc);
    }
    r
}

/// The page of `v` after `offset` items, at most `limit` long.
fn page_of(v: Vec<Fact>, offset: Option<usize>, limit: Option<usize>) -> (r: Vec<Fact>)
    ensures
        fv(r@) == spec_page(fv(v@), offset, limit),
{
    let ghost srt = fv(v@);
    let off: usize = match offset {
        Some(o) => o,
        None => 0,
    };
    let mut out: Vec<Fact> = Vec::new();
    if off >= v.len() {
        assert(fv(out@) =~= spec_page(srt, offset, limit));
        return out;
    }
    let lim: usize = match limit {
        Some(l) => l,
        None => usize::MAX,
    };
    let mut k: usize = off;
    while k < v.len() && out.len() < lim
        invariant
            lim == (match limit {
                Some(l) => l,
                None => usize::MAX,
            }),
            off <= k <= v@.len(),
            out@.len() == k - off,
            srt == fv(v@),
            fv(out@) == srt.subrange(off as int, k as int),
            out@.len() <= lim,
        decreases v@.len() - k,
    {
        out.push(v[k].clone());
        assert(fv(out@) =~= srt.subrange(off as int, k + 1));
        k = k + 1;
    }
    assert(fv(out@) =~= spec_page(srt, offset, limit));
    out
}

/// The texts of the float literals of a filter, in order.
pub open spec fn float_texts(e: ExprView) -> Seq<Seq<char>>
    decreases e,
{
    match e {
        ExprView::And(a, b) => float_texts(*a) + float_texts(*b),
        ExprView::Or(a, b) => float_texts(*a) + float_texts(*b),
        ExprView::Not(a) => float_texts(*a),
        ExprView::IsNull(a) => float_texts(*a),
        ExprView::IsNotNull(a) => float_texts(*a),
        ExprView::Like { expr, pattern } => float_texts(*expr),
        ExprView::In { expr, values } => float_texts(*expr) + lit_floats(values, values.len() as int),
        ExprView::BinOp { op, left, right } => float_texts(*left) + float_texts(*right),
        ExprView::Column(_) => Seq::empty(),
        ExprView::Lit(l) => lit_floats(seq![l], 1),
    }
}

/// The texts of the float literals among the first `n` of `ls`.
pub open spec fn lit_floats(ls: Seq<LitView>, n: int) -> Seq<Seq<char>>
    decreases n,
{
    if n <= 0 {
        Seq::empty()
    } else {
        match ls[n - 1] {
            LitView::Float(t) => lit_floats(ls, n - 1).push(t),
            _ => lit_floats(ls, n - 1),
        }
    }
}

/// The texts of the float literals of `ls`.
fn literal_floats(ls: &Vec<Literal>) -> (r: Vec<String>)
    ensures
        crate::sort::texts(r@) == lit_floats(ls@.map_values(|l: Literal| l@), ls@.len() as int),
{
    let ghost lv = ls@.map_values(|l: Literal| l@);
    let mut out: Vec<String> = Vec::new();
    let mut i: usize = 0;
    while i < ls.len()
        invariant
            i <= ls@.len(),
            lv == ls@.map_values(|l: Literal| l@),
            crate::sort::texts(out@) == lit_floats(lv, i as int),
        decreases ls@.len() - i,
    {
        assert(lv[i as int] == ls@[i as int]@);
        let ghost before = out@;
        match &ls[i] {
            Literal::Float(t) => {
                out.push(copy_string(t));
                assert(crate::sort::texts(out@) =~= crate::sort::texts(before).push(t@));
            },
            _ => {},
        }
        i = i + 1;
    }
    out
}

/// `a` followed by `b`.
fn append_texts(a: Vec<String>, b: Vec<String>) -> (r: Vec<String>)
    ensures
        crate::sort::texts(r@) == crate::sort::texts(a@) + crate::sort::texts(b@),
{
    let mut a = a;
    let mut b = b;
    let ghost av = crate::sort::texts(a@);
    let ghost bv = crate::sort::texts(b@);
    a.append(&mut b);
    assert(crate::sort::texts(a@) =~= av + bv);
    a
}

/// The texts of the float literals of a filter, in order: the values the
/// evaluator needs for them.
pub fn filter_floats(e: &Expr) -> (r: Vec<String>)
    ensures
        crate::sort::texts(r@) == float_texts(e@),
    decreases e,
{
    proof {
        reveal_with_fuel(crate::pql::ast::expr_view, 2);
    }
    match e {
        Expr::And(a, b) => append_texts(filter_floats(a), filter_floats(b)),
        Expr::Or(a, b) => append_texts(filter_floats(a), filter_floats(b)),
        Expr::Not(a) => filter_floats(a),
        Expr::IsNull(a) => filter_floats(a),
        Expr::IsNotNull(a) => filter_floats(a),
        Expr::Like { expr, pattern } => filter_floats(expr),
        Expr::In { expr, values } => append_texts(filter_floats(expr), literal_floats(values)),
        Expr::BinOp { op, left, right } => append_texts(filter_floats(left), filter_floats(right)),
        Expr::Column(_) => Vec::new(),
        Expr::Lit(l) => {
            let mut one: Vec<Literal> = Vec::new();
            let c = match l {
                Literal::Str(s) => Literal::Str(copy_string(s)),
                Literal::Int(n) => Literal::Int(*n),
                Literal::Float(t) => Literal::Float(copy_string(t)),
                Literal::Bool(b) => Literal::Bool(*b),
                Literal::Null => Literal::Null,
            };
            one.push(c);
            assert(one@.map_values(|l: Literal| l@) =~= seq![l@]);
            literal_floats(&one)
        },
    }
}

/// The texts of the float literals of a query, in order.
pub fn float_literals(q: &Query) -> (r: Vec<String>)
    ensures
        crate::sort::texts(r@) == (match q@.filter {
            Some(e) => float_texts(e),
            None => Seq::empty(),
        }),
{
    match &q.filter {
        Some(e) => filter_floats(e),
        None => Vec::new(),
    }
}

/// Evaluates one query on one branch. Float literals take their values from
/// `floats`, a table from each float literal's text to its binary64 bit
/// pattern.
pub struct Evaluator<'a> {
    query: &'a Query,
    branch: BranchName,
    floats: Vec<(String, u64)>,
}

impl<'a> Evaluator<'a> {
    /// The query evaluated.
    pub closed spec fn query_view(&self) -> QueryView {
        self.query@
    }

    /// The branch the query reads.
    pub closed spec fn branch_view(&self) -> Seq<char> {
        self.branch@
    }

    /// The values of the float literals.
    pub closed spec fn float_table(&self) -> Seq<(Seq<char>, u64)> {
        names_view(self.floats@)
    }

    /// An evaluator of `query` on `branch`, with the values of its float
    /// literals.
    pub fn new(query: &'a Query, branch: BranchName, floats: Vec<(String, u64)>) -> (e: Evaluator<'a>)
        ensures
            e.query_view() == query@,
            e.branch_view() == branch@,
            e.float_table() == names_view(floats@),
    {
        Evaluator { query, branch, floats }
    }

    /// The scan to ask a store for: `spec_to_scan`.
    pub fn to_scan_query(&self) -> (q: ScanQuery)
        ensures
            q@ == spec_to_scan(self.query_view(), self.branch_view()),
    {
        let (ent, at) = match &self.query.filter {
            Some(e) => extract(e, None, None),
            None => (None, None),
        };
        ScanQuery {
            namespace: Namespace::new(self.query.namespace.as_str()),
            branch: self.branch.clone(),
            entity: match ent {
                Some(s) => Some(EntityId(s)),
                None => None,
            },
            attr: match at {
                Some(s) => Some(Attr(s)),
                None => None,
            },
            asof_tx: self.query.asof,
            asof_valid: self.query.effective_at,
            include_retracted: false,
            limit: if self.query.filter.is_none() {
                self.query.limit
            } else {
                None
            },
            offset: if self.query.filter.is_none() {
                self.query.offset
            } else {
                None
            },
        }
    }

    /// The rows the query gives over the answer of its scan: `spec_eval`
    /// (a query without `WHERE` is not paged again); an unknown column gives
    /// `Error::Query`.
    pub fn eval(&self, facts: Vec<Fact>) -> (r: Result<Vec<Vec<(String, Cell)>>, Error>)
        ensures
            match spec_eval(self.query_view(), fv(facts@), self.float_table()) {
                Ok(rows) => r matches Ok(v) && v@.map_values(|x: Vec<(String, Cell)>| row_view(x@)) == rows,
                Err(m) => r matches Err(Error::Query(x)) && x@ == m,
            },
    {
        let page = self.query.filter.is_some();
        self.eval_paged(facts, page)
    }

    /// The rows the query gives over `facts` taken as they are, unpaged:
    /// filtered, ordered and always paged (`spec_eval_paged` with paging).
    pub fn eval_all(&self, facts: Vec<Fact>) -> (r: Result<Vec<Vec<(String, Cell)>>, Error>)
        ensures
            match spec_eval_paged(self.query_view(), fv(facts@), self.float_table(), true) {
                Ok(rows) => r matches Ok(v) && v@.map_values(|x: Vec<(String, Cell)>| row_view(x@)) == rows,
                Err(m) => r matches Err(Error::Query(x)) && x@ == m,
            },
    {
        self.eval_paged(facts, true)
    }

    /// Filters, orders, pages when `page` holds, and projects.
    fn eval_paged(&self, facts: Vec<Fact>, page: bool) -> (r: Result<Vec<Vec<(String, Cell)>>, Error>)
        ensures
            match spec_eval_paged(self.query_view(), fv(facts@), self.float_table(), page) {
                Ok(rows) => r matches Ok(v) && v@.map_values(|x: Vec<(String, Cell)>| row_view(x@)) == rows,
                Err(m) => r matches Err(Error::Query(x)) && x@ == m,
            },
    {
        let q = self.query;
        let ghost qv = q@;
        let ghost tbl = names_view(self.floats@);
        let ghost fs = fv(facts@);
        let ghost pred = |f: FactView|
            match qv.filter {
                Some(e) => spec_eval_filter(e, f, tbl),
                None => true,
            };
        let mut kept: Vec<Fact> = Vec::new();
        let mut i: usize = 0;
        while i < facts.len()
            invariant
                i <= facts@.len(),
                fs == fv(facts@),
                qv == q@,
                tbl == names_view(self.floats@),
                pred == (|f: FactView|
                    match qv.filter {
                        Some(e) => spec_eval_filter(e, f, tbl),
                        None => true,
                    }),
                fv(kept@) == select(fs, pred, i as int),
            decreases facts@.len() - i,
        {
            assert(fs[i as int] == facts@[i as int]@);
            let pass = match &q.filter {
                Some(e) => eval_filter(e, &facts[i], &self.floats),
                None => true,
            };
            if pass {
                let ghost before = kept@;
                kept.push(facts[i].clone());
                assert(fv(kept@) =~= fv(before).push(fs[i as int]));
            }
            i = i + 1;
        }
        let ghost obs = qv.order_by;
        let mut cur = kept;
        let mut k: usize = q.order_by.len();
        assert(obs.len() == k);
        while k > 0
            invariant
                k <= obs.len(),
                obs == q@.order_by,
                obs.len() == q.order_by@.len(),
                order_from(spec_kept(qv, fs, tbl), obs, obs.len() as int) == order_from(fv(cur@), obs, k as int),
            decreases k,
        {
            let ob = &q.order_by[k - 1];
            assert(obs[k - 1] == ob@);
            let desc = match ob.direction {
                Direction::Desc => true,
                Direction::Asc => false,
            };
            cur = sort_by_col(cur, ob.column.as_str(), desc);
            k = k - 1;
        }
        let ans = if page {
            page_of(cur, q.offset, q.limit)
        } else {
            cur
        };
        let ghost av = fv(ans@);
        assert(av == spec_answer(qv, fs, tbl, page));
        let (star, unknown) = check_columns(&q.columns);
        assert(col_views(q.columns@) == qv.columns);
        if ans.len() > 0 && !star {
            match unknown {
                Some(nm) => {
                    proof {
                        reveal_strlit("unknown column '");
                        reveal_strlit("'");
                    }
                    let mut m = String::from_str("unknown column '");
                    m.append(nm.as_str());
                    m.append("'");
                    return Err(Error::Query(m));
                },
                None => {},
            }
        }
        let mut rows: Vec<Vec<(String, Cell)>> = Vec::new();
        let mut j: usize = 0;
        if ans.len() > 0 {
            while j < ans.len()
                invariant
                    j <= ans@.len(),
                    av == fv(ans@),
                    star == has_star(col_views(q.columns@), q.columns@.len() as int),
                    star || first_unknown(col_views(q.columns@), q.columns@.len() as int) is None,
                    rows@.map_values(|x: Vec<(String, Cell)>| row_view(x@)) == av.take(j as int).map_values(
                        |f: FactView| spec_row(qv.columns, f),
                    ),
                    col_views(q.columns@) == qv.columns,
                decreases ans@.len() - j,
            {
                let ghost before = rows@;
                let row = row_of(&q.columns, star, &ans[j]);
                let ghost rv = row_view(row@);
                rows.push(row);
                assert(av[j as int] == ans@[j as int]@);
                assert(rv == spec_row(qv.columns, av[j as int]));
                assert(rows@.map_values(|x: Vec<(String, Cell)>| row_view(x@)) =~= before.map_values(|x: Vec<(String, Cell)>| row_view(x@)).push(rv));
                assert(av.take(j + 1) =~= av.take(j as int).push(av[j as int]));
                assert(rows@.map_values(|x: Vec<(String, Cell)>| row_view(x@)) =~= av.take(j + 1).map_values(
                    |f: FactView| spec_row(qv.columns, f),
                ));
                j = j + 1;
            }
        }
        assert(av.take(j as int) =~= av);
        Ok(rows)
    }
}

} // verus!
