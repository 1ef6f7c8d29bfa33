//! The PQL parser: tokens to a query, by recursive descent.
use vstd::prelude::*;

use super::ast::{
    BinOp, Column, ColumnView, Direction, Expr, ExprView, LitView, Literal, OrderBy, OrderByView,
    Query, QueryView,
};
use super::token::{Token, TokenView};
use crate::clock::{spec_parse_hlc, Hlc};
use crate::error::Error;
use crate::fact::Timestamp;
use crate::text::{
    copy_string, decimal_i64, hex_char, spec_decimal_i64, string_from_chars,
};

verus! {

/// The instant an RFC 3339 text (a space may stand for the `T`) denotes, as
/// `chrono` parses it into UTC; `None` when it does not parse.
pub uninterp spec fn parsed_datetime(s: Seq<char>) -> Option<Timestamp>;

/// Parses `s` as a UTC date and time with `chrono`'s `FromStr for
/// DateTime<Utc>`. Claimed only that the result is `parsed_datetime(s)`,
/// which depends on `s` alone; which texts parse is not stated.
#[verifier::external_body]
fn parse_datetime_text(s: &str) -> (r: Option<Timestamp>)
    ensures
        r == parsed_datetime(s@),
{
    match s.parse::<chrono::DateTime<chrono::Utc>>() {
        Ok(d) => Some(Timestamp { secs: d.timestamp(), nanos: d.timestamp_subsec_nanos() }),
        Err(_) => None,
    }
}

/// `n` in lowercase hexadecimal without leading zeros.
pub open spec fn spec_hex_min(n: nat) -> Seq<char>
    decreases n,
{
    if n < 16 {
        seq![hex_char(n)]
    } else {
        spec_hex_min(n / 16).push(hex_char(n % 16))
    }
}

/// How a character is written inside a quoted debug string: quotes,
/// backslashes and the common control characters by their escapes, other
/// control characters as `\u{..}`, everything else as itself.
pub open spec fn escape_char(c: char) -> Seq<char> {
    if c == '"' {
        seq!['\\', '"']
    } else if c == '\\' {
        seq!['\\', '\\']
    } else if c == '\n' {
        seq!['\\', 'n']
    } else if c == '\r' {
        seq!['\\', 'r']
    } else if c == '\t' {
        seq!['\\', 't']
    } else if c == '\0' {
        seq!['\\', '0']
    } else if (c as u32) < 0x20 || (c as u32) == 0x7f || (0x80 <= (c as u32) && (c as u32) < 0xa0) {
        "\\u{"@ + spec_hex_min(c as u32 as nat) + "}"@
    } else {
        seq![c]
    }
}

/// The escaped characters of `s`.
pub open spec fn escape_text(s: Seq<char>) -> Seq<char>
    decreases s.len(),
{
    if s.len() == 0 {
        Seq::empty()
    } else {
        escape_text(s.drop_last()) + escape_char(s.last())
    }
}

/// `s` as a quoted debug string.
pub open spec fn debug_text(s: Seq<char>) -> Seq<char> {
    seq!['"'] + escape_text(s) + seq!['"']
}

/// How a token is shown in an error message.
pub open spec fn spec_debug(t: TokenView) -> Seq<char> {
    match t {
        TokenView::Select => "Select"@,
        TokenView::From => "From"@,
        TokenView::Where => "Where"@,
        TokenView::And => "And"@,
        TokenView::Or => "Or"@,
        TokenView::Not => "Not"@,
        TokenView::Order => "Order"@,
        TokenView::By => "By"@,
        TokenView::Asc => "Asc"@,
        TokenView::Desc => "Desc"@,
        TokenView::Limit => "Limit"@,
        TokenView::Offset => "Offset"@,
        TokenView::EffectiveAt => "EffectiveAt"@,
        TokenView::AsOf => "AsOf"@,
        TokenView::Like => "Like"@,
        TokenView::In => "In"@,
        TokenView::Is => "Is"@,
        TokenView::Null => "Null"@,
        TokenView::True => "True"@,
        TokenView::False => "False"@,
        TokenView::Ident(s) => "Ident("@ + debug_text(s) + ")"@,
        TokenView::Str(s) => "Str("@ + debug_text(s) + ")"@,
        TokenView::Int(n) => "Int("@ + spec_decimal_i64(n as int) + ")"@,
        TokenView::Float(s) => "Float("@ + s + ")"@,
        TokenView::Eq => "Eq"@,
        TokenView::Ne => "Ne"@,
        TokenView::Lt => "Lt"@,
        TokenView::Le => "Le"@,
        TokenView::Gt => "Gt"@,
        TokenView::Ge => "Ge"@,
        TokenView::Star => "Star"@,
        TokenView::Comma => "Comma"@,
        TokenView::Dot => "Dot"@,
        TokenView::LParen => "LParen"@,
        TokenView::RParen => "RParen"@,
        TokenView::Eof => "Eof"@,
    }
}

/// The token at `i`, or `Eof` past the end.
pub open spec fn peek_at(ts: Seq<TokenView>, i: int) -> TokenView {
    if 0 <= i < ts.len() {
        ts[i]
    } else {
        TokenView::Eof
    }
}

/// The message of a failed `expect`.
pub open spec fn expect_message(expected: TokenView, got: TokenView) -> Seq<char> {
    "expected "@ + spec_debug(expected) + ", got "@ + spec_debug(got)
}

/// The literal at `i`.
pub open spec fn spec_parse_literal(ts: Seq<TokenView>, i: int) -> Result<(LitView, int), Seq<char>> {
    match peek_at(ts, i) {
        TokenView::Str(s) => Ok((LitView::Str(s), i + 1)),
        TokenView::Int(n) => Ok((LitView::Int(n), i + 1)),
        TokenView::Float(f) => Ok((LitView::Float(f), i + 1)),
        TokenView::True => Ok((LitView::Bool(true), i + 1)),
        TokenView::False => Ok((LitView::Bool(false), i + 1)),
        TokenView::Null => Ok((LitView::Null, i + 1)),
        other => Err("expected literal, got "@ + spec_debug(other)),
    }
}

/// The comparison operator a token stands for.
pub open spec fn binop_of(t: TokenView) -> Option<BinOp> {
    match t {
        TokenView::Eq => Some(BinOp::Eq),
        TokenView::Ne => Some(BinOp::Ne),
        TokenView::Lt => Some(BinOp::Lt),
        TokenView::Le => Some(BinOp::Le),
        TokenView::Gt => Some(BinOp::Gt),
        TokenView::Ge => Some(BinOp::Ge),
        _ => None,
    }
}

/// The literals of an `IN (...)` list from `i`, after `acc`, up to (not
/// including) the token after the last literal.
pub open spec fn spec_parse_in_list(ts: Seq<TokenView>, i: int, acc: Seq<LitView>) -> Result<(Seq<LitView>, int), Seq<char>>
    decreases ts.len() - i,
{
    match spec_parse_literal(ts, i) {
        Err(m) => Err(m),
        Ok((l, j)) => if peek_at(ts, j) == TokenView::Comma && j + 1 > i && j + 1 <= ts.len() {
            spec_parse_in_list(ts, j + 1, acc.push(l))
        } else {
            Ok((acc.push(l), j))
        },
    }
}

/// An `OR` of `AND`s at `i`.
pub open spec fn spec_parse_or(ts: Seq<TokenView>, i: int) -> Result<(ExprView, int), Seq<char>>
    decreases ts.len() - i, 6int,
{
    match spec_parse_and(ts, i) {
        Err(m) => Err(m),
        Ok((l, j)) => if j > i && j <= ts.len() {
            spec_parse_or_rest(ts, l, j)
        } else {
            Ok((l, j))
        },
    }
}

/// The `OR`s following `left`, from `i`.
pub open spec fn spec_parse_or_rest(ts: Seq<TokenView>, left: ExprView, i: int) -> Result<(ExprView, int), Seq<char>>
    decreases ts.len() - i, 7int,
{
    if peek_at(ts, i) == TokenView::Or && i < ts.len() {
        match spec_parse_and(ts, i + 1) {
            Err(m) => Err(m),
            Ok((r, j)) => {
                let e = ExprView::Or(Box::new(left), Box::new(r));
                if j > i && j <= ts.len() {
                    spec_parse_or_rest(ts, e, j)
                } else {
                    Ok((e, j))
                }
            },
        }
    } else {
        Ok((left, i))
    }
}

/// An `AND` of negations at `i`.
pub open spec fn spec_parse_and(ts: Seq<TokenView>, i: int) -> Result<(ExprView, int), Seq<char>>
    decreases ts.len() - i, 4int,
{
    match spec_parse_not(ts, i) {
        Err(m) => Err(m),
        Ok((l, j)) => if j > i && j <= ts.len() {
            spec_parse_and_rest(ts, l, j)
        } else {
            Ok((l, j))
        },
    }
}

/// The `AND`s following `left`, from `i`.
pub open spec fn spec_parse_and_rest(ts: Seq<TokenView>, left: ExprView, i: int) -> Result<(ExprView, int), Seq<char>>
    decreases ts.len() - i, 5int,
{
    if peek_at(ts, i) == TokenView::And && i < ts.len() {
        match spec_parse_not(ts, i + 1) {
            Err(m) => Err(m),
            Ok((r, j)) => {
                let e = ExprView::And(Box::new(left), Box::new(r));
                if j > i && j <= ts.len() {
                    spec_parse_and_rest(ts, e, j)
                } else {
                    Ok((e, j))
                }
            },
        }
    } else {
        Ok((left, i))
    }
}

/// A negation (any number of `NOT`s) of a predicate at `i`.
pub open spec fn spec_parse_not(ts: Seq<TokenView>, i: int) -> Result<(ExprView, int), Seq<char>>
    decreases ts.len() - i, 3int,
{
    if peek_at(ts, i) == TokenView::Not && i < ts.len() {
        match spec_parse_not(ts, i + 1) {
            Err(m) => Err(m),
            Ok((e, j)) => Ok((ExprView::Not(Box::new(e)), j)),
        }
    } else {
        spec_parse_predicate(ts, i)
    }
}

/// A predicate at `i`: an atom, optionally followed by a comparison, `LIKE`,
/// `IN (...)`, `IS NULL` or `IS NOT NULL`.
pub open spec fn spec_parse_predicate(ts: Seq<TokenView>, i: int) -> Result<(ExprView, int), Seq<char>>
    decreases ts.len() - i, 2int,
{
    match spec_parse_atom(ts, i) {
        Err(m) => Err(m),
        Ok((left, j)) => {
            let t = peek_at(ts, j);
            if binop_of(t) is Some {
                if j >= i && j < ts.len() {
                    match spec_parse_atom(ts, j + 1) {
                        Err(m) => Err(m),
                        Ok((r, k)) => Ok((
                            ExprView::BinOp { op: binop_of(t)->0, left: Box::new(left), right: Box::new(r) },
                            k,
                        )),
                    }
                } else {
                    Ok((left, j))
                }
            } else if t == TokenView::Like {
                match peek_at(ts, j + 1) {
                    TokenView::Str(p) => Ok((ExprView::Like { expr: Box::new(left), pattern: p }, j + 2)),
                    other => Err("LIKE expects a string pattern, got "@ + spec_debug(other)),
                }
            } else if t == TokenView::In {
                if peek_at(ts, j + 1) != TokenView::LParen {
                    Err(expect_message(TokenView::LParen, peek_at(ts, j + 1)))
                } else {
                    match spec_parse_in_list(ts, j + 2, Seq::empty()) {
                        Err(m) => Err(m),
                        Ok((vals, k)) => if peek_at(ts, k) == TokenView::RParen {
                            Ok((ExprView::In { expr: Box::new(left), values: vals }, k + 1))
                        } else {
                            Err(expect_message(TokenView::RParen, peek_at(ts, k)))
                        },
                    }
                }
            } else if t == TokenView::Is {
                if peek_at(ts, j + 1) == TokenView::Not {
                    if peek_at(ts, j + 2) == TokenView::Null {
                        Ok((ExprView::IsNotNull(Box::new(left)), j + 3))
                    } else {
                        Err(expect_message(TokenView::Null, peek_at(ts, j + 2)))
                    }
                } else if peek_at(ts, j + 1) == TokenView::Null {
                    Ok((ExprView::IsNull(Box::new(left)), j + 2))
                } else {
                    Err(expect_message(TokenView::Null, peek_at(ts, j + 1)))
                }
            } else {
                Ok((left, j))
            }
        },
    }
}

/// An atom at `i`: a column, a parenthesized expression or a literal.
pub open spec fn spec_parse_atom(ts: Seq<TokenView>, i: int) -> Result<(ExprView, int), Seq<char>>
    decreases ts.len() - i, 1int,
{
    match peek_at(ts, i) {
        TokenView::Ident(name) => Ok((ExprView::Column(name), i + 1)),
        TokenView::LParen => if i < ts.len() {
            match spec_parse_or(ts, i + 1) {
                Err(m) => Err(m),
                Ok((e, j)) => if peek_at(ts, j) == TokenView::RParen {
                    Ok((e, j + 1))
                } else {
                    Err(expect_message(TokenView::RParen, peek_at(ts, j)))
                },
            }
        } else {
            Err(Seq::empty())
        },
        _ => match spec_parse_literal(ts, i) {
            Err(m) => Err(m),
            Ok((l, j)) => Ok((ExprView::Lit(l), j)),
        },
    }
}



/// The selected columns from `i`, after `acc`.
pub open spec fn spec_parse_columns(ts: Seq<TokenView>, i: int, acc: Seq<ColumnView>) -> Result<(Seq<ColumnView>, int), Seq<char>>
    decreases ts.len() - i,
{
    let item: Option<ColumnView> = match peek_at(ts, i) {
        TokenView::Star => Some(ColumnView::Star),
        TokenView::Ident(n) => Some(ColumnView::Named(n)),
        _ => None,
    };
    match item {
        None => if acc.len() == 0 {
            Err("SELECT needs at least one column"@)
        } else {
            Ok((acc, i))
        },
        Some(c) => {
            let acc2 = acc.push(c);
            if peek_at(ts, i + 1) == TokenView::Comma && i + 1 < ts.len() {
                spec_parse_columns(ts, i + 2, acc2)
            } else {
                Ok((acc2, i + 1))
            }
        },
    }
}

/// The `ORDER BY` keys from `i`, after `acc`.
pub open spec fn spec_parse_order_by(ts: Seq<TokenView>, i: int, acc: Seq<OrderByView>) -> (Seq<OrderByView>, int)
    decreases ts.len() - i,
{
    match peek_at(ts, i) {
        TokenView::Ident(col) => {
            let (dir, p) = match peek_at(ts, i + 1) {
                TokenView::Asc => (Direction::Asc, i + 2),
                TokenView::Desc => (Direction::Desc, i + 2),
                _ => (Direction::Asc, i + 1),
            };
            let acc2 = acc.push(OrderByView { column: col, direction: dir });
            if peek_at(ts, p) == TokenView::Comma && p < ts.len() && i < ts.len() {
                spec_parse_order_by(ts, p + 1, acc2)
            } else {
                (acc2, p)
            }
        },
        _ => (acc, i),
    }
}

/// A non-negative integer at `i`.
pub open spec fn spec_parse_usize(ts: Seq<TokenView>, i: int, ctx: Seq<char>) -> Result<(usize, int), Seq<char>> {
    match peek_at(ts, i) {
        TokenView::Int(n) if n >= 0 => Ok((n as usize, i + 1)),
        other => Err(ctx + " expects a non-negative integer, got "@ + spec_debug(other)),
    }
}

/// A timestamp string at `i`.
pub open spec fn spec_parse_datetime(ts: Seq<TokenView>, i: int) -> Result<(Timestamp, int), Seq<char>> {
    match peek_at(ts, i) {
        TokenView::Str(s) => match parsed_datetime(s) {
            Some(t) => Ok((t, i + 1)),
            None => Err("invalid timestamp: "@ + s),
        },
        other => Err("expected timestamp string, got "@ + spec_debug(other)),
    }
}

/// An HLC string at `i`.
pub open spec fn spec_parse_hlc_at(ts: Seq<TokenView>, i: int) -> Result<(Hlc, int), Seq<char>> {
    match peek_at(ts, i) {
        TokenView::Str(s) => match spec_parse_hlc(s) {
            Ok(h) => Ok((h, i + 1)),
            Err(_) => Err("invalid HLC: "@ + s),
        },
        other => Err("expected HLC string, got "@ + spec_debug(other)),
    }
}

/// The clauses after `FROM`: what has been read so far.
pub struct ClauseView {
    pub filter: Option<ExprView>,
    pub effective_at: Option<Timestamp>,
    pub asof: Option<Hlc>,
    pub order_by: Seq<OrderByView>,
    pub limit: Option<usize>,
    pub offset: Option<usize>,
}

/// No clause read yet.
pub open spec fn no_clauses() -> ClauseView {
    ClauseView { filter: None, effective_at: None, asof: None, order_by: Seq::empty(), limit: None, offset: None }
}

/// Reads the clauses from `i` to the end, in any order, a later clause of a
/// kind replacing an earlier one.
pub open spec fn spec_parse_clauses(ts: Seq<TokenView>, i: int, st: ClauseView) -> Result<ClauseView, Seq<char>>
    decreases ts.len() - i,
{
    if i < 0 || i >= ts.len() {
        Ok(st)
    } else {
        match ts[i] {
            TokenView::Where => match spec_parse_or(ts, i + 1) {
                Err(m) => Err(m),
                Ok((e, j)) => if j > i && j <= ts.len() {
                    spec_parse_clauses(ts, j, ClauseView { filter: Some(e), ..st })
                } else {
                    Ok(st)
                },
            },
            TokenView::EffectiveAt => match spec_parse_datetime(ts, i + 1) {
                Err(m) => Err(m),
                Ok((t, j)) => if j > i && j <= ts.len() {
                    spec_parse_clauses(ts, j, ClauseView { effective_at: Some(t), ..st })
                } else {
                    Ok(st)
                },
            },
            TokenView::AsOf => match spec_parse_hlc_at(ts, i + 1) {
                Err(m) => Err(m),
                Ok((h, j)) => if j > i && j <= ts.len() {
                    spec_parse_clauses(ts, j, ClauseView { asof: Some(h), ..st })
                } else {
                    Ok(st)
                },
            },
            TokenView::Order => {
                let (ob, j) = spec_parse_order_by(ts, i + 1, Seq::empty());
                if j > i && j <= ts.len() {
                    spec_parse_clauses(ts, j, ClauseView { order_by: ob, ..st })
                } else {
                    Ok(st)
                }
            },
            TokenView::Limit => match spec_parse_usize(ts, i + 1, "LIMIT"@) {
                Err(m) => Err(m),
                Ok((n, j)) => if j > i && j <= ts.len() {
                    spec_parse_clauses(ts, j, ClauseView { limit: Some(n), ..st })
                } else {
                    Ok(st)
                },
            },
            TokenView::Offset => match spec_parse_usize(ts, i + 1, "OFFSET"@) {
                Err(m) => Err(m),
                Ok((n, j)) => if j > i && j <= ts.len() {
                    spec_parse_clauses(ts, j, ClauseView { offset: Some(n), ..st })
                } else {
                    Ok(st)
                },
            },
            TokenView::Eof => Ok(st),
            other => Err("unexpected token in query: "@ + spec_debug(other)),
        }
    }
}

/// The query the tokens `ts` spell: `SELECT` columns `FROM` namespace, then
/// clauses; or the message of the first error.
pub open spec fn spec_parse_query(ts: Seq<TokenView>) -> Result<QueryView, Seq<char>> {
    if peek_at(ts, 0) != TokenView::Select {
        Err(expect_message(TokenView::Select, peek_at(ts, 0)))
    } else {
        match spec_parse_columns(ts, 1, Seq::empty()) {
            Err(m) => Err(m),
            Ok((cols, i)) => if peek_at(ts, i) != TokenView::From {
                Err(expect_message(TokenView::From, peek_at(ts, i)))
            } else {
                match peek_at(ts, i + 1) {
                    TokenView::Ident(ns) => match spec_parse_clauses(ts, i + 2, no_clauses()) {
                        Err(m) => Err(m),
                        Ok(st) => Ok(
                            QueryView {
                                columns: cols,
                                namespace: ns,
                                filter: st.filter,
                                effective_at: st.effective_at,
                                asof: st.asof,
                                order_by: st.order_by,
                                limit: st.limit,
                                offset: st.offset,
                            },
                        ),
                    },
                    other => Err("expected namespace name after FROM, got "@ + spec_debug(other)),
                }
            },
        }
    }
}

/// The views of a token sequence.
pub open spec fn tv(ts: Seq<Token>) -> Seq<TokenView> {
    ts.map_values(|t: Token| t@)
}

/// `n` in lowercase hexadecimal without leading zeros.
fn hex_min(n: u32) -> (r: Vec<char>)
    ensures
        r@ == spec_hex_min(n as nat),
    decreases n,
{
    let d = (n % 16) as u64;
    let c = crate::text::hex_digit_char(d);
    if n < 16 {
        let mut v = Vec::new();
        v.push(c);
        v
    } else {
        let mut v = hex_min(n / 16);
        v.push(c);
        v
    }
}

/// `escape_char` in executable form, appended to `out`.
fn push_escaped(out: &mut Vec<char>, c: char)
    ensures
        final(out)@ == old(out)@ + escape_char(c),
{
    let ghost before = out@;
    let n = c as u32;
    if c == '"' {
        out.push('\\');
        out.push('"');
    } else if c == '\\' {
        out.push('\\');
        out.push('\\');
    } else if c == '\n' {
        out.push('\\');
        out.push('n');
    } else if c == '\r' {
        out.push('\\');
        out.push('r');
    } else if c == '\t' {
        out.push('\\');
        out.push('t');
    } else if c == '\0' {
        out.push('\\');
        out.push('0');
    } else if n < 0x20 || n == 0x7f || (0x80 <= n && n < 0xa0) {
        out.push('\\');
        out.push('u');
        out.push('{');
        let h = hex_min(n);
        let mut k: usize = 0;
        let ghost mid = out@;
        while k < h.len()
            invariant
                k <= h@.len(),
                out@ == mid + h@.take(k as int),
            decreases h@.len() - k,
        {
            out.push(h[k]);
            assert(h@.take(k + 1) =~= h@.take(k as int).push(h@[k as int]));
            assert(out@ =~= mid + h@.take(k + 1));
            k = k + 1;
        }
        assert(h@.take(k as int) =~= h@);
        out.push('}');
        proof {
            reveal_strlit("\\u{");
            reveal_strlit("}");
        }
        assert(out@ =~= before + ("\\u{"@ + spec_hex_min(n as nat) + "}"@));
        return;
    } else {
        out.push(c);
    }
    assert(out@ =~= before + escape_char(c));
}

/// `debug_text` in executable form.
fn debug_string(s: &String) -> (r: String)
    ensures
        r@ == debug_text(s@),
{
    let v = crate::text::chars_of(s.as_str());
    let mut out: Vec<char> = Vec::new();
    out.push('"');
    let mut i: usize = 0;
    while i < v.len()
        invariant
            i <= v@.len(),
            v@ == s@,
            out@ == seq!['"'] + escape_text(v@.take(i as int)),
        decreases v@.len() - i,
    {
        let ghost before = out@;
        push_escaped(&mut out, v[i]);
        assert(v@.take(i + 1).drop_last() =~= v@.take(i as int));
        assert(out@ =~= seq!['"'] + escape_text(v@.take(i + 1)));
        i = i + 1;
    }
    out.push('"');
    assert(v@.take(i as int) =~= v@);
    assert(out@ =~= debug_text(s@));
    string_from_chars(&out)
}

/// Three pieces joined.
fn join3(a: &str, b: &str, c: &str) -> (r: String)
    ensures
        r@ == a@ + b@ + c@,
{
    let mut r = String::from_str(a);
    r.append(b);
    r.append(c);
    r
}

/// How a token is shown in an error message.
pub fn token_debug(t: &Token) -> (r: String)
    ensures
        r@ == spec_debug(t@),
{
    proof {
        reveal_strlit("Select");
        reveal_strlit("Ident(");
        reveal_strlit("Str(");
        reveal_strlit("Int(");
        reveal_strlit("Float(");
        reveal_strlit(")");
    }
    match t {
        Token::Select => String::from_str("Select"),
        Token::From => String::from_str("From"),
        Token::Where => String::from_str("Where"),
        Token::And => String::from_str("And"),
        Token::Or => String::from_str("Or"),
        Token::Not => String::from_str("Not"),
        Token::Order => String::from_str("Order"),
        Token::By => String::from_str("By"),
        Token::Asc => String::from_str("Asc"),
        Token::Desc => String::from_str("Desc"),
        Token::Limit => String::from_str("Limit"),
        Token::Offset => String::from_str("Offset"),
        Token::EffectiveAt => String::from_str("EffectiveAt"),
        Token::AsOf => String::from_str("AsOf"),
        Token::Like => String::from_str("Like"),
        Token::In => String::from_str("In"),
        Token::Is => String::from_str("Is"),
        Token::Null => String::from_str("Null"),
        Token::True => String::from_str("True"),
        Token::False => String::from_str("False"),
        Token::Ident(s) => {
            let d = debug_string(s);
            join3("Ident(", d.as_str(), ")")
        },
        Token::Str(s) => {
            let d = debug_string(s);
            join3("Str(", d.as_str(), ")")
        },
        Token::Int(n) => {
            let d = decimal_i64(*n);
            join3("Int(", d.as_str(), ")")
        },
        Token::Float(s) => join3("Float(", s.as_str(), ")"),
        Token::Eq => String::from_str("Eq"),
        Token::Ne => String::from_str("Ne"),
        Token::Lt => String::from_str("Lt"),
        Token::Le => String::from_str("Le"),
        Token::Gt => String::from_str("Gt"),
        Token::Ge => String::from_str("Ge"),
        Token::Star => String::from_str("Star"),
        Token::Comma => String::from_str("Comma"),
        Token::Dot => String::from_str("Dot"),
        Token::LParen => String::from_str("LParen"),
        Token::RParen => String::from_str("RParen"),
        Token::Eof => String::from_str("Eof"),
    }
}

/// The token `off` places after `i`, or `Eof` past the end.
fn peek_off(ts: &Vec<Token>, i: usize, off: usize) -> (r: Token)
    ensures
        r@ == peek_at(tv(ts@), i + off),
        ts@.len() <= usize::MAX,
{
    if i < ts.len() && off < ts.len() - i {
        assert(tv(ts@)[i + off] == ts@[i + off]@);
        ts[i + off].clone()
    } else {
        Token::Eof
    }
}

/// The message of a failed `expect`.
fn expect_msg(expected: &Token, got: &Token) -> (r: String)
    ensures
        r@ == expect_message(expected@, got@),
{
    let e = token_debug(expected);
    let g = token_debug(got);
    proof {
        reveal_strlit("expected ");
        reveal_strlit(", got ");
    }
    let mut r = String::from_str("expected ");
    r.append(e.as_str());
    r.append(", got ");
    r.append(g.as_str());
    r
}

/// `s` followed by the debug form of `t`.
fn msg_with(s: &str, t: &Token) -> (r: String)
    ensures
        r@ == s@ + spec_debug(t@),
{
    let d = token_debug(t);
    let mut r = String::from_str(s);
    r.append(d.as_str());
    r
}

/// Whether two tokens are the same unit token (no payload).
fn is_token(t: &Token, u: &Token) -> (b: bool)
    requires
        !(u is Ident || u is Str || u is Int || u is Float),
    ensures
        b == (t@ == u@),
{
    match (t, u) {
        (Token::Select, Token::Select) => true,
        (Token::From, Token::From) => true,
        (Token::Where, Token::Where) => true,
        (Token::And, Token::And) => true,
        (Token::Or, Token::Or) => true,
        (Token::Not, Token::Not) => true,
        (Token::Order, Token::Order) => true,
        (Token::By, Token::By) => true,
        (Token::Asc, Token::Asc) => true,
        (Token::Desc, Token::Desc) => true,
        (Token::Limit, Token::Limit) => true,
        (Token::Offset, Token::Offset) => true,
        (Token::EffectiveAt, Token::EffectiveAt) => true,
        (Token::AsOf, Token::AsOf) => true,
        (Token::Like, Token::Like) => true,
        (Token::In, Token::In) => true,
        (Token::Is, Token::Is) => true,
        (Token::Null, Token::Null) => true,
        (Token::True, Token::True) => true,
        (Token::False, Token::False) => true,
        (Token::Eq, Token::Eq) => true,
        (Token::Ne, Token::Ne) => true,
        (Token::Lt, Token::Lt) => true,
        (Token::Le, Token::Le) => true,
        (Token::Gt, Token::Gt) => true,
        (Token::Ge, Token::Ge) => true,
        (Token::Star, Token::Star) => true,
        (Token::Comma, Token::Comma) => true,
        (Token::Dot, Token::Dot) => true,
        (Token::LParen, Token::LParen) => true,
        (Token::RParen, Token::RParen) => true,
        (Token::Eof, Token::Eof) => true,
        _ => false,
    }
}

/// The literal at `i`.
fn parse_literal(ts: &Vec<Token>, i: usize) -> (r: Result<(Literal, usize), String>)
    requires
        i <= ts@.len(),
    ensures
        match spec_parse_literal(tv(ts@), i as int) {
            Ok((l, j)) => r matches Ok((x, p)) && x@ == l && p == j && p <= ts@.len(),
            Err(m) => r matches Err(x) && x@ == m,
        },
{
    let t = peek_off(ts, i, 0);
    proof {
        reveal_strlit("expected literal, got ");
    }
    match t {
        Token::Str(s) => Ok((Literal::Str(s), i + 1)),
        Token::Int(n) => Ok((Literal::Int(n), i + 1)),
        Token::Float(f) => Ok((Literal::Float(f), i + 1)),
        Token::True => Ok((Literal::Bool(true), i + 1)),
        Token::False => Ok((Literal::Bool(false), i + 1)),
        Token::Null => Ok((Literal::Null, i + 1)),
        other => Err(msg_with("expected literal, got ", &other)),
    }
}


/// The views of literals.
pub open spec fn lits(v: Seq<Literal>) -> Seq<LitView> {
    v.map_values(|l: Literal| l@)
}

/// The comparison operator a token stands for.
fn binop_of_token(t: &Token) -> (r: Option<BinOp>)
    ensures
        r == binop_of(t@),
{
    match t {
        Token::Eq => Some(BinOp::Eq),
        Token::Ne => Some(BinOp::Ne),
        Token::Lt => Some(BinOp::Lt),
        Token::Le => Some(BinOp::Le),
        Token::Gt => Some(BinOp::Gt),
        Token::Ge => Some(BinOp::Ge),
        _ => None,
    }
}

/// The literals of an `IN (...)` list from `i`, after `acc`.
fn parse_in_list(ts: &Vec<Token>, i: usize, acc: Vec<Literal>) -> (r: Result<(Vec<Literal>, usize), String>)
    requires
        i <= ts@.len(),
    ensures
        match spec_parse_in_list(tv(ts@), i as int, lits(acc@)) {
            Ok((ls, j)) => r matches Ok((v, p)) && lits(v@) == ls && p == j && p <= ts@.len(),
            Err(m) => r matches Err(x) && x@ == m,
        },
    decreases ts@.len() - i,
{
    match parse_literal(ts, i) {
        Err(m) => Err(m),
        Ok((l, j)) => {
            let mut acc = acc;
            let ghost before = acc@;
            let ghost lv = l@;
            acc.push(l);
            assert(lits(acc@) =~= lits(before).push(lv));
            let t = peek_off(ts, j, 0);
            if is_token(&t, &Token::Comma) && j + 1 > i && j + 1 <= ts.len() {
                parse_in_list(ts, j + 1, acc)
            } else {
                Ok((acc, j))
            }
        },
    }
}

/// An `OR` of `AND`s at `i`.
fn parse_or(ts: &Vec<Token>, i: usize) -> (r: Result<(Expr, usize), String>)
    requires
        i <= ts@.len(),
    ensures
        match spec_parse_or(tv(ts@), i as int) {
            Ok((e, j)) => r matches Ok((x, p)) && x@ == e && p == j && p <= ts@.len(),
            Err(m) => r matches Err(x) && x@ == m,
        },
    decreases ts@.len() - i, 6int,
{
    match parse_and(ts, i) {
        Err(m) => Err(m),
        Ok((l, j)) => if j > i && j <= ts.len() {
            parse_or_rest(ts, l, j)
        } else {
            Ok((l, j))
        },
    }
}

/// The `OR`s following `left`, from `i`.
fn parse_or_rest(ts: &Vec<Token>, left: Expr, i: usize) -> (r: Result<(Expr, usize), String>)
    requires
        i <= ts@.len(),
    ensures
        match spec_parse_or_rest(tv(ts@), left@, i as int) {
            Ok((e, j)) => r matches Ok((x, p)) && x@ == e && p == j && p <= ts@.len(),
            Err(m) => r matches Err(x) && x@ == m,
        },
    decreases ts@.len() - i, 7int,
{
    let t = peek_off(ts, i, 0);
    if is_token(&t, &Token::Or) && i < ts.len() {
        match parse_and(ts, i + 1) {
            Err(m) => Err(m),
            Ok((r, j)) => {
                let e = Expr::Or(Box::new(left), Box::new(r));
                if j > i && j <= ts.len() {
                    parse_or_rest(ts, e, j)
                } else {
                    Ok((e, j))
                }
            },
        }
    } else {
        Ok((left, i))
    }
}

/// An `AND` of negations at `i`.
fn parse_and(ts: &Vec<Token>, i: usize) -> (r: Result<(Expr, usize), String>)
    requires
        i <= ts@.len(),
    ensures
        match spec_parse_and(tv(ts@), i as int) {
            Ok((e, j)) => r matches Ok((x, p)) && x@ == e && p == j && p <= ts@.len(),
            Err(m) => r matches Err(x) && x@ == m,
        },
    decreases ts@.len() - i, 4int,
{
    match parse_not(ts, i) {
        Err(m) => Err(m),
        Ok((l, j)) => if j > i && j <= ts.len() {
            parse_and_rest(ts, l, j)
        } else {
            Ok((l, j))
        },
    }
}

/// The `AND`s following `left`, from `i`.
fn parse_and_rest(ts: &Vec<Token>, left: Expr, i: usize) -> (r: Result<(Expr, usize), String>)
    requires
        i <= ts@.len(),
    ensures
        match spec_parse_and_rest(tv(ts@), left@, i as int) {
            Ok((e, j)) => r matches Ok((x, p)) && x@ == e && p == j && p <= ts@.len(),
            Err(m) => r matches Err(x) && x@ == m,
        },
    decreases ts@.len() - i, 5int,
{
    let t = peek_off(ts, i, 0);
    if is_token(&t, &Token::And) && i < ts.len() {
        match parse_not(ts, i + 1) {
            Err(m) => Err(m),
            Ok((r, j)) => {
                let e = Expr::And(Box::new(left), Box::new(r));
                if j > i && j <= ts.len() {
                    parse_and_rest(ts, e, j)
                } else {
                    Ok((e, j))
                }
            },
        }
    } else {
        Ok((left, i))
    }
}

/// A negation (any number of `NOT`s) of a predicate at `i`.
fn parse_not(ts: &Vec<Token>, i: usize) -> (r: Result<(Expr, usize), String>)
    requires
        i <= ts@.len(),
    ensures
        match spec_parse_not(tv(ts@), i as int) {
            Ok((e, j)) => r matches Ok((x, p)) && x@ == e && p == j && p <= ts@.len(),
            Err(m) => r matches Err(x) && x@ == m,
        },
    decreases ts@.len() - i, 3int,
{
    let t = peek_off(ts, i, 0);
    if is_token(&t, &Token::Not) && i < ts.len() {
        match parse_not(ts, i + 1) {
            Err(m) => Err(m),
            Ok((e, j)) => Ok((Expr::Not(Box::new(e)), j)),
        }
    } else {
        parse_predicate(ts, i)
    }
}

/// A predicate at `i`.
fn parse_predicate(ts: &Vec<Token>, i: usize) -> (r: Result<(Expr, usize), String>)
    requires
        i <= ts@.len(),
    ensures
        match spec_parse_predicate(tv(ts@), i as int) {
            Ok((e, j)) => r matches Ok((x, p)) && x@ == e && p == j && p <= ts@.len(),
            Err(m) => r matches Err(x) && x@ == m,
        },
    decreases ts@.len() - i, 2int,
{
    proof {
        reveal_strlit("LIKE expects a string pattern, got ");
    }
    match parse_atom(ts, i) {
        Err(m) => Err(m),
        Ok((left, j)) => {
            let t = peek_off(ts, j, 0);
            match binop_of_token(&t) {
                Some(op) => {
                    if j >= i && j < ts.len() {
                        match parse_atom(ts, j + 1) {
                            Err(m) => Err(m),
                            Ok((r, k)) => Ok((Expr::BinOp { op, left: Box::new(left), right: Box::new(r) }, k)),
                        }
                    } else {
                        Ok((left, j))
                    }
                },
                None => {
                    if is_token(&t, &Token::Like) {
                        let t1 = peek_off(ts, j, 1);
                        match t1 {
                            Token::Str(p) => Ok((Expr::Like { expr: Box::new(left), pattern: p }, j + 2)),
                            other => Err(msg_with("LIKE expects a string pattern, got ", &other)),
                        }
                    } else if is_token(&t, &Token::In) {
                        let t1 = peek_off(ts, j, 1);
                        if !is_token(&t1, &Token::LParen) {
                            Err(expect_msg(&Token::LParen, &t1))
                        } else {
                            let empty: Vec<Literal> = Vec::new();
                            assert(lits(empty@) =~= Seq::<LitView>::empty());
                            match parse_in_list(ts, j + 2, empty) {
                                Err(m) => Err(m),
                                Ok((vals, k)) => {
                                    assert(vals@.map_values(|l: Literal| l@) =~= lits(vals@));
                                    let tk = peek_off(ts, k, 0);
                                    if is_token(&tk, &Token::RParen) {
                                        Ok((Expr::In { expr: Box::new(left), values: vals }, k + 1))
                                    } else {
                                        Err(expect_msg(&Token::RParen, &tk))
                                    }
                                },
                            }
                        }
                    } else if is_token(&t, &Token::Is) {
                        let t1 = peek_off(ts, j, 1);
                        if is_token(&t1, &Token::Not) {
                            let t2 = peek_off(ts, j, 2);
                            if is_token(&t2, &Token::Null) {
                                Ok((Expr::IsNotNull(Box::new(left)), j + 3))
                            } else {
                                Err(expect_msg(&Token::Null, &t2))
                            }
                        } else if is_token(&t1, &Token::Null) {
                            Ok((Expr::IsNull(Box::new(left)), j + 2))
                        } else {
                            Err(expect_msg(&Token::Null, &t1))
                        }
                    } else {
                        Ok((left, j))
                    }
                },
            }
        },
    }
}

/// An atom at `i`.
fn parse_atom(ts: &Vec<Token>, i: usize) -> (r: Result<(Expr, usize), String>)
    requires
        i <= ts@.len(),
    ensures
        match spec_parse_atom(tv(ts@), i as int) {
            Ok((e, j)) => r matches Ok((x, p)) && x@ == e && p == j && p <= ts@.len(),
            Err(m) => r matches Err(x) && x@ == m,
        },
    decreases ts@.len() - i, 1int,
{
    let t = peek_off(ts, i, 0);
    match t {
        Token::Ident(name) => Ok((Expr::Column(name), i + 1)),
        Token::LParen => {
            match parse_or(ts, i + 1) {
                Err(m) => Err(m),
                Ok((e, j)) => {
                    let tj = peek_off(ts, j, 0);
                    if is_token(&tj, &Token::RParen) {
                        Ok((e, j + 1))
                    } else {
                        Err(expect_msg(&Token::RParen, &tj))
                    }
                },
            }
        },
        _ => match parse_literal(ts, i) {
            Err(m) => Err(m),
            Ok((l, j)) => Ok((Expr::Lit(l), j)),
        },
    }
}


/// The views of `ORDER BY` keys.
pub open spec fn obs(v: Seq<OrderBy>) -> Seq<OrderByView> {
    v.map_values(|o: OrderBy| o@)
}

/// The views of selected columns.
pub open spec fn cols(v: Seq<Column>) -> Seq<ColumnView> {
    v.map_values(|c: Column| c@)
}

/// The selected columns from `i`, after `acc`.
fn parse_columns(ts: &Vec<Token>, i: usize, acc: Vec<Column>) -> (r: Result<(Vec<Column>, usize), String>)
    requires
        i <= ts@.len(),
    ensures
        match spec_parse_columns(tv(ts@), i as int, cols(acc@)) {
            Ok((cs, j)) => r matches Ok((v, p)) && cols(v@) == cs && p == j && p <= ts@.len(),
            Err(m) => r matches Err(x) && x@ == m,
        },
    decreases ts@.len() - i,
{
    let t = peek_off(ts, i, 0);
    let item: Option<Column> = match t {
        Token::Star => Some(Column::Star),
        Token::Ident(n) => Some(Column::Named(n)),
        _ => None,
    };
    proof {
        reveal_strlit("SELECT needs at least one column");
    }
    match item {
        None => if acc.len() == 0 {
            Err(String::from_str("SELECT needs at least one column"))
        } else {
            Ok((acc, i))
        },
        Some(c) => {
            let mut acc = acc;
            let ghost before = acc@;
            let ghost cv = c@;
            acc.push(c);
            assert(cols(acc@) =~= cols(before).push(cv));
            let t1 = peek_off(ts, i, 1);
            if is_token(&t1, &Token::Comma) && i + 1 < ts.len() {
                parse_columns(ts, i + 2, acc)
            } else {
                Ok((acc, i + 1))
            }
        },
    }
}

/// The `ORDER BY` keys from `i`, after `acc`.
fn parse_order_by(ts: &Vec<Token>, i: usize, acc: Vec<OrderBy>) -> (r: (Vec<OrderBy>, usize))
    requires
        i <= ts@.len(),
    ensures
        obs(r.0@) == spec_parse_order_by(tv(ts@), i as int, obs(acc@)).0,
        r.1 == spec_parse_order_by(tv(ts@), i as int, obs(acc@)).1,
        i <= r.1 <= ts@.len(),
    decreases ts@.len() - i,
{
    let t = peek_off(ts, i, 0);
    match t {
        Token::Ident(col) => {
            let t1 = peek_off(ts, i, 1);
            let (dir, p) = match t1 {
                Token::Asc => (Direction::Asc, i + 2),
                Token::Desc => (Direction::Desc, i + 2),
                _ => (Direction::Asc, i + 1),
            };
            let mut acc = acc;
            let ghost before = acc@;
            let o = OrderBy { column: col, direction: dir };
            let ghost ov = o@;
            acc.push(o);
            assert(obs(acc@) =~= obs(before).push(ov));
            let tp = peek_off(ts, p, 0);
            if is_token(&tp, &Token::Comma) && p < ts.len() && i < ts.len() {
                parse_order_by(ts, p + 1, acc)
            } else {
                (acc, p)
            }
        },
        _ => (acc, i),
    }
}

/// A non-negative integer at `i`.
fn parse_usize(ts: &Vec<Token>, i: usize, ctx: &str) -> (r: Result<(usize, usize), String>)
    requires
        i <= ts@.len(),
    ensures
        match spec_parse_usize(tv(ts@), i as int, ctx@) {
            Ok((n, j)) => r matches Ok((x, p)) && x == n && p == j && p <= ts@.len(),
            Err(m) => r matches Err(x) && x@ == m,
        },
{
    let t = peek_off(ts, i, 0);
    proof {
        reveal_strlit(" expects a non-negative integer, got ");
    }
    match t {
        Token::Int(n) if n >= 0 => Ok((n as usize, i + 1)),
        other => {
            let mut m = String::from_str(ctx);
            m.append(" expects a non-negative integer, got ");
            let d = token_debug(&other);
            m.append(d.as_str());
            Err(m)
        },
    }
}

/// A timestamp string at `i`.
fn parse_datetime(ts: &Vec<Token>, i: usize) -> (r: Result<(Timestamp, usize), String>)
    requires
        i <= ts@.len(),
    ensures
        match spec_parse_datetime(tv(ts@), i as int) {
            Ok((t, j)) => r matches Ok((x, p)) && x == t && p == j && p <= ts@.len(),
            Err(m) => r matches Err(x) && x@ == m,
        },
{
    let t = peek_off(ts, i, 0);
    proof {
        reveal_strlit("invalid timestamp: ");
        reveal_strlit("expected timestamp string, got ");
    }
    match t {
        Token::Str(s) => match parse_datetime_text(s.as_str()) {
            Some(d) => Ok((d, i + 1)),
            None => {
                let mut m = String::from_str("invalid timestamp: ");
                m.append(s.as_str());
                Err(m)
            },
        },
        other => Err(msg_with("expected timestamp string, got ", &other)),
    }
}

/// An HLC string at `i`.
fn parse_hlc_at(ts: &Vec<Token>, i: usize) -> (r: Result<(Hlc, usize), String>)
    requires
        i <= ts@.len(),
    ensures
        match spec_parse_hlc_at(tv(ts@), i as int) {
            Ok((h, j)) => r matches Ok((x, p)) && x == h && p == j && p <= ts@.len(),
            Err(m) => r matches Err(x) && x@ == m,
        },
{
    let t = peek_off(ts, i, 0);
    proof {
        reveal_strlit("invalid HLC: ");
        reveal_strlit("expected HLC string, got ");
    }
    match t {
        Token::Str(s) => match Hlc::parse(s.as_str()) {
            Ok(h) => Ok((h, i + 1)),
            Err(_) => {
                let mut m = String::from_str("invalid HLC: ");
                m.append(s.as_str());
                Err(m)
            },
        },
        other => Err(msg_with("expected HLC string, got ", &other)),
    }
}


/// The clauses read so far.
struct Clauses {
    filter: Option<Expr>,
    effective_at: Option<Timestamp>,
    asof: Option<Hlc>,
    order_by: Vec<OrderBy>,
    limit: Option<usize>,
    offset: Option<usize>,
}

impl View for Clauses {
    type V = ClauseView;

    closed spec fn view(&self) -> ClauseView {
        ClauseView {
            filter: crate::pql::ast::opt_expr_view(self.filter),
            effective_at: self.effective_at,
            asof: self.asof,
            order_by: obs(self.order_by@),
            limit: self.limit,
            offset: self.offset,
        }
    }
}

/// Reads the clauses from `i` to the end: `spec_parse_clauses`.
fn parse_clauses(ts: &Vec<Token>, i: usize, st: Clauses) -> (r: Result<Clauses, String>)
    requires
        i <= ts@.len(),
    ensures
        match spec_parse_clauses(tv(ts@), i as int, st@) {
            Ok(c) => r matches Ok(x) && x@ == c,
            Err(m) => r matches Err(x) && x@ == m,
        },
    decreases ts@.len() - i,
{
    if i >= ts.len() {
        return Ok(st);
    }
    assert(tv(ts@)[i as int] == ts@[i as int]@);
    proof {
        reveal_strlit("unexpected token in query: ");
        reveal_strlit("LIMIT");
        reveal_strlit("OFFSET");
    }
    let mut st = st;
    match &ts[i] {
        Token::Where => match parse_or(ts, i + 1) {
            Err(m) => Err(m),
            Ok((e, j)) => if j > i && j <= ts.len() {
                st.filter = Some(e);
                parse_clauses(ts, j, st)
            } else {
                Ok(st)
            },
        },
        Token::EffectiveAt => match parse_datetime(ts, i + 1) {
            Err(m) => Err(m),
            Ok((d, j)) => {
                st.effective_at = Some(d);
                parse_clauses(ts, j, st)
            },
        },
        Token::AsOf => match parse_hlc_at(ts, i + 1) {
            Err(m) => Err(m),
            Ok((h, j)) => {
                st.asof = Some(h);
                parse_clauses(ts, j, st)
            },
        },
        Token::Order => {
            let none: Vec<OrderBy> = Vec::new();
            assert(obs(none@) =~= Seq::<OrderByView>::empty());
            let (ob, j) = parse_order_by(ts, i + 1, none);
            st.order_by = ob;
            parse_clauses(ts, j, st)
        },
        Token::Limit => match parse_usize(ts, i + 1, "LIMIT") {
            Err(m) => Err(m),
            Ok((n, j)) => {
                st.limit = Some(n);
                parse_clauses(ts, j, st)
            },
        },
        Token::Offset => match parse_usize(ts, i + 1, "OFFSET") {
            Err(m) => Err(m),
            Ok((n, j)) => {
                st.offset = Some(n);
                parse_clauses(ts, j, st)
            },
        },
        Token::Eof => Ok(st),
        other => Err(msg_with("unexpected token in query: ", other)),
    }
}

/// The parser over one token sequence.
pub struct Parser {
    tokens: Vec<Token>,
    pos: usize,
}

impl Parser {
    /// The tokens being read.
    pub closed spec fn tokens(&self) -> Seq<TokenView> {
        tv(self.tokens@)
    }

    /// A parser at the start of `tokens`.
    pub fn new(tokens: Vec<Token>) -> (p: Parser)
        ensures
            p.tokens() == tv(tokens@),
    {
        Parser { tokens, pos: 0 }
    }

    /// Parses the whole query (see `spec_parse_query`); `Error::Query` with
    /// the message of the first error.
    pub fn parse(self) -> (r: Result<Query, Error>)
        ensures
            match spec_parse_query(self.tokens()) {
                Ok(q) => r matches Ok(x) && x@ == q,
                Err(m) => r matches Err(Error::Query(x)) && x@ == m,
            },
    {
        let ts = &self.tokens;
        let t0 = peek_off(ts, 0, 0);
        if !is_token(&t0, &Token::Select) {
            return Err(Error::Query(expect_msg(&Token::Select, &t0)));
        }
        let no_cols: Vec<Column> = Vec::new();
        assert(cols(no_cols@) =~= Seq::<ColumnView>::empty());
        let (columns, i) = match parse_columns(ts, 1, no_cols) {
            Ok(x) => x,
            Err(m) => {
                return Err(Error::Query(m));
            },
        };
        let ti = peek_off(ts, i, 0);
        if !is_token(&ti, &Token::From) {
            return Err(Error::Query(expect_msg(&Token::From, &ti)));
        }
        let tn = peek_off(ts, i, 1);
        proof {
            reveal_strlit("expected namespace name after FROM, got ");
            reveal_strlit("unexpected token in query: ");
            reveal_strlit("LIMIT");
            reveal_strlit("OFFSET");
        }
        let namespace = match tn {
            Token::Ident(ns) => ns,
            other => {
                return Err(Error::Query(msg_with("expected namespace name after FROM, got ", &other)));
            },
        };
        let none: Vec<OrderBy> = Vec::new();
        assert(obs(none@) =~= Seq::<OrderByView>::empty());
        let st = Clauses { filter: None, effective_at: None, asof: None, order_by: none, limit: None, offset: None };
        assert(st@ == no_clauses());
        let st = match parse_clauses(ts, i + 2, st) {
            Ok(x) => x,
            Err(m) => {
                return Err(Error::Query(m));
            },
        };
        let Clauses { filter, effective_at, asof, order_by, limit, offset } = st;
        let q = Query { columns, namespace, filter, effective_at, asof, order_by, limit, offset };
        Ok(q)
    }
}

} // verus!
