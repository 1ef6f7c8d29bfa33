//! The tokens of PQL.
use vstd::prelude::*;

use crate::text::copy_string;

verus! {

/// A PQL token. A float literal is kept as written (its digits, point and
/// exponent); its value is a floating-point number, which this library does
/// not compute.
#[derive(Debug)]
pub enum Token {
    Select,
    From,
    Where,
    And,
    Or,
    Not,
    Order,
    By,
    Asc,
    Desc,
    Limit,
    Offset,
    EffectiveAt,
    AsOf,
    Like,
    In,
    Is,
    Null,
    True,
    False,
    Ident(String),
    Str(String),
    Int(i64),
    Float(String),
    Eq,
    Ne,
    Lt,
    Le,
    Gt,
    Ge,
    Star,
    Comma,
    Dot,
    LParen,
    RParen,
    Eof,
}

/// The content of a token.
pub enum TokenView {
    Select,
    From,
    Where,
    And,
    Or,
    Not,
    Order,
    By,
    Asc,
    Desc,
    Limit,
    Offset,
    EffectiveAt,
    AsOf,
    Like,
    In,
    Is,
    Null,
    True,
    False,
    Ident(Seq<char>),
    Str(Seq<char>),
    Int(i64),
    Float(Seq<char>),
    Eq,
    Ne,
    Lt,
    Le,
    Gt,
    Ge,
    Star,
    Comma,
    Dot,
    LParen,
    RParen,
    Eof,
}

impl View for Token {
    type V = TokenView;

    open spec fn view(&self) -> TokenView {
        match self {
            Token::Select => TokenView::Select,
            Token::From => TokenView::From,
            Token::Where => TokenView::Where,
            Token::And => TokenView::And,
            Token::Or => TokenView::Or,
            Token::Not => TokenView::Not,
            Token::Order => TokenView::Order,
            Token::By => TokenView::By,
            Token::Asc => TokenView::Asc,
            Token::Desc => TokenView::Desc,
            Token::Limit => TokenView::Limit,
            Token::Offset => TokenView::Offset,
            Token::EffectiveAt => TokenView::EffectiveAt,
            Token::AsOf => TokenView::AsOf,
            Token::Like => TokenView::Like,
            Token::In => TokenView::In,
            Token::Is => TokenView::Is,
            Token::Null => TokenView::Null,
            Token::True => TokenView::True,
            Token::False => TokenView::False,
            Token::Ident(s) => TokenView::Ident(s@),
            Token::Str(s) => TokenView::Str(s@),
            Token::Int(n) => TokenView::Int(*n),
            Token::Float(s) => TokenView::Float(s@),
            Token::Eq => TokenView::Eq,
            Token::Ne => TokenView::Ne,
            Token::Lt => TokenView::Lt,
            Token::Le => TokenView::Le,
            Token::Gt => TokenView::Gt,
            Token::Ge => TokenView::Ge,
            Token::Star => TokenView::Star,
            Token::Comma => TokenView::Comma,
            Token::Dot => TokenView::Dot,
            Token::LParen => TokenView::LParen,
            Token::RParen => TokenView::RParen,
            Token::Eof => TokenView::Eof,
        }
    }
}

/// The ASCII uppercase of `c`.
pub open spec fn ascii_upper(c: char) -> char {
    if 'a' <= c && c <= 'z' {
        ((c as u32) - 32) as char
    } else {
        c
    }
}

/// The ASCII uppercase of `w`.
pub open spec fn upper(w: Seq<char>) -> Seq<char> {
    w.map_values(|c: char| ascii_upper(c))
}

/// The keyword spelled `w` (in any case), if it is one. `EFFECTIVE` and `AS`
/// stand for `EFFECTIVE AT` and `AS OF`.
pub open spec fn spec_keyword(w: Seq<char>) -> Option<TokenView> {
    let u = upper(w);
    if u == "SELECT"@ {
        Some(TokenView::Select)
    } else if u == "FROM"@ {
        Some(TokenView::From)
    } else if u == "WHERE"@ {
        Some(TokenView::Where)
    } else if u == "AND"@ {
        Some(TokenView::And)
    } else if u == "OR"@ {
        Some(TokenView::Or)
    } else if u == "NOT"@ {
        Some(TokenView::Not)
    } else if u == "ORDER"@ {
        Some(TokenView::Order)
    } else if u == "BY"@ {
        Some(TokenView::By)
    } else if u == "ASC"@ {
        Some(TokenView::Asc)
    } else if u == "DESC"@ {
        Some(TokenView::Desc)
    } else if u == "LIMIT"@ {
        Some(TokenView::Limit)
    } else if u == "OFFSET"@ {
        Some(TokenView::Offset)
    } else if u == "EFFECTIVE"@ {
        Some(TokenView::EffectiveAt)
    } else if u == "AS"@ {
        Some(TokenView::AsOf)
    } else if u == "LIKE"@ {
        Some(TokenView::Like)
    } else if u == "IN"@ {
        Some(TokenView::In)
    } else if u == "IS"@ {
        Some(TokenView::Is)
    } else if u == "NULL"@ {
        Some(TokenView::Null)
    } else if u == "TRUE"@ {
        Some(TokenView::True)
    } else if u == "FALSE"@ {
        Some(TokenView::False)
    } else {
        None
    }
}

/// The ASCII uppercase of `s`.
pub fn to_upper(s: &str) -> (r: String)
    ensures
        r@ == upper(s@),
{
    let v = crate::text::chars_of(s);
    let mut out: Vec<char> = Vec::new();
    let mut i: usize = 0;
    while i < v.len()
        invariant
            i <= v@.len(),
            v@ == s@,
            out@ == upper(v@.take(i as int)),
        decreases v@.len() - i,
    {
        let c = v[i];
        let u = if 'a' <= c && c <= 'z' {
            char_from_code((c as u32) - 32)
        } else {
            c
        };
        out.push(u);
        assert(upper(v@.take(i + 1)) =~= upper(v@.take(i as int)).push(ascii_upper(c)));
        i = i + 1;
    }
    assert(v@.take(i as int) =~= v@);
    crate::text::string_from_chars(&out)
}

/// The character with code `n`, an ASCII letter.
fn char_from_code(n: u32) -> (c: char)
    requires
        65 <= n <= 90,
    ensures
        c == n as char,
{
    let b: u8 = n as u8;
    b as char
}

impl Token {
    /// The keyword spelled `s` (in any case), if it is one.
    pub fn keyword(s: &str) -> (r: Option<Token>)
        ensures
            match spec_keyword(s@) {
                Some(t) => r matches Some(x) && x@ == t,
                None => r is None,
            },
    {
        let u = to_upper(s);
        let w = u.as_str();
        proof {
            reveal_strlit("SELECT");
            reveal_strlit("FROM");
            reveal_strlit("WHERE");
            reveal_strlit("AND");
            reveal_strlit("OR");
            reveal_strlit("NOT");
            reveal_strlit("ORDER");
            reveal_strlit("BY");
            reveal_strlit("ASC");
            reveal_strlit("DESC");
            reveal_strlit("LIMIT");
            reveal_strlit("OFFSET");
            reveal_strlit("EFFECTIVE");
            reveal_strlit("AS");
            reveal_strlit("LIKE");
            reveal_strlit("IN");
            reveal_strlit("IS");
            reveal_strlit("NULL");
            reveal_strlit("TRUE");
            reveal_strlit("FALSE");
        }
        if crate::text::str_eq(w, "SELECT") {
            Some(Token::Select)
        } else if crate::text::str_eq(w, "FROM") {
            Some(Token::From)
        } else if crate::text::str_eq(w, "WHERE") {
            Some(Token::Where)
        } else if crate::text::str_eq(w, "AND") {
            Some(Token::And)
        } else if crate::text::str_eq(w, "OR") {
            Some(Token::Or)
        } else if crate::text::str_eq(w, "NOT") {
            Some(Token::Not)
        } else if crate::text::str_eq(w, "ORDER") {
            Some(Token::Order)
        } else if crate::text::str_eq(w, "BY") {
            Some(Token::By)
        } else if crate::text::str_eq(w, "ASC") {
            Some(Token::Asc)
        } else if crate::text::str_eq(w, "DESC") {
            Some(Token::Desc)
        } else if crate::text::str_eq(w, "LIMIT") {
            Some(Token::Limit)
        } else if crate::text::str_eq(w, "OFFSET") {
            Some(Token::Offset)
        } else if crate::text::str_eq(w, "EFFECTIVE") {
            Some(Token::EffectiveAt)
        } else if crate::text::str_eq(w, "AS") {
            Some(Token::AsOf)
        } else if crate::text::str_eq(w, "LIKE") {
            Some(Token::Like)
        } else if crate::text::str_eq(w, "IN") {
            Some(Token::In)
        } else if crate::text::str_eq(w, "IS") {
            Some(Token::Is)
        } else if crate::text::str_eq(w, "NULL") {
            Some(Token::Null)
        } else if crate::text::str_eq(w, "TRUE") {
            Some(Token::True)
        } else if crate::text::str_eq(w, "FALSE") {
            Some(Token::False)
        } else {
            None
        }
    }
}

impl Clone for Token {
    fn clone(&self) -> (r: Self)
        ensures
            r@ == self@,
    {
        match self {
            Token::Select => Token::Select,
            Token::From => Token::From,
            Token::Where => Token::Where,
            Token::And => Token::And,
            Token::Or => Token::Or,
            Token::Not => Token::Not,
            Token::Order => Token::Order,
            Token::By => Token::By,
            Token::Asc => Token::Asc,
            Token::Desc => Token::Desc,
            Token::Limit => Token::Limit,
            Token::Offset => Token::Offset,
            Token::EffectiveAt => Token::EffectiveAt,
            Token::AsOf => Token::AsOf,
            Token::Like => Token::Like,
            Token::In => Token::In,
            Token::Is => Token::Is,
            Token::Null => Token::Null,
            Token::True => Token::True,
            Token::False => Token::False,
            Token::Ident(s) => Token::Ident(copy_string(s)),
            Token::Str(s) => Token::Str(copy_string(s)),
            Token::Int(n) => Token::Int(*n),
            Token::Float(s) => Token::Float(copy_string(s)),
            Token::Eq => Token::Eq,
            Token::Ne => Token::Ne,
            Token::Lt => Token::Lt,
            Token::Le => Token::Le,
            Token::Gt => Token::Gt,
            Token::Ge => Token::Ge,
            Token::Star => Token::Star,
            Token::Comma => Token::Comma,
            Token::Dot => Token::Dot,
            Token::LParen => Token::LParen,
            Token::RParen => Token::RParen,
            Token::Eof => Token::Eof,
        }
    }
}

} // verus!
