//! The PQL lexer: text to tokens.
use vstd::prelude::*;

use super::token::{spec_keyword, upper, Token, TokenView};
use crate::error::Error;
use crate::text::{chars_of, string_from_chars};

verus! {

/// Whitespace between tokens.
pub open spec fn is_ws(c: char) -> bool {
    c == ' ' || c == '\t' || c == '\n' || c == '\r'
}

/// An ASCII decimal digit.
pub open spec fn is_digit(c: char) -> bool {
    '0' <= c && c <= '9'
}

/// An ASCII letter.
pub open spec fn is_alpha(c: char) -> bool {
    ('a' <= c && c <= 'z') || ('A' <= c && c <= 'Z')
}

/// A character that can start an identifier.
pub open spec fn is_ident_start(c: char) -> bool {
    is_alpha(c) || c == '_'
}

/// A character that can continue an identifier.
pub open spec fn is_ident_char(c: char) -> bool {
    is_alpha(c) || is_digit(c) || c == '_' || c == '/'
}

/// A character of a numeric literal after its first.
pub open spec fn is_num_char(c: char) -> bool {
    is_digit(c) || c == '.' || c == 'e' || c == 'E' || c == '-' || c == '+'
}

/// The first position at or after `i` that holds no whitespace.
pub open spec fn skip_ws(s: Seq<char>, i: int) -> int
    decreases s.len() - i,
{
    if 0 <= i < s.len() && is_ws(s[i]) {
        skip_ws(s, i + 1)
    } else {
        i
    }
}

/// The end of the identifier characters from `i` on.
pub open spec fn ident_end(s: Seq<char>, i: int) -> int
    decreases s.len() - i,
{
    if 0 <= i < s.len() && is_ident_char(s[i]) {
        ident_end(s, i + 1)
    } else {
        i
    }
}

/// The end of the numeric-literal characters from `i` on.
pub open spec fn num_end(s: Seq<char>, i: int) -> int
    decreases s.len() - i,
{
    if 0 <= i < s.len() && is_num_char(s[i]) {
        num_end(s, i + 1)
    } else {
        i
    }
}

/// The end of the digits from `i` on.
pub open spec fn digits_end(s: Seq<char>, i: int) -> int
    decreases s.len() - i,
{
    if 0 <= i < s.len() && is_digit(s[i]) {
        digits_end(s, i + 1)
    } else {
        i
    }
}

/// Reads the rest of a string literal from `i` (after the opening quote),
/// `acc` holding what was read: the text and the position after the closing
/// quote, or the error message. `\'`, `\\`, `\n` and `\t` are escapes; a
/// backslash before anything else stays as written.
pub open spec fn spec_read_string(s: Seq<char>, i: int, acc: Seq<char>) -> Result<(Seq<char>, int), Seq<char>>
    decreases s.len() - i,
{
    if i < 0 || i >= s.len() {
        Err("unterminated string literal"@)
    } else if s[i] == '\'' {
        Ok((acc, i + 1))
    } else if s[i] == '\\' {
        if i + 1 >= s.len() {
            Err("unexpected end of string escape"@)
        } else {
            let c = s[i + 1];
            let add = if c == '\'' {
                seq!['\'']
            } else if c == '\\' {
                seq!['\\']
            } else if c == 'n' {
                seq!['\n']
            } else if c == 't' {
                seq!['\t']
            } else {
                seq!['\\', c]
            };
            spec_read_string(s, i + 2, acc + add)
        }
    } else {
        spec_read_string(s, i + 1, acc.push(s[i]))
    }
}

/// The decimal value of the digits `d[i..]` appended to `acc`, if it stays
/// within `max` at every step and every character is a digit.
pub open spec fn spec_dec_accumulate(d: Seq<char>, i: int, acc: nat, max: nat) -> Option<nat>
    decreases d.len() - i,
{
    if i < 0 || i >= d.len() {
        Some(acc)
    } else if !is_digit(d[i]) {
        None
    } else {
        let x = (d[i] as int - '0' as int) as nat;
        if acc * 10 + x > max {
            None
        } else {
            spec_dec_accumulate(d, i + 1, acc * 10 + x, max)
        }
    }
}

/// `raw` read as an `i64` (an optional `-`, then at least one digit), if it
/// is one and fits.
pub open spec fn spec_parse_i64(raw: Seq<char>) -> Option<i64> {
    if raw.len() > 0 && raw[0] == '-' {
        if raw.len() == 1 {
            None
        } else {
            match spec_dec_accumulate(raw, 1, 0, 0x8000_0000_0000_0000) {
                Some(n) => Some((-(n as int)) as i64),
                None => None,
            }
        }
    } else if raw.len() == 0 {
        None
    } else {
        match spec_dec_accumulate(raw, 0, 0, 0x7fff_ffff_ffff_ffff) {
            Some(n) => Some(n as i64),
            None => None,
        }
    }
}

/// Whether `raw` is a decimal floating-point literal: an optional `-`, at
/// least one digit, optionally a point and more digits, optionally an
/// exponent (`e` or `E`, an optional sign, at least one digit).
pub open spec fn spec_float_ok(raw: Seq<char>) -> bool {
    let a: int = if raw.len() > 0 && raw[0] == '-' {
        1
    } else {
        0
    };
    let b = digits_end(raw, a);
    let c = if b < raw.len() && raw[b] == '.' {
        digits_end(raw, b + 1)
    } else {
        b
    };
    &&& b > a
    &&& (c == raw.len() || ((raw[c] == 'e' || raw[c] == 'E') && {
        let d = if c + 1 < raw.len() && (raw[c + 1] == '+' || raw[c + 1] == '-') {
            c + 2
        } else {
            c + 1
        };
        digits_end(raw, d) > d && digits_end(raw, d) == raw.len()
    }))
}

/// Whether `raw` holds a point or an exponent mark.
pub open spec fn has_float_mark(raw: Seq<char>) -> bool {
    exists|k: int| 0 <= k < raw.len() && (#[trigger] raw[k] == '.' || raw[k] == 'e' || raw[k] == 'E')
}

/// Reads the numeric literal starting at `st`: the token and the position
/// after it, or the error message.
pub open spec fn spec_read_number(s: Seq<char>, st: int) -> Result<(TokenView, int), Seq<char>> {
    let e = num_end(s, st + 1);
    let raw = s.subrange(st, e);
    if has_float_mark(raw) {
        if spec_float_ok(raw) {
            Ok((TokenView::Float(raw), e))
        } else {
            Err("invalid float literal: "@ + raw)
        }
    } else {
        match spec_parse_i64(raw) {
            Some(n) => Ok((TokenView::Int(n), e)),
            None => Err("invalid integer literal: "@ + raw),
        }
    }
}

/// Whether the identifier at `i` (if any) spells `kw` in any case; the
/// position after it when it does.
pub open spec fn spec_word_is(s: Seq<char>, i: int, kw: Seq<char>) -> Option<int> {
    if 0 <= i < s.len() && is_ident_start(s[i]) && upper(s.subrange(i, ident_end(s, i + 1))) == kw {
        Some(ident_end(s, i + 1))
    } else {
        None
    }
}

/// The character a byte value stands for on its own (its code point).
pub open spec fn latin1(b: u32) -> char {
    b as char
}

/// The first byte of the UTF-8 encoding of `c`, as a character.
pub open spec fn first_byte_char(c: char) -> char {
    let n = c as u32;
    if n < 0x80 {
        c
    } else if n < 0x800 {
        latin1(0xC0 | (n >> 6))
    } else if n < 0x10000 {
        latin1(0xE0 | (n >> 12))
    } else {
        latin1(0xF0 | (n >> 18))
    }
}

/// The token after the identifier `w` that ends at `k`, with the position
/// after it: `EFFECTIVE AT`, `AS OF` and `ORDER BY` are read as one token
/// (the second word is optional), other keywords by `spec_keyword`, other
/// words are identifiers.
pub open spec fn spec_word_token(s: Seq<char>, w: Seq<char>, k: int) -> (TokenView, int) {
    let u = upper(w);
    let k2 = skip_ws(s, k);
    if u == "EFFECTIVE"@ {
        match spec_word_is(s, k2, "AT"@) {
            Some(e) => (TokenView::EffectiveAt, e),
            None => (TokenView::EffectiveAt, k2),
        }
    } else if u == "AS"@ {
        match spec_word_is(s, k2, "OF"@) {
            Some(e) => (TokenView::AsOf, e),
            None => (TokenView::AsOf, k2),
        }
    } else if u == "ORDER"@ {
        match spec_word_is(s, k2, "BY"@) {
            Some(e) => (TokenView::Order, e),
            None => (TokenView::Order, k2),
        }
    } else {
        match spec_keyword(w) {
            Some(t) => (t, k),
            None => (TokenView::Ident(w), k),
        }
    }
}

/// The token at `i` (after whitespace) and the position after it, or the
/// error message.
pub open spec fn spec_next_token(s: Seq<char>, i: int) -> Result<(TokenView, int), Seq<char>> {
    let j = skip_ws(s, i);
    if j < 0 || j >= s.len() {
        Ok((TokenView::Eof, j))
    } else {
        let c = s[j];
        let n = j + 1;
        if c == '\'' {
            match spec_read_string(s, n, Seq::empty()) {
                Ok((t, e)) => Ok((TokenView::Str(t), e)),
                Err(m) => Err(m),
            }
        } else if c == '*' {
            Ok((TokenView::Star, n))
        } else if c == ',' {
            Ok((TokenView::Comma, n))
        } else if c == '.' {
            Ok((TokenView::Dot, n))
        } else if c == '(' {
            Ok((TokenView::LParen, n))
        } else if c == ')' {
            Ok((TokenView::RParen, n))
        } else if c == '=' {
            Ok((TokenView::Eq, n))
        } else if c == '!' {
            if n < s.len() && s[n] == '=' {
                Ok((TokenView::Ne, n + 1))
            } else {
                Err("unexpected '!'"@)
            }
        } else if c == '<' {
            if n < s.len() && s[n] == '=' {
                Ok((TokenView::Le, n + 1))
            } else {
                Ok((TokenView::Lt, n))
            }
        } else if c == '>' {
            if n < s.len() && s[n] == '=' {
                Ok((TokenView::Ge, n + 1))
            } else {
                Ok((TokenView::Gt, n))
            }
        } else if is_digit(c) {
            spec_read_number(s, j)
        } else if c == '-' {
            if n < s.len() && is_digit(s[n]) {
                spec_read_number(s, j)
            } else {
                Err("unexpected '-'"@)
            }
        } else if is_ident_start(c) {
            let k = ident_end(s, n);
            Ok(spec_word_token(s, s.subrange(j, k), k))
        } else {
            Err("unexpected character '"@ + seq![first_byte_char(c)] + "'"@)
        }
    }
}

/// The tokens of `s` from position `i` on, ending with `Eof`, or the error
/// message of the first token that cannot be read.
pub open spec fn spec_tokenize_from(s: Seq<char>, i: int) -> Result<Seq<TokenView>, Seq<char>>
    decreases s.len() - i,
{
    match spec_next_token(s, i) {
        Err(m) => Err(m),
        Ok((t, j)) => if t is Eof || j <= i || j > s.len() {
            Ok(seq![t])
        } else {
            match spec_tokenize_from(s, j) {
                Ok(rest) => Ok(seq![t] + rest),
                Err(m) => Err(m),
            }
        },
    }
}

/// `r` with `prefix` in front of its tokens.
pub open spec fn prepend(prefix: Seq<TokenView>, r: Result<Seq<TokenView>, Seq<char>>) -> Result<Seq<TokenView>, Seq<char>> {
    match r {
        Ok(ts) => Ok(prefix + ts),
        Err(m) => Err(m),
    }
}

/// The tokens of `s`, ending with `Eof`, or the error message.
pub open spec fn spec_tokenize(s: Seq<char>) -> Result<Seq<TokenView>, Seq<char>> {
    spec_tokenize_from(s, 0)
}

/// The lexer over one input.
pub struct Lexer {
    input: Vec<char>,
    pos: usize,
}

impl Lexer {
    /// A lexer never stands past the end of its input.
    #[verifier::type_invariant]
    spec fn position_in_text(self) -> bool {
        self.pos <= self.input@.len()
    }

    /// The text being read.
    pub closed spec fn text(&self) -> Seq<char> {
        self.input@
    }

    /// The position reached.
    pub closed spec fn position(&self) -> nat {
        self.pos as nat
    }

    /// A lexer at the start of `input`.
    pub fn new(input: &str) -> (l: Lexer)
        ensures
            l.text() == input@,
            l.position() == 0,
    {
        Lexer { input: chars_of(input), pos: 0 }
    }

    /// Splits the rest of the input, from the position reached, into tokens,
    /// the last being `Eof`; the first token that cannot be read gives
    /// `Error::Query` with its message.
    pub fn tokenize(self) -> (r: Result<Vec<Token>, Error>)
        ensures
            match spec_tokenize_from(self.text(), self.position() as int) {
                Ok(ts) => r matches Ok(v) && v@.map_values(|t: Token| t@) == ts,
                Err(m) => r matches Err(Error::Query(x)) && x@ == m,
            },
            r matches Ok(v) ==> v@.len() > 0 && v@.last() is Eof,
    {
        proof {
            use_type_invariant(&self);
        }
        let ghost s = self.input@;
        let ghost p_start = self.pos as int;
        let mut lx = self;
        let mut tokens: Vec<Token> = Vec::new();
        proof {
            if let Ok(ts) = spec_tokenize_from(s, p_start) {
                assert(tokens@.map_values(|t: Token| t@) + ts =~= ts);
            }
        }
        loop
            invariant
                lx.input@ == s,
                s == self.text(),
                lx.pos <= s.len(),
                p_start == self.position(),
                spec_tokenize_from(s, p_start) == prepend(tokens@.map_values(|t: Token| t@), spec_tokenize_from(s, lx.pos as int)),
            decreases s.len() - lx.pos,
        {
            let ghost before = tokens@;
            let ghost p0 = lx.pos as int;
            match lx.next_token() {
                Err(e) => {
                    return Err(e);
                },
                Ok(tok) => {
                    let is_eof = match tok {
                        Token::Eof => true,
                        _ => false,
                    };
                    let ghost tv = tok@;
                    tokens.push(tok);
                    assert(tokens@.map_values(|t: Token| t@) =~= before.map_values(|t: Token| t@).push(tv));
                    if is_eof {
                        assert(spec_tokenize_from(s, p0) == Ok::<Seq<TokenView>, Seq<char>>(seq![tv]));
                        assert(before.map_values(|t: Token| t@) + seq![tv] =~= tokens@.map_values(|t: Token| t@));
                        return Ok(tokens);
                    }
                    proof {
                        match spec_tokenize_from(s, lx.pos as int) {
                            Ok(ts) => {
                                assert(spec_tokenize_from(s, p0) == Ok::<Seq<TokenView>, Seq<char>>(seq![tv] + ts));
                                assert(before.map_values(|t: Token| t@) + (seq![tv] + ts) =~= tokens@.map_values(|t: Token| t@) + ts);
                            },
                            Err(m) => {
                                assert(spec_tokenize_from(s, p0) == Err::<Seq<TokenView>, Seq<char>>(m));
                            },
                        }
                    }
                },
            }
        }
    }

    /// Reads the token at the current position (after whitespace) and moves
    /// past it; `Error::Query` with the message when none can be read.
    fn next_token(&mut self) -> (r: Result<Token, Error>)
        requires
            old(self).pos <= old(self).input@.len(),
        ensures
            final(self).input@ == old(self).input@,
            final(self).pos <= final(self).input@.len(),
            match spec_next_token(old(self).input@, old(self).pos as int) {
                Ok((t, j)) => r matches Ok(x) && x@ == t && final(self).pos == j && (t !is Eof ==> old(self).pos < j),
                Err(m) => r matches Err(Error::Query(x)) && x@ == m,
            },
    {
        let ghost s = self.input@;
        let j = skip_ws_at(&self.input, self.pos);
        self.pos = j;
        let n = self.input.len();
        if j >= n {
            return Ok(Token::Eof);
        }
        let c = self.input[j];
        let k = j + 1;
        self.pos = k;
        proof {
            reveal_strlit("unexpected '!'");
            reveal_strlit("unexpected '-'");
            reveal_strlit("unexpected character '");
            reveal_strlit("'");
        }
        if c == '\'' {
            match read_string(&self.input, k) {
                Ok((t, e)) => {
                    self.pos = e;
                    Ok(Token::Str(t))
                },
                Err(m) => Err(Error::Query(m)),
            }
        } else if c == '*' {
            Ok(Token::Star)
        } else if c == ',' {
            Ok(Token::Comma)
        } else if c == '.' {
            Ok(Token::Dot)
        } else if c == '(' {
            Ok(Token::LParen)
        } else if c == ')' {
            Ok(Token::RParen)
        } else if c == '=' {
            Ok(Token::Eq)
        } else if c == '!' {
            if k < n && self.input[k] == '=' {
                self.pos = k + 1;
                Ok(Token::Ne)
            } else {
                Err(Error::Query(String::from_str("unexpected '!'")))
            }
        } else if c == '<' {
            if k < n && self.input[k] == '=' {
                self.pos = k + 1;
                Ok(Token::Le)
            } else {
                Ok(Token::Lt)
            }
        } else if c == '>' {
            if k < n && self.input[k] == '=' {
                self.pos = k + 1;
                Ok(Token::Ge)
            } else {
                Ok(Token::Gt)
            }
        } else if '0' <= c && c <= '9' {
            match read_number(&self.input, j) {
                Ok((t, e)) => {
                    self.pos = e;
                    Ok(t)
                },
                Err(m) => Err(Error::Query(m)),
            }
        } else if c == '-' {
            if k < n && '0' <= self.input[k] && self.input[k] <= '9' {
                match read_number(&self.input, j) {
                    Ok((t, e)) => {
                        self.pos = e;
                        Ok(t)
                    },
                    Err(m) => Err(Error::Query(m)),
                }
            } else {
                Err(Error::Query(String::from_str("unexpected '-'")))
            }
        } else if ('a' <= c && c <= 'z') || ('A' <= c && c <= 'Z') || c == '_' {
            let e = ident_end_at(&self.input, k);
            let (t, p) = word_token(&self.input, j, e);
            self.pos = p;
            Ok(t)
        } else {
            let mut m = String::from_str("unexpected character '");
            let shown = first_byte_of(c);
            let mut one: Vec<char> = Vec::new();
            one.push(shown);
            let os = string_from_chars(&one);
            m.append(os.as_str());
            m.append("'");
            Err(Error::Query(m))
        }
    }
}

/// `skip_ws` in executable form.
fn skip_ws_at(v: &Vec<char>, i: usize) -> (j: usize)
    requires
        i <= v@.len(),
    ensures
        j == skip_ws(v@, i as int),
        i <= j <= v@.len(),
{
    let mut j = i;
    while j < v.len() && (v[j] == ' ' || v[j] == '\t' || v[j] == '\n' || v[j] == '\r')
        invariant
            i <= j <= v@.len(),
            skip_ws(v@, i as int) == skip_ws(v@, j as int),
        decreases v@.len() - j,
    {
        j = j + 1;
    }
    j
}

/// `ident_end` in executable form.
fn ident_end_at(v: &Vec<char>, i: usize) -> (j: usize)
    requires
        i <= v@.len(),
    ensures
        j == ident_end(v@, i as int),
        i <= j <= v@.len(),
{
    let mut j = i;
    while j < v.len() && (('a' <= v[j] && v[j] <= 'z') || ('A' <= v[j] && v[j] <= 'Z') || ('0' <= v[j]
        && v[j] <= '9') || v[j] == '_' || v[j] == '/')
        invariant
            i <= j <= v@.len(),
            ident_end(v@, i as int) == ident_end(v@, j as int),
        decreases v@.len() - j,
    {
        j = j + 1;
    }
    j
}

/// `num_end` in executable form.
fn num_end_at(v: &Vec<char>, i: usize) -> (j: usize)
    requires
        i <= v@.len(),
    ensures
        j == num_end(v@, i as int),
        i <= j <= v@.len(),
{
    let mut j = i;
    while j < v.len() && (('0' <= v[j] && v[j] <= '9') || v[j] == '.' || v[j] == 'e' || v[j] == 'E'
        || v[j] == '-' || v[j] == '+')
        invariant
            i <= j <= v@.len(),
            num_end(v@, i as int) == num_end(v@, j as int),
        decreases v@.len() - j,
    {
        j = j + 1;
    }
    j
}

/// `digits_end` in executable form.
fn digits_end_at(v: &Vec<char>, i: usize) -> (j: usize)
    requires
        i <= v@.len(),
    ensures
        j == digits_end(v@, i as int),
        i <= j <= v@.len(),
{
    let mut j = i;
    while j < v.len() && ('0' <= v[j] && v[j] <= '9')
        invariant
            i <= j <= v@.len(),
            digits_end(v@, i as int) == digits_end(v@, j as int),
        decreases v@.len() - j,
    {
        j = j + 1;
    }
    j
}


/// Reads the rest of a string literal from `i`: `spec_read_string`.
fn read_string(v: &Vec<char>, i: usize) -> (r: Result<(String, usize), String>)
    requires
        i <= v@.len(),
    ensures
        match spec_read_string(v@, i as int, Seq::empty()) {
            Ok((t, e)) => r matches Ok((x, p)) && x@ == t && p == e && p <= v@.len() && i < p,
            Err(m) => r matches Err(x) && x@ == m,
        },
{
    let mut acc: Vec<char> = Vec::new();
    let mut k = i;
    let n = v.len();
    proof {
        reveal_strlit("unterminated string literal");
        reveal_strlit("unexpected end of string escape");
    }
    while k < n
        invariant
            i <= k <= n,
            n == v@.len(),
            spec_read_string(v@, i as int, Seq::empty()) == spec_read_string(v@, k as int, acc@),
        decreases n - k,
    {
        let c = v[k];
        if c == '\'' {
            let t = string_from_chars(&acc);
            return Ok((t, k + 1));
        } else if c == '\\' {
            if k + 1 >= n {
                return Err(String::from_str("unexpected end of string escape"));
            }
            let d = v[k + 1];
            let ghost before = acc@;
            if d == '\'' {
                acc.push('\'');
                assert(acc@ =~= before + seq!['\'']);
            } else if d == '\\' {
                acc.push('\\');
                assert(acc@ =~= before + seq!['\\']);
            } else if d == 'n' {
                acc.push('\n');
                assert(acc@ =~= before + seq!['\n']);
            } else if d == 't' {
                acc.push('\t');
                assert(acc@ =~= before + seq!['\t']);
            } else {
                acc.push('\\');
                acc.push(d);
                assert(acc@ =~= before + seq!['\\', d]);
            }
            k = k + 2;
        } else {
            acc.push(c);
            k = k + 1;
        }
    }
    Err(String::from_str("unterminated string literal"))
}

/// Parses the decimal digits `d[i..]` after `acc`: `spec_dec_accumulate`.
fn dec_accumulate(d: &Vec<char>, i: usize, max: u64) -> (r: Option<u64>)
    requires
        i <= d@.len(),
    ensures
        match spec_dec_accumulate(d@, i as int, 0, max as nat) {
            Some(n) => r == Some(n as u64),
            None => r is None,
        },
{
    let mut acc: u64 = 0;
    let mut k = i;
    while k < d.len()
        invariant
            i <= k <= d@.len(),
            acc <= max,
            spec_dec_accumulate(d@, i as int, 0, max as nat) == spec_dec_accumulate(d@, k as int, acc as nat, max as nat),
        decreases d@.len() - k,
    {
        let c = d[k];
        if !('0' <= c && c <= '9') {
            return None;
        }
        let x = (c as u32 - 48) as u64;
        if x > max || acc > (max - x) / 10 {
            assert(acc * 10 + x > max) by (nonlinear_arith)
                requires
                    x > max || acc > (max - x) / 10,
                    x < 10,
            ;
            return None;
        }
        assert(acc * 10 + x <= max) by (nonlinear_arith)
            requires
                acc <= (max - x) / 10,
                x <= max,
        ;
        acc = acc * 10 + x;
        k = k + 1;
    }
    proof {
        lemma_dec_accumulate_bounded(d@, i as int, 0, max as nat);
    }
    Some(acc)
}

proof fn lemma_dec_accumulate_bounded(d: Seq<char>, i: int, acc: nat, max: nat)
    requires
        acc <= max,
    ensures
        spec_dec_accumulate(d, i, acc, max) matches Some(n) ==> n <= max,
    decreases d.len() - i,
{
    if 0 <= i < d.len() && is_digit(d[i]) {
        let x = (d[i] as int - '0' as int) as nat;
        if acc * 10 + x <= max {
            lemma_dec_accumulate_bounded(d, i + 1, acc * 10 + x, max);
        }
    }
}

/// `spec_parse_i64` in executable form.
fn parse_i64(raw: &Vec<char>) -> (r: Option<i64>)
    ensures
        r == spec_parse_i64(raw@),
{
    if raw.len() > 0 && raw[0] == '-' {
        if raw.len() == 1 {
            return None;
        }
        match dec_accumulate(raw, 1, 0x8000_0000_0000_0000) {
            Some(n) => {
                proof {
                    lemma_dec_accumulate_bounded(raw@, 1, 0, 0x8000_0000_0000_0000);
                }
                if n == 0x8000_0000_0000_0000 {
                    Some(i64::MIN)
                } else {
                    Some(-(n as i64))
                }
            },
            None => None,
        }
    } else if raw.len() == 0 {
        None
    } else {
        match dec_accumulate(raw, 0, 0x7fff_ffff_ffff_ffff) {
            Some(n) => {
                proof {
                    lemma_dec_accumulate_bounded(raw@, 0, 0, 0x7fff_ffff_ffff_ffff);
                }
                Some(n as i64)
            },
            None => None,
        }
    }
}

/// `spec_float_ok` in executable form.
fn float_ok(raw: &Vec<char>) -> (b: bool)
    ensures
        b == spec_float_ok(raw@),
{
    let n = raw.len();
    let a: usize = if n > 0 && raw[0] == '-' {
        1
    } else {
        0
    };
    let b = digits_end_at(raw, a);
    if b <= a {
        return false;
    }
    let c = if b < n && raw[b] == '.' {
        digits_end_at(raw, b + 1)
    } else {
        b
    };
    if c == n {
        return true;
    }
    if raw[c] != 'e' && raw[c] != 'E' {
        return false;
    }
    let d = if c + 1 < n && (raw[c + 1] == '+' || raw[c + 1] == '-') {
        c + 2
    } else {
        c + 1
    };
    let e = digits_end_at(raw, d);
    e > d && e == n
}

/// Reads the numeric literal starting at `st`: `spec_read_number`.
fn read_number(v: &Vec<char>, st: usize) -> (r: Result<(Token, usize), String>)
    requires
        st < v@.len(),
    ensures
        match spec_read_number(v@, st as int) {
            Ok((t, e)) => r matches Ok((x, p)) && x@ == t && p == e && st < p <= v@.len(),
            Err(m) => r matches Err(x) && x@ == m,
        },
{
    let n = v.len();
    let e = num_end_at(v, st + 1);
    let mut raw: Vec<char> = Vec::new();
    let mut k = st;
    let mut mark = false;
    while k < e
        invariant
            st <= k <= e,
            e <= v@.len(),
            raw@ == v@.subrange(st as int, k as int),
            mark == has_float_mark(raw@),
        decreases e - k,
    {
        let c = v[k];
        let ghost before = raw@;
        raw.push(c);
        assert(raw@ =~= v@.subrange(st as int, k + 1));
        if c == '.' || c == 'e' || c == 'E' {
            mark = true;
            assert(raw@[raw@.len() - 1] == c);
        } else {
            assert(has_float_mark(raw@) == has_float_mark(before)) by {
                if has_float_mark(raw@) {
                    let q = choose|q: int| 0 <= q < raw@.len() && (#[trigger] raw@[q] == '.' || raw@[q] == 'e' || raw@[q] == 'E');
                    assert(q < before.len());
                    assert(before[q] == raw@[q]);
                }
                if has_float_mark(before) {
                    let q = choose|q: int| 0 <= q < before.len() && (#[trigger] before[q] == '.' || before[q] == 'e' || before[q] == 'E');
                    assert(raw@[q] == before[q]);
                }
            }
        }
        k = k + 1;
    }
    let text = string_from_chars(&raw);
    proof {
        reveal_strlit("invalid float literal: ");
        reveal_strlit("invalid integer literal: ");
    }
    if mark {
        if float_ok(&raw) {
            Ok((Token::Float(text), e))
        } else {
            let mut m = String::from_str("invalid float literal: ");
            m.append(text.as_str());
            Err(m)
        }
    } else {
        match parse_i64(&raw) {
            Some(n) => Ok((Token::Int(n), e)),
            None => {
                let mut m = String::from_str("invalid integer literal: ");
                m.append(text.as_str());
                Err(m)
            },
        }
    }
}

/// The uppercase of `v[i..j]` equals `kw`.
fn upper_is(v: &Vec<char>, i: usize, j: usize, kw: &str) -> (b: bool)
    requires
        i <= j <= v@.len(),
    ensures
        b == (upper(v@.subrange(i as int, j as int)) == kw@),
{
    let mut w: Vec<char> = Vec::new();
    let mut k = i;
    while k < j
        invariant
            i <= k <= j,
            j <= v@.len(),
            w@ == v@.subrange(i as int, k as int),
        decreases j - k,
    {
        w.push(v[k]);
        assert(w@ =~= v@.subrange(i as int, k + 1));
        k = k + 1;
    }
    let ws = string_from_chars(&w);
    let u = super::token::to_upper(ws.as_str());
    crate::text::str_eq(u.as_str(), kw)
}

/// `spec_word_is` in executable form.
fn word_is(v: &Vec<char>, i: usize, kw: &str) -> (r: Option<usize>)
    requires
        i <= v@.len(),
    ensures
        match spec_word_is(v@, i as int, kw@) {
            Some(e) => r matches Some(x) && x == e && e <= v@.len(),
            None => r is None,
        },
        r matches Some(e) ==> i < e,
{
    if i < v.len() && (('a' <= v[i] && v[i] <= 'z') || ('A' <= v[i] && v[i] <= 'Z') || v[i] == '_') {
        let e = ident_end_at(v, i + 1);
        if upper_is(v, i, e, kw) {
            return Some(e);
        }
    }
    None
}

/// `spec_word_token` in executable form, for the identifier `v[j..k]`.
fn word_token(v: &Vec<char>, j: usize, k: usize) -> (r: (Token, usize))
    requires
        j < k <= v@.len(),
    ensures
        r.0@ == spec_word_token(v@, v@.subrange(j as int, k as int), k as int).0,
        r.1 == spec_word_token(v@, v@.subrange(j as int, k as int), k as int).1,
        j < r.1 <= v@.len(),
{
    let k2 = skip_ws_at(v, k);
    proof {
        reveal_strlit("EFFECTIVE");
        reveal_strlit("AT");
        reveal_strlit("AS");
        reveal_strlit("OF");
        reveal_strlit("ORDER");
        reveal_strlit("BY");
    }
    let ghost w = v@.subrange(j as int, k as int);
    if upper_is(v, j, k, "EFFECTIVE") {
        assert(upper(w) == "EFFECTIVE"@);
        let r = match word_is(v, k2, "AT") {
            Some(e) => (Token::EffectiveAt, e),
            None => (Token::EffectiveAt, k2),
        };
        r
    } else if upper_is(v, j, k, "AS") {
        match word_is(v, k2, "OF") {
            Some(e) => (Token::AsOf, e),
            None => (Token::AsOf, k2),
        }
    } else if upper_is(v, j, k, "ORDER") {
        match word_is(v, k2, "BY") {
            Some(e) => (Token::Order, e),
            None => (Token::Order, k2),
        }
    } else {
        let mut wv: Vec<char> = Vec::new();
        let mut q = j;
        while q < k
            invariant
                j <= q <= k,
                k <= v@.len(),
                wv@ == v@.subrange(j as int, q as int),
            decreases k - q,
        {
            wv.push(v[q]);
            assert(wv@ =~= v@.subrange(j as int, q + 1));
            q = q + 1;
        }
        let ws = string_from_chars(&wv);
        assert(upper(v@.subrange(j as int, k as int)) != "EFFECTIVE"@);
        assert(upper(v@.subrange(j as int, k as int)) != "AS"@);
        assert(upper(v@.subrange(j as int, k as int)) != "ORDER"@);
        assert(ws@ == v@.subrange(j as int, k as int));
        match Token::keyword(ws.as_str()) {
            Some(t) => (t, k),
            None => (Token::Ident(ws), k),
        }
    }
}

/// `first_byte_char` in executable form.
fn first_byte_of(c: char) -> (r: char)
    ensures
        r == first_byte_char(c),
{
    let n = c as u32;
    if n < 0x80 {
        c
    } else if n < 0x800 {
        let b = 0xC0 | (n >> 6);
        assert(b < 256) by (bit_vector)
            requires
                n < 0x800,
                b == 0xC0 | (n >> 6),
        ;
        (b as u8) as char
    } else if n < 0x10000 {
        let b = 0xE0 | (n >> 12);
        assert(b < 256) by (bit_vector)
            requires
                n < 0x10000,
                b == 0xE0 | (n >> 12),
        ;
        (b as u8) as char
    } else {
        let b = 0xF0 | (n >> 18);
        assert(b < 256) by (bit_vector)
            requires
                n <= 0x10FFFF,
                b == 0xF0 | (n >> 18),
        ;
        (b as u8) as char
    }
}

} // verus!
