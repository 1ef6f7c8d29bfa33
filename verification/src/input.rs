//! Reading a fact value written as plain text, as on a command line: `null`,
//! `true` and `false`, a decimal integer, a floating-point number, a JSON
//! object or array, or else the text itself.
use vstd::prelude::*;

use crate::fact::{opt_str_view, Value, ValueView};
use crate::text::chars_of;

verus! {

/// Whether every character of `s` is an ASCII digit.
pub open spec fn all_digits(s: Seq<char>) -> bool {
    forall|i: int| 0 <= i < s.len() ==> '0' <= #[trigger] s[i] <= '9'
}

/// The number the ASCII digits `s` write in base ten.
pub open spec fn digits_value(s: Seq<char>) -> nat
    decreases s.len(),
{
    if s.len() == 0 {
        0
    } else {
        digits_value(s.drop_last()) * 10 + ((s.last() as u32) - ('0' as u32)) as nat
    }
}

/// What `i64::from_str` gives: an optional `+` or `-`, then one or more ASCII
/// digits, whose value must fit in an `i64`.
pub open spec fn spec_parse_i64(s: Seq<char>) -> Option<i64> {
    let neg = s.len() > 0 && s[0] == '-';
    let body = if s.len() > 0 && (s[0] == '-' || s[0] == '+') {
        s.drop_first()
    } else {
        s
    };
    let v: int = if neg {
        -digits_value(body)
    } else {
        digits_value(body) as int
    };
    if body.len() == 0 || !all_digits(body) || v < i64::MIN || v > i64::MAX {
        None
    } else {
        Some(v as i64)
    }
}

proof fn lemma_digits_value_grows(s: Seq<char>, k: int)
    requires
        0 <= k <= s.len(),
        all_digits(s),
    ensures
        digits_value(s.take(k)) <= digits_value(s),
    decreases s.len(),
{
    if k < s.len() {
        assert(all_digits(s.drop_last()));
        lemma_digits_value_grows(s.drop_last(), k);
        assert(s.drop_last().take(k) =~= s.take(k));
    } else {
        assert(s.take(k) =~= s);
    }
}

/// Parses a decimal `i64` the way `i64::from_str` does: `spec_parse_i64`.
pub fn parse_i64(s: &str) -> (r: Option<i64>)
    ensures
        r == spec_parse_i64(s@),
{
    let v = chars_of(s);
    let n = v.len();
    let neg = n > 0 && v[0] == '-';
    let start: usize = if n > 0 && (v[0] == '-' || v[0] == '+') {
        1
    } else {
        0
    };
    let ghost body = s@.subrange(start as int, n as int);
    proof {
        if start == 1 {
            assert(body =~= s@.drop_first());
        } else {
            assert(body =~= s@);
        }
    }
    if start == n {
        return None;
    }
    let limit: u64 = if neg {
        9223372036854775808
    } else {
        9223372036854775807
    };
    let mut acc: u64 = 0;
    let mut i: usize = start;
    while i < n
        invariant
            start <= i <= n,
            n == v@.len(),
            v@ == s@,
            body == s@.subrange(start as int, n as int),
            neg == (s@.len() > 0 && s@[0] == '-'),
            body == (if s@.len() > 0 && (s@[0] == '-' || s@[0] == '+') {
                s@.drop_first()
            } else {
                s@
            }),
            acc as nat == digits_value(body.take(i - start)),
            acc <= limit,
            all_digits(body.take(i - start)),
            limit == (if neg {
                9223372036854775808u64
            } else {
                9223372036854775807u64
            }),
        decreases n - i,
    {
        let c = v[i];
        let ghost k = i - start;
        assert(body[k as int] == c);
        if !('0' <= c && c <= '9') {
            assert(!all_digits(body));
            return None;
        }
        let d = (c as u32 - '0' as u32) as u64;
        let next: u128 = acc as u128 * 10 + d as u128;
        assert(body.take(k + 1).drop_last() =~= body.take(k as int));
        assert(body.take(k + 1).last() == c);
        assert(next == digits_value(body.take(k + 1)));
        if next > limit as u128 {
            proof {
                if all_digits(body) {
                    lemma_digits_value_grows(body, k + 1);
                }
            }
            return None;
        }
        acc = next as u64;
        i = i + 1;
        assert(all_digits(body.take(i - start))) by {
            assert forall|j: int| 0 <= j < body.take(i - start).len() implies '0' <= #[trigger] body.take(
                i - start,
            )[j] <= '9' by {
                if j < k {
                    assert(body.take(i - start)[j] == body.take(k as int)[j]);
                }
            }
        }
    }
    assert(body.take(n - start) =~= body);
    if neg {
        if acc == 9223372036854775808 {
            Some(-9223372036854775807i64 - 1)
        } else {
            Some(-(acc as i64))
        }
    } else {
        Some(acc as i64)
    }
}

/// The compact JSON text of `s` when `s` is a JSON document (what
/// `serde_json` reads into a `serde_json::Value` and writes back).
pub uninterp spec fn json_compact_of(s: Seq<char>) -> Option<Seq<char>>;

/// Reads `s` as a JSON document with `serde_json::from_str` and writes it
/// back compactly with `to_string`; `None` when it does not read. Claimed
/// only that the result is `json_compact_of(s)`, which depends on `s` alone.
#[verifier::external_body]
fn json_compact(s: &str) -> (r: Option<String>)
    ensures
        opt_str_view(r) == json_compact_of(s@),
{
    serde_json::from_str::<serde_json::Value>(s).ok().map(|j| j.to_string())
}

/// The value a text stands for, given `float_bits`, the binary64 bits that
/// reading `s` as a floating-point number gives (`None` when it does not
/// read): `null`, `true`, `false`; else an integer; else a float; else, for
/// a text that starts with `{` or `[` and reads as JSON, the document; else
/// the text.
pub open spec fn spec_value_from_text(s: Seq<char>, float_bits: Option<u64>, json: Option<Seq<char>>) -> ValueView {
    if s == "null"@ {
        ValueView::Null
    } else if s == "true"@ {
        ValueView::Bool(true)
    } else if s == "false"@ {
        ValueView::Bool(false)
    } else if spec_parse_i64(s) is Some {
        ValueView::Int(spec_parse_i64(s)->0)
    } else if float_bits is Some {
        ValueView::Float(float_bits->0)
    } else if s.len() > 0 && (s[0] == '{' || s[0] == '[') && json is Some {
        ValueView::Json(json->0)
    } else {
        ValueView::Str(s)
    }
}

/// Whether `s` starts with `{` or `[`.
fn starts_json(s: &str) -> (b: bool)
    ensures
        b == (s@.len() > 0 && (s@[0] == '{' || s@[0] == '[')),
{
    let v = chars_of(s);
    v.len() > 0 && (v[0] == '{' || v[0] == '[')
}

/// The value a text stands for: `spec_value_from_text`, with the JSON
/// reading of `json_compact`.
pub fn parse_value(s: &str, float_bits: Option<u64>) -> (v: Value)
    ensures
        v@ == spec_value_from_text(s@, float_bits, json_compact_of(s@)),
{
    proof {
        reveal_strlit("null");
        reveal_strlit("true");
        reveal_strlit("false");
    }
    if crate::text::str_eq(s, "null") {
        return Value::Null;
    }
    if crate::text::str_eq(s, "true") {
        return Value::Bool(true);
    }
    if crate::text::str_eq(s, "false") {
        return Value::Bool(false);
    }
    if let Some(n) = parse_i64(s) {
        return Value::Int(n);
    }
    if let Some(b) = float_bits {
        return Value::Float(b);
    }
    if starts_json(s) {
        if let Some(j) = json_compact(s) {
            return Value::Json(j);
        }
    }
    Value::Str(String::from_str(s))
}

} // verus!
