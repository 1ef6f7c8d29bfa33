//! The decisions of the HTTP front end: how an error is answered, how a
//! request is authorised, which events a stream subscriber receives, and the
//! defaults of request parameters.
use vstd::prelude::*;

use crate::error::{spec_is_not_found, spec_message, Error};
use crate::fact::{Fact, FactView};
use crate::text::copy_string;

verus! {

/// The HTTP status and message an error is answered with: 404 for what was
/// not found, 409 for a merge conflict, 422 for a schema violation or a bad
/// valid-time range, 400 for a query error, 500 (with a fixed message) for
/// anything else.
pub open spec fn spec_error_answer(e: Error) -> (u16, Seq<char>) {
    if spec_is_not_found(e) {
        (404, spec_message(e))
    } else {
        match e {
            Error::Conflict(m) => (409, m@),
            Error::SchemaViolation { .. } => (422, spec_message(e)),
            Error::InvalidTimeRange => (422, spec_message(e)),
            Error::Query(m) => (400, m@),
            _ => (500, "internal server error"@),
        }
    }
}

/// How an error is answered: `spec_error_answer`.
pub fn error_answer(e: &Error) -> (r: (u16, String))
    ensures
        r.0 == spec_error_answer(*e).0,
        r.1@ == spec_error_answer(*e).1,
{
    proof {
        reveal_strlit("internal server error");
    }
    if e.is_not_found() {
        return (404, e.to_string());
    }
    match e {
        Error::Conflict(m) => (409, copy_string(m)),
        Error::SchemaViolation { .. } => (422, e.to_string()),
        Error::InvalidTimeRange => (422, e.to_string()),
        Error::Query(m) => (400, copy_string(m)),
        _ => (500, String::from_str("internal server error")),
    }
}

/// Whether a request may pass: without a configured token every request
/// does; with one, the `Authorization` header must be `Bearer ` followed by
/// exactly the token.
pub open spec fn spec_authorized(token: Option<Seq<char>>, header: Option<Seq<char>>) -> bool {
    match token {
        None => true,
        Some(t) => header == Some("Bearer "@ + t),
    }
}

/// Whether a request may pass: `spec_authorized`.
pub fn authorized(token: Option<&str>, header: Option<&str>) -> (b: bool)
    ensures
        b == spec_authorized(
            match token {
                Some(t) => Some(t@),
                None => None,
            },
            match header {
                Some(h) => Some(h@),
                None => None,
            },
        ),
{
    match token {
        None => true,
        Some(t) => match header {
            None => false,
            Some(h) => {
                let expected = crate::text::concat("Bearer ", t);
                crate::text::str_eq(h, expected.as_str())
            },
        },
    }
}

/// The status of a write's answer: 201 when a fact was written, 200 when the
/// idempotency key had been seen.
pub fn record_status(was_duplicate: bool) -> (s: u16)
    ensures
        s == (if was_duplicate {
            200u16
        } else {
            201u16
        }),
{
    if was_duplicate {
        200
    } else {
        201
    }
}

/// How many transactions a listing returns: 50 unless asked, never more than
/// 500.
pub fn tx_list_limit(limit: Option<usize>) -> (n: usize)
    ensures
        n == (match limit {
            Some(l) => if l < 500 {
                l
            } else {
                500
            },
            None => 50,
        }),
{
    match limit {
        Some(l) => if l < 500 {
            l
        } else {
            500
        },
        None => 50,
    }
}

/// What a stream subscriber asked for: events of a namespace, branch,
/// entity or attribute (each optional).
#[derive(Debug)]
pub struct StreamQuery {
    pub ns: Option<String>,
    pub branch: Option<String>,
    pub entity: Option<String>,
    pub attr: Option<String>,
}

/// The kind of a fact event.
#[derive(Debug, Clone, Copy, PartialEq, Eq, Structural)]
pub enum EventKind {
    Recorded,
    Retracted,
}

/// An event a stream subscriber receives.
#[derive(Debug)]
pub struct FactEvent {
    pub kind: EventKind,
    pub fact: Fact,
}

/// Whether a fact event reaches a subscriber: each filter given must equal
/// the fact's namespace, branch, entity or attribute.
pub open spec fn spec_event_matches(
    ns: Option<Seq<char>>,
    branch: Option<Seq<char>>,
    entity: Option<Seq<char>>,
    attr: Option<Seq<char>>,
    f: FactView,
) -> bool {
    &&& (ns matches Some(n) ==> n == f.namespace)
    &&& (branch matches Some(b) ==> b == f.branch)
    &&& (entity matches Some(e) ==> e == f.entity)
    &&& (attr matches Some(a) ==> a == f.attr)
}

/// Whether `f` matches the optional filter `want`.
fn field_matches(want: &Option<String>, have: &String) -> (b: bool)
    ensures
        b == (crate::fact::opt_str_view(*want) matches Some(w) ==> w == have@),
{
    match want {
        None => true,
        Some(w) => crate::text::str_eq(w.as_str(), have.as_str()),
    }
}

/// Whether a fact event reaches a subscriber: `spec_event_matches`.
pub fn event_matches(q: &StreamQuery, f: &Fact) -> (b: bool)
    ensures
        b == spec_event_matches(
            crate::fact::opt_str_view(q.ns),
            crate::fact::opt_str_view(q.branch),
            crate::fact::opt_str_view(q.entity),
            crate::fact::opt_str_view(q.attr),
            f@,
        ),
{
    field_matches(&q.ns, &f.namespace.0) && field_matches(&q.branch, &f.branch.0) && field_matches(
        &q.entity,
        &f.entity.0,
    ) && field_matches(&q.attr, &f.attr.0)
}


/// The text a keep-alive message holds somewhere: `"ping"`, quotes included.
pub open spec fn ping_word() -> Seq<char> {
    seq!['"', 'p', 'i', 'n', 'g', '"']
}

/// Whether `s` holds `w` at position `i`.
pub open spec fn occurs_at(s: Seq<char>, w: Seq<char>, i: int) -> bool {
    0 <= i && i + w.len() <= s.len() && s.subrange(i, i + w.len()) == w
}

/// Whether a text message from a stream subscriber is a keep-alive ping (it
/// holds `"ping"`); a ping is answered with a pong.
pub fn is_ping(text: &str) -> (b: bool)
    ensures
        b == exists|i: int| #[trigger] occurs_at(text@, ping_word(), i),
{
    let v = crate::text::chars_of(text);
    let w: Vec<char> = vec!['"', 'p', 'i', 'n', 'g', '"'];
    assert(w@ =~= ping_word());
    if v.len() < 6 {
        assert forall|i: int| !#[trigger] occurs_at(text@, ping_word(), i) by {}
        return false;
    }
    let mut i: usize = 0;
    let last = v.len() - 6;
    while i <= last
        invariant
            v@ == text@,
            w@ == ping_word(),
            v@.len() >= 6,
            last == v@.len() - 6,
            i <= last + 1,
            forall|j: int| 0 <= j < i ==> !#[trigger] occurs_at(text@, ping_word(), j),
        decreases v@.len() - i,
    {
        let mut k: usize = 0;
        let mut same = true;
        while k < 6
            invariant
                k <= 6,
                i + 6 <= v@.len(),
                v@ == text@,
                w@ == ping_word(),
                i <= last,
                last == v.len() - 6,
                same == (forall|m: int| 0 <= m < k ==> v@[i + m] == w@[m]),
            decreases 6 - k,
        {
            if v[i + k] != w[k] {
                same = false;
            }
            k = k + 1;
        }
        if same {
            assert(text@.subrange(i as int, i + 6) =~= ping_word());
            assert(occurs_at(text@, ping_word(), i as int));
            return true;
        }
        assert(!occurs_at(text@, ping_word(), i as int)) by {
            let m = choose|m: int| 0 <= m < 6 && v@[i + m] != w@[m];
            assert(text@.subrange(i as int, i + 6)[m] != ping_word()[m]);
        }
        i = i + 1;
    }
    assert forall|j: int| !#[trigger] occurs_at(text@, ping_word(), j) by {
        if 0 <= j && j < i {
        }
    }
    false
}

} // verus!
