//! The fact model: identifiers, typed values and the `Fact` record itself.
//!
//! A fact records that `entity.attr = value` was true over a valid-time
//! interval, as written by a transaction at an HLC transaction time on one
//! branch of one namespace.
use vstd::prelude::*;

use crate::clock::{HexError, Hlc};
use crate::text::{chars_of, copy_string, string_from_chars};

verus! {

/// A point in UTC time: whole seconds since the Unix epoch and the
/// nanoseconds within that second (at or above 10^9 only inside a leap
/// second).
#[derive(Debug, Clone, Copy, PartialEq, Eq, Structural, PartialOrd, Ord, Hash)]
pub struct Timestamp {
    pub secs: i64,
    pub nanos: u32,
}

/// `a` is not later than `b`.
pub open spec fn ts_le(a: Timestamp, b: Timestamp) -> bool {
    a.secs < b.secs || (a.secs == b.secs && a.nanos <= b.nanos)
}

/// `a` is earlier than `b`.
pub open spec fn ts_lt(a: Timestamp, b: Timestamp) -> bool {
    a.secs < b.secs || (a.secs == b.secs && a.nanos < b.nanos)
}

impl Timestamp {
    /// Whether `self` is not later than `other`.
    pub fn le(&self, other: &Timestamp) -> (b: bool)
        ensures
            b == ts_le(*self, *other),
    {
        self.secs < other.secs || (self.secs == other.secs && self.nanos <= other.nanos)
    }

    /// Whether `self` is earlier than `other`.
    pub fn lt(&self, other: &Timestamp) -> (b: bool)
        ensures
            b == ts_lt(*self, *other),
    {
        self.secs < other.secs || (self.secs == other.secs && self.nanos < other.nanos)
    }

    /// The instant `ms` milliseconds after the Unix epoch.
    pub fn from_millis(ms: i64) -> (t: Timestamp)
        ensures
            t.secs * 1000 + t.nanos / 1_000_000 == ms,
            t.nanos % 1_000_000 == 0,
            t.nanos < 1_000_000_000,
    {
        let mut secs = ms / 1000;
        let mut rem = ms % 1000;
        if rem < 0 {
            secs = secs - 1;
            rem = rem + 1000;
        }
        Timestamp { secs, nanos: (rem * 1_000_000) as u32 }
    }
}

/// The name of a namespace.
#[derive(Debug)]
pub struct Namespace(pub String);

/// The name of a branch.
#[derive(Debug)]
pub struct BranchName(pub String);

/// The identifier of an entity.
#[derive(Debug)]
pub struct EntityId(pub String);

/// The name of an attribute.
#[derive(Debug)]
pub struct Attr(pub String);

impl View for Namespace {
    type V = Seq<char>;

    open spec fn view(&self) -> Seq<char> {
        self.0@
    }
}

impl View for BranchName {
    type V = Seq<char>;

    open spec fn view(&self) -> Seq<char> {
        self.0@
    }
}

impl View for EntityId {
    type V = Seq<char>;

    open spec fn view(&self) -> Seq<char> {
        self.0@
    }
}

impl View for Attr {
    type V = Seq<char>;

    open spec fn view(&self) -> Seq<char> {
        self.0@
    }
}

impl Clone for Namespace {
    fn clone(&self) -> (r: Self)
        ensures
            r@ == self@,
    {
        Namespace(copy_string(&self.0))
    }
}

impl Clone for BranchName {
    fn clone(&self) -> (r: Self)
        ensures
            r@ == self@,
    {
        BranchName(copy_string(&self.0))
    }
}

impl Clone for EntityId {
    fn clone(&self) -> (r: Self)
        ensures
            r@ == self@,
    {
        EntityId(copy_string(&self.0))
    }
}

impl Clone for Attr {
    fn clone(&self) -> (r: Self)
        ensures
            r@ == self@,
    {
        Attr(copy_string(&self.0))
    }
}

/// The name of the default namespace.
pub open spec fn default_namespace() -> Seq<char> {
    seq!['d', 'e', 'f', 'a', 'u', 'l', 't']
}

/// The name of the root branch.
pub open spec fn main_branch() -> Seq<char> {
    seq!['m', 'a', 'i', 'n']
}

impl Namespace {
    /// The namespace called `s`.
    pub fn new(s: &str) -> (n: Namespace)
        ensures
            n@ == s@,
    {
        Namespace(String::from_str(s))
    }

    /// The namespace `default`.
    pub fn default() -> (n: Namespace)
        ensures
            n@ == default_namespace(),
    {
        let s = "default";
        proof {
            reveal_strlit("default");
        }
        Namespace(String::from_str(s))
    }

    /// The name.
    pub fn as_str(&self) -> (s: &str)
        ensures
            s@ == self@,
    {
        self.0.as_str()
    }

    /// Whether two namespaces have the same name.
    pub fn same(&self, other: &Namespace) -> (b: bool)
        ensures
            b == (self@ == other@),
    {
        self.0 == other.0
    }
}

impl BranchName {
    /// The branch called `s`.
    pub fn new(s: &str) -> (b: BranchName)
        ensures
            b@ == s@,
    {
        BranchName(String::from_str(s))
    }

    /// The root branch `main`.
    pub fn main() -> (b: BranchName)
        ensures
            b@ == main_branch(),
    {
        let s = "main";
        proof {
            reveal_strlit("main");
        }
        BranchName(String::from_str(s))
    }

    /// The default branch, `main`.
    pub fn default() -> (b: BranchName)
        ensures
            b@ == main_branch(),
    {
        BranchName::main()
    }

    /// The name.
    pub fn as_str(&self) -> (s: &str)
        ensures
            s@ == self@,
    {
        self.0.as_str()
    }

    /// Whether two branch names are equal.
    pub fn same(&self, other: &BranchName) -> (b: bool)
        ensures
            b == (self@ == other@),
    {
        self.0 == other.0
    }
}

impl EntityId {
    /// The entity `s`.
    pub fn new(s: &str) -> (e: EntityId)
        ensures
            e@ == s@,
    {
        EntityId(String::from_str(s))
    }

    /// The identifier.
    pub fn as_str(&self) -> (s: &str)
        ensures
            s@ == self@,
    {
        self.0.as_str()
    }

    /// Whether two entity ids are equal.
    pub fn same(&self, other: &EntityId) -> (b: bool)
        ensures
            b == (self@ == other@),
    {
        self.0 == other.0
    }
}

impl Attr {
    /// The attribute `s`.
    pub fn new(s: &str) -> (a: Attr)
        ensures
            a@ == s@,
    {
        Attr(String::from_str(s))
    }

    /// The name.
    pub fn as_str(&self) -> (s: &str)
        ensures
            s@ == self@,
    {
        self.0.as_str()
    }

    /// Whether two attribute names are equal.
    pub fn same(&self, other: &Attr) -> (b: bool)
        ensures
            b == (self@ == other@),
    {
        self.0 == other.0
    }
}

/// A fresh source of random keys: std's `RandomState::new()`. Nothing is
/// claimed of the keys.
#[verifier::external_body]
fn random_state() -> std::collections::hash_map::RandomState {
    std::collections::hash_map::RandomState::new()
}

/// The hash of `x` under the keys of `s`: std's `BuildHasher::hash_one`.
/// Nothing is claimed of the hash, whose keys are random.
#[verifier::external_body]
fn hash_byte(s: &std::collections::hash_map::RandomState, x: u8) -> u64 {
    std::hash::BuildHasher::hash_one(s, x)
}

/// 128 random bits.
fn random_u128() -> u128 {
    let s = random_state();
    let hi = hash_byte(&s, 0);
    let lo = hash_byte(&s, 1);
    ((hi as u128) << 64u128) | (lo as u128)
}

/// The identifier of a fact: 128 bits, written as 32 lowercase hexadecimal
/// digits.
#[derive(Debug, Clone, Copy, PartialEq, Eq, Structural, Hash)]
pub struct FactId(pub u128);

/// The identifier of a transaction: 128 bits, written as 32 lowercase
/// hexadecimal digits.
#[derive(Debug, Clone, Copy, PartialEq, Eq, Structural, Hash)]
pub struct TxId(pub u128);

/// The 32-digit rendering of an identifier.
pub open spec fn spec_id_text(n: u128) -> Seq<char> {
    crate::text::spec_hex_digits(n as nat, 32)
}

/// What parsing an identifier gives: `u128::from_str_radix(s, 16)`.
pub open spec fn spec_parse_id(s: Seq<char>) -> Result<u128, HexError> {
    crate::text::spec_parse_hex_wide(s)
}

impl FactId {
    /// A new random identifier.
    pub fn new() -> (id: FactId) {
        FactId(random_u128())
    }

    /// The identifier as 32 lowercase hexadecimal digits.
    pub fn to_string(&self) -> (s: String)
        ensures
            s@ == spec_id_text(self.0),
    {
        string_from_chars(&crate::text::hex32(self.0))
    }

    /// Parses a hexadecimal identifier.
    pub fn parse(s: &str) -> (r: Result<FactId, HexError>)
        ensures
            r matches Ok(id) ==> spec_parse_id(s@) == Ok::<u128, HexError>(id.0),
            r matches Err(e) ==> spec_parse_id(s@) == Err::<u128, HexError>(e),
    {
        let v = chars_of(s);
        assert(v@.subrange(0, v@.len() as int) =~= s@);
        match crate::text::parse_hex_u128(&v, 0) {
            Ok(n) => Ok(FactId(n)),
            Err(e) => Err(e),
        }
    }
}

impl TxId {
    /// A new random identifier.
    pub fn new() -> (id: TxId) {
        TxId(random_u128())
    }

    /// The identifier as 32 lowercase hexadecimal digits.
    pub fn to_string(&self) -> (s: String)
        ensures
            s@ == spec_id_text(self.0),
    {
        string_from_chars(&crate::text::hex32(self.0))
    }

    /// Parses a hexadecimal identifier.
    pub fn parse(s: &str) -> (r: Result<TxId, HexError>)
        ensures
            r matches Ok(id) ==> spec_parse_id(s@) == Ok::<u128, HexError>(id.0),
            r matches Err(e) ==> spec_parse_id(s@) == Err::<u128, HexError>(e),
    {
        let v = chars_of(s);
        assert(v@.subrange(0, v@.len() as int) =~= s@);
        match crate::text::parse_hex_u128(&v, 0) {
            Ok(n) => Ok(TxId(n)),
            Err(e) => Err(e),
        }
    }
}

/// A typed value. Floats are held as their IEEE-754 binary64 bit pattern;
/// JSON documents as their compact serialization.
#[derive(Debug)]
pub enum Value {
    Str(String),
    Int(i64),
    Float(u64),
    Bool(bool),
    Json(String),
    Null,
}

/// The mathematical content of a `Value`.
pub enum ValueView {
    Str(Seq<char>),
    Int(i64),
    Float(u64),
    Bool(bool),
    Json(Seq<char>),
    Null,
}

impl View for Value {
    type V = ValueView;

    open spec fn view(&self) -> ValueView {
        match self {
            Value::Str(s) => ValueView::Str(s@),
            Value::Int(n) => ValueView::Int(*n),
            Value::Float(b) => ValueView::Float(*b),
            Value::Bool(b) => ValueView::Bool(*b),
            Value::Json(s) => ValueView::Json(s@),
            Value::Null => ValueView::Null,
        }
    }
}

impl Clone for Value {
    fn clone(&self) -> (r: Self)
        ensures
            r@ == self@,
    {
        match self {
            Value::Str(s) => Value::Str(copy_string(s)),
            Value::Int(n) => Value::Int(*n),
            Value::Float(b) => Value::Float(*b),
            Value::Bool(b) => Value::Bool(*b),
            Value::Json(s) => Value::Json(copy_string(s)),
            Value::Null => Value::Null,
        }
    }
}

/// Whether a binary64 bit pattern is a NaN.
pub open spec fn is_nan_bits(b: u64) -> bool {
    (b / 0x10_0000_0000_0000) % 0x800 == 0x7ff && b % 0x10_0000_0000_0000 != 0
}

/// Whether a binary64 bit pattern is a zero of either sign.
pub open spec fn is_zero_bits(b: u64) -> bool {
    b % 0x8000_0000_0000_0000 == 0
}

/// Whether two binary64 bit patterns are equal as floats: NaN equals
/// nothing, and the two zeros are equal.
pub open spec fn float_bits_eq(a: u64, b: u64) -> bool {
    !is_nan_bits(a) && !is_nan_bits(b) && (a == b || (is_zero_bits(a) && is_zero_bits(b)))
}

/// Float equality on bit patterns.
pub fn float_eq(a: u64, b: u64) -> (r: bool)
    ensures
        r == float_bits_eq(a, b),
{
    let a_nan = (a / 0x10_0000_0000_0000) % 0x800 == 0x7ff && a % 0x10_0000_0000_0000 != 0;
    let b_nan = (b / 0x10_0000_0000_0000) % 0x800 == 0x7ff && b % 0x10_0000_0000_0000 != 0;
    !a_nan && !b_nan && (a == b || (a % 0x8000_0000_0000_0000 == 0 && b % 0x8000_0000_0000_0000
        == 0))
}

/// Value equality: same variant and equal contents, floats compared as
/// floats.
pub open spec fn value_eq(a: ValueView, b: ValueView) -> bool {
    match (a, b) {
        (ValueView::Str(x), ValueView::Str(y)) => x == y,
        (ValueView::Int(x), ValueView::Int(y)) => x == y,
        (ValueView::Float(x), ValueView::Float(y)) => float_bits_eq(x, y),
        (ValueView::Bool(x), ValueView::Bool(y)) => x == y,
        (ValueView::Json(x), ValueView::Json(y)) => x == y,
        (ValueView::Null, ValueView::Null) => true,
        _ => false,
    }
}

/// The name of a value's type.
pub open spec fn spec_kind_name(v: ValueView) -> Seq<char> {
    match v {
        ValueView::Str(_) => seq!['s', 't', 'r'],
        ValueView::Int(_) => seq!['i', 'n', 't'],
        ValueView::Float(_) => seq!['f', 'l', 'o', 'a', 't'],
        ValueView::Bool(_) => seq!['b', 'o', 'o', 'l'],
        ValueView::Json(_) => seq!['j', 's', 'o', 'n'],
        ValueView::Null => seq!['n', 'u', 'l', 'l'],
    }
}

impl Value {
    /// The name of this value's type: `str`, `int`, `float`, `bool`, `json`
    /// or `null`.
    pub fn kind_name(&self) -> (s: &'static str)
        ensures
            s@ == spec_kind_name(self@),
    {
        match self {
            Value::Str(_) => {
                proof {
                    reveal_strlit("str");
                }
                "str"
            },
            Value::Int(_) => {
                proof {
                    reveal_strlit("int");
                }
                "int"
            },
            Value::Float(_) => {
                proof {
                    reveal_strlit("float");
                }
                "float"
            },
            Value::Bool(_) => {
                proof {
                    reveal_strlit("bool");
                }
                "bool"
            },
            Value::Json(_) => {
                proof {
                    reveal_strlit("json");
                }
                "json"
            },
            Value::Null => {
                proof {
                    reveal_strlit("null");
                }
                "null"
            },
        }
    }

    /// Value equality (see `value_eq`).
    pub fn equals(&self, other: &Value) -> (r: bool)
        ensures
            r == value_eq(self@, other@),
    {
        match (self, other) {
            (Value::Str(x), Value::Str(y)) => *x == *y,
            (Value::Int(x), Value::Int(y)) => *x == *y,
            (Value::Float(x), Value::Float(y)) => float_eq(*x, *y),
            (Value::Bool(x), Value::Bool(y)) => *x == *y,
            (Value::Json(x), Value::Json(y)) => *x == *y,
            (Value::Null, Value::Null) => true,
            _ => false,
        }
    }
}

impl PartialEq for Value {
    fn eq(&self, other: &Value) -> (r: bool) {
        self.equals(other)
    }
}

impl vstd::std_specs::cmp::PartialEqSpecImpl for Value {
    open spec fn obeys_eq_spec() -> bool {
        true
    }

    open spec fn eq_spec(&self, other: &Value) -> bool {
        value_eq(self@, other@)
    }
}

/// One immutable fact.
#[derive(Debug)]
pub struct Fact {
    pub id: FactId,
    pub namespace: Namespace,
    pub entity: EntityId,
    pub attr: Attr,
    pub value: Value,
    pub valid_from: Timestamp,
    pub valid_to: Option<Timestamp>,
    pub tx_id: TxId,
    pub tx_time: Hlc,
    pub branch: BranchName,
    pub author: Option<String>,
    pub retracted: bool,
    /// The transaction time of the retraction, once retracted.
    pub retracted_at: Option<Hlc>,
    pub caused_by: Option<TxId>,
}

/// The mathematical content of a `Fact`.
pub struct FactView {
    pub id: u128,
    pub namespace: Seq<char>,
    pub entity: Seq<char>,
    pub attr: Seq<char>,
    pub value: ValueView,
    pub valid_from: Timestamp,
    pub valid_to: Option<Timestamp>,
    pub tx_id: u128,
    pub tx_time: u64,
    pub branch: Seq<char>,
    pub author: Option<Seq<char>>,
    pub retracted: bool,
    pub retracted_at: Option<u64>,
    pub caused_by: Option<u128>,
}

/// The view of an optional transaction time.
pub open spec fn opt_time_view(h: Option<Hlc>) -> Option<u64> {
    match h {
        Some(x) => Some(x.0),
        None => None,
    }
}

/// The view of an optional string.
pub open spec fn opt_str_view(s: Option<String>) -> Option<Seq<char>> {
    match s {
        Some(x) => Some(x@),
        None => None,
    }
}

/// The view of an optional transaction id.
pub open spec fn opt_tx_view(t: Option<TxId>) -> Option<u128> {
    match t {
        Some(x) => Some(x.0),
        None => None,
    }
}

impl View for Fact {
    type V = FactView;

    open spec fn view(&self) -> FactView {
        FactView {
            id: self.id.0,
            namespace: self.namespace@,
            entity: self.entity@,
            attr: self.attr@,
            value: self.value@,
            valid_from: self.valid_from,
            valid_to: self.valid_to,
            tx_id: self.tx_id.0,
            tx_time: self.tx_time.0,
            branch: self.branch@,
            author: opt_str_view(self.author),
            retracted: self.retracted,
            retracted_at: opt_time_view(self.retracted_at),
            caused_by: opt_tx_view(self.caused_by),
        }
    }
}

/// A copy of an optional string.
pub fn copy_opt_string(s: &Option<String>) -> (r: Option<String>)
    ensures
        opt_str_view(r) == opt_str_view(*s),
{
    match s {
        Some(x) => Some(copy_string(x)),
        None => None,
    }
}

impl Clone for Fact {
    fn clone(&self) -> (r: Self)
        ensures
            r@ == self@,
    {
        Fact {
            id: self.id,
            namespace: self.namespace.clone(),
            entity: self.entity.clone(),
            attr: self.attr.clone(),
            value: self.value.clone(),
            valid_from: self.valid_from,
            valid_to: self.valid_to,
            tx_id: self.tx_id,
            tx_time: self.tx_time,
            branch: self.branch.clone(),
            author: copy_opt_string(&self.author),
            retracted: self.retracted,
            retracted_at: self.retracted_at,
            caused_by: self.caused_by,
        }
    }
}

/// Fact equality: every field equal, the value by `value_eq`.
pub open spec fn fact_eq(a: FactView, b: FactView) -> bool {
    &&& a.id == b.id
    &&& a.namespace == b.namespace
    &&& a.entity == b.entity
    &&& a.attr == b.attr
    &&& value_eq(a.value, b.value)
    &&& a.valid_from == b.valid_from
    &&& a.valid_to == b.valid_to
    &&& a.tx_id == b.tx_id
    &&& a.tx_time == b.tx_time
    &&& a.branch == b.branch
    &&& a.author == b.author
    &&& a.retracted == b.retracted
    &&& a.retracted_at == b.retracted_at
    &&& a.caused_by == b.caused_by
}

/// Whether two optional strings are equal.
pub fn opt_string_eq(a: &Option<String>, b: &Option<String>) -> (r: bool)
    ensures
        r == (opt_str_view(*a) == opt_str_view(*b)),
{
    match (a, b) {
        (Some(x), Some(y)) => *x == *y,
        (None, None) => true,
        _ => false,
    }
}

impl Fact {
    /// Field-wise equality (see `fact_eq`).
    pub fn equals(&self, other: &Fact) -> (r: bool)
        ensures
            r == fact_eq(self@, other@),
    {
        self.id.0 == other.id.0 && self.namespace.same(&other.namespace) && self.entity.same(
            &other.entity,
        ) && self.attr.same(&other.attr) && self.value.equals(&other.value) && self.valid_from
            == other.valid_from && self.valid_to == other.valid_to && self.tx_id.0 == other.tx_id.0
            && self.tx_time.0 == other.tx_time.0 && self.branch.same(&other.branch)
            && opt_string_eq(&self.author, &other.author) && self.retracted == other.retracted
            && opt_time_eq(&self.retracted_at, &other.retracted_at) && opt_tx_eq(
            &self.caused_by,
            &other.caused_by,
        )
    }
}

/// Whether two optional transaction times are equal.
pub fn opt_time_eq(a: &Option<Hlc>, b: &Option<Hlc>) -> (r: bool)
    ensures
        r == (opt_time_view(*a) == opt_time_view(*b)),
{
    match (a, b) {
        (Some(x), Some(y)) => x.0 == y.0,
        (None, None) => true,
        _ => false,
    }
}

/// Whether two optional transaction ids are equal.
pub fn opt_tx_eq(a: &Option<TxId>, b: &Option<TxId>) -> (r: bool)
    ensures
        r == (opt_tx_view(*a) == opt_tx_view(*b)),
{
    match (a, b) {
        (Some(x), Some(y)) => x.0 == y.0,
        (None, None) => true,
        _ => false,
    }
}

} // verus!
