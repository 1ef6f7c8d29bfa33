//! Per-namespace schemas: the expected type of each attribute, and whether
//! attributes outside the schema are refused.
use vstd::prelude::*;

use crate::error::Error;
use crate::fact::{spec_kind_name, Attr, Value, ValueView};
use crate::keyed::{find_key, key_index, key_index_from, lemma_key_index_from};
use crate::text::copy_string;

verus! {

/// The type an attribute's values must have.
#[derive(Debug, Clone, Copy, PartialEq, Eq, Structural)]
pub enum AttrType {
    Str,
    Int,
    Float,
    Bool,
    Json,
    Any,
}

/// Whether a value has the given type (`Any` admits every value).
pub open spec fn spec_type_matches(t: AttrType, v: ValueView) -> bool {
    match t {
        AttrType::Any => true,
        AttrType::Str => v is Str,
        AttrType::Int => v is Int,
        AttrType::Float => v is Float,
        AttrType::Bool => v is Bool,
        AttrType::Json => v is Json,
    }
}

/// The name of a type: `str`, `int`, `float`, `bool`, `json` or `any`.
pub open spec fn spec_type_label(t: AttrType) -> Seq<char> {
    match t {
        AttrType::Str => "str"@,
        AttrType::Int => "int"@,
        AttrType::Float => "float"@,
        AttrType::Bool => "bool"@,
        AttrType::Json => "json"@,
        AttrType::Any => "any"@,
    }
}

impl AttrType {
    /// Whether `v` has this type.
    pub fn matches(&self, v: &Value) -> (b: bool)
        ensures
            b == spec_type_matches(*self, v@),
    {
        match self {
            AttrType::Any => true,
            AttrType::Str => matches!(v, Value::Str(_)),
            AttrType::Int => matches!(v, Value::Int(_)),
            AttrType::Float => matches!(v, Value::Float(_)),
            AttrType::Bool => matches!(v, Value::Bool(_)),
            AttrType::Json => matches!(v, Value::Json(_)),
        }
    }

    /// The type's name.
    pub fn label(&self) -> (s: &'static str)
        ensures
            s@ == spec_type_label(*self),
    {
        match self {
            AttrType::Str => "str",
            AttrType::Int => "int",
            AttrType::Float => "float",
            AttrType::Bool => "bool",
            AttrType::Json => "json",
            AttrType::Any => "any",
        }
    }
}

/// The declaration of one attribute.
#[derive(Debug)]
pub struct AttrSpec {
    pub attr_type: AttrType,
    pub required: bool,
    pub description: Option<String>,
}

/// The content of an attribute declaration.
pub struct AttrSpecView {
    pub attr_type: AttrType,
    pub required: bool,
    pub description: Option<Seq<char>>,
}

impl View for AttrSpec {
    type V = AttrSpecView;

    open spec fn view(&self) -> AttrSpecView {
        AttrSpecView {
            attr_type: self.attr_type,
            required: self.required,
            description: crate::fact::opt_str_view(self.description),
        }
    }
}

impl Clone for AttrSpec {
    fn clone(&self) -> (r: Self)
        ensures
            r.attr_type == self.attr_type,
            r.required == self.required,
            r@ == self@,
    {
        AttrSpec {
            attr_type: self.attr_type,
            required: self.required,
            description: match &self.description {
                Some(d) => Some(copy_string(d)),
                None => None,
            },
        }
    }
}

impl AttrSpec {
    /// An optional attribute of type `t`, without description.
    pub fn new(t: AttrType) -> (s: AttrSpec)
        ensures
            s.attr_type == t,
            !s.required,
            s.description is None,
    {
        AttrSpec { attr_type: t, required: false, description: None }
    }

    /// The same declaration, marked required.
    pub fn required(self) -> (s: AttrSpec)
        ensures
            s.attr_type == self.attr_type,
            s.required,
            s.description == self.description,
    {
        let mut s = self;
        s.required = true;
        s
    }
}

/// A namespace schema: declared attributes (looked up by name, the first
/// entry of a name counts) and whether undeclared attributes are refused.
#[derive(Debug)]
pub struct Schema {
    pub attrs: Vec<(String, AttrSpec)>,
    pub strict: bool,
}

/// The declared type of `name` in `attrs`, if any.
pub open spec fn spec_declared_type(attrs: Seq<(String, AttrSpec)>, name: Seq<char>) -> Option<
    AttrType,
> {
    let i = key_index(attrs, name);
    if i == -1 {
        None
    } else {
        Some(attrs[i].1.attr_type)
    }
}

/// The reason given for a value of the wrong type.
pub open spec fn spec_type_reason(t: AttrType, v: ValueView) -> Seq<char> {
    "expected "@ + spec_type_label(t) + ", got "@ + spec_kind_name(v)
}

/// The reason given for an undeclared attribute in strict mode.
pub open spec fn spec_strict_reason() -> Seq<char> {
    "attribute not in schema (strict mode)"@
}

/// The content of a schema: each declaration's name and content (type,
/// whether required, description), in order.
pub struct SchemaView {
    pub attrs: Seq<(Seq<char>, AttrSpecView)>,
    pub strict: bool,
}

impl View for Schema {
    type V = SchemaView;

    open spec fn view(&self) -> SchemaView {
        SchemaView {
            attrs: self.attrs@.map_values(|e: (String, AttrSpec)| (e.0@, e.1@)),
            strict: self.strict,
        }
    }
}

impl Clone for Schema {
    fn clone(&self) -> (r: Self)
        ensures
            r@ == self@,
    {
        let mut attrs: Vec<(String, AttrSpec)> = Vec::new();
        let mut i: usize = 0;
        while i < self.attrs.len()
            invariant
                i <= self.attrs.len(),
                attrs@.len() == i,
                forall|j: int|
                    #![trigger attrs@[j]]
                    0 <= j < i ==> attrs@[j].0@ == self.attrs@[j].0@ && attrs@[j].1@
                        == self.attrs@[j].1@,
            decreases self.attrs.len() - i,
        {
            attrs.push((copy_string(&self.attrs[i].0), self.attrs[i].1.clone()));
            i = i + 1;
        }
        let r = Schema { attrs, strict: self.strict };
        assert(r@.attrs =~= self@.attrs);
        r
    }
}

impl Schema {
    /// A schema without declarations.
    pub fn new(strict: bool) -> (s: Schema)
        ensures
            s.attrs@.len() == 0,
            s.strict == strict,
    {
        Schema { attrs: Vec::new(), strict }
    }

    /// Declares `name` (replacing an earlier declaration of it).
    pub fn insert(&mut self, name: &str, spec: AttrSpec)
        ensures
            final(self).strict == old(self).strict,
            spec_declared_type(final(self).attrs@, name@) == Some(spec.attr_type),
            forall|k: Seq<char>|
                k != name@ ==> spec_declared_type(final(self).attrs@, k) == spec_declared_type(
                    old(self).attrs@,
                    k,
                ),
    {
        let ghost old_attrs = self.attrs@;
        let t = spec.attr_type;
        match find_key(&self.attrs, name) {
            Some(i) => {
                self.attrs.set(i, (String::from_str(name), spec));
                proof {
                    let s2 = self.attrs@;
                    lemma_key_index_from(old_attrs, name@, 0);
                    assert forall|k: Seq<char>| k != name@ implies spec_declared_type(s2, k)
                        == spec_declared_type(old_attrs, k) by {
                        lemma_same_index_after_set(old_attrs, s2, k, i as int, 0);
                        lemma_key_index_from(old_attrs, k, 0);
                    }
                    lemma_same_index_after_set(old_attrs, s2, name@, i as int, 0);
                }
            },
            None => {
                self.attrs.push((String::from_str(name), spec));
                proof {
                    let s2 = self.attrs@;
                    assert forall|k: Seq<char>| k != name@ implies spec_declared_type(s2, k)
                        == spec_declared_type(old_attrs, k) by {
                        lemma_index_after_push(old_attrs, s2, k, 0);
                        lemma_key_index_from(old_attrs, k, 0);
                    }
                    lemma_index_after_push_new(old_attrs, s2, name@, 0);
                }
            },
        }
    }

    /// Checks a value for `attr` against the schema: a declared attribute's
    /// value must have the declared type; an undeclared attribute is refused in
    /// strict mode and accepted otherwise.
    pub fn validate(&self, attr: &Attr, value: &Value) -> (r: Result<(), Error>)
        ensures
            match spec_declared_type(self.attrs@, attr@) {
                Some(t) => if spec_type_matches(t, value@) {
                    r is Ok
                } else {
                    r matches Err(Error::SchemaViolation { attr: a, reason })
                        && a@ == attr@ && reason@ == spec_type_reason(t, value@)
                },
                None => if self.strict {
                    r matches Err(Error::SchemaViolation { attr: a, reason })
                        && a@ == attr@ && reason@ == spec_strict_reason()
                } else {
                    r is Ok
                },
            },
    {
        match find_key(&self.attrs, attr.as_str()) {
            Some(i) => {
                let t = self.attrs[i].1.attr_type;
                if !t.matches(value) {
                    let mut reason = String::from_str("expected ");
                    reason.append(t.label());
                    reason.append(", got ");
                    reason.append(value.kind_name());
                    return Err(
                        Error::SchemaViolation { attr: copy_string(&attr.0), reason },
                    );
                }
                Ok(())
            },
            None => {
                if self.strict {
                    return Err(
                        Error::SchemaViolation {
                            attr: copy_string(&attr.0),
                            reason: String::from_str("attribute not in schema (strict mode)"),
                        },
                    );
                }
                Ok(())
            },
        }
    }
}

proof fn lemma_same_index_after_set<V>(
    s1: Seq<(String, V)>,
    s2: Seq<(String, V)>,
    k: Seq<char>,
    i: int,
    j: int,
)
    requires
        0 <= i < s1.len(),
        s2.len() == s1.len(),
        s1[i].0@ == s2[i].0@,
        forall|x: int| 0 <= x < s1.len() && x != i ==> s1[x] == s2[x],
        0 <= j,
    ensures
        key_index_from(s2, k, j) == key_index_from(s1, k, j),
    decreases s1.len() - j,
{
    if j < s1.len() {
        lemma_same_index_after_set(s1, s2, k, i, j + 1);
    }
}

proof fn lemma_index_after_push<V>(s1: Seq<(String, V)>, s2: Seq<(String, V)>, k: Seq<char>, j: int)
    requires
        s2.len() == s1.len() + 1,
        forall|x: int| 0 <= x < s1.len() ==> s1[x] == s2[x],
        s2[s1.len() as int].0@ != k,
        0 <= j,
    ensures
        key_index_from(s2, k, j) == key_index_from(s1, k, j),
    decreases s2.len() - j,
{
    if j < s2.len() {
        lemma_index_after_push(s1, s2, k, j + 1);
    }
}

proof fn lemma_index_after_push_new<V>(
    s1: Seq<(String, V)>,
    s2: Seq<(String, V)>,
    k: Seq<char>,
    j: int,
)
    requires
        s2.len() == s1.len() + 1,
        forall|x: int| 0 <= x < s1.len() ==> s1[x] == s2[x],
        s2[s1.len() as int].0@ == k,
        key_index_from(s1, k, j) == -1,
        0 <= j <= s1.len(),
    ensures
        key_index_from(s2, k, j) == s1.len(),
    decreases s2.len() - j,
{
    if j < s1.len() {
        lemma_index_after_push_new(s1, s2, k, j + 1);
    }
}

} // verus!
