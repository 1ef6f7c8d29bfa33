//! Stable sorting by a key made of a number and two strings, compared
//! lexicographically (numbers as integers, strings character by character,
//! which is the order of `str::cmp`).
use vstd::prelude::*;

verus! {

/// A sort key.
pub struct SortKey {
    pub num: i128,
    pub text: Vec<char>,
    pub text2: Vec<char>,
}

/// The content of a sort key.
pub struct KeyView {
    pub num: int,
    pub text: Seq<char>,
    pub text2: Seq<char>,
}

impl View for SortKey {
    type V = KeyView;

    open spec fn view(&self) -> KeyView {
        KeyView { num: self.num as int, text: self.text@, text2: self.text2@ }
    }
}

/// `a` comes strictly before `b` in lexicographic character order.
pub open spec fn seq_lt(a: Seq<char>, b: Seq<char>) -> bool
    decreases a.len(),
{
    if a.len() == 0 {
        b.len() > 0
    } else if b.len() == 0 {
        false
    } else if a[0] != b[0] {
        a[0] < b[0]
    } else {
        seq_lt(a.drop_first(), b.drop_first())
    }
}

/// `a` does not come after `b`.
pub open spec fn key_le(a: KeyView, b: KeyView) -> bool {
    a.num < b.num || (a.num == b.num && (seq_lt(a.text, b.text) || (a.text == b.text && !seq_lt(
        b.text2,
        a.text2,
    ))))
}

/// Whether `a` comes strictly before `b`, character by character.
pub fn chars_lt(a: &Vec<char>, b: &Vec<char>) -> (r: bool)
    ensures
        r == seq_lt(a@, b@),
{
    let mut i: usize = 0;
    assert(a@.skip(0) =~= a@);
    assert(b@.skip(0) =~= b@);
    while i < a.len() && i < b.len() && a[i] == b[i]
        invariant
            i <= a.len(),
            i <= b.len(),
            seq_lt(a@, b@) == seq_lt(a@.skip(i as int), b@.skip(i as int)),
        decreases a.len() - i,
    {
        assert(a@.skip(i as int).drop_first() =~= a@.skip(i + 1));
        assert(b@.skip(i as int).drop_first() =~= b@.skip(i + 1));
        i = i + 1;
    }
    if i == a.len() {
        i < b.len()
    } else if i == b.len() {
        false
    } else {
        assert(a@.skip(i as int)[0] == a@[i as int]);
        assert(b@.skip(i as int)[0] == b@[i as int]);
        a[i] < b[i]
    }
}

impl SortKey {
    /// Whether `self` does not come after `other`.
    pub fn le(&self, other: &SortKey) -> (r: bool)
        ensures
            r == key_le(self@, other@),
    {
        if self.num < other.num {
            true
        } else if self.num > other.num {
            false
        } else if chars_lt(&self.text, &other.text) {
            true
        } else if chars_lt(&other.text, &self.text) {
            false
        } else {
            proof {
                lemma_seq_lt_trichotomy(self.text@, other.text@);
            }
            !chars_lt(&other.text2, &self.text2)
        }
    }

    /// A key made of a number only.
    pub fn number(n: i128) -> (k: SortKey)
        ensures
            k@ == (KeyView { num: n as int, text: Seq::empty(), text2: Seq::empty() }),
    {
        SortKey { num: n, text: Vec::new(), text2: Vec::new() }
    }

    /// A key made of one string.
    pub fn text(s: &str) -> (k: SortKey)
        ensures
            k@ == (KeyView { num: 0, text: s@, text2: Seq::empty() }),
    {
        SortKey { num: 0, text: crate::text::chars_of(s), text2: Vec::new() }
    }

    /// A key made of two strings.
    pub fn pair(s: &str, t: &str) -> (k: SortKey)
        ensures
            k@ == (KeyView { num: 0, text: s@, text2: t@ }),
    {
        SortKey { num: 0, text: crate::text::chars_of(s), text2: crate::text::chars_of(t) }
    }
}

/// Two character sequences are equal or one comes strictly before the other.
pub proof fn lemma_seq_lt_trichotomy(a: Seq<char>, b: Seq<char>)
    ensures
        a == b || seq_lt(a, b) || seq_lt(b, a),
        !(seq_lt(a, b) && seq_lt(b, a)),
        !seq_lt(a, a),
    decreases a.len(),
{
    if a.len() == 0 && b.len() == 0 {
        assert(a =~= b);
    }

    if a.len() > 0 && b.len() > 0 && a[0] == b[0] {
        lemma_seq_lt_trichotomy(a.drop_first(), b.drop_first());
        if a.drop_first() == b.drop_first() {
            assert(a =~= seq![a[0]] + a.drop_first());
            assert(b =~= seq![b[0]] + b.drop_first());
        }
    }
    if a.len() > 0 {
        lemma_seq_lt_trichotomy(a.drop_first(), a.drop_first());
    }
}

/// `seq_lt` is transitive.
pub proof fn lemma_seq_lt_trans(a: Seq<char>, b: Seq<char>, c: Seq<char>)
    requires
        seq_lt(a, b),
        seq_lt(b, c),
    ensures
        seq_lt(a, c),
    decreases a.len(),
{
    if a.len() > 0 && b.len() > 0 && c.len() > 0 && a[0] == b[0] && b[0] == c[0] {
        lemma_seq_lt_trans(a.drop_first(), b.drop_first(), c.drop_first());
    }
}

/// Inserts `x` into `r` after the last element whose key does not exceed
/// `x`'s (scanning from the end), which keeps a sorted `r` sorted and equal
/// keys in arrival order.
pub open spec fn insert_by<T>(r: Seq<T>, x: T, key: spec_fn(T) -> KeyView) -> Seq<T>
    decreases r.len(),
{
    if r.len() == 0 {
        seq![x]
    } else if key_le(key(r.last()), key(x)) {
        r.push(x)
    } else {
        insert_by(r.drop_last(), x, key).push(r.last())
    }
}

/// The stable sort of `s` by `key`.
pub open spec fn stable_sort<T>(s: Seq<T>, key: spec_fn(T) -> KeyView) -> Seq<T>
    decreases s.len(),
{
    if s.len() == 0 {
        s
    } else {
        insert_by(stable_sort(s.drop_last(), key), s.last(), key)
    }
}

pub proof fn lemma_insert_at<T>(r: Seq<T>, x: T, key: spec_fn(T) -> KeyView, j: int)
    requires
        0 <= j <= r.len(),
        forall|i: int| j <= i < r.len() ==> !key_le(#[trigger] key(r[i]), key(x)),
        j == 0 || key_le(key(r[j - 1]), key(x)),
    ensures
        insert_by(r, x, key) == r.take(j).push(x) + r.skip(j),
    decreases r.len(),
{
    if r.len() == 0 {
        assert(r.take(j).push(x) + r.skip(j) =~= seq![x]);
    } else if key_le(key(r.last()), key(x)) {
        assert(j == r.len());
        assert(r.take(j).push(x) + r.skip(j) =~= r.push(x));
    } else {
        assert(j < r.len());
        lemma_insert_at(r.drop_last(), x, key, j);
        assert(r.drop_last().take(j).push(x) + r.drop_last().skip(j) + seq![r.last()] =~= r.take(
            j,
        ).push(x) + r.skip(j));
    }
}

/// Sorts `items` stably by `keys`, where `keys[i]` is the key of
/// `items[i]`.
pub fn sort_stable<T>(items: Vec<T>, keys: Vec<SortKey>, Ghost(key): Ghost<spec_fn(T) -> KeyView>) -> (r:
    Vec<T>)
    requires
        items@.len() == keys@.len(),
        forall|i: int| 0 <= i < items@.len() ==> #[trigger] keys@[i]@ == key(items@[i]),
    ensures
        r@ == stable_sort(items@, key),
{
    let ghost orig = items@;
    let mut items = items;
    let mut keys = keys;
    let mut out: Vec<T> = Vec::new();
    let mut out_keys: Vec<SortKey> = Vec::new();
    let n = items.len();
    let mut i: usize = 0;
    while items.len() > 0
        invariant
            items@.len() == keys@.len(),
            i + items@.len() == n,
            n == orig.len(),
            items@ == orig.skip(i as int),
            forall|j: int| 0 <= j < items@.len() ==> #[trigger] keys@[j]@ == key(items@[j]),
            out@ == stable_sort(orig.take(i as int), key),
            out@.len() == out_keys@.len(),
            forall|j: int| 0 <= j < out@.len() ==> #[trigger] out_keys@[j]@ == key(out@[j]),
        decreases items@.len(),
    {
        let x = items.remove(0);
        let k = keys.remove(0);
        assert(k@ == key(x));
        assert(orig.take(i + 1).drop_last() =~= orig.take(i as int));
        assert(orig.take(i + 1).last() == x);
        assert(items@ =~= orig.skip(i + 1));
        let mut j = out.len();
        while j > 0 && !out_keys[j - 1].le(&k)
            invariant
                j <= out@.len(),
                out@.len() == out_keys@.len(),
                forall|m: int| 0 <= m < out@.len() ==> #[trigger] out_keys@[m]@ == key(out@[m]),
                forall|m: int| j <= m < out@.len() ==> !key_le(#[trigger] key(out@[m]), key(x)),
                k@ == key(x),
            decreases j,
        {
            j = j - 1;
        }
        proof {
            lemma_insert_at(out@, x, key, j as int);
        }
        let ghost before = out@;
        out.insert(j, x);
        out_keys.insert(j, k);
        assert(out@ =~= before.take(j as int).push(x) + before.skip(j as int));
        assert forall|m: int| 0 <= m < out@.len() implies #[trigger] out_keys@[m]@ == key(out@[m]) by {
            if m < j {
            } else if m == j {
            } else {
                assert(out@[m] == before[m - 1]);
            }
        }
        i = i + 1;
    }
    assert(orig.take(n as int) =~= orig);
    out
}


/// `a` comes strictly before `b`.
pub open spec fn key_lt(a: KeyView, b: KeyView) -> bool {
    a.num < b.num || (a.num == b.num && (seq_lt(a.text, b.text) || (a.text == b.text && seq_lt(
        a.text2,
        b.text2,
    ))))
}

/// Keys are equal or one comes strictly before the other, and `key_lt` is
/// irreflexive and asymmetric.
pub proof fn lemma_key_lt_trichotomy(a: KeyView, b: KeyView)
    ensures
        a == b || key_lt(a, b) || key_lt(b, a),
        !(key_lt(a, b) && key_lt(b, a)),
        !key_lt(a, a),
{
    lemma_seq_lt_trichotomy(a.text, b.text);
    lemma_seq_lt_trichotomy(a.text2, b.text2);
}

/// `key_lt` is transitive.
pub proof fn lemma_key_lt_trans(a: KeyView, b: KeyView, c: KeyView)
    requires
        key_lt(a, b),
        key_lt(b, c),
    ensures
        key_lt(a, c),
{
    if a.num == b.num && b.num == c.num {
        if seq_lt(a.text, b.text) && seq_lt(b.text, c.text) {
            lemma_seq_lt_trans(a.text, b.text, c.text);
        }
        if a.text == b.text && b.text == c.text && seq_lt(a.text2, b.text2) && seq_lt(b.text2, c.text2) {
            lemma_seq_lt_trans(a.text2, b.text2, c.text2);
        }
    }
}

/// Whether `self` comes strictly before `other`.
pub fn key_less(a: &SortKey, b: &SortKey) -> (r: bool)
    ensures
        r == key_lt(a@, b@),
{
    if a.num < b.num {
        true
    } else if a.num > b.num {
        false
    } else if chars_lt(&a.text, &b.text) {
        true
    } else if chars_lt(&b.text, &a.text) {
        false
    } else {
        proof {
            lemma_seq_lt_trichotomy(a.text@, b.text@);
        }
        chars_lt(&a.text2, &b.text2)
    }
}

/// A sequence of keys in strictly increasing order.
pub open spec fn strictly_sorted(k: Seq<KeyView>) -> bool {
    forall|i: int, j: int| 0 <= i < j < k.len() ==> key_lt(#[trigger] k[i], #[trigger] k[j])
}

/// Inserts `x` with key `k` into `out`, whose keys `out_keys` are strictly
/// increasing and do not contain `k`, at the position that keeps them so.
pub fn insert_sorted<T>(out: &mut Vec<T>, out_keys: &mut Vec<SortKey>, x: T, k: SortKey) -> (p: usize)
    requires
        old(out)@.len() == old(out_keys)@.len(),
        strictly_sorted(old(out_keys)@.map_values(|s: SortKey| s@)),
        forall|i: int| 0 <= i < old(out_keys)@.len() ==> #[trigger] old(out_keys)@[i]@ != k@,
    ensures
        p <= old(out)@.len(),
        final(out)@.len() == old(out)@.len() + 1,
        final(out_keys)@.len() == old(out_keys)@.len() + 1,
        final(out)@ == old(out)@.take(p as int).push(x) + old(out)@.skip(p as int),
        final(out_keys)@.map_values(|s: SortKey| s@) == old(out_keys)@.map_values(|s: SortKey| s@).take(
            p as int,
        ).push(k@) + old(out_keys)@.map_values(|s: SortKey| s@).skip(p as int),
        strictly_sorted(final(out_keys)@.map_values(|s: SortKey| s@)),
{
    let ghost ok = old(out_keys)@.map_values(|s: SortKey| s@);
    let mut j = out.len();
    while j > 0 && key_less(&k, &out_keys[j - 1])
        invariant
            j <= out_keys@.len(),
            out@.len() == out_keys@.len(),
            out_keys@ == old(out_keys)@,
            ok == out_keys@.map_values(|s: SortKey| s@),
            forall|m: int| j <= m < out_keys@.len() ==> key_lt(k@, #[trigger] ok[m]),
        decreases j,
    {
        j = j - 1;
    }
    proof {
        if j > 0 {
            lemma_key_lt_trichotomy(k@, ok[j - 1]);
            assert(ok[j - 1] == old(out_keys)@[j - 1]@);
        }
    }
    let ghost ks = k@;
    out.insert(j, x);
    out_keys.insert(j, k);
    proof {
        let nk = out_keys@.map_values(|s: SortKey| s@);
        assert(nk =~= ok.take(j as int).push(ks) + ok.skip(j as int));
        assert forall|a: int, b: int| 0 <= a < b < nk.len() implies key_lt(
            #[trigger] nk[a],
            #[trigger] nk[b],
        ) by {
            if b < j {
                assert(nk[a] == ok[a] && nk[b] == ok[b]);
            } else if b == j {
                assert(nk[a] == ok[a]);
                if a < j - 1 {
                    assert(key_lt(ok[a], ok[j - 1]));
                    lemma_key_lt_trans(ok[a], ok[j - 1], ks);
                }
            } else if a < j {
                assert(nk[a] == ok[a] && nk[b] == ok[b - 1]);
                if a < b - 1 {
                } else {
                }
            } else if a == j {
                assert(nk[b] == ok[b - 1]);
            } else {
                assert(nk[a] == ok[a - 1] && nk[b] == ok[b - 1]);
            }
        }
    }
    j
}


proof fn lemma_insert_views<T, U>(
    r: Seq<T>,
    x: T,
    f: spec_fn(T) -> U,
    key: spec_fn(U) -> KeyView,
    k2: spec_fn(T) -> KeyView,
)
    requires
        forall|t: T| #[trigger] k2(t) == key(f(t)),
    ensures
        insert_by(r, x, k2).map_values(f) == insert_by(r.map_values(f), f(x), key),
    decreases r.len(),
{
    if r.len() == 0 {
        assert(insert_by(r, x, k2).map_values(f) =~= seq![f(x)]);
    } else {
        assert(k2(r.last()) == key(f(r.last())));
        assert(k2(x) == key(f(x)));
        assert(r.map_values(f).last() == f(r.last()));
        assert(r.map_values(f).drop_last() =~= r.drop_last().map_values(f));
        if key_le(k2(r.last()), k2(x)) {
            assert(r.push(x).map_values(f) =~= r.map_values(f).push(f(x)));
        } else {
            lemma_insert_views(r.drop_last(), x, f, key, k2);
            assert(insert_by(r.drop_last(), x, k2).push(r.last()).map_values(f) =~= insert_by(
                r.drop_last(),
                x,
                k2,
            ).map_values(f).push(f(r.last())));
        }
    }
}

/// Sorting commutes with taking views when the key only depends on the view.
pub proof fn lemma_sort_views<T, U>(
    s: Seq<T>,
    f: spec_fn(T) -> U,
    key: spec_fn(U) -> KeyView,
    k2: spec_fn(T) -> KeyView,
)
    requires
        forall|t: T| #[trigger] k2(t) == key(f(t)),
    ensures
        stable_sort(s, k2).map_values(f) == stable_sort(s.map_values(f), key),
    decreases s.len(),
{
    if s.len() == 0 {
        assert(stable_sort(s, k2).map_values(f) =~= stable_sort(s.map_values(f), key));
    } else {
        lemma_sort_views(s.drop_last(), f, key, k2);
        assert(s.map_values(f).drop_last() =~= s.drop_last().map_values(f));
        assert(s.map_values(f).last() == f(s.last()));
        lemma_insert_views(stable_sort(s.drop_last(), k2), s.last(), f, key, k2);
    }
}

/// The stable sort keeps the length.
pub proof fn lemma_stable_sort_len<T>(s: Seq<T>, key: spec_fn(T) -> KeyView)
    ensures
        stable_sort(s, key).len() == s.len(),
    decreases s.len(),
{
    if s.len() > 0 {
        lemma_stable_sort_len(s.drop_last(), key);
        lemma_insert_len(stable_sort(s.drop_last(), key), s.last(), key);
    }
}

proof fn lemma_insert_len<T>(r: Seq<T>, x: T, key: spec_fn(T) -> KeyView)
    ensures
        insert_by(r, x, key).len() == r.len() + 1,
    decreases r.len(),
{
    if r.len() > 0 && !key_le(key(r.last()), key(x)) {
        lemma_insert_len(r.drop_last(), x, key);
    }
}


/// The key of a string sorted by itself.
pub open spec fn text_key(t: Seq<char>) -> KeyView {
    KeyView { num: 0, text: t, text2: Seq::empty() }
}

/// The views of a sequence of strings.
pub open spec fn texts(v: Seq<String>) -> Seq<Seq<char>> {
    v.map_values(|s: String| s@)
}

/// `r` holds the distinct strings of `src`, each once, in ascending order.
pub open spec fn sorted_distinct_of(r: Seq<Seq<char>>, src: Seq<Seq<char>>) -> bool {
    &&& strictly_sorted(r.map_values(|t: Seq<char>| text_key(t)))
    &&& forall|m: int| 0 <= m < r.len() ==> src.contains(#[trigger] r[m])
    &&& forall|j: int| 0 <= j < src.len() ==> r.contains(#[trigger] src[j])
}

/// The distinct strings of `v`, in ascending order.
pub fn sorted_distinct(v: &Vec<String>) -> (r: Vec<String>)
    ensures
        sorted_distinct_of(texts(r@), texts(v@)),
{
    let mut out: Vec<String> = Vec::new();
    let mut keys: Vec<SortKey> = Vec::new();
    let mut i: usize = 0;
    while i < v.len()
        invariant
            i <= v@.len(),
            out@.len() == keys@.len(),
            strictly_sorted(keys@.map_values(|s: SortKey| s@)),
            forall|m: int| 0 <= m < keys@.len() ==> #[trigger] keys@[m]@ == text_key(out@[m]@),
            forall|m: int| #![trigger out@[m]] 0 <= m < out@.len() ==> exists|j: int| 0 <= j < i && #[trigger] v@[j]@ == out@[m]@,
            forall|j: int| #![trigger v@[j]] 0 <= j < i ==> exists|m: int| 0 <= m < out@.len() && #[trigger] out@[m]@ == v@[j]@,
        decreases v@.len() - i,
    {
        let mut found = false;
        let mut m: usize = 0;
        while m < out.len()
            invariant
                m <= out@.len(),
                i < v@.len(),
                !found ==> forall|q: int| 0 <= q < m ==> #[trigger] out@[q]@ != v@[i as int]@,
                found ==> exists|q: int| 0 <= q < out@.len() && #[trigger] out@[q]@ == v@[i as int]@,
            decreases out@.len() - m,
        {
            if out[m] == v[i] {
                found = true;
                assert(out@[m as int]@ == v@[i as int]@);
            }
            m = m + 1;
        }
        if !found {
            let ghost old_out = out@;
            let ghost old_keys = keys@;
            let k = SortKey::text(v[i].as_str());
            assert forall|q: int| 0 <= q < old_keys.len() implies #[trigger] old_keys[q]@ != k@ by {
                assert(old_out[q]@ != v@[i as int]@);
            }
            let x = crate::text::copy_string(&v[i]);
            let p = insert_sorted(&mut out, &mut keys, x, k);
            proof {
                assert(out@[p as int] == x);
                assert forall|q: int| 0 <= q < keys@.len() implies #[trigger] keys@[q]@ == text_key(out@[q]@) by {
                    let kv = keys@.map_values(|s: SortKey| s@);
                    let okv = old_keys.map_values(|s: SortKey| s@);
                    assert(kv[q] == keys@[q]@);
                    if q < p {
                        assert(out@[q] == old_out[q]);
                        assert(okv[q] == old_keys[q]@);
                    } else if q > p {
                        assert(out@[q] == old_out[q - 1]);
                        assert(okv[q - 1] == old_keys[q - 1]@);
                    }
                }
                assert forall|q: int| #![trigger out@[q]] 0 <= q < out@.len() implies exists|j: int| 0 <= j < i + 1 && #[trigger] v@[j]@ == out@[q]@ by {
                    if q < p {
                        assert(out@[q] == old_out[q]);
                    } else if q == p {
                        assert(v@[i as int]@ == out@[q]@);
                    } else {
                        assert(out@[q] == old_out[q - 1]);
                    }
                }
                assert forall|j: int| #![trigger v@[j]] 0 <= j < i + 1 implies exists|q: int| 0 <= q < out@.len() && #[trigger] out@[q]@ == v@[j]@ by {
                    if j == i {
                        assert(out@[p as int]@ == v@[j]@);
                    } else {
                        let q0 = choose|q: int| 0 <= q < old_out.len() && #[trigger] old_out[q]@ == v@[j]@;
                        if q0 < p {
                            assert(out@[q0] == old_out[q0]);
                        } else {
                            assert(out@[q0 + 1] == old_out[q0]);
                        }
                    }
                }
            }
        }
        i = i + 1;
    }
    proof {
        let r = texts(out@);
        let src = texts(v@);
        assert(keys@.map_values(|s: SortKey| s@) =~= r.map_values(|t: Seq<char>| text_key(t)));
        assert forall|m: int| 0 <= m < r.len() implies src.contains(#[trigger] r[m]) by {
            let j = choose|j: int| 0 <= j < v@.len() && #[trigger] v@[j]@ == out@[m]@;
            assert(src[j] == r[m]);
        }
        assert forall|j: int| 0 <= j < src.len() implies r.contains(#[trigger] src[j]) by {
            let m = choose|m: int| 0 <= m < out@.len() && #[trigger] out@[m]@ == v@[j]@;
            assert(r[m] == src[j]);
        }
    }
    out
}


/// `a` does not come after `b` in the given direction (descending reverses
/// the key order).
pub open spec fn key_le_dir(a: KeyView, b: KeyView, desc: bool) -> bool {
    if desc {
        key_le(b, a)
    } else {
        key_le(a, b)
    }
}

/// `key_le_dir` in executable form.
pub fn le_dir(a: &SortKey, b: &SortKey, desc: bool) -> (r: bool)
    ensures
        r == key_le_dir(a@, b@, desc),
{
    if desc {
        b.le(a)
    } else {
        a.le(b)
    }
}

/// `insert_by` in the given direction.
pub open spec fn insert_by_dir<T>(r: Seq<T>, x: T, key: spec_fn(T) -> KeyView, desc: bool) -> Seq<T>
    decreases r.len(),
{
    if r.len() == 0 {
        seq![x]
    } else if key_le_dir(key(r.last()), key(x), desc) {
        r.push(x)
    } else {
        insert_by_dir(r.drop_last(), x, key, desc).push(r.last())
    }
}

/// The stable sort of `s` by `key` in the given direction.
pub open spec fn stable_sort_dir<T>(s: Seq<T>, key: spec_fn(T) -> KeyView, desc: bool) -> Seq<T>
    decreases s.len(),
{
    if s.len() == 0 {
        s
    } else {
        insert_by_dir(stable_sort_dir(s.drop_last(), key, desc), s.last(), key, desc)
    }
}

proof fn lemma_insert_at_dir<T>(r: Seq<T>, x: T, key: spec_fn(T) -> KeyView, desc: bool, j: int)
    requires
        0 <= j <= r.len(),
        forall|i: int| j <= i < r.len() ==> !key_le_dir(#[trigger] key(r[i]), key(x), desc),
        j == 0 || key_le_dir(key(r[j - 1]), key(x), desc),
    ensures
        insert_by_dir(r, x, key, desc) == r.take(j).push(x) + r.skip(j),
    decreases r.len(),
{
    if r.len() == 0 {
        assert(r.take(j).push(x) + r.skip(j) =~= seq![x]);
    } else if key_le_dir(key(r.last()), key(x), desc) {
        assert(j == r.len());
        assert(r.take(j).push(x) + r.skip(j) =~= r.push(x));
    } else {
        assert(j < r.len());
        lemma_insert_at_dir(r.drop_last(), x, key, desc, j);
        assert(r.drop_last().take(j).push(x) + r.drop_last().skip(j) + seq![r.last()] =~= r.take(
            j,
        ).push(x) + r.skip(j));
    }
}

/// Sorts `items` stably by `keys` in the given direction, where `keys[i]`
/// is the key of `items[i]`.
pub fn sort_stable_dir<T>(items: Vec<T>, keys: Vec<SortKey>, desc: bool, Ghost(key): Ghost<spec_fn(T) -> KeyView>) -> (r: Vec<T>)
    requires
        items@.len() == keys@.len(),
        forall|i: int| 0 <= i < items@.len() ==> #[trigger] keys@[i]@ == key(items@[i]),
    ensures
        r@ == stable_sort_dir(items@, key, desc),
{
    let ghost orig = items@;
    let mut items = items;
    let mut keys = keys;
    let mut out: Vec<T> = Vec::new();
    let mut out_keys: Vec<SortKey> = Vec::new();
    let n = items.len();
    let mut i: usize = 0;
    while items.len() > 0
        invariant
            items@.len() == keys@.len(),
            i + items@.len() == n,
            n == orig.len(),
            items@ == orig.skip(i as int),
            forall|j: int| 0 <= j < items@.len() ==> #[trigger] keys@[j]@ == key(items@[j]),
            out@ == stable_sort_dir(orig.take(i as int), key, desc),
            out@.len() == out_keys@.len(),
            forall|j: int| 0 <= j < out@.len() ==> #[trigger] out_keys@[j]@ == key(out@[j]),
        decreases items@.len(),
    {
        let x = items.remove(0);
        let k = keys.remove(0);
        assert(k@ == key(x));
        assert(orig.take(i + 1).drop_last() =~= orig.take(i as int));
        assert(orig.take(i + 1).last() == x);
        assert(items@ =~= orig.skip(i + 1));
        let mut j = out.len();
        while j > 0 && !le_dir(&out_keys[j - 1], &k, desc)
            invariant
                j <= out@.len(),
                out@.len() == out_keys@.len(),
                forall|m: int| 0 <= m < out@.len() ==> #[trigger] out_keys@[m]@ == key(out@[m]),
                forall|m: int| j <= m < out@.len() ==> !key_le_dir(#[trigger] key(out@[m]), key(x), desc),
                k@ == key(x),
            decreases j,
        {
            j = j - 1;
        }
        proof {
            lemma_insert_at_dir(out@, x, key, desc, j as int);
        }
        let ghost before = out@;
        out.insert(j, x);
        out_keys.insert(j, k);
        assert(out@ =~= before.take(j as int).push(x) + before.skip(j as int));
        assert forall|m: int| 0 <= m < out@.len() implies #[trigger] out_keys@[m]@ == key(out@[m]) by {
            if m < j {
            } else if m == j {
            } else {
                assert(out@[m] == before[m - 1]);
            }
        }
        i = i + 1;
    }
    assert(orig.take(n as int) =~= orig);
    out
}

proof fn lemma_insert_views_dir<T, U>(
    r: Seq<T>,
    x: T,
    f: spec_fn(T) -> U,
    key: spec_fn(U) -> KeyView,
    k2: spec_fn(T) -> KeyView,
    desc: bool,
)
    requires
        forall|t: T| #[trigger] k2(t) == key(f(t)),
    ensures
        insert_by_dir(r, x, k2, desc).map_values(f) == insert_by_dir(r.map_values(f), f(x), key, desc),
    decreases r.len(),
{
    if r.len() == 0 {
        assert(insert_by_dir(r, x, k2, desc).map_values(f) =~= seq![f(x)]);
    } else {
        assert(k2(r.last()) == key(f(r.last())));
        assert(k2(x) == key(f(x)));
        assert(r.map_values(f).last() == f(r.last()));
        assert(r.map_values(f).drop_last() =~= r.drop_last().map_values(f));
        if key_le_dir(k2(r.last()), k2(x), desc) {
            assert(r.push(x).map_values(f) =~= r.map_values(f).push(f(x)));
        } else {
            lemma_insert_views_dir(r.drop_last(), x, f, key, k2, desc);
            assert(insert_by_dir(r.drop_last(), x, k2, desc).push(r.last()).map_values(f) =~= insert_by_dir(
                r.drop_last(),
                x,
                k2,
                desc,
            ).map_values(f).push(f(r.last())));
        }
    }
}

/// Sorting in a direction commutes with taking views when the key only
/// depends on the view.
pub proof fn lemma_sort_views_dir<T, U>(
    s: Seq<T>,
    f: spec_fn(T) -> U,
    key: spec_fn(U) -> KeyView,
    k2: spec_fn(T) -> KeyView,
    desc: bool,
)
    requires
        forall|t: T| #[trigger] k2(t) == key(f(t)),
    ensures
        stable_sort_dir(s, k2, desc).map_values(f) == stable_sort_dir(s.map_values(f), key, desc),
    decreases s.len(),
{
    if s.len() == 0 {
        assert(stable_sort_dir(s, k2, desc).map_values(f) =~= stable_sort_dir(s.map_values(f), key, desc));
    } else {
        lemma_sort_views_dir(s.drop_last(), f, key, k2, desc);
        assert(s.map_values(f).drop_last() =~= s.drop_last().map_values(f));
        assert(s.map_values(f).last() == f(s.last()));
        lemma_insert_views_dir(stable_sort_dir(s.drop_last(), k2, desc), s.last(), f, key, k2, desc);
    }
}


/// `r` is ordered by `key`: no item's key exceeds a later one's.
pub open spec fn sorted_by<T>(r: Seq<T>, key: spec_fn(T) -> KeyView) -> bool {
    forall|i: int, j: int| 0 <= i < j < r.len() ==> key_le(#[trigger] key(r[i]), #[trigger] key(r[j]))
}

/// `key_le` is the negation of the reversed `key_lt`.
pub proof fn lemma_key_le_not_lt(a: KeyView, b: KeyView)
    ensures
        key_le(a, b) == !key_lt(b, a),
{
    lemma_seq_lt_trichotomy(a.text, b.text);
    lemma_seq_lt_trichotomy(a.text2, b.text2);
}

/// `key_le` is total, reflexive and transitive.
pub proof fn lemma_key_le_order(a: KeyView, b: KeyView, c: KeyView)
    ensures
        key_le(a, b) || key_le(b, a),
        key_le(a, a),
        key_le(a, b) && key_le(b, c) ==> key_le(a, c),
{
    lemma_key_le_not_lt(a, b);
    lemma_key_le_not_lt(b, a);
    lemma_key_le_not_lt(a, a);
    lemma_key_le_not_lt(b, c);
    lemma_key_le_not_lt(a, c);
    lemma_key_lt_trichotomy(a, b);
    lemma_key_lt_trichotomy(b, c);
    lemma_key_lt_trichotomy(a, c);
    if key_le(a, b) && key_le(b, c) && key_lt(c, a) {
        if key_lt(a, b) {
            lemma_key_lt_trans(c, a, b);
        }
    }
}

proof fn lemma_insert_elems<T>(r: Seq<T>, x: T, key: spec_fn(T) -> KeyView)
    ensures
        insert_by(r, x, key).len() == r.len() + 1,
        forall|k: int|
            0 <= k < insert_by(r, x, key).len() ==> #[trigger] insert_by(r, x, key)[k] == x || r.contains(
                insert_by(r, x, key)[k],
            ),
    decreases r.len(),
{
    if r.len() > 0 {
        if key_le(key(r.last()), key(x)) {
            assert forall|k: int| 0 <= k < r.len() implies r.contains(#[trigger] r.push(x)[k]) by {
                assert(r.push(x)[k] == r[k]);
            }
        } else {
            let d = r.drop_last();
            lemma_insert_elems(d, x, key);
            let res = insert_by(r, x, key);
            assert forall|k: int| 0 <= k < res.len() implies #[trigger] res[k] == x || r.contains(res[k]) by {
                if k < res.len() - 1 {
                    assert(res[k] == insert_by(d, x, key)[k]);
                    if insert_by(d, x, key)[k] != x {
                        let m = choose|m: int| 0 <= m < d.len() && d[m] == insert_by(d, x, key)[k];
                        assert(r[m] == d[m]);
                    }
                } else {
                    assert(res[k] == r[r.len() - 1]);
                }
            }
        }
    }
}

proof fn lemma_insert_sorted<T>(r: Seq<T>, x: T, key: spec_fn(T) -> KeyView)
    requires
        sorted_by(r, key),
    ensures
        sorted_by(insert_by(r, x, key), key),
    decreases r.len(),
{
    let res = insert_by(r, x, key);
    if r.len() == 0 {
    } else if key_le(key(r.last()), key(x)) {
        assert forall|i: int, j: int| 0 <= i < j < res.len() implies key_le(#[trigger] key(res[i]), #[trigger] key(res[j])) by {
            assert(res[i] == r[i]);
            if j < r.len() {
                assert(res[j] == r[j]);
            } else {
                lemma_key_le_order(key(r[i]), key(r.last()), key(x));
                if i < r.len() - 1 {
                    assert(key_le(key(r[i]), key(r[r.len() - 1])));
                }
            }
        }
    } else {
        let d = r.drop_last();
        assert(sorted_by(d, key)) by {
            assert forall|i: int, j: int| 0 <= i < j < d.len() implies key_le(#[trigger] key(d[i]), #[trigger] key(d[j])) by {
                assert(d[i] == r[i] && d[j] == r[j]);
            }
        }
        lemma_insert_sorted(d, x, key);
        lemma_insert_elems(d, x, key);
        let mid = insert_by(d, x, key);
        let last = r.last();
        lemma_key_le_not_lt(key(last), key(x));
        lemma_key_le_not_lt(key(x), key(last));
        lemma_key_lt_trichotomy(key(x), key(last));
        assert(key_le(key(x), key(last)));
        assert forall|i: int, j: int| 0 <= i < j < res.len() implies key_le(#[trigger] key(res[i]), #[trigger] key(res[j])) by {
            assert(res[i] == mid[i]);
            if j < mid.len() {
                assert(res[j] == mid[j]);
            } else {
                assert(res[j] == last);
                if mid[i] != x {
                    let m = choose|m: int| 0 <= m < d.len() && d[m] == mid[i];
                    assert(r[m] == d[m]);
                    assert(key_le(key(r[m]), key(r[r.len() - 1])));
                }
            }
        }
    }
}

/// The stable sort puts items in key order.
pub proof fn lemma_stable_sort_sorted<T>(s: Seq<T>, key: spec_fn(T) -> KeyView)
    ensures
        sorted_by(stable_sort(s, key), key),
    decreases s.len(),
{
    if s.len() > 0 {
        lemma_stable_sort_sorted(s.drop_last(), key);
        lemma_insert_sorted(stable_sort(s.drop_last(), key), s.last(), key);
    }
}

/// The stable sort only holds items of its input.
pub proof fn lemma_stable_sort_elems<T>(s: Seq<T>, key: spec_fn(T) -> KeyView)
    ensures
        stable_sort(s, key).len() == s.len(),
        forall|k: int| 0 <= k < stable_sort(s, key).len() ==> s.contains(#[trigger] stable_sort(s, key)[k]),
    decreases s.len(),
{
    if s.len() > 0 {
        let d = s.drop_last();
        lemma_stable_sort_elems(d, key);
        lemma_insert_elems(stable_sort(d, key), s.last(), key);
        let res = stable_sort(s, key);
        assert forall|k: int| 0 <= k < res.len() implies s.contains(#[trigger] res[k]) by {
            if res[k] == s.last() {
                assert(s[s.len() - 1] == res[k]);
            } else {
                let m = choose|m: int| 0 <= m < stable_sort(d, key).len() && stable_sort(d, key)[m] == res[k];
                let m2 = choose|m2: int| 0 <= m2 < d.len() && d[m2] == stable_sort(d, key)[m];
                assert(s[m2] == d[m2]);
            }
        }
    }
}

} // verus!
