//! Comparisons of PQL values: integers, strings, booleans, and binary64
//! floating-point numbers given by their bit patterns.
use vstd::prelude::*;

use crate::fact::is_nan_bits;
use crate::sort::seq_lt;

verus! {

/// The outcome of a comparison.
#[derive(Debug, Clone, Copy, PartialEq, Eq, Structural)]
pub enum Rel {
    Less,
    Equal,
    Greater,
}

/// The comparison of two integers.
pub open spec fn compare_int(a: int, b: int) -> Rel {
    if a < b {
        Rel::Less
    } else if a == b {
        Rel::Equal
    } else {
        Rel::Greater
    }
}

/// The comparison of two strings, character by character.
pub open spec fn compare_text(a: Seq<char>, b: Seq<char>) -> Rel {
    if seq_lt(a, b) {
        Rel::Less
    } else if a == b {
        Rel::Equal
    } else {
        Rel::Greater
    }
}

/// The position of a binary64 number on the number line, from its bit
/// pattern: the magnitude bits, negated for a set sign bit (both zeros at 0).
/// For numbers that are not NaN this orders them as their values.
pub open spec fn float_key(b: u64) -> int {
    let mag = (b % 0x8000_0000_0000_0000) as int;
    if b >= 0x8000_0000_0000_0000 {
        -mag
    } else {
        mag
    }
}

/// The comparison of two binary64 numbers: none when either is NaN.
pub open spec fn float_order(a: u64, b: u64) -> Option<Rel> {
    if is_nan_bits(a) || is_nan_bits(b) {
        None
    } else {
        Some(compare_int(float_key(a), float_key(b)))
    }
}

/// `2^k`.
pub open spec fn p2(k: nat) -> nat
    decreases k,
{
    if k == 0 {
        1
    } else {
        2 * p2((k - 1) as nat)
    }
}

/// The position of the highest set bit of `m`.
pub open spec fn log2(m: nat) -> nat
    decreases m,
{
    if m < 2 {
        0
    } else {
        1 + log2(m / 2)
    }
}

/// The significand (with its leading 1, 53 bits) and exponent of the
/// binary64 number nearest to `m` (ties to an even significand), for
/// `1 <= m <= 2^63`.
pub open spec fn round_to_double(m: nat) -> (nat, nat) {
    let e = log2(m);
    if e <= 52 {
        (m * p2((52 - e) as nat), e)
    } else {
        let sh = (e - 52) as nat;
        let q = m / p2(sh);
        let rem = m % p2(sh);
        let half = p2((sh - 1) as nat);
        let q1 = if rem > half || (rem == half && q % 2 == 1) {
            q + 1
        } else {
            q
        };
        if q1 == p2(53) {
            (p2(52), e + 1)
        } else {
            (q1, e)
        }
    }
}

/// The bit pattern of the binary64 number nearest to `x` (ties to even), as
/// the conversion `x as f64` gives it.
pub open spec fn spec_i64_bits(x: i64) -> u64 {
    if x == 0 {
        0
    } else {
        let m: nat = if x < 0 {
            (-(x as int)) as nat
        } else {
            x as nat
        };
        let (q, e) = round_to_double(m);
        let sign: int = if x < 0 {
            0x8000_0000_0000_0000
        } else {
            0
        };
        (sign + (e + 1023) * 0x10_0000_0000_0000 + (q - 0x10_0000_0000_0000)) as u64
    }
}

proof fn lemma_p2_values()
    ensures
        p2(52) == 0x10_0000_0000_0000,
        p2(53) == 0x20_0000_0000_0000,
        p2(63) == 0x8000_0000_0000_0000,
{
    reveal_with_fuel(p2, 64);
}

proof fn lemma_p2_add(a: nat, b: nat)
    ensures
        p2(a) * p2(b) == p2(a + b),
    decreases a,
{
    if a == 0 {
        assert(p2(0) == 1);
    } else {
        let a1 = (a - 1) as nat;
        lemma_p2_add(a1, b);
        assert(p2(a) == 2 * p2(a1));
        assert(a + b == (a1 + b) + 1);
        assert(p2(a + b) == 2 * p2(a1 + b));
        assert(p2(a) * p2(b) == 2 * (p2(a1) * p2(b))) by (nonlinear_arith)
            requires
                p2(a) == 2 * p2(a1),
        ;
    }
}

proof fn lemma_p2_pos(k: nat)
    ensures
        p2(k) >= 1,
    decreases k,
{
    if k > 0 {
        lemma_p2_pos((k - 1) as nat);
    }
}

proof fn lemma_p2_mono(a: nat, b: nat)
    requires
        a <= b,
    ensures
        p2(a) <= p2(b),
    decreases b,
{
    if a < b {
        lemma_p2_mono(a, (b - 1) as nat);
        lemma_p2_pos((b - 1) as nat);
    }
}

proof fn lemma_log2_bounds(m: nat)
    requires
        m >= 1,
    ensures
        p2(log2(m)) <= m < p2(log2(m) + 1),
    decreases m,
{
    if m >= 2 {
        lemma_log2_bounds(m / 2);
        assert(p2(log2(m)) == 2 * p2(log2(m / 2)));
        assert(p2(log2(m) + 1) == 2 * p2(log2(m / 2) + 1));
    }
}

/// The comparison of two integers.
pub fn compare_i64(a: i64, b: i64) -> (r: Rel)
    ensures
        r == compare_int(a as int, b as int),
{
    if a < b {
        Rel::Less
    } else if a == b {
        Rel::Equal
    } else {
        Rel::Greater
    }
}

/// The comparison of two binary64 numbers by their bit patterns.
pub fn float_compare(a: u64, b: u64) -> (r: Option<Rel>)
    ensures
        r == float_order(a, b),
{
    let a_nan = (a / 0x10_0000_0000_0000) % 0x800 == 0x7ff && a % 0x10_0000_0000_0000 != 0;
    let b_nan = (b / 0x10_0000_0000_0000) % 0x800 == 0x7ff && b % 0x10_0000_0000_0000 != 0;
    if a_nan || b_nan {
        return None;
    }
    let am = (a % 0x8000_0000_0000_0000) as i128;
    let bm = (b % 0x8000_0000_0000_0000) as i128;
    let ak = if a >= 0x8000_0000_0000_0000 {
        -am
    } else {
        am
    };
    let bk = if b >= 0x8000_0000_0000_0000 {
        -bm
    } else {
        bm
    };
    if ak < bk {
        Some(Rel::Less)
    } else if ak == bk {
        Some(Rel::Equal)
    } else {
        Some(Rel::Greater)
    }
}

/// `2^k` for `k < 64`.
fn pow2_u64(k: u64) -> (r: u64)
    requires
        k < 64,
    ensures
        r == p2(k as nat),
{
    let mut r: u64 = 1;
    let mut i: u64 = 0;
    while i < k
        invariant
            i <= k,
            k < 64,
            r == p2(i as nat),
        decreases k - i,
    {
        proof {
            lemma_p2_mono((i + 1) as nat, 63);
            lemma_p2_values();
        }
        r = r * 2;
        i = i + 1;
    }
    r
}

/// The bit pattern of `x as f64`.
pub fn i64_to_f64_bits(x: i64) -> (r: u64)
    ensures
        r == spec_i64_bits(x),
{
    if x == 0 {
        return 0;
    }
    let m: u64 = if x < 0 {
        if x == i64::MIN {
            0x8000_0000_0000_0000
        } else {
            (-x) as u64
        }
    } else {
        x as u64
    };
    let ghost mn: nat = if x < 0 {
        (-(x as int)) as nat
    } else {
        x as nat
    };
    assert(m == mn);
    proof {
        lemma_log2_bounds(m as nat);
        lemma_p2_values();
        if log2(m as nat) > 63 {
            lemma_p2_mono(64, log2(m as nat));
            assert(p2(64) == 2 * p2(63));
        }
    }
    let mut e: u64 = 0;
    let mut t: u64 = m;
    while t >= 2
        invariant
            t >= 1,
            log2(m as nat) == e + log2(t as nat),
            e < 64,
            t <= m,
            m <= 0x8000_0000_0000_0000,
            log2(m as nat) <= 63,
        decreases t,
    {
        t = t / 2;
        e = e + 1;
    }
    proof {
        lemma_log2_bounds(m as nat);
        lemma_p2_values();
        if log2(m as nat) > 63 {
            lemma_p2_mono(64, log2(m as nat));
            assert(p2(64) == 2 * p2(63));
        }
    }
    let (q, e2): (u64, u64) = if e <= 52 {
        let p = pow2_u64(52 - e);
        proof {
            lemma_p2_add(e as nat, (52 - e) as nat);
            lemma_p2_add((e + 1) as nat, (52 - e) as nat);
            lemma_p2_pos((52 - e) as nat);
            assert(m * p < p2((e + 1) as nat) * p) by (nonlinear_arith)
                requires
                    m < p2((e + 1) as nat),
                    p >= 1,
            ;
        }
        (m * p, e)
    } else {
        let sh = e - 52;
        let p = pow2_u64(sh);
        proof {
            lemma_p2_pos(sh as nat);
        }
        let q0 = m / p;
        let rem = m % p;
        let half = pow2_u64(sh - 1);
        let q1 = if rem > half || (rem == half && q0 % 2 == 1) {
            q0 + 1
        } else {
            q0
        };
        proof {
            lemma_p2_add(53, sh as nat);
            lemma_p2_pos(sh as nat);
            assert(q0 < p2(53)) by (nonlinear_arith)
                requires
                    q0 == m / p,
                    m < p2((e + 1) as nat),
                    p2((e + 1) as nat) == p2(53) * p,
                    p >= 1,
            ;
        }
        if q1 == pow2_u64(53) {
            (pow2_u64(52), e + 1)
        } else {
            (q1, e)
        }
    };
    proof {
        lemma_p2_values();
        if e <= 52 {
            lemma_p2_add(e as nat, (52 - e) as nat);
            assert(q >= p2(52)) by (nonlinear_arith)
                requires
                    q == m * p2((52 - e) as nat),
                    m >= p2(e as nat),
                    p2(e as nat) * p2((52 - e) as nat) == p2(52),
            ;
        } else {
            let sh = (e - 52) as nat;
            lemma_p2_add(52, sh);
            lemma_p2_pos(sh);
            assert((m as nat) / p2(sh) >= p2(52)) by (nonlinear_arith)
                requires
                    m >= p2(e as nat),
                    p2(e as nat) == p2(52) * p2(sh),
                    p2(sh) >= 1,
            ;
        }
    }
    let sign: u64 = if x < 0 {
        0x8000_0000_0000_0000
    } else {
        0
    };
    sign + (e2 + 1023) * 0x10_0000_0000_0000 + (q - 0x10_0000_0000_0000)
}

} // verus!
