//! Hybrid Logical Clock (Kulkarni & Demirbas, 2014).
//!
//! An HLC is a single `u64`: 48 bits of physical time (milliseconds since the
//! Unix epoch) followed by a 16-bit logical counter, so that timestamps compare
//! like integers: a later physical time is always greater, and for equal
//! physical times a higher logical counter is greater.
use vstd::prelude::*;

use crate::text::{chars_of, string_from_chars};

verus! {

/// Number of bits of the logical counter.
pub const LOGICAL_BITS: u64 = 16;

/// Mask selecting the logical counter.
pub const LOGICAL_MASK: u64 = 0xffff;

/// An incoming HLC more than this many milliseconds ahead of the local wall
/// clock is rejected.
pub const MAX_DRIFT_MS: u64 = 60_000;

/// Exclusive upper bound of the physical part (2^48).
pub const PHYSICAL_LIMIT: u64 = 0x1_0000_0000_0000;

/// A hybrid logical clock timestamp.
#[derive(Debug, Clone, Copy, PartialEq, Eq, Structural, PartialOrd, Ord, Hash)]
pub struct Hlc(pub u64);

/// The physical part of an encoded HLC.
pub open spec fn spec_physical(v: u64) -> nat {
    (v / 0x10000) as nat
}

/// The logical part of an encoded HLC.
pub open spec fn spec_logical(v: u64) -> nat {
    (v % 0x10000) as nat
}

/// The encoding of a physical time and a logical counter; physical times of
/// 2^48 ms and above lose their high bits, as a 64-bit shift does.
pub open spec fn spec_encode(physical_ms: nat, logical: nat) -> nat {
    (physical_ms % 0x1_0000_0000_0000) * 0x10000 + logical
}

proof fn lemma_encode_bits(p: u64, l: u16)
    ensures
        (p << 16u64) | (l as u64) == spec_encode(p as nat, l as nat),
        spec_encode(p as nat, l as nat) <= u64::MAX,
{
    assert((p << 16u64) | (l as u64) == (p % 0x1_0000_0000_0000) * 0x10000 + (l as u64))
        by (bit_vector);
}

impl Hlc {
    /// Packs a physical time (ms) and a logical counter.
    pub fn from_parts(physical_ms: u64, logical: u16) -> (h: Hlc)
        ensures
            h.0 == spec_encode(physical_ms as nat, logical as nat),
    {
        proof {
            lemma_encode_bits(physical_ms, logical);
        }
        Hlc((physical_ms << LOGICAL_BITS) | (logical as u64))
    }

    /// The physical part, in milliseconds since the Unix epoch.
    pub fn physical_ms(&self) -> (p: u64)
        ensures
            p == spec_physical(self.0),
            p < PHYSICAL_LIMIT,
    {
        let v = self.0;
        assert(v >> 16u64 == v / 0x10000) by (bit_vector);
        assert(v / 0x10000 < 0x1_0000_0000_0000) by (bit_vector);
        v >> LOGICAL_BITS
    }

    /// The logical counter.
    pub fn logical(&self) -> (l: u16)
        ensures
            l == spec_logical(self.0),
    {
        let v = self.0;
        assert(v & 0xffff == v % 0x10000) by (bit_vector);
        (v & LOGICAL_MASK) as u16
    }

    /// The physical part as a point in time.
    pub fn to_datetime(&self) -> (t: crate::fact::Timestamp)
        ensures
            t.secs == spec_physical(self.0) / 1000,
            t.nanos == (spec_physical(self.0) % 1000) * 1_000_000,
    {
        let ms = self.physical_ms();
        crate::fact::Timestamp { secs: (ms / 1000) as i64, nanos: ((ms % 1000) * 1_000_000) as u32 }
    }

    /// The zero timestamp.
    pub fn zero() -> (h: Hlc)
        ensures
            h.0 == 0,
    {
        Hlc(0)
    }

    /// Whether this is the zero timestamp.
    pub fn is_zero(&self) -> (b: bool)
        ensures
            b == (self.0 == 0),
    {
        self.0 == 0
    }

    /// The timestamp as 16 lowercase hexadecimal digits.
    pub fn to_string(&self) -> (s: String)
        ensures
            s@ == crate::text::spec_hex16(self.0 as nat),
    {
        string_from_chars(&crate::text::hex16(self.0))
    }

    /// Parses a hexadecimal timestamp. Every leading `0x` is removed first; the
    /// rest is read as `u64::from_str_radix(_, 16)` reads it: an optional `+`,
    /// then one or more hexadecimal digits of either case, at most `u64::MAX`.
    pub fn parse(s: &str) -> (r: Result<Hlc, HexError>)
        ensures
            r == spec_parse_hlc(s@),
    {
        let v = chars_of(s);
        let start = skip_0x_prefixes(&v);
        match crate::text::parse_hex_u64(&v, start) {
            Ok(n) => Ok(Hlc(n)),
            Err(e) => Err(e),
        }
    }
}

/// Why a hexadecimal number did not parse.
#[derive(Debug, Clone, Copy, PartialEq, Eq, Structural)]
pub enum HexError {
    /// No digits.
    Empty,
    /// A character that is not a hexadecimal digit.
    InvalidDigit,
    /// The value does not fit in 64 bits.
    Overflow,
}

/// The index after all leading `0x` pairs of `s`, counted from `i`.
pub open spec fn spec_skip_0x(s: Seq<char>, i: int) -> int
    decreases s.len() - i,
{
    if 0 <= i && i + 2 <= s.len() && s[i] == '0' && s[i + 1] == 'x' {
        spec_skip_0x(s, i + 2)
    } else {
        i
    }
}

/// What parsing `s` as an HLC gives.
pub open spec fn spec_parse_hlc(s: Seq<char>) -> Result<Hlc, HexError> {
    match crate::text::spec_parse_hex(s.subrange(spec_skip_0x(s, 0), s.len() as int)) {
        Ok(n) => Ok(Hlc(n)),
        Err(e) => Err(e),
    }
}

fn skip_0x_prefixes(v: &Vec<char>) -> (i: usize)
    ensures
        i == spec_skip_0x(v@, 0),
        i <= v.len(),
{
    let mut i: usize = 0;
    while v.len() - i >= 2 && v[i] == '0' && v[i + 1] == 'x'
        invariant
            i <= v.len(),
            spec_skip_0x(v@, i as int) == spec_skip_0x(v@, 0),
        decreases v.len() - i,
    {
        i = i + 2;
    }
    i
}

/// Why an observed remote timestamp was refused.
#[derive(Debug, Clone, Copy, PartialEq, Eq, Structural)]
pub enum ClockError {
    /// The received HLC's physical time is more than `MAX_DRIFT_MS` ahead of
    /// the local wall clock.
    ExcessiveDrift { received_ms: u64, local_ms: u64 },
}

/// The message of a clock error.
pub open spec fn spec_clock_message(e: ClockError) -> Seq<char> {
    match e {
        ClockError::ExcessiveDrift { received_ms, local_ms } => "received HLC is "@
            + crate::text::spec_decimal(received_ms as nat) + "ms ahead of local wall clock ("@
            + crate::text::spec_decimal(local_ms as nat) + "ms) — possible replay or clock skew"@,
    }
}

impl ClockError {
    /// The error's message.
    pub fn to_string(&self) -> (s: String)
        ensures
            s@ == spec_clock_message(*self),
    {
        match self {
            ClockError::ExcessiveDrift { received_ms, local_ms } => {
                let mut s = String::from_str("received HLC is ");
                s.append(crate::text::decimal_u64(*received_ms).as_str());
                s.append("ms ahead of local wall clock (");
                s.append(crate::text::decimal_u64(*local_ms).as_str());
                s.append("ms) — possible replay or clock skew");
                s
            },
        }
    }
}

/// The local wall clock in milliseconds since the Unix epoch: the
/// `timestamp_millis` of `chrono::Utc::now()`. Nothing is claimed of the
/// value, which is the machine's clock.
#[verifier::external_body]
fn wall_clock_ms() -> i64 {
    chrono::Utc::now().timestamp_millis()
}

/// The next timestamp for a local event, as `Clock::tick` computes it from
/// the current state and a wall-clock reading; `None` when the logical counter
/// is saturated and the wall clock has not passed the current physical time.
pub open spec fn spec_tick(cur: u64, wall_ms: u64) -> Option<u64> {
    if wall_ms > spec_physical(cur) {
        Some(spec_encode(wall_ms as nat, 0) as u64)
    } else if spec_logical(cur) < 0xffff {
        Some(spec_encode(spec_physical(cur), spec_logical(cur) + 1) as u64)
    } else {
        None
    }
}

/// `a + 1`, saturating at `u16::MAX`.
pub open spec fn sat_inc(a: nat) -> nat {
    if a < 0xffff {
        a + 1
    } else {
        0xffff
    }
}

/// The state after observing `received` at wall time `wall_ms`, as
/// `Clock::observe` computes it.
pub open spec fn spec_observe(cur: u64, received: u64, wall_ms: u64) -> Result<u64, ClockError> {
    let rp = spec_physical(received);
    let cp = spec_physical(cur);
    if rp > wall_ms + MAX_DRIFT_MS {
        Err(ClockError::ExcessiveDrift { received_ms: rp as u64, local_ms: wall_ms })
    } else {
        let m = vstd::math::max(vstd::math::max(wall_ms as int, rp as int), cp as int);
        let l = if m == rp && m == cp {
            sat_inc(vstd::math::max(spec_logical(received) as int, spec_logical(cur) as int) as nat)
        } else if m == rp {
            sat_inc(spec_logical(received))
        } else if m == cp {
            sat_inc(spec_logical(cur))
        } else {
            0
        };
        Ok(spec_encode(m as nat, l) as u64)
    }
}

/// The encoded value of an optional timestamp.
pub open spec fn opt_value(r: Option<Hlc>) -> Option<u64> {
    match r {
        Some(h) => Some(h.0),
        None => None,
    }
}

/// The encoded value of a timestamp result.
pub open spec fn res_value(r: Result<Hlc, ClockError>) -> Result<u64, ClockError> {
    match r {
        Ok(h) => Ok(h.0),
        Err(e) => Err(e),
    }
}

/// A hybrid logical clock: the last timestamp it handed out.
#[derive(Debug, Clone, Copy)]
pub struct Clock {
    state: Hlc,
}

impl Clock {
    /// The last timestamp this clock produced or observed.
    pub closed spec fn state(&self) -> u64 {
        self.state.0
    }

    /// A clock starting at the current wall time with a zero logical counter.
    pub fn new() -> (c: Clock)
        ensures
            spec_logical(c.state()) == 0,
    {
        let now_ms = wall_clock_ms() as u64;
        let h = Hlc::from_parts(now_ms, 0);
        assert(spec_logical(h.0) == 0) by {
            let p = now_ms;
            assert(((p % 0x1_0000_0000_0000) * 0x10000) % 0x10000 == 0) by (nonlinear_arith);
        }
        Clock { state: h }
    }

    /// A clock whose last timestamp is `h`.
    pub fn starting_at(h: Hlc) -> (c: Clock)
        ensures
            c.state() == h.0,
    {
        Clock { state: h }
    }

    /// One step of `tick` at a given wall time: `None` when the logical
    /// counter is saturated and the wall clock has not advanced (the clock is
    /// then unchanged and the caller waits for the wall clock to move).
    pub fn tick_at(&mut self, wall_ms: u64) -> (r: Option<Hlc>)
        ensures
            spec_tick(old(self).state(), wall_ms) matches Some(n) ==> r == Some(Hlc(n))
                && final(self).state() == n,
            spec_tick(old(self).state(), wall_ms) is None ==> r is None && final(self).state()
                == old(self).state(),
    {
        let cur = self.state;
        if wall_ms > cur.physical_ms() {
            let next = Hlc::from_parts(wall_ms, 0);
            self.state = next;
            Some(next)
        } else if cur.logical() < 0xffff {
            let next = Hlc::from_parts(cur.physical_ms(), cur.logical() + 1);
            self.state = next;
            Some(next)
        } else {
            None
        }
    }

    /// One step of `tick` at the current wall time.
    pub fn try_tick(&mut self) -> (r: Option<Hlc>)
        ensures
            exists|w: u64|
                #[trigger] spec_tick(old(self).state(), w) == opt_value(r)
                    && (r matches Some(h) ==> final(self).state() == h.0)
                    && (r is None ==> final(self).state() == old(self).state()),
    {
        let w = wall_clock_ms() as u64;
        let r = self.tick_at(w);
        assert(spec_tick(old(self).state(), w) == opt_value(r));
        r
    }

    /// Updates the clock after receiving `received` from a remote node at a
    /// given wall time and returns the new local timestamp.
    pub fn observe_at(&mut self, received: Hlc, wall_ms: u64) -> (r: Result<Hlc, ClockError>)
        ensures
            spec_observe(old(self).state(), received.0, wall_ms) matches Ok(n) ==> r == Ok::<
                Hlc,
                ClockError,
            >(Hlc(n)) && final(self).state() == n,
            spec_observe(old(self).state(), received.0, wall_ms) matches Err(e) ==> r == Err::<
                Hlc,
                ClockError,
            >(e) && final(self).state() == old(self).state(),
    {
        let rp = received.physical_ms();
        if rp > wall_ms && rp - wall_ms > MAX_DRIFT_MS {
            return Err(ClockError::ExcessiveDrift { received_ms: rp, local_ms: wall_ms });
        }
        let cur = self.state;
        let cp = cur.physical_ms();
        let mut max_phys = if wall_ms > rp {
            wall_ms
        } else {
            rp
        };
        if cp > max_phys {
            max_phys = cp;
        }
        let new_logi: u16 = if max_phys == rp && max_phys == cp {
            let a = if received.logical() > cur.logical() {
                received.logical()
            } else {
                cur.logical()
            };
            a.saturating_add(1)
        } else if max_phys == rp {
            received.logical().saturating_add(1)
        } else if max_phys == cp {
            cur.logical().saturating_add(1)
        } else {
            0
        };
        let next = Hlc::from_parts(max_phys, new_logi);
        self.state = next;
        Ok(next)
    }

    /// Updates the clock after receiving `received` from a remote node and
    /// returns the new local timestamp; refuses an HLC more than
    /// `MAX_DRIFT_MS` ahead of the local wall clock.
    pub fn observe(&mut self, received: Hlc) -> (r: Result<Hlc, ClockError>)
        ensures
            exists|w: u64|
                #[trigger] spec_observe(old(self).state(), received.0, w) == res_value(r)
                    && (r matches Ok(h) ==> final(self).state() == h.0)
                    && (r is Err ==> final(self).state() == old(self).state()),
    {
        let w = wall_clock_ms() as u64;
        let r = self.observe_at(received, w);
        assert(spec_observe(old(self).state(), received.0, w) == res_value(r));
        r
    }

    /// The last timestamp handed out, without advancing the clock.
    pub fn now(&self) -> (h: Hlc)
        ensures
            h.0 == self.state(),
    {
        self.state
    }
}

} // verus!
