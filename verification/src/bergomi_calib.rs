//! The integer parts of the VIX option calibration: the option type, the
//! xorshift random bit generator behind the Monte Carlo paths, and the hash
//! that gives each quote its own random stream.
//!
//! The floating-point model, pricer and optimiser stand outside the library;
//! they draw their bits from here.
use vstd::prelude::*;

verus! {

/// Call or put.
#[derive(Clone, Copy, Debug, PartialEq, Eq, Structural)]
pub enum OptionType {
    Call,
    Put,
}

/// The number that an option type adds to a quote's hash.
pub open spec fn option_type_code(t: OptionType) -> u64 {
    match t {
        OptionType::Call => 1,
        OptionType::Put => 2,
    }
}

/// The seed used in place of 0, on which the generator would stay at 0.
pub const ZERO_SEED_REPLACEMENT: u64 = 0xdead_beef_cafe_babe;

/// One step of the xorshift generator (shifts 13, 7, 17).
pub open spec fn xorshift_step(x: u64) -> u64 {
    let a = x ^ (x << 13u64);
    let b = a ^ (a >> 7u64);
    b ^ (b << 17u64)
}

/// A step never takes a nonzero state to zero.
pub proof fn lemma_xorshift_step_nonzero(x: u64)
    requires
        x != 0,
    ensures
        xorshift_step(x) != 0,
{
    let a = x ^ (x << 13u64);
    let b = a ^ (a >> 7u64);
    assert(x != 0 ==> (x ^ (x << 13u64)) != 0) by (bit_vector);
    assert(a != 0 ==> (a ^ (a >> 7u64)) != 0) by (bit_vector);
    assert(b != 0 ==> (b ^ (b << 17u64)) != 0) by (bit_vector);
}

/// The xorshift random bit generator.
pub struct XorShift64 {
    state: u64,
}

impl XorShift64 {
    pub closed spec fn spec_state(&self) -> u64 {
        self.state
    }

    /// A generator started from `seed`, or from a fixed nonzero seed when
    /// `seed` is 0.
    pub fn new(seed: u64) -> (g: Self)
        ensures
            g.spec_state() == (if seed == 0 { ZERO_SEED_REPLACEMENT } else { seed }),
            g.spec_state() != 0,
    {
        let seed = if seed == 0 { ZERO_SEED_REPLACEMENT } else { seed };
        XorShift64 { state: seed }
    }

    pub fn state(&self) -> (s: u64)
        ensures
            s == self.spec_state(),
    {
        self.state
    }

    /// The next 64 random bits: the state moves one step and is returned.
    pub fn next_u64(&mut self) -> (x: u64)
        ensures
            x == xorshift_step(old(self).spec_state()),
            final(self).spec_state() == x,
            old(self).spec_state() != 0 ==> x != 0,
    {
        proof {
            if self.state != 0 {
                lemma_xorshift_step_nonzero(self.state);
            }
        }
        let mut x = self.state;
        x ^= x << 13u64;
        x ^= x >> 7u64;
        x ^= x << 17u64;
        self.state = x;
        x
    }
}

/// The FNV-1a offset basis and prime, 64-bit.
pub const FNV_OFFSET: u64 = 1469598103934665603;
pub const FNV_PRIME: u64 = 1099511628211;

/// One FNV-1a step: xor in the byte, multiply by the prime (wrapping).
pub open spec fn fnv_step(h: u64, b: u64) -> u64 {
    (h ^ b).wrapping_mul(FNV_PRIME)
}

/// FNV-1a over `bytes`, from `h`.
pub open spec fn fnv_fold(h: u64, bytes: Seq<u8>) -> u64
    decreases bytes.len(),
{
    if bytes.len() == 0 {
        h
    } else {
        fnv_step(fnv_fold(h, bytes.drop_last()), bytes.last() as u64)
    }
}

/// The eight bytes of `x`, least significant first.
pub open spec fn le_bytes(x: u64) -> Seq<u8> {
    Seq::new(8, |i: int| ((x >> ((8 * i) as u64)) & 0xff) as u8)
}

/// The hash of a quote, from the bit patterns of its maturity and strike and
/// its option type: FNV-1a over the little-endian bytes of the maturity,
/// then of the strike, then one step with the option type's code.
pub open spec fn quote_hash(maturity_bits: u64, strike_bits: u64, option_type: OptionType) -> u64 {
    fnv_step(fnv_fold(FNV_OFFSET, le_bytes(maturity_bits) + le_bytes(strike_bits)), option_type_code(option_type))
}

/// Hashing two pieces one after the other is hashing them joined.
proof fn lemma_fnv_fold_append(h: u64, a: Seq<u8>, b: Seq<u8>)
    ensures
        fnv_fold(h, a + b) == fnv_fold(fnv_fold(h, a), b),
    decreases b.len(),
{
    if b.len() == 0 {
        assert(a + b =~= a);
    } else {
        lemma_fnv_fold_append(h, a, b.drop_last());
        assert((a + b).drop_last() =~= a + b.drop_last());
        assert((a + b).last() == b.last());
    }
}

/// FNV-1a over the little-endian bytes of `x`, from `h`.
fn fnv_u64(h: u64, x: u64) -> (r: u64)
    ensures
        r == fnv_fold(h, le_bytes(x)),
{
    let mut acc = h;
    for i in 0..8u64
        invariant
            acc == fnv_fold(h, le_bytes(x).take(i as int)),
    {
        let b: u64 = (x >> (8 * i)) & 0xff;
        proof {
            let s = le_bytes(x).take(i + 1);
            assert(s.drop_last() =~= le_bytes(x).take(i as int));
            assert(s.last() == le_bytes(x)[i as int]);
            assert(((x >> (8 * i)) & 0xff) < 256) by (bit_vector);
        }
        acc = (acc ^ b).wrapping_mul(FNV_PRIME);
    }
    proof {
        assert(le_bytes(x).take(8) =~= le_bytes(x));
    }
    acc
}

/// The hash that gives a quote its own random stream; the caller hands in
/// the bit patterns of the quote's maturity and strike.
pub fn hash_quote(maturity_bits: u64, strike_bits: u64, option_type: OptionType) -> (h: u64)
    ensures
        h == quote_hash(maturity_bits, strike_bits, option_type),
{
    let h = fnv_u64(FNV_OFFSET, maturity_bits);
    let h = fnv_u64(h, strike_bits);
    proof {
        lemma_fnv_fold_append(FNV_OFFSET, le_bytes(maturity_bits), le_bytes(strike_bits));
    }
    let code: u64 = match option_type {
        OptionType::Call => 1,
        OptionType::Put => 2,
    };
    (h ^ code).wrapping_mul(FNV_PRIME)
}

} // verus!
