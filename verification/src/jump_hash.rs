//! JumpBackHash (<https://arxiv.org/pdf/2403.18682>): a consistent hash from a
//! 64-bit key to a bucket below `n`.
//!
//! Growing the number of buckets from `n` to `n + 1` moves a key only into the
//! new bucket `n`, see [`law_one_more_bucket`].

use vstd::arithmetic::div_mod::{
    lemma_fundamental_div_mod, lemma_fundamental_div_mod_converse, lemma_mod_bound,
};
use vstd::prelude::*;
use vstd::std_specs::bits::{axiom_u32_leading_zeros, u32_leading_zeros};

verus! {

/// The increment of the SplitMix64 state.
pub const GOLDEN_GAMMA: u64 = 0x9E37_79B9_7F4A_7C15;

/// The SplitMix64 state after one draw.
pub open spec fn next_state(state: u64) -> u64 {
    state.wrapping_add(GOLDEN_GAMMA)
}

/// The SplitMix64 output for a state.
pub open spec fn mix(state: u64) -> u64 {
    let z1 = (state ^ (state >> 30)).wrapping_mul(0xBF58_476D_1CE4_E5B9);
    let z2 = (z1 ^ (z1 >> 27)).wrapping_mul(0x94D0_49BB_1331_11EB);
    z2 ^ (z2 >> 31)
}

/// The number of draws after which a generator in state `state` is in state
/// zero, counting a full period where it already is.
pub open spec fn draws_to_zero(state: u64) -> nat {
    if state == 0 {
        0x1_0000_0000_0000_0000
    } else {
        (((0x1_0000_0000_0000_0000 - state) * 0xF1DE_83E1_9937_733D) % 0x1_0000_0000_0000_0000) as nat
    }
}

/// The low half of a 64-bit word.
pub open spec fn low_half(w: u64) -> u32 {
    #[verifier::truncate]
    (w as u32)
}

/// The high half of a 64-bit word.
pub open spec fn high_half(w: u64) -> u32 {
    #[verifier::truncate]
    ((w >> 32) as u32)
}

/// The highest power of two that is at most `u`, for `u` other than zero.
pub open spec fn top_bit(u: u32) -> u32 {
    1u32 << ((31 - u32_leading_zeros(u)) as u32)
}

/// The mask of the bits up to and including the single bit `q`.
pub open spec fn mask_through(q: u32) -> u32 {
    if q == 0x8000_0000 {
        0xFFFF_FFFF
    } else {
        (2 * q - 1) as u32
    }
}

/// Whether `u` has an odd number of one bits.
pub open spec fn odd_weight(u: u32) -> bool
    decreases u,
{
    if u == 0 {
        false
    } else {
        (u % 2 == 1) != odd_weight(u / 2)
    }
}

/// The bucket that level `u` proposes without drawing again.
pub open spec fn first_candidate(v: u64, u: u32) -> u32 {
    let half = if odd_weight(u) {
        high_half(v)
    } else {
        low_half(v)
    };
    (top_bit(u) + (half & ((top_bit(u) - 1) as u32))) as u32
}

/// What a level with top bit `q` settles on, starting from candidate `b` and
/// the generator state `state`: the first candidate below `n`, where that lies
/// in the level (at or above `q`), and the state afterwards. `None` sends the
/// key to the next lower level.
pub open spec fn settle(state: u64, b: u32, q: u32, n: u32) -> (Option<u32>, u64)
    decreases draws_to_zero(state),
    when q > 0
    via settle_decreases
{
    if b < n {
        (Some(b), state)
    } else {
        let s = next_state(state);
        let lo = low_half(mix(s)) & mask_through(q);
        let hi = high_half(mix(s)) & mask_through(q);
        if lo < q {
            (None, s)
        } else if lo < n {
            (Some(lo), s)
        } else if hi < q {
            (None, s)
        } else {
            settle(s, hi, q, n)
        }
    }
}

/// The bucket found from level `u` down, and the state afterwards.
pub open spec fn descend(v: u64, state: u64, u: u32, n: u32) -> (u32, u64)
    decreases u,
    via descend_decreases
{
    if u == 0 {
        (0, state)
    } else {
        match settle(state, first_candidate(v, u), top_bit(u), n) {
            (Some(b), s) => (b, s),
            (None, s) => descend(v, s, u ^ top_bit(u), n),
        }
    }
}

/// The level at which the search for a bucket below `n` starts.
pub open spec fn start_level(v: u64, n: u32) -> u32 {
    low_half(v ^ (v >> 32)) & mask_through(top_bit((n - 1) as u32))
}

/// The bucket of key `k` among `n`, and the generator state afterwards.
pub open spec fn jump_run(k: u64, n: u32) -> (u32, u64) {
    let v = mix(next_state(k));
    descend(v, next_state(k), start_level(v, n), n)
}

/// The bucket of key `k` among `n`.
pub open spec fn jump_back(k: u64, n: u32) -> u32 {
    if n <= 1 {
        0
    } else {
        jump_run(k, n).0
    }
}

#[via_fn]
proof fn settle_decreases(state: u64, b: u32, q: u32, n: u32) {
    if low_half(mix(next_state(state))) & mask_through(q) >= q {
        lemma_settle_step(state, q);
    }
}

/// A draw that does not end the level brings the generator closer to state
/// zero, whose draw would end it.
proof fn lemma_settle_step(state: u64, q: u32)
    requires
        q > 0,
        low_half(mix(next_state(state))) & mask_through(q) >= q,
    ensures
        draws_to_zero(next_state(state)) < draws_to_zero(state),
{
    lemma_mix_of_zero();
    if next_state(state) == 0 {
        let m = mask_through(q);
        assert(0u32 & m == 0) by (bit_vector);
    } else {
        lemma_draw_decreases(state);
    }
}

#[via_fn]
proof fn descend_decreases(v: u64, state: u64, u: u32, n: u32) {
    if u != 0 {
        lemma_top_bit(u);
    }
}

proof fn lemma_mix_of_zero()
    ensures
        mix(0) == 0,
        low_half(0) == 0,
{
    assert(0u64 ^ (0u64 >> 30) == 0) by (bit_vector);
    assert(0u64 ^ (0u64 >> 27) == 0) by (bit_vector);
    assert(0u64 ^ (0u64 >> 31) == 0) by (bit_vector);
}

/// A draw brings the generator one step closer to state zero.
proof fn lemma_draw_decreases(state: u64)
    requires
        next_state(state) != 0,
    ensures
        draws_to_zero(next_state(state)) < draws_to_zero(state),
{
    let p: int = 0x1_0000_0000_0000_0000;
    let i: int = 0xF1DE_83E1_9937_733D;
    let g: int = GOLDEN_GAMMA as int;
    let c: int = 0x957b_bf35_006e_d677;
    assert(0x9E37_79B9_7F4A_7C15 * 0xF1DE_83E1_9937_733D == 0x957b_bf35_006e_d677
        * 0x1_0000_0000_0000_0000 + 1);
    assert(g * i == c * p + 1);
    if state != 0 {
        lemma_inverse_step(p, i, g, c, state as int, next_state(state) as int);
    }
}

/// Where `i` is the inverse of `g` modulo `p`, adding `g` to `s` takes one off
/// `-s * i` modulo `p`.
proof fn lemma_inverse_step(p: int, i: int, g: int, c: int, s: int, t: int)
    requires
        p > 1,
        g * i == c * p + 1,
        0 < s < p,
        t == s + g || t == s + g - p,
    ensures
        ((p - t) * i) % p == ((p - s) * i) % p - 1,
{
    let x = (p - s) * i;
    let a = x % p;
    let d = x / p;
    lemma_fundamental_div_mod(x, p);
    assert(0 <= a < p) by {
        lemma_mod_bound(x, p);
    }
    if a == 0 {
        let m = d * g - (p - s) * c;
        assert(p - s == p * m) by (nonlinear_arith)
            requires
                (p - s) * i == p * d,
                g * i == c * p + 1,
                m == d * g - (p - s) * c,
        {
            assert((p - s) * (g * i) == (p * d) * g);
            assert((p - s) * (c * p + 1) == p * (d * g));
        }
        assert(m <= 0 || m >= 1);
        assert(p * m <= 0 || p * m >= p) by (nonlinear_arith)
            requires
                p > 1,
                m <= 0 || m >= 1,
        ;
    }
    let y = (p - t) * i;
    let e = if t == s + g {
        d - c
    } else {
        d - c + i
    };
    assert(y == e * p + (a - 1)) by (nonlinear_arith)
        requires
            y == (p - t) * i,
            (p - s) * i == p * d + a,
            g * i == c * p + 1,
            t == s + g && e == d - c || t == s + g - p && e == d - c + i,
    {
        if t == s + g {
            assert(y == (p - s) * i - g * i);
        } else {
            assert(y == (p - s) * i - g * i + p * i);
        }
    }
    lemma_fundamental_div_mod_converse(y, p, e, a - 1);
}

/// The top bit of `u` is a power of two, at most `u` and more than half of it;
/// clearing it leaves what is below it.
pub proof fn lemma_top_bit(u: u32)
    requires
        u != 0,
    ensures
        exists|e: u32| e < 32 && top_bit(u) == 1u32 << e,
        1 <= top_bit(u) <= u,
        u < 2 * top_bit(u),
        u ^ top_bit(u) == u - top_bit(u),
        top_bit(u) <= 0x8000_0000,
{
    axiom_u32_leading_zeros(u);
    let z = u32_leading_zeros(u);
    let e = (31 - z) as u32;
    assert(z < 32 && (u >> ((31 - z) as u32)) & 1u32 != 0u32 && u >> ((32 - z) as u32) == 0
        ==> {
            let q = 1u32 << ((31 - z) as u32);
            1 <= q <= u && u < 2 * q && u ^ q == u - q && q <= 0x8000_0000
        }) by (bit_vector);
    assert(top_bit(u) == 1u32 << e);
}

/// Two powers of two that both lie in the upper half below `2 * u` are equal.
pub proof fn lemma_top_bit_unique(u: u32, q: u32, e: u32)
    requires
        e < 32,
        q == 1u32 << e,
        q <= u,
        u < 2 * q,
    ensures
        top_bit(u) == q,
{
    assert(u != 0) by (bit_vector)
        requires
            e < 32,
            q == 1u32 << e,
            q <= u,
    ;
    lemma_top_bit(u);
    let f = choose|f: u32| f < 32 && top_bit(u) == 1u32 << f;
    let t = top_bit(u);
    assert(t == q) by (bit_vector)
        requires
            e < 32,
            f < 32,
            q == 1u32 << e,
            t == 1u32 << f,
            q <= u,
            u < 2 * q,
            t <= u,
            u < 2 * t,
    ;
}

/// Masking with the bits below `q` stays below `q`, through `q` below `2 * q`.
proof fn lemma_masked(x: u32, q: u32)
    requires
        1 <= q <= 0x8000_0000,
    ensures
        (x & ((q - 1) as u32)) < q,
        (x & mask_through(q)) < 2 * q,
{
    assert((x & ((q - 1) as u32)) <= (q - 1) as u32) by (bit_vector);
    let m = mask_through(q);
    assert((x & m) <= m) by (bit_vector);
}

/// A level whose candidates all lie below `n` settles on its first candidate.
proof fn lemma_low_level(v: u64, state: u64, u: u32, n: u32)
    requires
        u != 0 ==> 2 * top_bit(u) <= n,
    ensures
        descend(v, state, u, n) == if u == 0 {
            (0u32, state)
        } else {
            (first_candidate(v, u), state)
        },
{
    if u != 0 {
        lemma_top_bit(u);
        lemma_masked(high_half(v), top_bit(u));
        lemma_masked(low_half(v), top_bit(u));
    }
}

/// What a level settles on is one of its own buckets.
proof fn lemma_settle_range(state: u64, b: u32, q: u32, n: u32)
    requires
        0 < q <= b,
    ensures
        settle(state, b, q, n).0 matches Some(r) ==> q <= r < n,
    decreases draws_to_zero(state),
{
    if b >= n {
        let s = next_state(state);
        let lo = low_half(mix(s)) & mask_through(q);
        let hi = high_half(mix(s)) & mask_through(q);
        if lo >= q && lo >= n && hi >= q {
            lemma_settle_step(state, q);
            lemma_settle_range(s, hi, q, n);
        }
    }
}

proof fn lemma_descend_range(v: u64, state: u64, u: u32, n: u32)
    requires
        n > 0,
    ensures
        descend(v, state, u, n).0 < n,
    decreases u,
{
    if u != 0 {
        lemma_top_bit(u);
        let b = first_candidate(v, u);
        lemma_masked(high_half(v), top_bit(u));
        lemma_masked(low_half(v), top_bit(u));
        lemma_settle_range(state, b, top_bit(u), n);
        let (r, s) = settle(state, b, top_bit(u), n);
        if r is None {
            lemma_descend_range(v, s, u ^ top_bit(u), n);
        }
    }
}

/// Every key has a bucket below the number of buckets.
pub proof fn law_bucket_in_range(k: u64, n: u32)
    requires
        n > 0,
    ensures
        jump_back(k, n) < n,
{
    if n > 1 {
        let v = mix(next_state(k));
        lemma_descend_range(v, next_state(k), start_level(v, n), n);
    }
}

/// One more bucket changes what a level settles on only to the new bucket.
proof fn lemma_settle_one_more(state: u64, b: u32, q: u32, n: u32)
    requires
        0 < q <= n < u32::MAX,
    ensures
        settle(state, b, q, (n + 1) as u32) == settle(state, b, q, n) || settle(
            state,
            b,
            q,
            (n + 1) as u32,
        ).0 == Some(n),
    decreases draws_to_zero(state),
{
    if b > n {
        let s = next_state(state);
        let lo = low_half(mix(s)) & mask_through(q);
        let hi = high_half(mix(s)) & mask_through(q);
        if lo > n && hi >= q {
            lemma_settle_step(state, q);
            lemma_settle_one_more(s, hi, q, n);
        }
    }
}

proof fn lemma_descend_one_more(v: u64, state: u64, u: u32, n: u32)
    requires
        u != 0 ==> top_bit(u) <= n,
        n < u32::MAX,
    ensures
        descend(v, state, u, (n + 1) as u32) == descend(v, state, u, n) || descend(
            v,
            state,
            u,
            (n + 1) as u32,
        ).0 == n,
    decreases u,
{
    if u != 0 {
        lemma_top_bit(u);
        let q = top_bit(u);
        let b = first_candidate(v, u);
        lemma_settle_one_more(state, b, q, n);
        let (r, s) = settle(state, b, q, n);
        if r is None {
            let w = u ^ q;
            if w != 0 {
                lemma_top_bit(w);
            }
            lemma_descend_one_more(v, s, w, n);
        }
    }
}

/// Adding a bucket moves a key only into the new bucket: with `n + 1` buckets
/// it is where it was with `n`, or in bucket `n`.
pub proof fn law_one_more_bucket(k: u64, n: u32)
    requires
        n < u32::MAX,
    ensures
        jump_back(k, (n + 1) as u32) == jump_back(k, n) || jump_back(k, (n + 1) as u32) == n,
{
    if n == 0 {
    } else if n == 1 {
        law_bucket_in_range(k, 2);
    } else {
        let v = mix(next_state(k));
        let s = next_state(k);
        let h = low_half(v ^ (v >> 32));
        let m = (n - 1) as u32;
        lemma_top_bit(m);
        let q = top_bit(m);
        let e = choose|e: u32| e < 32 && q == 1u32 << e;
        let u = start_level(v, n);
        let u1 = start_level(v, (n + 1) as u32);
        if n < 2 * q {
            lemma_top_bit_unique(n, q, e);
            lemma_masked(h, q);
            if u != 0 {
                lemma_top_bit(u);
                let f = choose|f: u32| f < 32 && top_bit(u) == 1u32 << f;
                let t = top_bit(u);
                assert(t <= q) by (bit_vector)
                    requires
                        e < 32,
                        f < 32,
                        q == 1u32 << e,
                        t == 1u32 << f,
                        t <= u,
                        u < 2 * q,
                ;
            }
            lemma_descend_one_more(v, s, u, n);
        } else {
            assert(n == 2 * q);
            let e1 = (e + 1) as u32;
            assert(e1 < 32 && n == 1u32 << e1) by (bit_vector)
                requires
                    e < 32,
                    q == 1u32 << e,
                    n == 2 * q,
                    e1 == e + 1,
            ;
            lemma_top_bit_unique(n, n, e1);
            lemma_top_bit(n);
            lemma_masked(h, q);
            let m1 = mask_through(n);
            let m0 = mask_through(q);
            assert(u1 == u || (u1 == u + n && u1 ^ n == u)) by (bit_vector)
                requires
                    e1 < 32,
                    n == 1u32 << e1,
                    m0 == n - 1,
                    n == 0x8000_0000 ==> m1 == 0xFFFF_FFFF,
                    n != 0x8000_0000 ==> m1 == 2 * n - 1,
                    u == h & m0,
                    u1 == h & m1,
            ;
            if u != 0 {
                lemma_top_bit(u);
                let f = choose|f: u32| f < 32 && top_bit(u) == 1u32 << f;
                let t = top_bit(u);
                assert(2 * t <= n) by (bit_vector)
                    requires
                        e1 < 32,
                        f < 32,
                        n == 1u32 << e1,
                        t == 1u32 << f,
                        t <= u,
                        u < n,
                ;
            }
            lemma_low_level(v, s, u, n);
            if u1 == u {
                lemma_low_level(v, s, u, (n + 1) as u32);
            } else {
                lemma_top_bit_unique(u1, n, e1);
                let b = first_candidate(v, u1);
                lemma_masked(high_half(v), n);
                lemma_masked(low_half(v), n);
                lemma_settle_range(s, b, n, (n + 1) as u32);
                let (r, s1) = settle(s, b, n, (n + 1) as u32);
                if r is None {
                    lemma_low_level(v, s1, u, (n + 1) as u32);
                }
            }
        }
    }
}

/// Any number of added buckets moves a key only into one of them.
pub proof fn law_more_buckets(k: u64, n: u32, m: u32)
    requires
        n <= m,
    ensures
        jump_back(k, m) == jump_back(k, n) || n <= jump_back(k, m),
    decreases m - n,
{
    if n < m {
        law_more_buckets(k, n, (m - 1) as u32);
        law_one_more_bucket(k, (m - 1) as u32);
    }
}

/// SplitMix64, a deterministic generator of 64-bit words.
struct SplitMix64 {
    state: u64,
}

impl SplitMix64 {
    fn reset_with_seed(&mut self, seed: u64)
        ensures
            final(self).state == seed,
    {
        self.state = seed;
    }

    fn next_long(&mut self) -> (z: u64)
        ensures
            final(self).state == next_state(old(self).state),
            z == mix(next_state(old(self).state)),
    {
        self.state = self.state.wrapping_add(GOLDEN_GAMMA);
        let z0: u64 = self.state;
        let z1: u64 = (z0 ^ (z0 >> 30)).wrapping_mul(0xBF58_476D_1CE4_E5B9);
        let z2: u64 = (z1 ^ (z1 >> 27)).wrapping_mul(0x94D0_49BB_1331_11EB);
        z2 ^ (z2 >> 31)
    }
}

fn has_odd_weight(u: u32) -> (odd: bool)
    ensures
        odd == odd_weight(u),
{
    let mut rest: u32 = u;
    let mut odd = false;
    while rest != 0
        invariant
            odd_weight(u) == (odd != odd_weight(rest)),
        decreases rest,
    {
        if rest % 2 == 1 {
            odd = !odd;
        }
        rest = rest / 2;
    }
    odd
}

/// Maps keys to buckets. Holds no more than scratch state: every call starts
/// from its own key.
pub struct JumpBackHasher {
    rng: SplitMix64,
}

impl Default for JumpBackHasher {
    fn default() -> (hasher: Self)
        ensures
            hasher.state() == 0,
    {
        JumpBackHasher { rng: SplitMix64 { state: 0 } }
    }
}

impl JumpBackHasher {
    /// The state the generator was left in.
    pub closed spec fn state(self) -> u64 {
        self.rng.state
    }

    pub fn new() -> (hasher: Self)
        ensures
            hasher.state() == 0,
    {
        Self::default()
    }

    /// The bucket of key `k` among `n`; zero where there is at most one.
    pub fn hash(&mut self, k: u64, n: u32) -> (bucket: u32)
        ensures
            bucket == jump_back(k, n),
            n > 0 ==> bucket < n,
            final(self).state() == if n <= 1 {
                old(self).state()
            } else {
                jump_run(k, n).1
            },
    {
        if n <= 1 {
            return 0;
        }
        proof {
            law_bucket_in_range(k, n);
            lemma_top_bit((n - 1) as u32);
        }
        self.rng.reset_with_seed(k);
        let v: u64 = self.rng.next_long();
        let u: u32 = #[verifier::truncate]
        ((v ^ (v >> 32)) as u32) & mask_up_to(highest_bit(n - 1));
        let mut u_work: u32 = u;
        while u_work != 0
            invariant
                n > 1,
                v == mix(next_state(k)),
                jump_run(k, n) == descend(v, self.rng.state, u_work, n),
            decreases u_work,
        {
            let q: u32 = highest_bit(u_work);
            let half: u32 = if has_odd_weight(u_work) {
                #[verifier::truncate]
                ((v >> 32) as u32)
            } else {
                #[verifier::truncate]
                (v as u32)
            };
            proof {
                lemma_top_bit(u_work);
                lemma_masked(half, q);
            }
            let mut b: u32 = q + (half & (q - 1));
            let mask: u32 = mask_up_to(q);
            let ghost start = self.rng.state;
            let ghost first = b;
            loop
                invariant_except_break
                    settle(start, first, q, n) == settle(self.rng.state, b, q, n),
                invariant
                    n > 1,
                    q > 0,
                    mask == mask_through(q),
                    u_work != 0,
                    q == top_bit(u_work),
                    first == first_candidate(v, u_work),
                    jump_run(k, n) == descend(v, start, u_work, n),
                ensures
                    settle(start, first, q, n) == (None::<u32>, self.rng.state),
                decreases draws_to_zero(self.rng.state),
            {
                if b < n {
                    return b;
                }
                let ghost before = self.rng.state;
                let w: u64 = self.rng.next_long();
                b = #[verifier::truncate]
                (w as u32) & mask;
                if b < q {
                    break;
                }
                if b < n {
                    return b;
                }
                b = #[verifier::truncate]
                ((w >> 32) as u32) & mask;
                if b < q {
                    break;
                }
                proof {
                    lemma_settle_step(before, q);
                }
            }
            u_work = u_work ^ q;
        }
        0
    }
}

/// The highest power of two that is at most `u`.
fn highest_bit(u: u32) -> (q: u32)
    requires
        u != 0,
    ensures
        q == top_bit(u),
{
    proof {
        axiom_u32_leading_zeros(u);
    }
    1u32 << (31 - u.leading_zeros())
}

fn mask_up_to(q: u32) -> (mask: u32)
    requires
        1 <= q <= 0x8000_0000,
    ensures
        mask == mask_through(q),
{
    if q == 0x8000_0000 {
        0xFFFF_FFFF
    } else {
        2 * q - 1
    }
}

} // verus!
