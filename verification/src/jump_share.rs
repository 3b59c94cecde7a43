//! How evenly JumpBackHash shares the keys among the buckets.
//!
//! Every bucket gets more than half of an even share of all 64-bit keys, and
//! where the number of buckets is a power of two exactly an even share, see
//! [`law_buckets_share_the_keys`].

use crate::jump_hash::{
    descend, first_candidate, high_half, jump_back, law_bucket_in_range, law_one_more_bucket,
    lemma_top_bit, lemma_top_bit_unique, low_half, mask_through, mix, next_state, odd_weight,
    settle, start_level, top_bit, GOLDEN_GAMMA,
};
use vstd::arithmetic::div_mod::{
    lemma_mod_multiples_vanish, lemma_mul_mod_noop_left, lemma_small_mod,
};
use vstd::prelude::*;

verus! {

// ---- the generator reaches every word ----

/// Multiplying by a number and then by its inverse modulo two to the 64 gives
/// back what was multiplied.
pub proof fn lemma_wrapping_inverse(x: u64, c: u64, i: u64, r: int)
    requires
        i * c == r * 0x1_0000_0000_0000_0000 + 1,
    ensures
        x.wrapping_mul(i).wrapping_mul(c) == x,
{
    let p: int = 0x1_0000_0000_0000_0000;
    lemma_mul_mod_noop_left(x * i, c as int, p);
    assert((x * i) * c == p * (x * r) + x) by (nonlinear_arith)
        requires
            i * c == r * p + 1,
    ;
    lemma_mod_multiples_vanish(x * r, x as int, p);
    lemma_small_mod(x as nat, p as nat);
    assert(x.wrapping_mul(i) == (x * i) % p);
    assert(x.wrapping_mul(i).wrapping_mul(c) == (((x * i) % p) * c) % p);
}

/// The key whose first draw is a word.
spec fn key_of(v: u64) -> u64 {
    let z2 = v ^ (v >> 31) ^ (v >> 62);
    let y1 = z2.wrapping_mul(0x3196_42B2_D24D_8EC3);
    let z1 = y1 ^ (y1 >> 27) ^ (y1 >> 54);
    let y0 = z1.wrapping_mul(0x96DE_1B17_3F11_9089);
    let z0 = y0 ^ (y0 >> 30) ^ (y0 >> 60);
    z0.wrapping_sub(GOLDEN_GAMMA)
}

/// Every word is the first draw of a key.
proof fn lemma_key_of(v: u64)
    ensures
        mix(next_state(key_of(v))) == v,
{
    let z2 = v ^ (v >> 31) ^ (v >> 62);
    assert(z2 ^ (z2 >> 31) == v) by (bit_vector)
        requires
            z2 == v ^ (v >> 31) ^ (v >> 62),
    ;
    let y1 = z2.wrapping_mul(0x3196_42B2_D24D_8EC3);
    assert(0x3196_42B2_D24D_8EC3 * 0x94D0_49BB_1331_11EB == 0x1CD3_36ED_A85F_1453
        * 0x1_0000_0000_0000_0000 + 1);
    lemma_wrapping_inverse(
        z2,
        0x94D0_49BB_1331_11EB,
        0x3196_42B2_D24D_8EC3,
        0x1CD3_36ED_A85F_1453,
    );
    let z1 = y1 ^ (y1 >> 27) ^ (y1 >> 54);
    assert(z1 ^ (z1 >> 27) == y1) by (bit_vector)
        requires
            z1 == y1 ^ (y1 >> 27) ^ (y1 >> 54),
    ;
    let y0 = z1.wrapping_mul(0x96DE_1B17_3F11_9089);
    assert(0x96DE_1B17_3F11_9089 * 0xBF58_476D_1CE4_E5B9 == 0x70C3_BCA7_8F27_F46C
        * 0x1_0000_0000_0000_0000 + 1);
    lemma_wrapping_inverse(
        z1,
        0xBF58_476D_1CE4_E5B9,
        0x96DE_1B17_3F11_9089,
        0x70C3_BCA7_8F27_F46C,
    );
    let z0 = y0 ^ (y0 >> 30) ^ (y0 >> 60);
    assert(z0 ^ (z0 >> 30) == y0) by (bit_vector)
        requires
            z0 == y0 ^ (y0 >> 30) ^ (y0 >> 60),
    ;
    assert(next_state(key_of(v)) == z0);
}

// ---- words for a bucket ----

/// The word of two halves.
spec fn word(high: u32, low: u32) -> u64 {
    ((high as u64) << 32) | (low as u64)
}

proof fn lemma_word(high: u32, low: u32)
    ensures
        high_half(word(high, low)) == high,
        low_half(word(high, low)) == low,
        low_half(word(high, low) ^ (word(high, low) >> 32)) == low ^ high,
{
    let w = word(high, low);
    assert({
        &&& (w >> 32) as u32 == high
        &&& w as u32 == low
        &&& (w ^ (w >> 32)) as u32 == low ^ high
    }) by (bit_vector)
        requires
            w == ((high as u64) << 32) | (low as u64),
    ;
}

/// A word whose halves differ by `d` and of which the half that level `u` looks
/// at is `half`.
spec fn word_at(u: u32, half: u32, d: u32) -> u64 {
    if odd_weight(u) {
        word(half, half ^ d)
    } else {
        word(half ^ d, half)
    }
}

proof fn lemma_word_at(u: u32, half: u32, d: u32)
    ensures
        ({
            let v = word_at(u, half, d);
            &&& low_half(v ^ (v >> 32)) == d
            &&& (if odd_weight(u) {
                high_half(v)
            } else {
                low_half(v)
            }) == half
        }),
{
    lemma_word(half, half ^ d);
    lemma_word(half ^ d, half);
    assert((half ^ d) ^ half == d && half ^ (half ^ d) == d) by (bit_vector);
}

/// The number of an index that a word is made of: its low half, and the rest
/// moved behind the bits of the mask.
spec fn low_part(i: u64) -> u32 {
    low_half(i)
}

spec fn high_part(i: u64, e: u32) -> u32 {
    low_half((i >> 32) << e)
}

/// The word for an index in bucket `b` among a number of buckets whose mask has
/// `e` bits.
spec fn word_for(b: u32, e: u32, i: u64) -> u64 {
    let a = low_part(i);
    let d = high_part(i, e);
    if b == 0 {
        word_at(0, a, d)
    } else {
        let q = top_bit(b);
        let under = (q - 1) as u32;
        let u = (a & under) | q;
        word_at(u, (a & !under) | (b ^ q), u | d)
    }
}

/// Where the mask of `n` buckets ends: it holds the `e` lowest bits.
proof fn lemma_mask(n: u32) -> (e: u32)
    requires
        n > 1,
    ensures
        1 <= e <= 32,
        mask_through(top_bit((n - 1) as u32)) == (1u64 << e) - 1,
        n <= 1u64 << e,
        (1u64 << e) < 2 * n,
        is_power_of_two(n) ==> n == 1u64 << e,
{
    let t = (n - 1) as u32;
    lemma_top_bit(t);
    let q = top_bit(t);
    let f = choose|f: u32| f < 32 && q == 1u32 << f;
    let e = (f + 1) as u32;
    assert((1u64 << e) == 2 * q) by (bit_vector)
        requires
            f < 32,
            q == 1u32 << f,
            e == f + 1,
    ;
    if is_power_of_two(n) {
        let g = choose|g: u32| g < 32 && n == #[trigger] (1u32 << g);
        assert(n == (1u64 << e)) by (bit_vector)
            requires
                g < 32,
                f < 32,
                e == f + 1,
                n == 1u32 << g,
                q == 1u32 << f,
                q <= n - 1,
                n - 1 < 2 * q,
        ;
    }
    e
}

proof fn lemma_parts(i: u64, e: u32, m: u32)
    requires
        1 <= e <= 32,
        i < 1u64 << ((64 - e) as u32),
        m == (1u64 << e) - 1,
    ensures
        high_part(i, e) & m == 0,
{
    let d = high_part(i, e);
    assert(d & m == 0) by (bit_vector)
        requires
            1 <= e <= 32,
            m == (1u64 << e) - 1,
            d == ((i >> 32) << e) as u32,
    ;
}

proof fn lemma_parts_differ(i: u64, j: u64, e: u32)
    requires
        1 <= e <= 32,
        i < 1u64 << ((64 - e) as u32),
        j < 1u64 << ((64 - e) as u32),
        low_part(i) == low_part(j),
        high_part(i, e) == high_part(j, e),
    ensures
        i == j,
{
    let g = (64 - e) as u32;
    assert(i == j) by (bit_vector)
        requires
            1 <= e <= 32,
            g == 64 - e,
            i < 1u64 << g,
            j < 1u64 << g,
            i as u32 == j as u32,
            ((i >> 32) << e) as u32 == ((j >> 32) << e) as u32,
    ;
}

/// The key of the word of an index is in the bucket.
proof fn lemma_in_bucket(n: u32, b: u32, e: u32, i: u64)
    requires
        b < n,
        n > 1,
        1 <= e <= 32,
        mask_through(top_bit((n - 1) as u32)) == (1u64 << e) - 1,
        n <= 1u64 << e,
        i < 1u64 << ((64 - e) as u32),
    ensures
        jump_back(key_of(word_for(b, e, i)), n) == b,
{
    let v = word_for(b, e, i);
    let k = key_of(v);
    lemma_key_of(v);
    let m = mask_through(top_bit((n - 1) as u32));
    let a = low_part(i);
    let d = high_part(i, e);
    lemma_parts(i, e, m);
    if b == 0 {
        lemma_word_at(0, a, d);
        assert(start_level(v, n) == 0);
    } else {
        lemma_top_bit(b);
        let q = top_bit(b);
        let f = choose|f: u32| f < 32 && q == 1u32 << f;
        let under = (q - 1) as u32;
        let u = (a & under) | q;
        let half = (a & !under) | (b ^ q);
        lemma_word_at(u, half, u | d);
        assert({
            &&& (u | d) & m == u
            &&& q <= u && u < 2 * q
            &&& half & under == b ^ q
        }) by (bit_vector)
            requires
                f < 32,
                q == 1u32 << f,
                under == q - 1,
                q <= b,
                b < 2 * q,
                1 <= e <= 32,
                m == (1u64 << e) - 1,
                b <= m,
                d & m == 0,
                u == (a & under) | q,
                half == (a & !under) | (b ^ q),
        ;
        lemma_top_bit_unique(u, q, f);
        assert(start_level(v, n) == u);
        assert(first_candidate(v, u) == b);
        assert(settle(next_state(k), b, q, n) == (Some(b), next_state(k)));
        assert(descend(v, next_state(k), u, n).0 == b);
    }
}

/// Different indexes have different words.
proof fn lemma_words_differ(b: u32, e: u32, m: u32, i: u64, j: u64)
    requires
        1 <= e <= 32,
        m == (1u64 << e) - 1,
        b <= m,
        i < 1u64 << ((64 - e) as u32),
        j < 1u64 << ((64 - e) as u32),
        word_for(b, e, i) == word_for(b, e, j),
    ensures
        i == j,
{
    let (a, a2) = (low_part(i), low_part(j));
    let (d, d2) = (high_part(i, e), high_part(j, e));
    lemma_parts(i, e, m);
    lemma_parts(j, e, m);
    if b == 0 {
        lemma_word_at(0, a, d);
        lemma_word_at(0, a2, d2);
    } else {
        lemma_top_bit(b);
        let q = top_bit(b);
        let f = choose|f: u32| f < 32 && q == 1u32 << f;
        let under = (q - 1) as u32;
        let (u, u2) = ((a & under) | q, (a2 & under) | q);
        let (half, half2) = ((a & !under) | (b ^ q), (a2 & !under) | (b ^ q));
        lemma_word_at(u, half, u | d);
        lemma_word_at(u2, half2, u2 | d2);
        assert(u == u2 && d == d2) by (bit_vector)
            requires
                f < 32,
                q == 1u32 << f,
                under == q - 1,
                q <= b,
                1 <= e <= 32,
                m == (1u64 << e) - 1,
                b <= m,
                d & m == 0,
                d2 & m == 0,
                u == (a & under) | q,
                u2 == (a2 & under) | q,
                u | d == u2 | d2,
        ;
        assert(half == half2);
        assert(a == a2) by (bit_vector)
            requires
                f < 32,
                q == 1u32 << f,
                under == q - 1,
                q <= b,
                b < 2 * q,
                (a & under) | q == (a2 & under) | q,
                (a & !under) | (b ^ q) == (a2 & !under) | (b ^ q),
        ;
    }
    lemma_parts_differ(i, j, e);
}

proof fn lemma_share(e: u32)
    requires
        e <= 32,
    ensures
        (1u64 << e) * (1u64 << ((63 - e) as u32)) == 0x8000_0000_0000_0000,
    decreases e,
{
    if e == 0 {
        assert(1u64 << 0u32 == 1 && 1u64 << 63u32 == 0x8000_0000_0000_0000) by (bit_vector);
    } else {
        let f = (e - 1) as u32;
        lemma_share(f);
        let (g, h) = ((63 - e) as u32, (64 - e) as u32);
        assert((1u64 << e) == 2 * (1u64 << f) && (1u64 << h) == 2 * (1u64 << g)) by (bit_vector)
            requires
                1 <= e <= 32,
                f == e - 1,
                g == 63 - e,
                h == 64 - e,
        ;
        let (x, y) = (1u64 << f, 1u64 << g);
        assert((2 * x) * y == x * (2 * y)) by (nonlinear_arith);
    }
}

// ---- laws ----

/// Whether a number is a power of two.
pub open spec fn is_power_of_two(n: u32) -> bool {
    exists|f: u32| f < 32 && n == #[trigger] (1u32 << f)
}

/// Whether keys are all different and all in one bucket.
pub open spec fn all_in_bucket(keys: Seq<u64>, n: u32, b: u32) -> bool {
    &&& keys.no_duplicates()
    &&& forall|i: int| 0 <= i < keys.len() ==> jump_back(#[trigger] keys[i], n) == b
}

/// The buckets share the keys: of the two to the 64 keys each of `n` buckets has
/// more than one in `2 * n`, and exactly one in `n` where `n` is a power of two.
/// (With as many as one in `n` in each of `n` buckets, there are no more.)
pub proof fn law_buckets_share_the_keys(n: u32, b: u32)
    requires
        b < n,
    ensures
        exists|keys: Seq<u64>| #[trigger]
            all_in_bucket(keys, n, b) && 2 * n * keys.len() > 0x1_0000_0000_0000_0000 && (
            is_power_of_two(n) ==> n * keys.len() == 0x1_0000_0000_0000_0000),
{
    if n == 1 {
        let keys = Seq::new(0x1_0000_0000_0000_0000, |i: int| i as u64);
        assert(all_in_bucket(keys, n, b));
    } else {
        let e = lemma_mask(n);
        let keys = lemma_keys(n, b, e);
        lemma_share_is_fair(n, e, keys.len());
        assert(all_in_bucket(keys, n, b));
    }
}

/// As many keys of a bucket as the mask leaves bits.
proof fn lemma_keys(n: u32, b: u32, e: u32) -> (keys: Seq<u64>)
    requires
        b < n,
        n > 1,
        1 <= e <= 32,
        mask_through(top_bit((n - 1) as u32)) == (1u64 << e) - 1,
        n <= 1u64 << e,
    ensures
        all_in_bucket(keys, n, b),
        keys.len() == 1u64 << ((64 - e) as u32),
{
    let m = mask_through(top_bit((n - 1) as u32));
    let share = 1u64 << ((64 - e) as u32);
    let keys = Seq::new(share as nat, |i: int| key_of(word_for(b, e, i as u64)));
    assert forall|i: int| 0 <= i < keys.len() implies jump_back(#[trigger] keys[i], n) == b by {
        lemma_in_bucket(n, b, e, i as u64);
    }
    assert forall|i: int, j: int| 0 <= i < keys.len() && 0 <= j < keys.len() && i != j implies keys[i]
        != keys[j] by {
        lemma_key_of(word_for(b, e, i as u64));
        lemma_key_of(word_for(b, e, j as u64));
        if keys[i] == keys[j] {
            lemma_words_differ(b, e, m, i as u64, j as u64);
        }
    }
    keys
}

proof fn lemma_share_is_fair(n: u32, e: u32, share: nat)
    requires
        1 <= e <= 32,
        share == 1u64 << ((64 - e) as u32),
        (1u64 << e) < 2 * n,
        is_power_of_two(n) ==> n == 1u64 << e,
    ensures
        2 * n * share > 0x1_0000_0000_0000_0000,
        is_power_of_two(n) ==> n * share == 0x1_0000_0000_0000_0000,
{
    let f = (e - 1) as u32;
    lemma_share(f);
    assert((1u64 << e) == 2 * (1u64 << f)) by (bit_vector)
        requires
            1 <= e <= 32,
            f == e - 1,
    ;
    let half = 1u64 << f;
    let size = 1u64 << e;
    assert(half * share == 0x8000_0000_0000_0000);
    assert(size * share == 0x1_0000_0000_0000_0000 && 2 * n * share > size * share)
        by (nonlinear_arith)
        requires
            size == 2 * half,
            half * share == 0x8000_0000_0000_0000,
            size < 2 * n,
    ;
}

/// Every bucket is the bucket of some key.
pub proof fn law_every_bucket_is_used(n: u32, b: u32)
    requires
        b < n,
    ensures
        exists|k: u64| jump_back(k, n) == b,
{
    law_buckets_share_the_keys(n, b);
    let keys = choose|keys: Seq<u64>| #[trigger]
        all_in_bucket(keys, n, b) && 2 * n * keys.len() > 0x1_0000_0000_0000_0000 && (
        is_power_of_two(n) ==> n * keys.len() == 0x1_0000_0000_0000_0000);
    assert(keys.len() > 0) by (nonlinear_arith)
        requires
            2 * n * keys.len() > 0x1_0000_0000_0000_0000,
    ;
    assert(jump_back(keys[0], n) == b);
}

/// A bucket that is added takes keys over: some key moves into it, from where it
/// was before, and none moves anywhere else.
pub proof fn law_added_bucket_takes_keys(n: u32)
    requires
        0 < n < u32::MAX,
    ensures
        exists|k: u64|
            #[trigger] jump_back(k, (n + 1) as u32) == n && jump_back(k, n) < n,
        forall|k: u64|
            #[trigger] jump_back(k, (n + 1) as u32) == n || jump_back(k, (n + 1) as u32)
                == jump_back(k, n),
{
    law_every_bucket_is_used((n + 1) as u32, n);
    let more = (n + 1) as u32;
    let k = choose|k: u64| jump_back(k, more) == n;
    law_bucket_in_range(k, n);
    assert forall|k: u64|
        #[trigger] jump_back(k, (n + 1) as u32) == n || jump_back(k, (n + 1) as u32) == jump_back(
            k,
            n,
        ) by {
        law_one_more_bucket(k, n);
    }
}

} // verus!
