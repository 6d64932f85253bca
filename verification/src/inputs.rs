//! Deterministic expansion of scalar inputs into chunk lists, for test
//! drivers that can only generate scalars.

use vstd::prelude::*;

use vstd::arithmetic::div_mod::lemma_add_mod_noop;

verus! {

/// `x` reduced to 64 bits.
pub open spec fn wrap64(x: int) -> u64 {
    (x % 0x1_0000_0000_0000_0000) as u64
}

/// The step of the generator that draws each chunk's length.
pub open spec fn outer_step(s: u64) -> u64 {
    wrap64(s * 6364136223846793005 + 1442695040888963407)
}

/// The step of the generator that draws each byte.
pub open spec fn inner_step(s: u64) -> u64 {
    wrap64(s * 2862933555777941757 + 3037000493)
}

/// The byte generator's state after `k` steps from `s`.
pub open spec fn inner_state(s: u64, k: nat) -> u64
    decreases k,
{
    if k == 0 {
        s
    } else {
        inner_step(inner_state(s, (k - 1) as nat))
    }
}

/// The length, 1 to 8, of the chunk drawn at state `u`.
pub open spec fn chunk_len_at(u: u64) -> nat {
    ((u >> 58) % 8 + 1) as nat
}

/// The chunk drawn at state `u`: byte `j` is bits 33 to 40 of the byte
/// generator's state after `j + 1` steps.
pub open spec fn chunk_at(u: u64) -> Seq<u8> {
    Seq::new(chunk_len_at(u), |j: int| (inner_state(u, (j + 1) as nat) >> 33) as u8)
}

/// The generator's state before chunk `i` is drawn from `seed`.
pub open spec fn state_before_chunk(seed: u64, i: nat) -> u64
    decreases i,
{
    if i == 0 {
        seed
    } else {
        let u: u64 = outer_step(state_before_chunk(seed, (i - 1) as nat));
        inner_state(u, chunk_len_at(u))
    }
}

/// The number of chunks, 1 to 5, drawn from `seed`.
pub open spec fn num_chunks_at(seed: u64) -> nat {
    ((seed >> 60) % 5 + 1) as nat
}

/// The chunks that `seed` expands to.
pub open spec fn seed_chunks(seed: u64) -> Seq<Seq<u8>> {
    Seq::new(
        num_chunks_at(seed),
        |i: int| chunk_at(outer_step(state_before_chunk(seed, i as nat))),
    )
}

/// A seed expands to `(seed >> 60) % 5 + 1` chunks, so 1 to 5, each of 1
/// to 8 bytes.
pub proof fn lemma_seed_chunks_shape(seed: u64)
    ensures
        seed_chunks(seed).len() == (seed >> 60) % 5 + 1,
        1 <= seed_chunks(seed).len() <= 5,
        forall|i: int|
            0 <= i < seed_chunks(seed).len() ==> 1 <= #[trigger] seed_chunks(seed)[i].len() <= 8,
{
}

/// Wrapping multiply-then-add is the affine step reduced to 64 bits.
proof fn lemma_wrapping_affine(s: u64, a: u64, b: u64)
    ensures
        vstd::wrapping::u64_specs::wrapping_add(vstd::wrapping::u64_specs::wrapping_mul(s, a), b)
            == wrap64(s * a + b),
{
    let m: int = 0x1_0000_0000_0000_0000;
    let p: int = ((s as nat * a as nat) % (m as nat)) as int;
    assert(p == (s * a) % m);
    assert(0 <= p < m);
    lemma_add_mod_noop(s * a, b as int, m);
    assert((b as int) % m == b);
    assert(((s * a) % m + b) % m == (s * a + b) % m);
    if p + b >= m {
        assert((p + b) % m == p + b - m) by {
            vstd::arithmetic::div_mod::lemma_mod_sub_multiples_vanish(p + b, m);
            vstd::arithmetic::div_mod::lemma_small_mod((p + b - m) as nat, m as nat);
        }
    } else {
        vstd::arithmetic::div_mod::lemma_small_mod((p + b) as nat, m as nat);
    }
}

/// Expands `seed` into 1 to 5 chunks of 1 to 8 bytes each, drawn from two
/// linear congruential generators.
pub fn seed_to_chunks(seed: u64) -> (out: Vec<Vec<u8>>)
    ensures
        out@.map_values(|c: Vec<u8>| c@) == seed_chunks(seed),
        out@.len() == (seed >> 60) % 5 + 1,
        forall|i: int| 0 <= i < out@.len() ==> 1 <= #[trigger] out@[i]@.len() <= 8,
{
    proof {
        lemma_seed_chunks_shape(seed);
    }
    assert(seed >> 60 < 16) by (bit_vector);
    let n: usize = ((seed >> 60) as usize) % 5 + 1;
    let mut out: Vec<Vec<u8>> = Vec::with_capacity(n);
    let mut s: u64 = seed;
    let mut i: usize = 0;
    while i < n
        invariant
            n == num_chunks_at(seed),
            i <= n,
            s == state_before_chunk(seed, i as nat),
            out@.len() == i,
            forall|k: int|
                0 <= k < i ==> #[trigger] out@[k]@ == chunk_at(
                    outer_step(state_before_chunk(seed, k as nat)),
                ),
        decreases n - i,
    {
        proof {
            lemma_wrapping_affine(s, 6364136223846793005, 1442695040888963407);
        }
        s = s.wrapping_mul(6364136223846793005).wrapping_add(1442695040888963407);
        let ghost u: u64 = s;
        assert(s >> 58 < 64) by (bit_vector);
        let clen: usize = ((s >> 58) as usize) % 8 + 1;
        let mut chunk: Vec<u8> = Vec::with_capacity(clen);
        let mut j: usize = 0;
        while j < clen
            invariant
                clen == chunk_len_at(u),
                j <= clen,
                s == inner_state(u, j as nat),
                chunk@.len() == j,
                forall|k: int|
                    0 <= k < j ==> #[trigger] chunk@[k] == (inner_state(u, (k + 1) as nat) >> 33) as u8,
            decreases clen - j,
        {
            proof {
                lemma_wrapping_affine(s, 2862933555777941757, 3037000493);
            }
            s = s.wrapping_mul(2862933555777941757).wrapping_add(3037000493);
            chunk.push((s >> 33) as u8);
            j += 1;
        }
        assert(chunk@ =~= chunk_at(u));
        out.push(chunk);
        i += 1;
    }
    assert(out@.map_values(|c: Vec<u8>| c@) =~= seed_chunks(seed));
    out
}

/// The byte that `x` is spread to: the top byte of the low 32 bits of `x`
/// times 2654435761, wrapping at 32 bits.
pub open spec fn spread_byte(x: usize) -> u8 {
    ((((x as int) % 0x1_0000_0000) * 2654435761 % 0x1_0000_0000) / 0x100_0000) as u8
}

/// Spreads small integers over the whole range of bytes, by multiplicative
/// hashing.
pub fn usize_to_u8(x: usize) -> (b: u8)
    ensures
        b == spread_byte(x),
{
    let low: u32 = x as u32;
    assert(low as u64 == (x as u64) % 0x1_0000_0000) by (bit_vector)
        requires
            low == x as u32,
    ;
    let h: u32 = low.wrapping_mul(2654435761);
    assert(h >> 24 == h / 0x100_0000) by (bit_vector);
    (h >> 24) as u8
}

/// Spreads each integer of each inner vector to a byte.
pub fn nested_usize_to_u8(v: Vec<Vec<usize>>) -> (out: Vec<Vec<u8>>)
    ensures
        out@.len() == v@.len(),
        forall|i: int|
            0 <= i < v@.len() ==> #[trigger] out@[i]@ == v@[i]@.map_values(
                |x: usize| spread_byte(x),
            ),
{
    let mut out: Vec<Vec<u8>> = Vec::with_capacity(v.len());
    let mut i: usize = 0;
    while i < v.len()
        invariant
            i <= v@.len(),
            out@.len() == i,
            forall|k: int|
                0 <= k < i ==> #[trigger] out@[k]@ == v@[k]@.map_values(
                    |x: usize| spread_byte(x),
                ),
        decreases v@.len() - i,
    {
        let c = &v[i];
        let mut bytes: Vec<u8> = Vec::with_capacity(c.len());
        let mut j: usize = 0;
        while j < c.len()
            invariant
                c@ == v@[i as int]@,
                j <= c@.len(),
                bytes@.len() == j,
                forall|k: int| 0 <= k < j ==> #[trigger] bytes@[k] == spread_byte(c@[k]),
            decreases c@.len() - j,
        {
            bytes.push(usize_to_u8(c[j]));
            j += 1;
        }
        assert(bytes@ =~= c@.map_values(|x: usize| spread_byte(x)));
        out.push(bytes);
        i += 1;
    }
    out
}

} // verus!
