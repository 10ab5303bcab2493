use vstd::prelude::*;

verus! {

/// Little-endian value of a byte sequence: `s[0] + 256 * s[1] + 256^2 * s[2] + ...`.
pub open spec fn le_value(s: Seq<u8>) -> nat
    decreases s.len(),
{
    if s.len() == 0 {
        0
    } else {
        s[0] as nat + 256 * le_value(s.drop_first())
    }
}

proof fn lemma_le_value_four(s: Seq<u8>)
    requires
        s.len() == 4,
    ensures
        le_value(s) == s[0] + 256 * s[1] + 65536 * s[2] + 16777216 * s[3],
{
    reveal_with_fuel(le_value, 5);
}

proof fn lemma_le_value_push_zero(s: Seq<u8>)
    ensures
        le_value(s.push(0)) == le_value(s),
    decreases s.len(),
{
    if s.len() == 0 {
        reveal_with_fuel(le_value, 2);
    } else {
        assert(s.push(0).drop_first() =~= s.drop_first().push(0));
        lemma_le_value_push_zero(s.drop_first());
    }
}

/// The 32-bit word whose little-endian bytes are `b0, b1, b2, b3`.
fn le_word(b0: u8, b1: u8, b2: u8, b3: u8) -> (r: u32)
    ensures
        r == b0 + 256 * b1 + 65536 * b2 + 16777216 * b3,
{
    let r = (b0 as u32) | (b1 as u32) << 8u32 | (b2 as u32) << 16u32 | (b3 as u32) << 24u32;
    assert(r == b0 + 256 * b1 + 65536 * b2 + 16777216 * b3) by (bit_vector)
        requires
            r == (b0 as u32) | (b1 as u32) << 8u32 | (b2 as u32) << 16u32 | (b3 as u32) << 24u32,
    ;
    r
}

/// Left rotation of a 32-bit word by `n` bits, `0 < n < 32`.
pub open spec fn rotl(x: u32, n: u32) -> u32
    recommends
        0 < n < 32,
{
    (x << n) | (x >> (32 - n) as u32)
}

fn rotate(x: u32, n: u32) -> (r: u32)
    requires
        0 < n < 32,
    ensures
        r == rotl(x, n),
{
    (x << n) | (x >> (32 - n))
}

/// Addition modulo 2^32.
pub open spec fn add32(a: u32, b: u32) -> u32 {
    ((a + b) % 0x1_0000_0000) as u32
}

fn wadd(a: u32, b: u32) -> (r: u32)
    ensures
        r == add32(a, b),
{
    a.wrapping_add(b)
}

/// The two 32-bit registers of the mixing state.
pub struct State {
    pub lo: u32,
    pub hi: u32,
}

/// One mixing step: the state `s` absorbs the word `v`.
pub open spec fn mixed(s: State, v: u32) -> State {
    let lo1 = add32(s.lo, v);
    let hi1 = s.hi ^ lo1;
    let lo2 = add32(rotl(lo1, 20), hi1);
    let hi2 = rotl(hi1, 9) ^ lo2;
    let lo3 = add32(rotl(lo2, 27), hi2);
    let hi3 = rotl(hi2, 19);
    State { lo: lo3, hi: hi3 }
}

impl State {
    /// Applies one mixing step with the word `v`.
    pub fn update(&mut self, v: u32)
        ensures
            *final(self) == mixed(*old(self), v),
    {
        self.lo = wadd(self.lo, v);
        self.hi = self.hi ^ self.lo;
        self.lo = wadd(rotate(self.lo, 20), self.hi);
        self.hi = rotate(self.hi, 9) ^ self.lo;
        self.lo = wadd(rotate(self.lo, 27), self.hi);
        self.hi = rotate(self.hi, 19);
    }
}

/// The state that a seed starts from: its low half in `lo`, its high half in `hi`.
pub open spec fn seed_state(seed: u64) -> State {
    State { lo: (seed % 0x1_0000_0000) as u32, hi: (seed / 0x1_0000_0000) as u32 }
}

/// The word that ends the input: the 0 to 3 remaining bytes `t` followed by the
/// marker byte `0x80`, read little-endian.
pub open spec fn tail_word(t: Seq<u8>) -> u32
    recommends
        t.len() < 4,
{
    le_value(t.push(0x80)) as u32
}

/// The state after `s` absorbs `d`: each whole 4-byte block as a little-endian
/// word, then the tail word, then the word 0.
pub open spec fn absorb(s: State, d: Seq<u8>) -> State
    decreases d.len(),
{
    if d.len() < 4 {
        mixed(mixed(s, tail_word(d)), 0)
    } else {
        absorb(mixed(s, le_value(d.take(4)) as u32), d.skip(4))
    }
}

/// The Marvin32 checksum of `d` under `seed`.
pub open spec fn marvin32(seed: u64, d: Seq<u8>) -> u32 {
    let f = absorb(seed_state(seed), d);
    f.lo ^ f.hi
}

/// Computes the Marvin32 checksum of `data` under `seed`.
pub fn hash(seed: u64, data: &[u8]) -> (r: u32)
    ensures
        r == marvin32(seed, data@),
{
    let lo0 = #[verifier::truncate] (seed as u32);
    let hi0 = #[verifier::truncate] ((seed >> 32u64) as u32);
    assert(lo0 == seed % 0x1_0000_0000 && hi0 == seed / 0x1_0000_0000) by (bit_vector)
        requires
            lo0 == seed as u32,
            hi0 == (seed >> 32u64) as u32,
    ;
    let mut s = State { lo: lo0, hi: hi0 };
    let n = data.len();
    let mut i: usize = 0;
    assert(data@.skip(0) =~= data@);
    while n - i >= 4
        invariant
            n == data@.len(),
            i <= n,
            absorb(s, data@.skip(i as int)) == absorb(seed_state(seed), data@),
        decreases n - i,
    {
        let w = le_word(data[i], data[i + 1], data[i + 2], data[i + 3]);
        proof {
            let rest = data@.skip(i as int);
            assert(rest.take(4) =~= seq![data@[i as int], data@[i + 1], data@[i + 2], data@[i + 3]]);
            lemma_le_value_four(rest.take(4));
            assert(rest.skip(4) =~= data@.skip(i + 4));
        }
        s.update(w);
        i = i + 4;
    }
    let ghost rest = data@.skip(i as int);
    let fin = if n - i == 0 {
        proof {
            let p = rest.push(0x80).push(0).push(0).push(0);
            assert(p =~= seq![0x80u8, 0, 0, 0]);
            lemma_le_value_push_zero(rest.push(0x80));
            lemma_le_value_push_zero(rest.push(0x80).push(0));
            lemma_le_value_push_zero(rest.push(0x80).push(0).push(0));
            lemma_le_value_four(p);
        }
        le_word(0x80, 0, 0, 0)
    } else if n - i == 1 {
        proof {
            let p = rest.push(0x80).push(0).push(0);
            assert(p =~= seq![data@[i as int], 0x80u8, 0, 0]);
            lemma_le_value_push_zero(rest.push(0x80));
            lemma_le_value_push_zero(rest.push(0x80).push(0));
            lemma_le_value_four(p);
        }
        le_word(data[i], 0x80, 0, 0)
    } else if n - i == 2 {
        proof {
            let p = rest.push(0x80).push(0);
            assert(p =~= seq![data@[i as int], data@[i + 1], 0x80u8, 0]);
            lemma_le_value_push_zero(rest.push(0x80));
            lemma_le_value_four(p);
        }
        le_word(data[i], data[i + 1], 0x80, 0)
    } else {
        proof {
            let p = rest.push(0x80);
            assert(p =~= seq![data@[i as int], data@[i + 1], data@[i + 2], 0x80u8]);
            lemma_le_value_four(p);
        }
        le_word(data[i], data[i + 1], data[i + 2], 0x80)
    };
    s.update(fin);
    s.update(0);
    s.lo ^ s.hi
}

/// The checksum depends on the seed and the bytes alone: the same seed and the
/// same bytes always give the same result.
pub proof fn lemma_hash_deterministic(seed: u64, a: Seq<u8>, b: Seq<u8>)
    requires
        a == b,
    ensures
        marvin32(seed, a) == marvin32(seed, b),
{
}

} // verus!
