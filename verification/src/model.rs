//! Mathematical model of the MD5 construction.
//!
//! Everything in this module is specification-level: the per-step constant
//! tables, the nonlinear round functions, the compression function folding one
//! 64-byte block into the four-word running state, the block-absorbing chain,
//! the padding rule, and the digest of a whole message. The executable engine
//! is verified against these definitions.

use vstd::prelude::*;
use vstd::bytes::{spec_u32_to_le_bytes, spec_u32_from_le_bytes, spec_u64_to_le_bytes};
use vstd::arithmetic::div_mod::{
    lemma_small_mod, lemma_mod_multiples_vanish, lemma_mod_division_less_than_divisor,
    lemma_fundamental_div_mod, lemma_mod_multiples_basic, lemma_mod_decreases,
};

verus! {

/// Per-step left-rotation amounts, sixteen per round.
pub const S: [u32; 64] = [
    7, 12, 17, 22, 7, 12, 17, 22, 7, 12, 17, 22, 7, 12, 17, 22,
    5, 9, 14, 20, 5, 9, 14, 20, 5, 9, 14, 20, 5, 9, 14, 20,
    4, 11, 16, 23, 4, 11, 16, 23, 4, 11, 16, 23, 4, 11, 16, 23,
    6, 10, 15, 21, 6, 10, 15, 21, 6, 10, 15, 21, 6, 10, 15, 21,
];

/// Per-step additive constants.
pub const K: [u32; 64] = [
    0xd76aa478, 0xe8c7b756, 0x242070db, 0xc1bdceee, 0xf57c0faf, 0x4787c62a, 0xa8304613, 0xfd469501,
    0x698098d8, 0x8b44f7af, 0xffff5bb1, 0x895cd7be, 0x6b901122, 0xfd987193, 0xa679438e, 0x49b40821,
    0xf61e2562, 0xc040b340, 0x265e5a51, 0xe9b6c7aa, 0xd62f105d, 0x02441453, 0xd8a1e681, 0xe7d3fbc8,
    0x21e1cde6, 0xc33707d6, 0xf4d50d87, 0x455a14ed, 0xa9e3e905, 0xfcefa3f8, 0x676f02d9, 0x8d2a4c8a,
    0xfffa3942, 0x8771f681, 0x6d9d6122, 0xfde5380c, 0xa4beea44, 0x4bdecfa9, 0xf6bb4b60, 0xbebfbc70,
    0x289b7ec6, 0xeaa127fa, 0xd4ef3085, 0x04881d05, 0xd9d4d039, 0xe6db99e5, 0x1fa27cf8, 0xc4ac5665,
    0xf4292244, 0x432aff97, 0xab9423a7, 0xfc93a039, 0x655b59c3, 0x8f0ccc92, 0xffeff47d, 0x85845dd1,
    0x6fa87e4f, 0xfe2ce6e0, 0xa3014314, 0x4e0811a1, 0xf7537e82, 0xbd3af235, 0x2ad7d2bb, 0xeb86d391,
];

/// The fixed initial value of the four-word state.
pub open spec fn md5_init() -> Seq<u32> {
    seq![0x67452301u32, 0xefcdab89u32, 0x98badcfeu32, 0x10325476u32]
}

/// Addition modulo 2^32: every addition in the compression function wraps.
pub open spec fn add32(x: u32, y: u32) -> u32 {
    ((x + y) % 0x1_0000_0000) as u32
}

/// Left rotation of a 32-bit word. The rotation amounts used by the
/// construction all lie strictly between 0 and 32.
pub open spec fn rotl32(x: u32, s: u32) -> u32
    recommends
        0 < s < 32,
{
    if s == 0 || s >= 32 {
        x
    } else {
        (x << s) | (x >> ((32 - s) as u32))
    }
}

/// The nonlinear mixing function of step `i`, applied to the three working
/// registers other than the accumulator.
pub open spec fn md5_f(b: u32, c: u32, d: u32, i: int) -> u32 {
    if 0 <= i < 16 {
        (b & c) | (!b & d)
    } else if 16 <= i < 32 {
        (b & d) | (!d & c)
    } else if 32 <= i < 48 {
        b ^ c ^ d
    } else {
        c ^ (b | !d)
    }
}

/// The message-word index read by step `i`.
pub open spec fn md5_g(i: int) -> int {
    if 0 <= i < 16 {
        i
    } else if 16 <= i < 32 {
        (5 * i + 1) % 16
    } else if 32 <= i < 48 {
        (3 * i + 5) % 16
    } else {
        (7 * i) % 16
    }
}

/// Steps `i..64` of the compression function, starting from working registers
/// `(a, b, c, d)` over the sixteen message words `m`.
pub open spec fn md5_rounds(a: u32, b: u32, c: u32, d: u32, m: Seq<u32>, i: int) -> (u32, u32, u32, u32)
    decreases 64 - i,
{
    if i < 0 || i >= 64 {
        (a, b, c, d)
    } else {
        let f = add32(add32(add32(a, md5_f(b, c, d, i)), K[i]), m[md5_g(i)]);
        md5_rounds(d, add32(b, rotl32(f, S[i])), b, c, m, i + 1)
    }
}

/// The sixteen 32-bit little-endian words of a 64-byte block.
pub open spec fn block_words(block: Seq<u8>) -> Seq<u32>
    recommends
        block.len() == 64,
{
    Seq::new(16, |j: int| spec_u32_from_le_bytes(block.subrange(4 * j, 4 * j + 4)))
}

/// The compression function: run the 64 steps over one block and add the
/// result back into the incoming state (the Merkle–Damgård feed-forward).
pub open spec fn compress(s: Seq<u32>, block: Seq<u8>) -> Seq<u32>
    recommends
        s.len() == 4,
        block.len() == 64,
{
    let m = block_words(block);
    let r = md5_rounds(s[0], s[1], s[2], s[3], m, 0);
    seq![add32(s[0], r.0), add32(s[1], r.1), add32(s[2], r.2), add32(s[3], r.3)]
}

/// Fold every complete leading 64-byte block of `bytes` into the state; any
/// trailing partial block is left untouched.
pub open spec fn absorb(s: Seq<u32>, bytes: Seq<u8>) -> Seq<u32>
    decreases bytes.len(),
{
    if bytes.len() < 64 {
        s
    } else {
        absorb(compress(s, bytes.take(64)), bytes.skip(64))
    }
}

/// The trailing partial block that `absorb` leaves unprocessed.
pub open spec fn rem64(bytes: Seq<u8>) -> Seq<u8> {
    bytes.skip(bytes.len() - (bytes.len() % 64))
}

/// How many zero bytes the padding inserts after the `0x80` terminator for a
/// message of `len` bytes, so that the padded length is 56 modulo 64.
pub open spec fn pad_zeros(len: nat) -> nat {
    ((119 - (len % 64)) % 64) as nat
}

/// A run of `n` zero bytes.
pub open spec fn zero_fill(n: nat) -> Seq<u8> {
    Seq::new(n, |i: int| 0u8)
}

/// The deterministic padding appended to a message of `len` bytes before the
/// final compression: the `0x80` terminator, zero fill to 56 modulo 64, then
/// the bit length `len * 8` as eight little-endian bytes (taken modulo 2^64).
pub open spec fn glue_padding(len: nat) -> Seq<u8> {
    seq![0x80u8] + zero_fill(pad_zeros(len)) + spec_u64_to_le_bytes(
        ((len * 8) % 0x1_0000_0000_0000_0000) as u64,
    )
}

/// The padding `finalize` builds when the pending buffer holds `blen` bytes
/// and the byte counter reads `count`: the zero fill is driven by the buffer
/// length, the bit-length field by the counter. When the two are congruent
/// modulo 64 — as in every reachable engine state — this equals
/// `glue_padding(count)`.
pub open spec fn fin_padding(blen: nat, count: nat) -> Seq<u8> {
    seq![0x80u8] + zero_fill(pad_zeros(blen)) + spec_u64_to_le_bytes(
        ((count * 8) % 0x1_0000_0000_0000_0000) as u64,
    )
}

/// The digest format: the four state words serialized little-endian, in state
/// order, giving 16 bytes.
pub open spec fn state_bytes(s: Seq<u32>) -> Seq<u8>
    recommends
        s.len() == 4,
{
    spec_u32_to_le_bytes(s[0]) + spec_u32_to_le_bytes(s[1]) + spec_u32_to_le_bytes(s[2])
        + spec_u32_to_le_bytes(s[3])
}

/// The inverse of `state_bytes`: four 32-bit words read little-endian from
/// consecutive 4-byte groups of a 16-byte digest.
pub open spec fn state_of(t: Seq<u8>) -> Seq<u32>
    recommends
        t.len() == 16,
{
    seq![
        spec_u32_from_le_bytes(t.subrange(0, 4)),
        spec_u32_from_le_bytes(t.subrange(4, 8)),
        spec_u32_from_le_bytes(t.subrange(8, 12)),
        spec_u32_from_le_bytes(t.subrange(12, 16)),
    ]
}

/// The MD5 digest of a whole message: absorb the padded message from the
/// fixed initial state and serialize the final state.
pub open spec fn md5_digest(msg: Seq<u8>) -> Seq<u8> {
    state_bytes(absorb(md5_init(), msg + glue_padding(msg.len())))
}

/// Absorbing preserves the four-word shape of the state.
pub proof fn lemma_absorb_len(s: Seq<u32>, bytes: Seq<u8>)
    requires
        s.len() == 4,
    ensures
        absorb(s, bytes).len() == 4,
    decreases bytes.len(),
{
    if bytes.len() >= 64 {
        lemma_absorb_len(compress(s, bytes.take(64)), bytes.skip(64));
    }
}

/// A sum whose first part is block-aligned reduces modulo 64 to its second
/// part.
pub proof fn lemma_mod64_prefix(a: int, b: int)
    requires
        a % 64 == 0,
    ensures
        (a + b) % 64 == b % 64,
{
    lemma_fundamental_div_mod(a, 64);
    assert(a == 64 * (a / 64));
    lemma_mod_multiples_vanish(a / 64, b, 64);
}

/// Merkle–Damgård composition: absorbing a block-aligned prefix and then the
/// rest is absorbing the concatenation.
pub proof fn lemma_absorb_append(s: Seq<u32>, x: Seq<u8>, y: Seq<u8>)
    requires
        x.len() % 64 == 0,
    ensures
        absorb(s, x + y) == absorb(absorb(s, x), y),
    decreases x.len(),
{
    if x.len() == 0 {
        assert(x + y =~= y);
    } else {
        if x.len() < 64 {
            lemma_small_mod(x.len(), 64);
        }
        assert(x.len() >= 64);
        assert((x + y).len() >= 64);
        assert((x + y).take(64) =~= x.take(64));
        assert((x + y).skip(64) =~= x.skip(64) + y);
        assert(x.skip(64).len() % 64 == 0) by {
            lemma_mod_multiples_vanish(-1, x.len() as int, 64);
        };
        lemma_absorb_append(compress(s, x.take(64)), x.skip(64), y);
    }
}

/// Decomposing a byte stream into its block-aligned prefix and the trailing
/// partial block.
pub proof fn lemma_rem64(t: Seq<u8>)
    ensures
        t.len() % 64 <= t.len(),
        rem64(t).len() == t.len() % 64,
        rem64(t).len() < 64,
        (t.len() - t.len() % 64) % 64 == 0,
        t.take(t.len() - (t.len() % 64)) + rem64(t) == t,
        t.take(t.len() - (t.len() % 64)).len() % 64 == 0,
{
    lemma_mod_division_less_than_divisor(t.len() as int, 64);
    lemma_mod_decreases(t.len(), 64);
    lemma_fundamental_div_mod(t.len() as int, 64);
    assert(t.len() - t.len() % 64 == 64 * ((t.len() as int) / 64));
    assert((64 * ((t.len() as int) / 64)) % 64 == 0) by {
        lemma_mod_multiples_basic((t.len() as int) / 64, 64);
        assert(((t.len() as int) / 64) * 64 == 64 * ((t.len() as int) / 64)) by (nonlinear_arith);
    };
    assert(t.take(t.len() - (t.len() % 64)) + rem64(t) =~= t);
}

/// One step of block-by-block absorption: extending a block-aligned prefix by
/// one block composes with the compression function.
pub proof fn lemma_absorb_step(s: Seq<u32>, t: Seq<u8>, off: int)
    requires
        0 <= off,
        off % 64 == 0,
        off + 64 <= t.len(),
    ensures
        absorb(s, t.take(off + 64)) == compress(absorb(s, t.take(off)), t.subrange(off, off + 64)),
{
    let pre = t.take(off);
    let sub = t.subrange(off, off + 64);
    lemma_absorb_append(s, pre, sub);
    assert(pre + sub =~= t.take(off + 64));
    assert(sub.take(64) =~= sub);
    assert(sub.skip(64) =~= Seq::<u8>::empty());
    assert(absorb(absorb(s, pre), sub) == absorb(
        compress(absorb(s, pre), sub.take(64)),
        sub.skip(64),
    ));
    assert(absorb(compress(absorb(s, pre), sub), sub.skip(64)) == compress(absorb(s, pre), sub));
}

/// Absorbing ignores the trailing partial block.
pub proof fn lemma_absorb_drops_rem(s: Seq<u32>, t: Seq<u8>)
    ensures
        absorb(s, t) == absorb(s, t.take(t.len() - (t.len() % 64))),
{
    lemma_rem64(t);
    let al = t.take(t.len() - (t.len() % 64));
    lemma_absorb_append(s, al, rem64(t));
    assert(al + rem64(t) =~= t);
}

/// Streaming composition: an engine that has absorbed `t` (keeping the
/// trailing partial block pending) and is then fed `more` reaches exactly the
/// state and pending bytes of an engine fed `t ‖ more` at once.
pub proof fn lemma_absorb_chain(s: Seq<u32>, t: Seq<u8>, more: Seq<u8>)
    ensures
        absorb(absorb(s, t), rem64(t) + more) == absorb(s, t + more),
        rem64(rem64(t) + more) == rem64(t + more),
{
    lemma_rem64(t);
    lemma_rem64(t + more);
    lemma_rem64(rem64(t) + more);
    let al = t.take(t.len() - (t.len() % 64));
    let r = rem64(t);
    lemma_absorb_drops_rem(s, t);
    lemma_absorb_append(s, al, r + more);
    assert(al + (r + more) =~= t + more);
    assert(absorb(absorb(s, t), rem64(t) + more) == absorb(s, t + more));
    assert((al.len() + (r + more).len()) % 64 == (r + more).len() % 64) by {
        lemma_mod64_prefix(al.len() as int, (r + more).len() as int);
    };
    assert(rem64(rem64(t) + more) =~= rem64(t + more));
}

/// The zero fill never reaches a full block.
pub proof fn lemma_pad_zeros_fits(len: nat)
    ensures
        pad_zeros(len) < 64,
        len % 64 < 64,
{
    lemma_mod_division_less_than_divisor(len as int, 64);
    lemma_mod_division_less_than_divisor(119 - ((len % 64) as int), 64);
}

/// The zero count does the job it is defined for: after the `0x80` terminator
/// and `pad_zeros(len)` zero bytes, the length is 56 modulo 64.
pub proof fn lemma_pad_zeros_spec(len: nat)
    ensures
        (len + 1 + pad_zeros(len)) % 64 == 56,
{
    let x = (len % 64) as int;
    lemma_mod_division_less_than_divisor(len as int, 64);
    if x >= 56 {
        lemma_small_mod((119 - x) as nat, 64);
        assert(pad_zeros(len) == 119 - x);
    } else {
        lemma_mod_multiples_vanish(1, 55 - x, 64);
        lemma_small_mod((55 - x) as nat, 64);
        assert(pad_zeros(len) == 55 - x);
    }
    let pz = pad_zeros(len) as int;
    lemma_fundamental_div_mod(len as int, 64);
    assert(len + 1 + pz == 64 * ((len as int) / 64) + (x + 1 + pz));
    lemma_mod_multiples_vanish((len as int) / 64, x + 1 + pz, 64);
    if x >= 56 {
        assert(x + 1 + pz == 120);
        lemma_mod_multiples_vanish(1, 56, 64);
        lemma_small_mod(56, 64);
    } else {
        assert(x + 1 + pz == 56);
        lemma_small_mod(56, 64);
    }
}

/// Within the zero fill, the 56-modulo-64 boundary is hit exactly once, at
/// `pad_zeros(len)` zeros: the padding loop stops there and nowhere earlier.
pub proof fn lemma_pad_zeros_exact(len: nat, z: nat)
    requires
        z <= pad_zeros(len),
    ensures
        ((len + 1 + z) % 64 == 56) <==> (z == pad_zeros(len)),
{
    lemma_pad_zeros_spec(len);
    if z < pad_zeros(len) {
        let x = (len % 64) as int;
        lemma_mod_division_less_than_divisor(len as int, 64);
        lemma_fundamental_div_mod(len as int, 64);
        assert(len + 1 + z == 64 * ((len as int) / 64) + (x + 1 + z));
        lemma_mod_multiples_vanish((len as int) / 64, x + 1 + z as int, 64);
        if x >= 56 {
            lemma_small_mod((119 - x) as nat, 64);
            assert(pad_zeros(len) == 119 - x);
            if x + 1 + z < 64 {
                lemma_small_mod((x + 1 + z) as nat, 64);
                assert((x + 1 + z as int) % 64 >= 57);
            } else {
                lemma_mod_multiples_vanish(1, x + 1 + z - 64, 64);
                lemma_small_mod((x + 1 + z - 64) as nat, 64);
                assert((x + 1 + z as int) % 64 <= 55);
            }
        } else {
            lemma_mod_multiples_vanish(1, 55 - x, 64);
            lemma_small_mod((55 - x) as nat, 64);
            assert(pad_zeros(len) == 55 - x);
            assert(x + 1 + z < 56);
            lemma_small_mod((x + 1 + z) as nat, 64);
        }
    }
}

/// After terminator, zero fill and the eight-byte length field, the padded
/// stream is a whole number of blocks.
pub proof fn lemma_pad_zeros_total(len: nat)
    ensures
        (len + 1 + pad_zeros(len) + 8) % 64 == 0,
{
    lemma_pad_zeros_spec(len);
    lemma_fundamental_div_mod((len + 1 + pad_zeros(len)) as int, 64);
    let q = ((len + 1 + pad_zeros(len)) as int) / 64;
    assert(len + 1 + pad_zeros(len) + 8 == 64 * q + 64);
    lemma_mod_multiples_vanish(q + 1, 0, 64);
    lemma_small_mod(0, 64);
}

/// The glue padding is the terminator, the zero fill, and eight length bytes;
/// message plus glue is block-aligned.
pub proof fn lemma_glue_len(len: nat)
    ensures
        glue_padding(len).len() == 9 + pad_zeros(len),
        (len + glue_padding(len).len()) % 64 == 0,
{
    vstd::bytes::lemma_auto_spec_u64_to_from_le_bytes();
    lemma_pad_zeros_total(len);
}

/// When the pending-buffer length and the byte counter agree modulo 64 — as
/// they do in every engine state reachable without raw state injection, and in
/// injected states whose counter is block-aligned — the padding `finalize`
/// builds is exactly the glue padding of the counter.
pub proof fn lemma_fin_glue(blen: nat, count: nat)
    requires
        blen % 64 == count % 64,
    ensures
        fin_padding(blen, count) == glue_padding(count),
{
    assert(pad_zeros(blen) == pad_zeros(count));
}

/// Feeding `m` to an engine whose state is `s`, whose buffer is empty and
/// whose counter stands at a block-aligned `base`, then finalizing, produces
/// the digest of the absorbed stream `m ‖ glue_padding(base + m.len())`.
pub proof fn lemma_update_finalize(s: Seq<u32>, m: Seq<u8>, base: nat)
    requires
        base % 64 == 0,
    ensures
        absorb(
            absorb(s, m),
            rem64(m) + fin_padding(rem64(m).len(), (base + m.len()) as nat),
        ) == absorb(s, m + glue_padding((base + m.len()) as nat)),
{
    lemma_rem64(m);
    let c = (base + m.len()) as nat;
    lemma_mod64_prefix(base as int, m.len() as int);
    assert(c % 64 == m.len() % 64);
    lemma_small_mod(rem64(m).len(), 64);
    lemma_fin_glue(rem64(m).len(), c);
    lemma_absorb_chain(s, m, fin_padding(rem64(m).len(), c));
}

/// Every digest is 16 bytes.
pub proof fn lemma_digest_len(m: Seq<u8>)
    ensures
        md5_digest(m).len() == 16,
{
    vstd::bytes::lemma_auto_spec_u32_to_from_le_bytes();
}

/// Deserializing a 16-byte digest into a state and reserializing it yields
/// the original bytes.
pub proof fn lemma_state_roundtrip(t: Seq<u8>)
    requires
        t.len() == 16,
    ensures
        state_of(t).len() == 4,
        state_bytes(state_of(t)) == t,
{
    vstd::bytes::lemma_auto_spec_u32_to_from_le_bytes();
    assert(state_bytes(state_of(t)) =~= t);
}

/// Serializing a four-word state and deserializing the bytes yields the
/// original state.
pub proof fn lemma_state_inverse(s: Seq<u32>)
    requires
        s.len() == 4,
    ensures
        state_of(state_bytes(s)) == s,
{
    vstd::bytes::lemma_auto_spec_u32_to_from_le_bytes();
    let b = state_bytes(s);
    assert(b.subrange(0, 4) =~= spec_u32_to_le_bytes(s[0]));
    assert(b.subrange(4, 8) =~= spec_u32_to_le_bytes(s[1]));
    assert(b.subrange(8, 12) =~= spec_u32_to_le_bytes(s[2]));
    assert(b.subrange(12, 16) =~= spec_u32_to_le_bytes(s[3]));
    assert(state_of(state_bytes(s)) =~= s);
}

/// Streaming equivalence: feeding a message in two chunks and finalizing
/// yields the digest of the concatenation, for every split point — the state
/// and pending buffer reached through `m1` then `m2` finalize to
/// `md5_digest(m1 + m2)`.
pub proof fn lemma_streaming_equivalence(m1: Seq<u8>, m2: Seq<u8>)
    ensures
        ({
            let mid_state = absorb(md5_init(), m1);
            let mid_pending = rem64(m1);
            let end_state = absorb(mid_state, mid_pending + m2);
            let end_pending = rem64(mid_pending + m2);
            state_bytes(
                absorb(
                    end_state,
                    end_pending + fin_padding(end_pending.len(), (m1.len() + m2.len()) as nat),
                ),
            ) == md5_digest(m1 + m2)
        }),
{
    lemma_absorb_chain(md5_init(), m1, m2);
    lemma_update_finalize(md5_init(), m1 + m2, 0);
}

} // verus!
