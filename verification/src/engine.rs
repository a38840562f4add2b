//! The streaming hash engine: a four-word running state, a pending buffer of
//! fewer than 64 bytes, and a byte counter. Each operation is specified
//! exactly against the model in [`crate::model`].

use vstd::prelude::*;
use vstd::bytes::{u32_from_le_bytes, u32_to_le_bytes, u64_to_le_bytes};
use vstd::slice::slice_subrange;
use vstd::arithmetic::div_mod::lemma_small_mod;
use crate::model::{
    add32, rotl32, md5_f, md5_g, md5_rounds, block_words, compress, absorb, rem64,
    pad_zeros, zero_fill, fin_padding, state_bytes, state_of, md5_init, md5_digest, K, S,
};
use crate::hex::{hex_of, to_hex_string};

verus! {

/// Append a byte slice to a vector.
#[verifier::loop_isolation(false)]
pub fn extend_bytes(dst: &mut Vec<u8>, src: &[u8])
    ensures
        final(dst)@ == old(dst)@ + src@,
{
    let mut i: usize = 0;
    while i < src.len()
        invariant
            i <= src@.len(),
            dst@ == old(dst)@ + src@.take(i as int),
        decreases src@.len() - i,
    {
        dst.push(src[i]);
        proof {
            assert(old(dst)@ + src@.take(i as int) + seq![src@[i as int]] =~= old(dst)@
                + src@.take(i + 1));
        }
        i += 1;
    }
    proof {
        assert(src@.take(src@.len() as int) =~= src@);
    }
}

/// Addition modulo 2^32, the only addition the compression function uses.
pub fn add32e(x: u32, y: u32) -> (r: u32)
    ensures
        r == add32(x, y),
{
    proof {
        let s = x + y;
        if s > u32::MAX {
            assert(0 <= s - 0x1_0000_0000 < 0x1_0000_0000);
            vstd::arithmetic::div_mod::lemma_mod_multiples_vanish(1, s - 0x1_0000_0000, 0x1_0000_0000);
            lemma_small_mod((s - 0x1_0000_0000) as nat, 0x1_0000_0000);
        } else {
            lemma_small_mod(s as nat, 0x1_0000_0000);
        }
    }
    x.wrapping_add(y)
}

/// Left rotation of a 32-bit word by `s` positions.
pub fn rotl32e(x: u32, s: u32) -> (r: u32)
    ensures
        r == rotl32(x, s),
{
    if s == 0 || s >= 32 {
        x
    } else {
        (x << s) | (x >> (32 - s))
    }
}

/// The streaming MD5 engine.
///
/// `a ‖ b ‖ c ‖ d` is the running accumulator of the compression function,
/// `buffer` the bytes fed but not yet compressed, and `count` the total number
/// of message bytes the digest is defined over — including any bytes the
/// caller is emulating (a secret prefix) that were never physically passed to
/// `update`.
pub struct MD5 {
    pub a: u32,
    pub b: u32,
    pub c: u32,
    pub d: u32,
    pub count: u64,
    pub buffer: Vec<u8>,
}

impl MD5 {
    /// The four state words in order, as the model speaks of them.
    pub open spec fn words(&self) -> Seq<u32> {
        seq![self.a, self.b, self.c, self.d]
    }

    /// Well-formedness: the pending buffer never holds a complete block.
    pub open spec fn wf(&self) -> bool {
        self.buffer@.len() < 64
    }

    /// A fresh engine: standard initial constants, empty buffer, zero counter.
    pub fn new() -> (md5: MD5)
        ensures
            md5.words() == md5_init(),
            md5.count == 0,
            md5.buffer@ == Seq::<u8>::empty(),
            md5.wf(),
    {
        let md5 = MD5 {
            a: 0x67452301,
            b: 0xefcdab89,
            c: 0x98badcfe,
            d: 0x10325476,
            count: 0,
            buffer: Vec::new(),
        };
        proof {
            assert(md5.words() =~= md5_init());
        }
        md5
    }

    /// Raw state injection: resurrect an engine from a previously observed
    /// 16-byte digest, pretending `count` bytes have already been compressed.
    /// This is the construction path the extension attack uses.
    pub fn from_digest(tag: &[u8], count: u64) -> (md5: MD5)
        requires
            tag@.len() == 16,
        ensures
            md5.words() == state_of(tag@),
            md5.count == count,
            md5.buffer@ == Seq::<u8>::empty(),
            md5.wf(),
    {
        let md5 = MD5 {
            a: u32_from_le_bytes(slice_subrange(tag, 0, 4)),
            b: u32_from_le_bytes(slice_subrange(tag, 4, 8)),
            c: u32_from_le_bytes(slice_subrange(tag, 8, 12)),
            d: u32_from_le_bytes(slice_subrange(tag, 12, 16)),
            count,
            buffer: Vec::new(),
        };
        proof {
            assert(md5.words() =~= state_of(tag@));
        }
        md5
    }

    /// Serialize the running state to 16 bytes, little-endian word order.
    /// On a finalized engine this is the digest itself.
    pub fn state_digest(&self) -> (r: Vec<u8>)
        ensures
            r@ == state_bytes(self.words()),
            r@.len() == 16,
    {
        let mut r = u32_to_le_bytes(self.a);
        let mut rb = u32_to_le_bytes(self.b);
        let mut rc = u32_to_le_bytes(self.c);
        let mut rd = u32_to_le_bytes(self.d);
        r.append(&mut rb);
        r.append(&mut rc);
        r.append(&mut rd);
        proof {
            vstd::bytes::lemma_auto_spec_u32_to_from_le_bytes();
            assert(r@ =~= state_bytes(self.words()));
        }
        r
    }

    /// Fold one complete 64-byte block into the state. Invoked internally by
    /// `update` and `finalize`; buffer and counter are untouched.
    #[verifier::loop_isolation(false)]
    #[verifier::rlimit(50)]
    pub fn process_block(&mut self, block: &[u8])
        requires
            block@.len() == 64,
        ensures
            final(self).words() == compress(old(self).words(), block@),
            final(self).count == old(self).count,
            final(self).buffer@ == old(self).buffer@,
    {
        let ghost m_spec = block_words(block@);
        let mut m: Vec<u32> = Vec::new();
        let mut j: usize = 0;
        while j < 16
            invariant
                j <= 16,
                block@.len() == 64,
                m@.len() == j,
                forall|t: int| 0 <= t < j ==> m@[t] == m_spec[t],
            decreases 16 - j,
        {
            let w = u32_from_le_bytes(slice_subrange(block, 4 * j, 4 * j + 4));
            m.push(w);
            j += 1;
        }
        proof {
            assert(m@ =~= m_spec);
        }

        let mut a = self.a;
        let mut b = self.b;
        let mut c = self.c;
        let mut d = self.d;
        let ghost r_spec = md5_rounds(self.a, self.b, self.c, self.d, m_spec, 0);

        let mut i: usize = 0;
        while i < 64
            invariant
                i <= 64,
                m@ == m_spec,
                m@.len() == 16,
                md5_rounds(a, b, c, d, m_spec, i as int) == r_spec,
            decreases 64 - i,
        {
            let f: u32;
            let g: usize;
            if i < 16 {
                f = (b & c) | (!b & d);
                g = i;
            } else if i < 32 {
                f = (b & d) | (!d & c);
                g = (5 * i + 1) % 16;
            } else if i < 48 {
                f = b ^ c ^ d;
                g = (3 * i + 5) % 16;
            } else {
                f = c ^ (b | !d);
                g = (7 * i) % 16;
            }
            proof {
                assert(f == md5_f(b, c, d, i as int));
                assert(g == md5_g(i as int));
            }
            let fp = add32e(add32e(add32e(a, f), K[i]), m[g]);
            let nb = add32e(b, rotl32e(fp, S[i]));
            proof {
                assert(md5_rounds(a, b, c, d, m_spec, i as int) == md5_rounds(
                    d,
                    add32(b, rotl32(fp, S[i as int])),
                    b,
                    c,
                    m_spec,
                    i as int + 1,
                ));
            }
            a = d;
            d = c;
            c = b;
            b = nb;
            i += 1;
        }

        proof {
            assert(md5_rounds(a, b, c, d, m_spec, 64) == (a, b, c, d));
        }

        self.a = add32e(self.a, a);
        self.b = add32e(self.b, b);
        self.c = add32e(self.c, c);
        self.d = add32e(self.d, d);
        proof {
            assert(self.words() =~= compress(old(self).words(), block@));
        }
    }

    /// Feed bytes to the engine: append to the pending buffer, advance the
    /// counter, and compress every complete 64-byte block from the front.
    #[verifier::loop_isolation(false)]
    #[verifier::rlimit(50)]
    pub fn update(&mut self, data: &[u8])
        requires
            old(self).wf(),
            old(self).count + data@.len() <= u64::MAX,
        ensures
            final(self).words() == absorb(old(self).words(), old(self).buffer@ + data@),
            final(self).buffer@ == rem64(old(self).buffer@ + data@),
            final(self).count == old(self).count + data@.len(),
            final(self).wf(),
    {
        let ghost s0 = old(self).words();
        let mut total: Vec<u8> = Vec::new();
        total.append(&mut self.buffer);
        extend_bytes(&mut total, data);
        let ghost t = total@;
        proof {
            assert(t == old(self).buffer@ + data@);
        }

        self.count = self.count + data.len() as u64;

        let mut off: usize = 0;
        while total.len() - off >= 64
            invariant
                off <= total@.len(),
                off % 64 == 0,
                total@ == t,
                self.words() == absorb(s0, t.take(off as int)),
                self.count == old(self).count + data@.len(),
                self.buffer@ == Seq::<u8>::empty(),
            decreases total@.len() - off,
        {
            let block = slice_subrange(total.as_slice(), off, off + 64);
            self.process_block(block);
            proof {
                crate::model::lemma_absorb_step(s0, t, off as int);
                assert(block@ == t.subrange(off as int, off + 64));
            }
            off += 64;
        }

        proof {
            crate::model::lemma_mod64_prefix(off as int, t.len() - off);
            lemma_small_mod((t.len() - off) as nat, 64);
            assert(t.len() % 64 == t.len() - off);
            assert(off as int == t.len() - (t.len() % 64));
            crate::model::lemma_absorb_drops_rem(s0, t);
        }

        let n = total.len();
        let rem_slice = slice_subrange(total.as_slice(), off, n);
        let mut rem: Vec<u8> = Vec::new();
        extend_bytes(&mut rem, rem_slice);
        self.buffer = rem;
        proof {
            assert(Seq::<u8>::empty() + t.subrange(off as int, t.len() as int) =~= rem64(
                old(self).buffer@ + data@,
            ));
            crate::model::lemma_rem64(t);
        }
    }

    /// Pad and produce the 16-byte digest: append the `0x80` terminator, zero
    /// bytes until the buffer length is 56 modulo 64, then the 64-bit
    /// little-endian bit length; compress the remaining whole blocks and
    /// serialize the state. The engine is single-use: after this call the
    /// buffer is empty and further updates are not meaningful.
    #[verifier::loop_isolation(false)]
    #[verifier::rlimit(50)]
    pub fn finalize(&mut self) -> (digest: Vec<u8>)
        requires
            old(self).wf(),
            old(self).count * 8 <= u64::MAX,
        ensures
            digest@ == state_bytes(
                absorb(
                    old(self).words(),
                    old(self).buffer@ + fin_padding(old(self).buffer@.len(), old(self).count as nat),
                ),
            ),
            digest@.len() == 16,
            final(self).count == old(self).count,
            final(self).buffer@ == Seq::<u8>::empty(),
            final(self).wf(),
    {
        let ghost blen = old(self).buffer@.len();
        let bit_len: u64 = self.count * 8;

        self.buffer.push(0x80);
        proof {
            crate::model::lemma_pad_zeros_fits(blen);
            assert(self.buffer@ =~= old(self).buffer@ + seq![0x80u8] + zero_fill(0));
        }

        while self.buffer.len() % 64 != 56
            invariant
                self.buffer@.len() >= blen + 1,
                self.buffer@.len() - blen - 1 <= pad_zeros(blen),
                self.buffer@ == old(self).buffer@ + seq![0x80u8] + zero_fill(
                    (self.buffer@.len() - blen - 1) as nat,
                ),
                self.count == old(self).count,
                self.a == old(self).a,
                self.b == old(self).b,
                self.c == old(self).c,
                self.d == old(self).d,
            decreases pad_zeros(blen) - (self.buffer@.len() - blen - 1),
        {
            proof {
                let z = (self.buffer@.len() - blen - 1) as nat;
                crate::model::lemma_pad_zeros_exact(blen, z);
                assert(z < pad_zeros(blen));
            }
            self.buffer.push(0x00);
            proof {
                let z2 = (self.buffer@.len() - blen - 1) as nat;
                assert(self.buffer@ =~= old(self).buffer@ + seq![0x80u8] + zero_fill(z2));
            }
        }

        proof {
            let z = (self.buffer@.len() - blen - 1) as nat;
            crate::model::lemma_pad_zeros_exact(blen, z);
            assert(z == pad_zeros(blen));
        }

        let mut lenb = u64_to_le_bytes(bit_len);
        self.buffer.append(&mut lenb);

        proof {
            vstd::bytes::lemma_auto_spec_u64_to_from_le_bytes();
            lemma_small_mod((old(self).count * 8) as nat, 0x1_0000_0000_0000_0000);
            assert(self.buffer@ =~= old(self).buffer@ + fin_padding(blen, old(self).count as nat));
            crate::model::lemma_pad_zeros_total(blen);
            assert(self.buffer@.len() % 64 == 0);
        }

        let ghost s0 = old(self).words();
        let ghost t = self.buffer@;

        let mut off: usize = 0;
        let total_len = self.buffer.len();
        while total_len - off >= 64
            invariant
                off <= total_len,
                off % 64 == 0,
                total_len == self.buffer@.len(),
                self.buffer@ == t,
                self.words() == absorb(s0, t.take(off as int)),
                self.count == old(self).count,
            decreases total_len - off,
        {
            let mut block_vec: Vec<u8> = Vec::new();
            {
                let bslice = slice_subrange(self.buffer.as_slice(), off, off + 64);
                extend_bytes(&mut block_vec, bslice);
            }
            proof {
                assert(block_vec@ =~= t.subrange(off as int, off + 64));
            }
            self.process_block(block_vec.as_slice());
            proof {
                crate::model::lemma_absorb_step(s0, t, off as int);
            }
            off += 64;
        }

        proof {
            crate::model::lemma_mod64_prefix(off as int, t.len() - off);
            lemma_small_mod((t.len() - off) as nat, 64);
            assert(t.len() - off == 0);
            assert(t.take(off as int) =~= t);
        }

        self.buffer = Vec::new();
        self.state_digest()
    }

    /// One-shot digest of a byte sequence: fresh engine, one `update`, one
    /// `finalize`.
    pub fn digest(data: &[u8]) -> (r: Vec<u8>)
        requires
            data@.len() * 8 <= u64::MAX,
        ensures
            r@ == md5_digest(data@),
            r@.len() == 16,
    {
        let mut md5 = MD5::new();
        md5.update(data);
        let r = md5.finalize();
        proof {
            assert(Seq::<u8>::empty() + data@ =~= data@);
            crate::model::lemma_update_finalize(md5_init(), data@, 0);
            crate::model::lemma_digest_len(data@);
        }
        r
    }

    /// One-shot digest rendered as 32 lowercase hexadecimal characters, two
    /// per byte, bytes in digest order.
    pub fn digest_hex(data: &[u8]) -> (r: String)
        requires
            data@.len() * 8 <= u64::MAX,
        ensures
            r@ == hex_of(md5_digest(data@)),
    {
        let hash = MD5::digest(data);
        to_hex_string(hash.as_slice())
    }

    /// The naive secret-prefix MAC under study: `digest(key ‖ message)`.
    /// This is deliberately the vulnerable construction the extension attack
    /// targets, not a standards-track keyed hash.
    pub fn hmac(key: &[u8], data: &[u8]) -> (tag: Vec<u8>)
        requires
            (key@.len() + data@.len()) * 8 <= u64::MAX,
        ensures
            tag@ == md5_digest(key@ + data@),
            tag@.len() == 16,
    {
        let mut key_clone: Vec<u8> = Vec::new();
        extend_bytes(&mut key_clone, key);
        extend_bytes(&mut key_clone, data);
        proof {
            assert(key_clone@ =~= key@ + data@);
        }
        MD5::digest(key_clone.as_slice())
    }
}

} // verus!
