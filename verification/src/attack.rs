//! The length-extension attack on the naive secret-prefix MAC
//! `digest(key ‖ message)`.
//!
//! Given only a previously observed tag, the byte length of the unknown key,
//! the known message, and bytes to append, the attack resurrects the engine
//! state from the tag and continues hashing. The theorem
//! [`lemma_extension_attack`] shows the forgery verifies: the tag it computes
//! is exactly `digest(key ‖ forged_bytes)`, for every key of the stated
//! length, without the key ever being read.

use vstd::prelude::*;
use vstd::bytes::u64_to_le_bytes;
use vstd::arithmetic::div_mod::lemma_small_mod;
use crate::model::{
    absorb, pad_zeros, zero_fill, glue_padding, state_bytes, state_of, md5_init, md5_digest,
};
use crate::engine::{MD5, extend_bytes};

verus! {

/// The tag the extension attack computes from an observed tag, the secret
/// length, the known message's length, and the appended bytes: resurrect the
/// state serialized in the tag, then absorb the appended bytes padded as a
/// continuation of the already-compressed stream.
pub open spec fn forged_tag(tag: Seq<u8>, key_len: nat, msg_len: nat, new_msg: Seq<u8>) -> Seq<u8> {
    let glue = glue_padding(key_len + msg_len);
    let processed = key_len + msg_len + glue.len();
    state_bytes(absorb(state_of(tag), new_msg + glue_padding(processed + new_msg.len())))
}

/// Length extension: from the tag of `key ‖ msg`, the length of `key`, `msg`
/// itself and bytes to append, compute a forged tag and the forged message —
/// `msg ‖ glue_padding ‖ new_msg` — that a verifier recomputing the
/// secret-prefix MAC will accept. The key is never read; only its length
/// matters.
///
/// The preconditions are machine limits only: 72 bytes bound the glue padding
/// (the terminator, at most 63 zero bytes, and the eight length bytes), so the
/// forged stream fits in memory and its bit length in the 64-bit length field.
#[verifier::loop_isolation(false)]
#[verifier::rlimit(50)]
pub fn prolongation_attack(tag: &[u8], key_length: usize, msg: &[u8], new_msg: &[u8]) -> (r: (
    Vec<u8>,
    Vec<u8>,
))
    requires
        tag@.len() == 16,
        key_length + msg@.len() + 72 + new_msg@.len() <= usize::MAX,
        (key_length + msg@.len() + 72 + new_msg@.len()) * 8 <= u64::MAX,
    ensures
        r.0@ == forged_tag(tag@, key_length as nat, msg@.len(), new_msg@),
        r.0@.len() == 16,
        r.1@ == msg@ + glue_padding((key_length + msg@.len()) as nat) + new_msg@,
{
    let ghost total = (key_length + msg@.len()) as nat;
    let ghost glue = glue_padding(total);
    proof {
        crate::model::lemma_glue_len(total);
        crate::model::lemma_pad_zeros_fits(total);
    }

    // Reconstruct the glue padding the real computation would have used; only
    // the total length `key_length + msg.len()` matters, not the key.
    let mut msg_padded: Vec<u8> = Vec::new();
    extend_bytes(&mut msg_padded, msg);
    msg_padded.push(0x80);
    proof {
        assert(msg_padded@ =~= msg@ + seq![0x80u8] + zero_fill(0));
    }

    while (msg_padded.len() + key_length) % 64 != 56
        invariant
            msg_padded@.len() >= msg@.len() + 1,
            msg_padded@.len() - msg@.len() - 1 <= pad_zeros(total),
            msg_padded@ == msg@ + seq![0x80u8] + zero_fill(
                (msg_padded@.len() - msg@.len() - 1) as nat,
            ),
        decreases pad_zeros(total) - (msg_padded@.len() - msg@.len() - 1),
    {
        proof {
            let z = (msg_padded@.len() - msg@.len() - 1) as nat;
            crate::model::lemma_pad_zeros_exact(total, z);
            assert(z < pad_zeros(total));
        }
        msg_padded.push(0x00);
        proof {
            let z2 = (msg_padded@.len() - msg@.len() - 1) as nat;
            assert(msg_padded@ =~= msg@ + seq![0x80u8] + zero_fill(z2));
        }
    }

    proof {
        let z = (msg_padded@.len() - msg@.len() - 1) as nat;
        crate::model::lemma_pad_zeros_exact(total, z);
        assert(z == pad_zeros(total));
    }

    let original_len: u64 = ((msg.len() + key_length) as u64) * 8;
    let mut lenb = u64_to_le_bytes(original_len);
    msg_padded.append(&mut lenb);

    proof {
        vstd::bytes::lemma_auto_spec_u64_to_from_le_bytes();
        lemma_small_mod((total * 8) as nat, 0x1_0000_0000_0000_0000);
        assert(msg_padded@ =~= msg@ + glue);
    }

    // Resurrect the engine state from the tag, pretending that key, message
    // and glue padding — a whole number of blocks — have been compressed.
    let ghost processed = (key_length + msg@.len() + glue.len()) as nat;
    let count: u64 = (msg_padded.len() + key_length) as u64;
    let mut md5 = MD5::from_digest(tag, count);

    // Continue the stream with the appended message.
    md5.update(new_msg);
    let hash = md5.finalize();

    proof {
        assert(Seq::<u8>::empty() + new_msg@ =~= new_msg@);
        assert(processed % 64 == 0);
        crate::model::lemma_update_finalize(state_of(tag@), new_msg@, processed);
    }

    extend_bytes(&mut msg_padded, new_msg);

    (hash, msg_padded)
}

/// The defining correctness property of the attack: for every key of the
/// stated length, the tag forged from `digest(key ‖ msg)` is exactly the
/// secret-prefix MAC of the forged message `msg ‖ glue_padding ‖ new_msg` —
/// the forgery verifies although the key was never read.
pub proof fn lemma_extension_attack(key: Seq<u8>, msg: Seq<u8>, new_msg: Seq<u8>)
    ensures
        ({
            let tag = md5_digest(key + msg);
            let glue = glue_padding(key.len() + msg.len());
            let forged = msg + glue + new_msg;
            forged_tag(tag, key.len(), msg.len(), new_msg) == md5_digest(key + forged)
        }),
{
    let tag = md5_digest(key + msg);
    let total = (key.len() + msg.len()) as nat;
    let glue = glue_padding(total);
    let forged = msg + glue + new_msg;
    let prefix = key + msg + glue;
    let processed = (total + glue.len()) as nat;
    let c = (processed + new_msg.len()) as nat;

    crate::model::lemma_glue_len(total);
    assert(prefix.len() % 64 == 0);

    // The verifier's stream splits as the already-hashed prefix, then the
    // appended bytes with their own final padding.
    assert((key + forged).len() == c);
    crate::model::lemma_absorb_append(md5_init(), prefix, new_msg + glue_padding(c));
    assert(prefix + (new_msg + glue_padding(c)) =~= (key + forged) + glue_padding(c));

    // The observed tag serializes exactly the state reached after the prefix.
    assert(key + msg + glue_padding((key + msg).len()) =~= prefix);
    let s_star = absorb(md5_init(), prefix);
    assert(tag == state_bytes(s_star));

    // Resurrecting the state from the tag recovers that state.
    crate::model::lemma_absorb_len(md5_init(), prefix);
    crate::model::lemma_state_inverse(s_star);
    assert(state_of(tag) == s_star);
}

} // verus!
