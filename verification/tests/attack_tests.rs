use md5_forge::engine::MD5;
use md5_forge::attack::prolongation_attack;

/// The demonstration scenario: key "Aaaaaa", known message "AA", appended
/// message "BB". The forged tag must verify against the secret-prefix MAC of
/// the forged bytes, computed with the key the attack never saw.
#[test]
fn extension_attack_forges_a_verifying_tag() {
    let key = b"Aaaaaa";
    let msg = [0x41u8, 0x41];
    let msg2 = [0x42u8, 0x42];

    let tag = MD5::hmac(key, &msg);
    let (forged_tag, forged_msg) = prolongation_attack(&tag, key.len(), &msg, &msg2);
    let actual_tag = MD5::hmac(key, &forged_msg);
    assert_eq!(forged_tag, actual_tag);
}

/// The attack is general over key and message lengths, not fitted to the
/// demonstration sizes; key-plus-message lengths around the padding
/// boundaries are included.
#[test]
fn extension_attack_works_for_many_lengths() {
    for key_len in [1usize, 6, 13, 49, 55, 56, 63, 64, 70] {
        let key: Vec<u8> = (0..key_len).map(|i| (i * 7 % 256) as u8).collect();
        for msg_len in [0usize, 2, 42, 64, 100] {
            let msg: Vec<u8> = (0..msg_len).map(|i| (i * 3 % 256) as u8).collect();
            for new_len in [0usize, 1, 17, 64, 65] {
                let new_msg: Vec<u8> = (0..new_len).map(|i| (i * 5 % 256) as u8).collect();
                let tag = MD5::hmac(&key, &msg);
                let (forged_tag, forged_msg) =
                    prolongation_attack(&tag, key.len(), &msg, &new_msg);
                let actual_tag = MD5::hmac(&key, &forged_msg);
                assert_eq!(
                    forged_tag, actual_tag,
                    "key {key_len}, msg {msg_len}, appended {new_len}"
                );
            }
        }
    }
}

/// A wrong guess of the key length yields a tag that simply does not verify;
/// there is no error.
#[test]
fn wrong_key_length_gives_non_verifying_tag() {
    let key = b"Aaaaaa";
    let msg = [0x41u8, 0x41];
    let msg2 = [0x42u8, 0x42];

    let tag = MD5::hmac(key, &msg);
    let (forged_tag, forged_msg) = prolongation_attack(&tag, key.len() + 1, &msg, &msg2);
    let actual_tag = MD5::hmac(key, &forged_msg);
    assert_ne!(forged_tag, actual_tag);
}

/// The forged message is known message ‖ glue padding ‖ appended message: the
/// glue starts with 0x80 and ends with the 64-bit little-endian bit length of
/// key plus known message.
#[test]
fn forged_message_has_glue_padding_shape() {
    let key = b"secretkey";
    let msg = b"comment=hello";
    let new_msg = b";admin=true";

    let tag = MD5::hmac(key, msg);
    let (_, forged_msg) = prolongation_attack(&tag, key.len(), msg, new_msg);

    // Prefix: the known message.
    assert_eq!(&forged_msg[..msg.len()], &msg[..]);
    // Suffix: the appended message.
    assert_eq!(&forged_msg[forged_msg.len() - new_msg.len()..], &new_msg[..]);

    let glue = &forged_msg[msg.len()..forged_msg.len() - new_msg.len()];
    // Glue begins with the 0x80 terminator, then zero fill.
    assert_eq!(glue[0], 0x80);
    assert!(glue[1..glue.len() - 8].iter().all(|&b| b == 0));
    // Glue ends with the bit length of key ‖ message, little-endian.
    let bit_len = ((key.len() + msg.len()) as u64) * 8;
    assert_eq!(&glue[glue.len() - 8..], &bit_len.to_le_bytes()[..]);
    // Key ‖ known message ‖ glue is a whole number of blocks.
    assert_eq!((key.len() + msg.len() + glue.len()) % 64, 0);
}

/// Deserializing a digest into an engine state and reserializing it yields
/// the original 16 bytes.
#[test]
fn state_injection_round_trips() {
    let real_digest = MD5::digest(b"round trip");
    let resurrected = MD5::from_digest(&real_digest, 64);
    assert_eq!(resurrected.state_digest(), real_digest);

    let arbitrary: Vec<u8> = (0u8..16).map(|i| i.wrapping_mul(37).wrapping_add(5)).collect();
    let resurrected = MD5::from_digest(&arbitrary, 0);
    assert_eq!(resurrected.state_digest(), arbitrary);
}
