use md5_forge::engine::MD5;
use md5_forge::hex::to_hex_string;

#[test]
fn test_md5() {
    vec![
        ("", "d41d8cd98f00b204e9800998ecf8427e"),
        ("a", "0cc175b9c0f1b6a831c399e269772661"),
        ("abc", "900150983cd24fb0d6963f7d28e17f72"),
        ("message digest", "f96b697d7cb7938d525a2f31aaf161d0"),
        (
            "abcdefghijklmnopqrstuvwxyz",
            "c3fcd3d76192e4007dfb496cca67e13b",
        ),
        (
            "ABCDEFGHIJKLMNOPQRSTUVWXYZabcdefghijklmnopqrstuvwxyz0123456789",
            "d174ab98d277d9f5a5611c2c9f419d9f",
        ),
        (
            "12345678901234567890123456789012345678901234567890123456789012345678901234567890",
            "57edf4a22be3c955ac49da2e2107b67a",
        ),
    ]
    .into_iter()
    .for_each(|(input, expected)| {
        let result = MD5::digest_hex(input.as_bytes());
        assert_eq!(result, expected);
    });
}

#[test]
fn digest_is_16_bytes_and_deterministic() {
    let inputs: [&[u8]; 4] = [b"", b"abc", b"hello world", &[0u8; 200]];
    for input in inputs {
        let first = MD5::digest(input);
        let second = MD5::digest(input);
        assert_eq!(first.len(), 16);
        assert_eq!(first, second);
        assert_eq!(MD5::digest_hex(input).len(), 32);
    }
}

#[test]
fn hex_rendering_is_lowercase_two_chars_per_byte() {
    let bytes: [u8; 6] = [0x00, 0x0f, 0xa5, 0xff, 0x10, 0x9b];
    assert_eq!(to_hex_string(&bytes), "000fa5ff109b");
    assert_eq!(to_hex_string(&[]), "");
}

fn streamed(chunks: &[&[u8]]) -> Vec<u8> {
    let mut md5 = MD5::new();
    for chunk in chunks {
        md5.update(chunk);
    }
    md5.finalize()
}

#[test]
fn streaming_matches_one_shot_at_every_split() {
    // 150 bytes: splits cross the 64-byte block boundary in both directions.
    let msg: Vec<u8> = (0u8..150).collect();
    let whole = MD5::digest(&msg);
    for split in 0..=msg.len() {
        let (m1, m2) = msg.split_at(split);
        assert_eq!(streamed(&[m1, m2]), whole, "split at {split}");
    }
}

#[test]
fn streaming_with_empty_and_block_aligned_chunks() {
    let msg: Vec<u8> = (0u8..128).collect();
    let whole = MD5::digest(&msg);
    assert_eq!(streamed(&[&msg]), whole);
    assert_eq!(streamed(&[&[], &msg]), whole);
    assert_eq!(streamed(&[&msg, &[]]), whole);
    assert_eq!(streamed(&[&msg[..64], &msg[64..]]), whole);
    let mut one_by_one = MD5::new();
    for byte in &msg {
        one_by_one.update(&[*byte]);
    }
    assert_eq!(one_by_one.finalize(), whole);
}

#[test]
fn padding_boundaries_match_reference_implementation() {
    // Lengths 55, 56 and 63 modulo 64 each take a distinct padding path;
    // nearby and larger lengths are checked along with them.
    for len in [0usize, 1, 54, 55, 56, 57, 63, 64, 65, 119, 120, 127, 128, 200] {
        let msg: Vec<u8> = (0..len).map(|i| (i % 251) as u8).collect();
        let reference = md5::compute(&msg);
        assert_eq!(MD5::digest(&msg).as_slice(), &reference.0[..], "length {len}");
    }
}

#[test]
fn known_answers_match_reference_implementation() {
    for input in ["", "abc", "message digest", "The quick brown fox jumps over the lazy dog"] {
        let reference = format!("{:x}", md5::compute(input.as_bytes()));
        assert_eq!(MD5::digest_hex(input.as_bytes()), reference);
    }
}
