use rand::rngs::SmallRng;
use rand::SeedableRng;
use vertex_graph::id::{byte_to_hex, bytes_to_hex, Id};

#[test]
fn display_is_eight_lowercase_hex_digits() {
    let id = Id::from([0x00, 0x1f, 0xa0, 0xff]);
    assert_eq!(id.to_hex(), "001fa0ff");
}

#[test]
fn debug_is_bracketed_byte_groups() {
    let id = Id::from([0x00, 0x1f, 0xa0, 0xff]);
    assert_eq!(id.to_debug(), "[00, 1f, a0, ff]");
}

#[test]
fn generated_ids_have_well_formed_text() {
    for _ in 0..20 {
        let id = Id::new();
        let text = id.to_hex();
        assert_eq!(text.len(), 8);
        assert!(text.chars().all(|c| c.is_ascii_digit() || ('a'..='f').contains(&c)));
        let b = id.as_bytes();
        let expected = format!("[{:02x}, {:02x}, {:02x}, {:02x}]", b[0], b[1], b[2], b[3]);
        assert_eq!(id.to_debug(), expected);
        assert_eq!(text, format!("{:02x}{:02x}{:02x}{:02x}", b[0], b[1], b[2], b[3]));
    }
}

#[test]
fn byte_to_hex_splits_nibbles() {
    assert_eq!(byte_to_hex(0x00), ['0', '0']);
    assert_eq!(byte_to_hex(0x09), ['0', '9']);
    assert_eq!(byte_to_hex(0xa5), ['a', '5']);
    assert_eq!(byte_to_hex(0xff), ['f', 'f']);
}

#[test]
fn bytes_to_hex_of_empty_and_several() {
    assert_eq!(bytes_to_hex(&[]), "");
    assert_eq!(bytes_to_hex(&[0xde, 0xad, 0xbe, 0xef, 0x01]), "deadbeef01");
}

#[test]
fn from_seed_is_deterministic() {
    let seed = [7u8; 32];
    assert!(Id::from_seed(seed) == Id::from_seed(seed));
    let other = [9u8; 32];
    assert_ne!(Id::from_seed(seed).to_hex(), Id::from_seed(other).to_hex());
}

#[test]
fn from_seed_draws_what_the_generator_gives() {
    let seed = [3u8; 32];
    let mut rng = SmallRng::from_seed(seed);
    assert!(Id::from_seed(seed) == Id::from_rng(&mut rng));
}

#[test]
fn from_keeps_bytes_and_key_is_big_endian() {
    let id = Id::from([1, 2, 3, 4]);
    assert_eq!(id.as_bytes(), [1, 2, 3, 4]);
    assert_eq!(id.key(), 0x01020304);
    assert!(id == Id::from([1, 2, 3, 4]));
    assert!(id != Id::from([1, 2, 3, 5]));
}

#[test]
fn ids_order_byte_wise() {
    assert!(Id::from([0, 0, 0, 1]) < Id::from([0, 0, 1, 0]));
    assert!(Id::from([2, 0, 0, 0]) > Id::from([1, 255, 255, 255]));
}
