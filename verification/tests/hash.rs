//! Naming bytes by their digest.

use okibi::hash::{hash_label, label};

/// sha256 of "{}", which is a value anyone can check.
#[test]
fn a_hash_is_over_the_bytes_on_disk() {
    assert_eq!(
        hash_label(b"{}"),
        "sha256:44136fa355b3678a1146ad16f7e8649e94fb4fc21fe77e8310c060f61caaff8a"
    );
}

#[test]
fn the_empty_input_has_the_well_known_digest() {
    assert_eq!(
        hash_label(b""),
        "sha256:e3b0c44298fc1c149afbf4c8996fb92427ae41e4649b934ca495991b7852b855"
    );
    assert_eq!(hash_label(b"abc").len(), 71);
}

#[test]
fn a_label_is_lowercase_hex_two_digits_a_byte() {
    assert_eq!(label(&[0x00, 0x0f, 0xa0, 0xff]), "sha256:000fa0ff");
    assert_eq!(label(&[]), "sha256:");
}
