use cloud_image_index::checksum::{
    compute_digest_hex, verify_bytes, verify_checksum, ChecksumKind, ImageChecksum,
};
use cloud_image_index::error::ResolveError;

const SHA256_ABC: &str = "ba7816bf8f01cfea414140de5dae2223b00361a396177a9cb410ff61f20015ad";

#[test]
fn sha256_digest_has_known_value() {
    assert_eq!(compute_digest_hex(ChecksumKind::Sha256, b"abc"), SHA256_ABC);
    assert_eq!(
        compute_digest_hex(ChecksumKind::Sha256, b""),
        "e3b0c44298fc1c149afbf4c8996fb92427ae41e4649b934ca495991b7852b855"
    );
}

#[test]
fn verification_succeeds_iff_lowercase_forms_agree() {
    assert!(verify_bytes(ChecksumKind::Sha256, b"abc", SHA256_ABC));
    assert!(verify_bytes(
        ChecksumKind::Sha256,
        b"abc",
        SHA256_ABC.to_uppercase().as_str()
    ));
    assert!(!verify_bytes(ChecksumKind::Sha256, b"abc", "deadbeef"));
}

#[test]
fn flipping_a_bit_fails_verification() {
    let mut data = b"abc".to_vec();
    data[0] ^= 1;
    assert!(!verify_bytes(ChecksumKind::Sha256, &data, SHA256_ABC));
}

#[test]
fn mismatch_names_both_values() {
    let checksum = ImageChecksum::new(ChecksumKind::Sha256, SHA256_ABC.to_string());
    assert!(verify_checksum(b"abc", &checksum).is_ok());
    match verify_checksum(b"abx", &checksum) {
        Err(ResolveError::ChecksumMismatch { expected, actual }) => {
            assert_eq!(expected, SHA256_ABC);
            assert_eq!(actual, compute_digest_hex(ChecksumKind::Sha256, b"abx"));
        },
        other => panic!("expected a checksum mismatch, got {other:?}"),
    }
}

#[test]
fn checksum_kind_reports_its_tag() {
    assert_eq!(ChecksumKind::Sha256.as_str(), "sha256");
    assert_eq!(ChecksumKind::Sha512.as_str(), "sha512");
    let c = ImageChecksum::new(ChecksumKind::Sha512, "00".to_string());
    assert_eq!(c.kind(), ChecksumKind::Sha512);
    assert_eq!(c.value(), "00");
}
