use release_index::checksum::{verify_download, ChecksumType};
use release_index::error::GitHubApiError;
use sha2::Digest;

#[test]
fn classify_recognises_sha256_suffix() {
    assert_eq!(
        ChecksumType::from_filename("tool-linux.tar.gz.sha256"),
        Some(ChecksumType::Sha256)
    );
}

#[test]
fn classify_recognises_sha1_suffix() {
    assert_eq!(
        ChecksumType::from_filename("tool-linux.tar.gz.sha1"),
        Some(ChecksumType::Sha1)
    );
}

#[test]
fn classify_rejects_other_names() {
    assert_eq!(ChecksumType::from_filename("tool-linux.tar.gz"), None);
    assert_eq!(ChecksumType::from_filename(""), None);
    assert_eq!(ChecksumType::from_filename("sha256"), None);
    assert_eq!(ChecksumType::from_filename("archive.sha256.txt"), None);
}

#[test]
fn classify_bare_suffix_names() {
    assert_eq!(
        ChecksumType::from_filename(".sha256"),
        Some(ChecksumType::Sha256)
    );
    assert_eq!(ChecksumType::from_filename(".sha1"), Some(ChecksumType::Sha1));
}

#[test]
fn extension_matches_suffix() {
    assert_eq!(ChecksumType::Sha256.extension(), ".sha256");
    assert_eq!(ChecksumType::Sha1.extension(), ".sha1");
}

#[test]
fn strip_suffix_removes_exactly_the_suffix() {
    assert_eq!(
        ChecksumType::Sha256.strip_suffix("tool-linux.tar.gz.sha256"),
        "tool-linux.tar.gz"
    );
    assert_eq!(ChecksumType::Sha1.strip_suffix("a.sha1"), "a");
}

#[test]
fn check_accepts_the_true_sha256_digest() {
    let digest = sha2::Sha256::digest(b"release payload");
    assert!(ChecksumType::Sha256.check(&digest, b"release payload"));
}

#[test]
fn check_rejects_a_wrong_sha256_digest() {
    let mut digest = sha2::Sha256::digest(b"release payload").to_vec();
    digest[0] ^= 1;
    assert!(!ChecksumType::Sha256.check(&digest, b"release payload"));
}

#[test]
fn check_accepts_the_true_sha1_digest() {
    let digest = sha1::Sha1::digest(b"release payload");
    assert!(ChecksumType::Sha1.check(&digest, b"release payload"));
}

#[test]
fn check_known_sha256_value() {
    let digest = hex::decode("b94d27b9934d3e08a52e52d7da7dabfac484efe37a5380ee9088f7ace2efcde9")
        .unwrap();
    assert!(ChecksumType::Sha256.check(&digest, b"hello world"));
}

#[test]
fn verify_download_accepts_matching_hex_text() {
    let hex_text = hex::encode(sha2::Sha256::digest(b"release payload"));
    assert!(verify_download(ChecksumType::Sha256, &hex_text, b"release payload").is_ok());
}

#[test]
fn verify_download_reports_wrong_checksum() {
    let hex_text = hex::encode(sha2::Sha256::digest(b"release payload"));
    let r = verify_download(ChecksumType::Sha256, &hex_text, b"release pAyload");
    assert!(matches!(r, Err(GitHubApiError::WrongChecksum)));
}

#[test]
fn verify_download_reports_invalid_hex() {
    let r = verify_download(ChecksumType::Sha256, "not-hex!", b"release payload");
    assert!(matches!(r, Err(GitHubApiError::InvalidChecksum)));
    let odd = verify_download(ChecksumType::Sha256, "abc", b"release payload");
    assert!(matches!(odd, Err(GitHubApiError::InvalidChecksum)));
}

#[test]
fn verify_download_accepts_uppercase_hex() {
    let hex_text = hex::encode(sha2::Sha256::digest(b"release payload")).to_uppercase();
    assert!(verify_download(ChecksumType::Sha256, &hex_text, b"release payload").is_ok());
}
