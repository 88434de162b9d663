use textdiff::hash::{to_byte_list, to_hex};
use textdiff::{CreateSha256, HashError};

#[test]
fn hex_digest_of_abc() {
    let mut h = CreateSha256::new();
    h.update(b"ab");
    h.update(b"c");
    assert_eq!(
        h.digest("hex"),
        Ok("ba7816bf8f01cfea414140de5dae2223b00361a396177a9cb410ff61f20015ad".to_string())
    );
}

#[test]
fn binary_digest_of_abc() {
    let mut h = CreateSha256::new();
    h.update(b"abc");
    assert_eq!(
        h.digest("binary"),
        Ok("[186, 120, 22, 191, 143, 1, 207, 234, 65, 65, 64, 222, 93, 174, 34, 35, 176, 3, 97, 163, 150, 23, 122, 156, 180, 16, 255, 97, 242, 0, 21, 173]".to_string())
    );
}

#[test]
fn digest_of_nothing() {
    let mut h = CreateSha256::new();
    assert_eq!(
        h.digest("hex"),
        Ok("e3b0c44298fc1c149afbf4c8996fb92427ae41e4649b934ca495991b7852b855".to_string())
    );
}

#[test]
fn init_forgets_what_was_fed() {
    let mut h = CreateSha256::new();
    h.update(b"junk");
    h.init();
    h.update(b"hello world");
    assert_eq!(
        h.digest("hex"),
        Ok("b94d27b9934d3e08a52e52d7da7dabfac484efe37a5380ee9088f7ace2efcde9".to_string())
    );
}

#[test]
fn second_digest_fails() {
    let mut h = CreateSha256::new();
    h.update(b"abc");
    assert!(h.digest("hex").is_ok());
    assert_eq!(h.digest("hex"), Err(HashError::NoHasherAvailable));
    h.update(b"more");
    assert_eq!(h.digest("binary"), Err(HashError::NoHasherAvailable));
    h.init();
    assert!(h.digest("hex").is_ok());
}

#[test]
fn unknown_mode_fails_and_keeps_state() {
    let mut h = CreateSha256::new();
    h.update(b"abc");
    assert_eq!(h.digest("base64"), Err(HashError::UnknownMode));
    assert_eq!(
        h.digest("hex"),
        Ok("ba7816bf8f01cfea414140de5dae2223b00361a396177a9cb410ff61f20015ad".to_string())
    );
}

#[test]
fn hex_and_list_formats() {
    assert_eq!(to_hex(&vec![0, 9, 10, 255]), "00090aff");
    assert_eq!(to_byte_list(&vec![0, 9, 10, 99, 100, 255]), "[0, 9, 10, 99, 100, 255]");
    assert_eq!(to_byte_list(&vec![]), "[]");
}
