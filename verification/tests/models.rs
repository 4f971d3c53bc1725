use file_digest::error::{DigestError, IoStage};
use file_digest::models::{DigestTexts, HashProgress};

#[test]
fn percent_of_a_quarter() {
    let progress = HashProgress::new(50, 200);
    assert_eq!(progress.processed, 50);
    assert_eq!(progress.total, 200);
    assert_eq!(progress.percent, 25);
}

#[test]
fn percent_of_empty_total_is_zero() {
    assert_eq!(HashProgress::new(0, 0).percent, 0);
    assert_eq!(HashProgress::new(1, 0).percent, 0);
    assert_eq!(HashProgress::new(50, 0).percent, 0);
    assert_eq!(HashProgress::new(u64::MAX, 0).percent, 0);
}

#[test]
fn percent_rounds_down() {
    assert_eq!(HashProgress::new(1, 3).percent, 33);
    assert_eq!(HashProgress::new(2, 3).percent, 66);
    assert_eq!(HashProgress::new(29, 100).percent, 29);
    assert_eq!(HashProgress::new(99, 100).percent, 99);
    assert_eq!(HashProgress::new(199, 200).percent, 99);
    assert_eq!(HashProgress::new(0, 7).percent, 0);
}

#[test]
fn percent_is_complete_at_the_total() {
    assert_eq!(HashProgress::new(1, 1).percent, 100);
    assert_eq!(HashProgress::new(200, 200).percent, 100);
    assert_eq!(HashProgress::new(u64::MAX, u64::MAX).percent, 100);
    assert_eq!(HashProgress::new(u64::MAX - 1, u64::MAX).percent, 99);
}

#[test]
fn percent_is_held_at_the_largest_value() {
    assert_eq!(HashProgress::new(150, 100).percent, 150);
    assert_eq!(HashProgress::new(255, 100).percent, 255);
    assert_eq!(HashProgress::new(256, 100).percent, 255);
    assert_eq!(HashProgress::new(300, 100).percent, 255);
    assert_eq!(HashProgress::new(u64::MAX, 1).percent, 255);
}

#[test]
fn texts_are_both_encodings_of_the_digest() {
    let mut digest = [0u8; 32];
    for (i, byte) in digest.iter_mut().enumerate() {
        *byte = i as u8;
    }
    let texts = DigestTexts::of(&digest);
    assert_eq!(
        texts,
        DigestTexts {
            hex: "000102030405060708090a0b0c0d0e0f101112131415161718191a1b1c1d1e1f".to_string(),
            base64: "AAECAwQFBgcICQoLDA0ODxAREhMUFRYXGBkaGxwdHh8=".to_string(),
        }
    );
}

#[test]
fn texts_use_lower_case_and_padding() {
    let digest = [0xffu8; 32];
    let texts = DigestTexts::of(&digest);
    assert_eq!(texts.hex, "f".repeat(64));
    assert_eq!(texts.base64, "//////////////////////////////////////////8=");
}

#[test]
fn texts_of_mixed_bytes() {
    let digest: [u8; 32] = [
        0xfb, 0xef, 0xbe, 0x00, 0x10, 0x83, 0x10, 0x51, 0x87, 0x20, 0x92, 0x8b, 0x30, 0xd3, 0x8f,
        0x41, 0x14, 0x93, 0x51, 0x55, 0x97, 0x61, 0x96, 0x9b, 0x71, 0xd7, 0x9f, 0x82, 0x18, 0xa3,
        0x92, 0x59,
    ];
    let texts = DigestTexts::of(&digest);
    assert_eq!(
        texts.hex,
        "fbefbe00108310518720928b30d38f41149351559761969b71d79f8218a39259"
    );
    assert_eq!(texts.base64, "++++ABCDEFGHIJKLMNOPQRSTUVWXYZabcdefghijklk=");
}

#[test]
fn texts_of_the_zero_digest() {
    let texts = DigestTexts::of(&[0u8; 32]);
    assert_eq!(texts.hex, "0".repeat(64));
    assert_eq!(texts.base64, "AAAAAAAAAAAAAAAAAAAAAAAAAAAAAAAAAAAAAAAAAAA=");
}

#[test]
fn every_error_has_its_message() {
    assert_eq!(
        DigestError::NotFound { path: "/no/such/file".to_string() }.message(),
        "File does not exist: /no/such/file"
    );
    assert_eq!(
        DigestError::NotAFile { path: "/etc".to_string() }.message(),
        "Path is not a file: /etc"
    );
    assert_eq!(
        DigestError::IoFailure { stage: IoStage::Metadata, detail: "denied".to_string() }.message(),
        "Failed to read file metadata: denied"
    );
    assert_eq!(
        DigestError::IoFailure { stage: IoStage::Open, detail: "denied".to_string() }.message(),
        "Failed to open file: denied"
    );
    assert_eq!(
        DigestError::IoFailure { stage: IoStage::Read, detail: "short read".to_string() }.message(),
        "Failed to read file: short read"
    );
    assert_eq!(DigestError::Cancelled.message(), "Hash operation was cancelled");
    assert_eq!(
        DigestError::SinkUnavailable { detail: "closed".to_string() }.message(),
        "Failed to emit progress event: closed"
    );
}

#[test]
fn message_keeps_an_empty_detail() {
    assert_eq!(
        DigestError::SinkUnavailable { detail: String::new() }.message(),
        "Failed to emit progress event: "
    );
}
