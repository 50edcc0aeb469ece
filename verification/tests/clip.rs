use airboard_server::Clip;

fn hello_digest() -> [u8; 32] {
    [
        0x2c, 0xf2, 0x4d, 0xba, 0x5f, 0xb0, 0xa3, 0x0e, 0x26, 0xe8, 0x3b, 0x2a, 0xc5, 0xb9, 0xe2,
        0x9e, 0x1b, 0x16, 0x1e, 0x5c, 0x1f, 0xa7, 0x42, 0x5e, 0x73, 0x04, 0x33, 0x62, 0x93, 0x8b,
        0x98, 0x24,
    ]
}

fn empty_digest() -> [u8; 32] {
    [
        0xe3, 0xb0, 0xc4, 0x42, 0x98, 0xfc, 0x1c, 0x14, 0x9a, 0xfb, 0xf4, 0xc8, 0x99, 0x6f, 0xb9,
        0x24, 0x27, 0xae, 0x41, 0xe4, 0x64, 0x9b, 0x93, 0x4c, 0xa4, 0x95, 0x99, 0x1b, 0x78, 0x52,
        0xb8, 0x55,
    ]
}

#[test]
fn clip_keeps_its_bytes_and_mime() {
    let clip = Clip::new(b"hello".to_vec(), "text/plain".to_string());
    assert_eq!(clip.data(), b"hello");
    assert_eq!(clip.mime(), "text/plain");
    assert_eq!(clip.len(), 5);
}

#[test]
fn clip_hash_is_the_sha256_of_its_bytes() {
    let clip = Clip::new(b"hello".to_vec(), "text/plain".to_string());
    assert_eq!(clip.hash(), hello_digest());
    assert_ne!(clip.hash().to_vec(), b"hello".to_vec());
}

#[test]
fn clip_hash_of_no_bytes() {
    let clip = Clip::new(Vec::new(), "text/plain".to_string());
    assert_eq!(clip.hash(), empty_digest());
    assert_eq!(clip.len(), 0);
}

#[test]
fn clip_hash_is_stable() {
    let bytes: Vec<u8> = (0..1000u32).map(|i| (i % 251) as u8).collect();
    let first = Clip::new(bytes.clone(), "a/b".to_string());
    let second = Clip::new(bytes, "c/d".to_string());
    assert_eq!(first.hash(), second.hash());
}

#[test]
fn clip_hash_differs_for_other_bytes() {
    let first = Clip::new(b"hello".to_vec(), "text/plain".to_string());
    let second = Clip::new(b"hellx".to_vec(), "text/plain".to_string());
    assert_ne!(first.hash(), second.hash());
}

#[test]
fn clip_default_is_empty_plain_text() {
    let clip = Clip::default();
    assert_eq!(clip.len(), 0);
    assert_eq!(clip.data(), b"");
    assert_eq!(clip.mime(), "text/plain;charset=utf-8");
    assert_eq!(clip.hash(), empty_digest());
}

#[test]
fn clips_with_same_mime_and_bytes_are_equal() {
    let first = Clip::new(b"hello".to_vec(), "text/plain".to_string());
    let second = Clip::new(b"hello".to_vec(), "text/plain".to_string());
    assert!(first == second);
}

#[test]
fn clips_with_other_mime_are_not_equal() {
    let first = Clip::new(b"hello".to_vec(), "text/plain".to_string());
    let second = Clip::new(b"hello".to_vec(), "text/html".to_string());
    assert!(first != second);
}

#[test]
fn clips_with_other_length_are_not_equal() {
    let first = Clip::new(b"hello".to_vec(), "text/plain".to_string());
    let second = Clip::new(b"hello!".to_vec(), "text/plain".to_string());
    assert!(first != second);
}

#[test]
fn clips_with_other_bytes_of_same_length_are_not_equal() {
    let first = Clip::new(b"hello".to_vec(), "text/plain".to_string());
    let second = Clip::new(b"hellx".to_vec(), "text/plain".to_string());
    assert!(first != second);
}

#[test]
fn clip_default_equals_an_empty_plain_text_clip() {
    let made = Clip::new(Vec::new(), "text/plain;charset=utf-8".to_string());
    assert!(Clip::default() == made);
}
