use airboard_server::InSyncer;

fn digest_of_hello() -> [u8; 32] {
    [
        0x2c, 0xf2, 0x4d, 0xba, 0x5f, 0xb0, 0xa3, 0x0e, 0x26, 0xe8, 0x3b, 0x2a, 0xc5, 0xb9, 0xe2,
        0x9e, 0x1b, 0x16, 0x1e, 0x5c, 0x1f, 0xa7, 0x42, 0x5e, 0x73, 0x04, 0x33, 0x62, 0x93, 0x8b,
        0x98, 0x24,
    ]
}

fn digest_of_nothing() -> [u8; 32] {
    [
        0xe3, 0xb0, 0xc4, 0x42, 0x98, 0xfc, 0x1c, 0x14, 0x9a, 0xfb, 0xf4, 0xc8, 0x99, 0x6f, 0xb9,
        0x24, 0x27, 0xae, 0x41, 0xe4, 0x64, 0x9b, 0x93, 0x4c, 0xa4, 0x95, 0x99, 0x1b, 0x78, 0x52,
        0xb8, 0x55,
    ]
}

fn start(len: u32, hash: &[u8; 32]) -> Vec<u8> {
    let mut frame = vec![0xFF, 0xFF, 0xFF, 0xFF];
    frame.extend_from_slice(&len.to_be_bytes());
    frame.extend_from_slice(hash);
    frame
}

fn chunk(offset: u32, body: &[u8]) -> Vec<u8> {
    let mut frame = offset.to_be_bytes().to_vec();
    frame.extend_from_slice(&(body.len() as u32).to_be_bytes());
    frame.extend_from_slice(body);
    frame
}

fn status(received: u32, announced: u32, hash: &[u8; 32]) -> Vec<u8> {
    let mut frame = received.to_be_bytes().to_vec();
    frame.extend_from_slice(&announced.to_be_bytes());
    frame.extend_from_slice(hash);
    frame
}

#[test]
fn hello_in_one_chunk_is_completed() {
    let mut syncer = InSyncer::default();
    let first = start(5, &digest_of_hello());
    assert_eq!(first.len(), 40);
    assert_eq!(syncer.process_write(&first), Ok(None));
    assert_eq!(syncer.process_write(&chunk(0, b"hello")), Ok(Some(b"hello".to_vec())));
}

#[test]
fn hellx_is_rejected_and_the_buffer_cleared() {
    let mut syncer = InSyncer::default();
    assert_eq!(syncer.process_write(&start(5, &digest_of_hello())), Ok(None));
    assert_eq!(syncer.process_write(&chunk(0, b"hellx")), Err(()));
    assert_eq!(syncer.read_fn().as_slice(), &status(0, 5, &digest_of_hello())[..]);
}

#[test]
fn hello_after_a_rejected_attempt_needs_no_new_start() {
    let mut syncer = InSyncer::default();
    assert_eq!(syncer.process_write(&start(5, &digest_of_hello())), Ok(None));
    assert_eq!(syncer.process_write(&chunk(0, b"hellx")), Err(()));
    assert_eq!(syncer.process_write(&chunk(0, b"hello")), Ok(Some(b"hello".to_vec())));
}

#[test]
fn hello_in_several_chunks_is_completed_at_the_last() {
    let mut syncer = InSyncer::default();
    assert_eq!(syncer.process_write(&start(5, &digest_of_hello())), Ok(None));
    assert_eq!(syncer.process_write(&chunk(0, b"he")), Ok(None));
    assert_eq!(syncer.read_fn().as_slice(), &status(2, 5, &digest_of_hello())[..]);
    assert_eq!(syncer.process_write(&chunk(2, b"l")), Ok(None));
    assert_eq!(syncer.process_write(&chunk(3, b"lo")), Ok(Some(b"hello".to_vec())));
    assert_eq!(syncer.read_fn().as_slice(), &status(5, 5, &digest_of_hello())[..]);
}

#[test]
fn a_changed_byte_in_an_early_chunk_is_rejected_at_completion() {
    let mut syncer = InSyncer::default();
    assert_eq!(syncer.process_write(&start(5, &digest_of_hello())), Ok(None));
    assert_eq!(syncer.process_write(&chunk(0, b"hf")), Ok(None));
    assert_eq!(syncer.process_write(&chunk(2, b"llo")), Err(()));
    assert_eq!(syncer.read_fn().as_slice(), &status(0, 5, &digest_of_hello())[..]);
}

#[test]
fn a_changed_length_field_is_rejected_at_once() {
    let mut syncer = InSyncer::default();
    assert_eq!(syncer.process_write(&start(5, &digest_of_hello())), Ok(None));
    assert_eq!(syncer.process_write(&chunk(0, b"he")), Ok(None));
    let mut frame = chunk(2, b"llo");
    frame[7] = 2;
    assert_eq!(syncer.process_write(&frame), Err(()));
    assert_eq!(syncer.read_fn().as_slice(), &status(2, 5, &digest_of_hello())[..]);
    assert_eq!(syncer.process_write(&chunk(2, b"llo")), Ok(Some(b"hello".to_vec())));
}

#[test]
fn a_frame_shorter_than_its_header_is_rejected() {
    let mut syncer = InSyncer::default();
    assert_eq!(syncer.process_write(&[]), Err(()));
    assert_eq!(syncer.process_write(&[0, 0, 0, 0, 0, 0, 0]), Err(()));
    assert_eq!(syncer.process_write(&[0xFF, 0xFF, 0xFF, 0xFF]), Err(()));
}

#[test]
fn a_start_frame_of_another_length_is_rejected() {
    let mut syncer = InSyncer::default();
    assert_eq!(syncer.process_write(&start(5, &digest_of_hello())), Ok(None));
    assert_eq!(syncer.process_write(&chunk(0, b"he")), Ok(None));
    let mut long = start(7, &digest_of_nothing());
    long.push(0);
    assert_eq!(syncer.process_write(&long), Err(()));
    let short = &start(7, &digest_of_nothing())[..39];
    assert_eq!(syncer.process_write(short), Err(()));
    assert_eq!(syncer.process_write(&[0xFF, 0xFF, 0xFF, 0xFF, 0, 0, 0, 0]), Err(()));
    assert_eq!(syncer.read_fn().as_slice(), &status(2, 5, &digest_of_hello())[..]);
}

#[test]
fn a_chunk_past_the_announced_length_is_rejected() {
    let mut syncer = InSyncer::default();
    assert_eq!(syncer.process_write(&start(5, &digest_of_hello())), Ok(None));
    assert_eq!(syncer.process_write(&chunk(0, b"hel")), Ok(None));
    assert_eq!(syncer.process_write(&chunk(3, b"lo!")), Err(()));
    assert_eq!(syncer.read_fn().as_slice(), &status(3, 5, &digest_of_hello())[..]);
    assert_eq!(syncer.process_write(&chunk(3, b"lo")), Ok(Some(b"hello".to_vec())));
}

#[test]
fn a_chunk_before_any_start_is_rejected() {
    let mut syncer = InSyncer::default();
    assert_eq!(syncer.process_write(&chunk(0, b"hello")), Err(()));
}

#[test]
fn a_new_start_frame_drops_what_was_received() {
    let mut syncer = InSyncer::default();
    assert_eq!(syncer.process_write(&start(9, &digest_of_nothing())), Ok(None));
    assert_eq!(syncer.process_write(&chunk(0, b"abcd")), Ok(None));
    assert_eq!(syncer.process_write(&start(5, &digest_of_hello())), Ok(None));
    assert_eq!(syncer.read_fn().as_slice(), &status(0, 5, &digest_of_hello())[..]);
    assert_eq!(syncer.process_write(&chunk(0, b"hello")), Ok(Some(b"hello".to_vec())));
}

#[test]
fn an_empty_payload_is_completed_by_its_start_frame() {
    let mut syncer = InSyncer::default();
    assert_eq!(syncer.process_write(&start(0, &digest_of_nothing())), Ok(Some(Vec::new())));
}

#[test]
fn an_empty_payload_with_a_wrong_hash_is_rejected() {
    let mut syncer = InSyncer::default();
    assert_eq!(syncer.process_write(&start(0, &digest_of_hello())), Err(()));
    assert_eq!(syncer.read_fn().as_slice(), &status(0, 0, &digest_of_hello())[..]);
}

#[test]
fn the_offset_field_of_a_chunk_is_not_checked() {
    let mut syncer = InSyncer::default();
    assert_eq!(syncer.process_write(&start(5, &digest_of_hello())), Ok(None));
    assert_eq!(syncer.process_write(&chunk(77, b"hel")), Ok(None));
    assert_eq!(syncer.process_write(&chunk(1, b"lo")), Ok(Some(b"hello".to_vec())));
}

#[test]
fn an_empty_chunk_after_completion_completes_again() {
    let mut syncer = InSyncer::default();
    assert_eq!(syncer.process_write(&start(5, &digest_of_hello())), Ok(None));
    assert_eq!(syncer.process_write(&chunk(0, b"hello")), Ok(Some(b"hello".to_vec())));
    assert_eq!(syncer.process_write(&chunk(5, b"")), Ok(Some(b"hello".to_vec())));
    assert_eq!(syncer.process_write(&chunk(5, b"!")), Err(()));
}

#[test]
fn status_of_a_new_reassembler_is_all_zero() {
    let syncer = InSyncer::default();
    assert_eq!(syncer.read_fn().as_slice(), &[0u8; 40][..]);
}

#[test]
fn status_reports_received_announced_and_hash() {
    let mut syncer = InSyncer::default();
    assert_eq!(syncer.process_write(&start(0x0001_0203, &digest_of_hello())), Ok(None));
    let body = vec![7u8; 300];
    assert_eq!(syncer.process_write(&chunk(0, &body)), Ok(None));
    let report = syncer.read_fn();
    assert_eq!(report.as_slice().len(), 40);
    assert_eq!(&report.as_slice()[0..4], &[0, 0, 1, 44]);
    assert_eq!(&report.as_slice()[4..8], &[0, 1, 2, 3]);
    assert_eq!(&report.as_slice()[8..40], &digest_of_hello()[..]);
}

#[test]
fn stage_takes_a_chunk_in_without_judging_it() {
    let mut syncer = InSyncer::default();
    assert_eq!(syncer.stage(&start(5, &digest_of_hello())), Ok(()));
    assert!(!syncer.is_full());
    assert_eq!(syncer.stage(&chunk(0, b"hellx")), Ok(()));
    assert!(syncer.is_full());
    assert_eq!(syncer.read_fn().as_slice(), &status(5, 5, &digest_of_hello())[..]);
}

#[test]
fn stage_refuses_what_process_write_rejects_as_malformed() {
    let mut syncer = InSyncer::default();
    assert_eq!(syncer.stage(&[1, 2, 3]), Err(()));
    assert_eq!(syncer.stage(&start(5, &digest_of_hello())[..39]), Err(()));
    assert_eq!(syncer.stage(&start(2, &digest_of_hello())), Ok(()));
    assert_eq!(syncer.stage(&chunk(0, b"abc")), Err(()));
    let mut frame = chunk(0, b"ab");
    frame[7] = 3;
    assert_eq!(syncer.stage(&frame), Err(()));
    assert_eq!(syncer.read_fn().as_slice(), &status(0, 2, &digest_of_hello())[..]);
}

#[test]
fn conclude_goes_by_the_digest_it_is_given() {
    let mut syncer = InSyncer::default();
    assert_eq!(syncer.stage(&start(5, &digest_of_hello())), Ok(()));
    assert_eq!(syncer.stage(&chunk(0, b"hellx")), Ok(()));
    assert_eq!(syncer.conclude(&digest_of_hello()), Ok(Some(b"hellx".to_vec())));
    assert_eq!(syncer.conclude(&digest_of_nothing()), Err(()));
    assert_eq!(syncer.read_fn().as_slice(), &status(0, 5, &digest_of_hello())[..]);
}

#[test]
fn conclude_does_nothing_while_bytes_are_missing() {
    let mut syncer = InSyncer::default();
    assert_eq!(syncer.stage(&start(5, &digest_of_hello())), Ok(()));
    assert_eq!(syncer.stage(&chunk(0, b"hel")), Ok(()));
    assert_eq!(syncer.conclude(&digest_of_hello()), Ok(None));
    assert_eq!(syncer.conclude(&digest_of_nothing()), Ok(None));
    assert_eq!(syncer.read_fn().as_slice(), &status(3, 5, &digest_of_hello())[..]);
}
