use airboard_server::att::FRAME_CAPACITY;
use airboard_server::outbound::MIN_NOTIFY_LEN;
use airboard_server::outbound::READ_LIMIT;
use airboard_server::Clip;
use airboard_server::OutSyncer;

#[test]
fn frame_capacity_is_that_of_the_transport() {
    assert_eq!(FRAME_CAPACITY, rustable::MAX_CHAR_LEN);
    assert_eq!(FRAME_CAPACITY, 512);
}

#[test]
fn read_limit_is_one_short_of_the_capacity() {
    assert_eq!(READ_LIMIT, rustable::MAX_CHAR_LEN - 1);
}

#[test]
fn smallest_chunk_is_sixty_four_bytes() {
    assert_eq!(MIN_NOTIFY_LEN, 64);
}

#[test]
fn a_value_of_full_capacity_is_built_whole() {
    let mime = "z".repeat(512);
    let syncer = OutSyncer::new(Clip::new(Vec::new(), mime.clone()), 0);
    let value = syncer.read_mime();
    assert_eq!(value.as_slice().len(), 512);
    assert_eq!(value.as_slice(), mime.as_bytes());
}

#[test]
fn an_empty_value_is_built_for_an_empty_mime_type() {
    let syncer = OutSyncer::new(Clip::new(Vec::new(), String::new()), 0);
    assert_eq!(syncer.read_mime().as_slice(), b"");
    assert_eq!(syncer.read_fn().as_slice().len(), 40);
}
