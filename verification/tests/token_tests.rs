use local_activities::token::token_from_bytes;
use local_activities::token::token_to_bytes;
use local_activities::token::LOCAL_ACTIVITY_TOKEN_TAG;

#[test]
fn token_wire_round_trip() {
    for token in [0u32, 1, 7, 0x0102_0304, u32::MAX] {
        let bytes = token_to_bytes(token);
        assert_eq!(bytes.len(), 5);
        assert_eq!(bytes[0], LOCAL_ACTIVITY_TOKEN_TAG);
        assert_eq!(token_from_bytes(&bytes), Some(token));
    }
    // The counter is little-endian after the tag.
    let bytes = token_to_bytes(0x0102_0304);
    assert_eq!(bytes, vec![LOCAL_ACTIVITY_TOKEN_TAG, 0x04, 0x03, 0x02, 0x01]);
}

#[test]
fn token_parse_rejects_malformed_bytes() {
    assert_eq!(token_from_bytes(&[]), None);
    assert_eq!(token_from_bytes(&[LOCAL_ACTIVITY_TOKEN_TAG, 1, 0, 0]), None);
    assert_eq!(token_from_bytes(&[99, 1, 0, 0, 0]), None);
    assert_eq!(
        token_from_bytes(&[LOCAL_ACTIVITY_TOKEN_TAG, 1, 0, 0, 0, 0]),
        None
    );
}
