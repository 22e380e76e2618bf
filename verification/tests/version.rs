use magic_game::version::{current_version, protocol_id, Version, PROTOCOL_TAG, VERSION_STR};

#[test]
fn protocol_v_packs_one_byte_per_part() {
    let v = Version { major: 1, minor: 2, patch: 3, unpublished_v: 4 };
    assert_eq!(v.protocol_v(), 0x01020304);
    let w = Version { major: 255, minor: 0, patch: 255, unpublished_v: 0 };
    assert_eq!(w.protocol_v(), 0xff00ff00);
    let z = Version { major: 0, minor: 0, patch: 0, unpublished_v: 0 };
    assert_eq!(z.protocol_v(), 0);
}

#[test]
fn current_version_and_protocol_id() {
    let v = current_version();
    assert_eq!((v.major, v.minor, v.patch, v.unpublished_v), (0, 0, 0, 1));
    assert_eq!(v.protocol_v(), 1);
    assert_eq!(PROTOCOL_TAG, 0x1234abcd00000000);
    assert_eq!(protocol_id(), 0x1234abcd00000001);
}

#[test]
fn version_text() {
    assert_eq!(VERSION_STR, "0.0.0-0");
}
