use fbx::format::Version;

#[test]
fn versions_are_ordered_by_major_then_minor() {
    assert!(Version::from(7, 4) < Version::from(7, 5));
    assert!(Version::from(7, 5) < Version::from(7, 7));
    assert!(Version::from(7, 7) < Version::from(8, 0));
    assert!(Version::from(7, 4) < Version::from(8, 0));
    assert!(Version::from(6, 9) < Version::from(7, 0));
    assert!(!(Version::from(8, 0) < Version::from(7, 9)));
    assert!(Version::from(8, 0) > Version::from(7, 9));
}

#[test]
fn equal_versions_are_neither_before_nor_after() {
    let a = Version::from(7, 5);
    let b = Version::from(7, 5);
    assert!(a == b);
    assert!(a >= b);
    assert!(a <= b);
    assert!(!(a < b));
    assert!(!(a > b));
    assert!(Version::from(7, 5) != Version::from(7, 4));
    assert!(Version::from(7, 5) != Version::from(6, 5));
}

#[test]
fn partial_cmp_and_cmp_give_the_same_order() {
    let versions = [(7u16, 4u16), (7, 5), (7, 7), (8, 0), (0, 0), (65535, 65535)];
    for &(a_major, a_minor) in versions.iter() {
        for &(b_major, b_minor) in versions.iter() {
            let a = Version::from(a_major, a_minor);
            let b = Version::from(b_major, b_minor);
            assert_eq!(a.partial_cmp(&b), Some(a.cmp(&b)));
            assert_eq!(a.partial_cmp(&b), (a_major, a_minor).partial_cmp(&(b_major, b_minor)));
        }
    }
}

#[test]
fn the_numbers_of_a_version_are_kept() {
    let version = Version::from(7, 4);
    assert_eq!(version.major_number(), 7);
    assert_eq!(version.minor_number(), 4);
}

#[test]
fn new_format_starts_at_7_5() {
    assert!(!Version::from(7, 4).is_new_format());
    assert!(Version::from(7, 5).is_new_format());
    assert!(Version::from(7, 7).is_new_format());
    assert!(Version::from(8, 0).is_new_format());
    assert!(!Version::from(6, 9).is_new_format());
    assert!(!Version::from(0, 0).is_new_format());
}

#[test]
fn new_format_is_at_least_7_5_for_every_small_version() {
    let boundary = Version::from(7, 5);
    for major in 0..12u16 {
        for minor in 0..12u16 {
            let version = Version::from(major, minor);
            assert_eq!(version.is_new_format(), version >= boundary);
        }
    }
}

#[test]
fn packed_form_is_major_times_1000_plus_minor_times_100() {
    // 7 * 1000 + 4 * 100 = 7400 = 0x1CE8
    assert_eq!(Version::from(7, 4).to_u8_le(), [0xe8, 0x1c, 0x00, 0x00]);
    // 7500 = 0x1D4C
    assert_eq!(Version::from(7, 5).to_u8_le(), [0x4c, 0x1d, 0x00, 0x00]);
    // 7700 = 0x1E14
    assert_eq!(Version::from(7, 7).to_u8_le(), [0x14, 0x1e, 0x00, 0x00]);
    assert_eq!(Version::from(0, 0).to_u8_le(), [0, 0, 0, 0]);
    // 65535 * 1000 + 65535 * 100 = 72088500 = 0x044BFBB4
    assert_eq!(Version::from(65535, 65535).to_u8_le(), [0xb4, 0xfb, 0x4b, 0x04]);
}
