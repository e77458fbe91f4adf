use slippy_map_tiles::{xy_to_zorder, zorder_to_xy};

#[test]
fn test_xy_to_zorder() {
    assert_eq!(xy_to_zorder(0, 0), 0);
    assert_eq!(xy_to_zorder(1, 0), 1);
    assert_eq!(xy_to_zorder(0, 1), 2);
    assert_eq!(xy_to_zorder(1, 1), 3);
}

#[test]
fn test_zorder_to_xy() {
    assert_eq!(zorder_to_xy(0), (0, 0));
    assert_eq!(zorder_to_xy(1), (1, 0));
}

#[test]
fn zorder_interleaves_x_even_y_odd() {
    assert_eq!(xy_to_zorder(2, 0), 4);
    assert_eq!(xy_to_zorder(0, 2), 8);
    assert_eq!(xy_to_zorder(3, 5), 0b100111);
    assert_eq!(xy_to_zorder(u32::MAX, 0), 0x5555_5555_5555_5555);
    assert_eq!(xy_to_zorder(0, u32::MAX), 0xaaaa_aaaa_aaaa_aaaa);
    assert_eq!(xy_to_zorder(u32::MAX, u32::MAX), u64::MAX);
    assert_eq!(xy_to_zorder(0x8000_0000, 0), 1 << 62);
    assert_eq!(xy_to_zorder(0, 0x8000_0000), 1 << 63);
}

#[test]
fn zorder_decodes_what_it_encoded() {
    let samples: [u32; 9] = [0, 1, 2, 3, 255, 256, 65_535, 0x8000_0000, u32::MAX];
    for x in samples {
        for y in samples {
            assert_eq!(zorder_to_xy(xy_to_zorder(x, y)), (x, y));
        }
    }
}

#[test]
fn zorder_encodes_what_it_decoded() {
    let samples: [u64; 8] = [0, 1, 2, 3, 0x1234_5678_9abc_def0, 1 << 62, 1 << 63, u64::MAX];
    for z in samples {
        let (x, y) = zorder_to_xy(z);
        assert_eq!(xy_to_zorder(x, y), z);
    }
    assert_eq!(zorder_to_xy(0b100111), (3, 5));
    assert_eq!(zorder_to_xy(u64::MAX), (u32::MAX, u32::MAX));
}
