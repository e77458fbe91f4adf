use slippy_map_tiles::{xy_to_mp, xy_to_mt, xy_to_tc, xy_to_ts, ModTileMetatile, Tile};

#[test]
fn tc() {
    let res = xy_to_tc(3, 4);
    assert_eq!(res[0], "000");
    assert_eq!(res[1], "000");
    assert_eq!(res[2], "003");
    assert_eq!(res[3], "000");
    assert_eq!(res[4], "000");
    assert_eq!(res[5], "004");
}

#[test]
fn mp() {
    let res = xy_to_mp(3, 4);
    assert_eq!(res[0], "0000");
    assert_eq!(res[1], "0003");
    assert_eq!(res[2], "0000");
    assert_eq!(res[3], "0004");
}

#[test]
fn ts() {
    let res = xy_to_ts(656, 1582);
    assert_eq!(res[0], "000");
    assert_eq!(res[1], "656");
    assert_eq!(res[2], "001");
    assert_eq!(res[3], "582");
}

#[test]
fn mod_tile_path() {
    let res = xy_to_mt(0, 0);
    assert_eq!(res[0], "0");
    assert_eq!(res[1], "0");
    assert_eq!(res[2], "0");
    assert_eq!(res[3], "0");
    assert_eq!(res[4], "0");

    let res = xy_to_mt(1, 1);
    assert_eq!(res[0], "0");
    assert_eq!(res[1], "0");
    assert_eq!(res[2], "0");
    assert_eq!(res[3], "0");
    assert_eq!(res[4], "17");
}

#[test]
fn tiles() {
    let tile = Tile::new(1, 0, 0);

    assert!(tile.is_some());
    let tile = tile.unwrap();

    assert_eq!(tile.zoom(), 1);
    assert_eq!(tile.x(), 0);
    assert_eq!(tile.y(), 0);

    let parent = tile.parent();
    assert!(parent.is_some());
    let parent = parent.unwrap();
    assert_eq!(parent, Tile::new(0, 0, 0).unwrap());

    assert_eq!(parent.tc_path("png"), "0/000/000/000/000/000/000.png");
    assert_eq!(parent.mp_path("png"), "0/0000/0000/0000/0000.png");
    assert_eq!(parent.ts_path("png"), "0/000/000/000/000.png");
    assert_eq!(parent.zxy(), "0/0/0");
    assert_eq!(parent.zxy_path("png"), "0/0/0.png");

    let children = parent.subtiles();
    assert_eq!(children.is_none(), false);
    let children: [Tile; 4] = children.unwrap();
    assert_eq!(children[0], Tile::new(1, 0, 0).unwrap());
    assert_eq!(children[0].tc_path("png"), "1/000/000/000/000/000/000.png");

    assert_eq!(children[1], Tile::new(1, 1, 0).unwrap());
    assert_eq!(children[1].tc_path("png"), "1/000/000/001/000/000/000.png");

    assert_eq!(children[2], Tile::new(1, 0, 1).unwrap());
    assert_eq!(children[2].tc_path("png"), "1/000/000/000/000/000/001.png");

    assert_eq!(children[3], Tile::new(1, 1, 1).unwrap());
    assert_eq!(children[3].tc_path("png"), "1/000/000/001/000/000/001.png");
    assert_eq!(children[3].zxy_path("png"), "1/1/1.png");
    assert_eq!(children[3].zxy(), "1/1/1");
}

#[test]
fn simple1() {
    let mt_meta = ModTileMetatile::new(0, 0, 0);
    assert!(mt_meta.is_some());
    let mt_meta = mt_meta.unwrap();
    assert_eq!(mt_meta.path("png"), "0/0/0/0/0/0.png");
}

#[test]
fn tc_groups_of_a_large_coordinate() {
    let res = xy_to_tc(4_294_967_295, 1_002_003);
    assert_eq!(res[0], "4294");
    assert_eq!(res[1], "967");
    assert_eq!(res[2], "295");
    assert_eq!(res[3], "001");
    assert_eq!(res[4], "002");
    assert_eq!(res[5], "003");
}

#[test]
fn mp_groups_of_a_large_coordinate() {
    let res = xy_to_mp(4_294_967_295, 120_034);
    assert_eq!(res[0], "429496");
    assert_eq!(res[1], "7295");
    assert_eq!(res[2], "0012");
    assert_eq!(res[3], "0034");
}

#[test]
fn ts_groups_of_a_large_coordinate() {
    let res = xy_to_ts(1_234_567, 7);
    assert_eq!(res[0], "1234");
    assert_eq!(res[1], "567");
    assert_eq!(res[2], "000");
    assert_eq!(res[3], "007");
}

#[test]
fn mt_packs_four_bits_of_each_coordinate() {
    // x = 0x12345, y = 0xabcde: the bytes are 0x1a, 0x2b, 0x3c, 0x4d, 0x5e.
    let res = xy_to_mt(0x12345, 0xabcde);
    assert_eq!(res[0], "26");
    assert_eq!(res[1], "43");
    assert_eq!(res[2], "60");
    assert_eq!(res[3], "77");
    assert_eq!(res[4], "94");
    // Bits above the twentieth play no part.
    let res = xy_to_mt(0xfff0_0000, 0xfff0_0000);
    assert_eq!(res[0], "0");
    assert_eq!(res[4], "0");
    let res = xy_to_mt(0xf, 0xf);
    assert_eq!(res[4], "255");
}

#[test]
fn paths_of_a_deep_tile() {
    let tile = Tile::new(18, 130_981, 87_177).unwrap();
    assert_eq!(tile.tc_path("png"), "18/000/130/981/000/087/177.png");
    assert_eq!(tile.mp_path("jpg"), "18/0013/0981/0008/7177.jpg");
    assert_eq!(tile.ts_path("png"), "18/130/981/087/177.png");
    assert_eq!(tile.zxy(), "18/130981/87177");
    assert_eq!(tile.zxy_path("jpeg"), "18/130981/87177.jpeg");
    // x = 0x1ffa5, y = 0x15489
    assert_eq!(tile.mt_path("meta"), "18/17/245/244/168/89.meta");
}

#[test]
fn mod_tile_metatile_path_uses_the_aligned_corner() {
    let mt = ModTileMetatile::new(10, 547, 380).unwrap();
    assert_eq!(mt.x(), 544);
    assert_eq!(mt.y(), 376);
    // x = 0x220, y = 0x178
    assert_eq!(mt.path("meta"), "10/0/0/33/39/8.meta");
}
