use slippy_map_tiles::{
    bbox_text, size_bbox_zoom, size_bbox_zoom_metatiles, tile_at, BBoxTilesIterator, Metatile,
    MetatilesIterator, Tile, TileBounds,
};

// The projection works on floating point numbers and stands outside the
// library. These helpers turn a box of latitudes and longitudes into the
// corner tiles and the footprints that the library's traversals take.

fn lat_lon_to_tile(lat: f32, lon: f32, zoom: u8) -> (u32, u32) {
    let max_lat: f64 = std::f64::consts::PI.sinh().atan();
    let lat: f64 = (lat as f64).to_radians();
    let lon: f64 = lon as f64;
    let lat = if lat > max_lat {
        max_lat
    } else if lat < -max_lat {
        -max_lat
    } else {
        lat
    };
    let n: f64 = 2f64.powi(zoom as i32);
    let xtile: u32 = (n * ((lon + 180.) / 360.)).trunc() as u32;
    let ytile: u32 = (n * (1. - ((lat.tan() + (1. / lat.cos())).ln() / std::f64::consts::PI)) / 2.)
        .trunc() as u32;
    (xtile, ytile)
}

fn tile_nw_lat_lon(zoom: u8, x: f32, y: f32) -> (f32, f32) {
    let n: f32 = 2f32.powi(zoom as i32);
    let lon_deg: f32 = x / n * 360f32 - 180f32;
    let lat_rad: f32 = ((1f32 - 2f32 * y / n) * std::f32::consts::PI).sinh().atan();
    let lat_deg: f32 = lat_rad * 180f32 * std::f32::consts::FRAC_1_PI;
    (lat_deg, lon_deg)
}

struct Box4 {
    top: f32,
    left: f32,
    bottom: f32,
    right: f32,
}

fn bounds_at(b: &Box4, zoom: u8) -> TileBounds {
    TileBounds::new(
        lat_lon_to_tile(b.top, b.left, zoom),
        lat_lon_to_tile(b.bottom, b.right, zoom),
    )
    .unwrap()
}

fn bounds_by_zoom(b: &Box4, maxzoom: u8) -> Vec<TileBounds> {
    (0..=maxzoom).map(|zoom| bounds_at(b, zoom)).collect()
}

fn overlaps(b: &Box4, tile: &Tile) -> bool {
    let nw = tile_nw_lat_lon(tile.zoom(), tile.x() as f32, tile.y() as f32);
    let se = tile_nw_lat_lon(tile.zoom(), (tile.x() as f32) + 1.0, (tile.y() as f32) + 1.0);
    b.left < se.1 && b.right > nw.1 && b.top > se.0 && b.bottom < nw.0
}

fn next_tile(b: &Box4, frontier: &mut BBoxTilesIterator) -> Option<Tile> {
    if let Some(tile) = frontier.next() {
        return Some(tile);
    }
    let keep: Vec<bool> = frontier.candidates().iter().map(|t| overlaps(b, t)).collect();
    frontier.descend(&keep);
    frontier.next()
}

fn ireland() -> Box4 {
    // left=-11.32 bottom=51.11 right=-4.97 top=55.7
    Box4 { top: 55.7, left: -11.32, bottom: 51.11, right: -4.97 }
}

fn dublin() -> Box4 {
    Box4 { top: 53.61, left: -6.66, bottom: 53.08, right: -5.98 }
}

#[test]
fn bbox_tile_iter() {
    let ie_bbox = ireland();
    let mut tiles = BBoxTilesIterator::new();
    assert_eq!(next_tile(&ie_bbox, &mut tiles), Tile::new(0, 0, 0));
    assert_eq!(next_tile(&ie_bbox, &mut tiles), Tile::new(1, 0, 0));
    assert_eq!(next_tile(&ie_bbox, &mut tiles), Tile::new(2, 1, 1));
    assert_eq!(next_tile(&ie_bbox, &mut tiles), Tile::new(3, 3, 2));
    assert_eq!(next_tile(&ie_bbox, &mut tiles), Tile::new(4, 7, 5));
    assert_eq!(next_tile(&ie_bbox, &mut tiles), Tile::new(5, 14, 10));
}

#[test]
fn test_metatile_subtiles_bbox1() {
    let ie_bbox = ireland();
    let mut metatiles =
        MetatilesIterator::new_for_bbox_from_world(8, bounds_by_zoom(&ie_bbox, 32));
    assert_eq!(metatiles.next(), Metatile::new(8, 0, 0, 0));
    assert_eq!(metatiles.next(), Metatile::new(8, 1, 0, 0));
    assert_eq!(metatiles.next(), Metatile::new(8, 2, 0, 0));
    assert_eq!(metatiles.next(), Metatile::new(8, 3, 0, 0));
    assert_eq!(metatiles.next(), Metatile::new(8, 4, 0, 0));
    assert_eq!(metatiles.next(), Metatile::new(8, 5, 8, 8));

    assert_eq!(metatiles.next(), Metatile::new(8, 6, 24, 16));

    assert_eq!(metatiles.next(), Metatile::new(8, 7, 56, 40));

    assert_eq!(metatiles.next(), Metatile::new(8, 8, 112, 80));
    assert_eq!(metatiles.next(), Metatile::new(8, 8, 120, 80));

    assert_eq!(metatiles.next(), Metatile::new(8, 9, 232, 160));
    assert_eq!(metatiles.next(), Metatile::new(8, 9, 240, 160));
    assert_eq!(metatiles.next(), Metatile::new(8, 9, 232, 168));
    assert_eq!(metatiles.next(), Metatile::new(8, 9, 240, 168));
}

#[test]
fn test_metatile_subtiles_bbox2() {
    let ie_bbox = ireland();
    let mut metatiles =
        MetatilesIterator::new_for_bbox_zoom(8, Some(bounds_by_zoom(&ie_bbox, 5)), 0, 5);
    assert_eq!(metatiles.next(), Metatile::new(8, 0, 0, 0));
    assert_eq!(metatiles.next(), Metatile::new(8, 1, 0, 0));
    assert_eq!(metatiles.next(), Metatile::new(8, 2, 0, 0));
    assert_eq!(metatiles.next(), Metatile::new(8, 3, 0, 0));
    assert_eq!(metatiles.next(), Metatile::new(8, 4, 0, 0));
    assert_eq!(metatiles.next(), Metatile::new(8, 5, 8, 8));
    assert_eq!(metatiles.next(), None);
}

#[test]
fn test_metatile_subtiles_bbox3() {
    let ie_bbox = ireland();
    let mut metatiles =
        MetatilesIterator::new_for_bbox_zoom(8, Some(bounds_by_zoom(&ie_bbox, 5)), 5, 5);
    assert_eq!(metatiles.next(), Metatile::new(8, 5, 8, 8));
    assert_eq!(metatiles.next(), None);
}

#[test]
fn test_metatile_subtiles_bbox4() {
    let ie_d_bbox = dublin();
    let mut metatiles =
        MetatilesIterator::new_for_bbox_zoom(8, Some(bounds_by_zoom(&ie_d_bbox, 10)), 0, 10);
    assert_eq!(metatiles.next(), Metatile::new(8, 0, 0, 0));
    assert_eq!(metatiles.next(), Metatile::new(8, 1, 0, 0));
    assert_eq!(metatiles.next(), Metatile::new(8, 2, 0, 0));
    assert_eq!(metatiles.next(), Metatile::new(8, 3, 0, 0));
    assert_eq!(metatiles.next(), Metatile::new(8, 4, 0, 0));
    assert_eq!(metatiles.next(), Metatile::new(8, 5, 8, 8));
    assert_eq!(metatiles.next(), Metatile::new(8, 6, 24, 16));
    assert_eq!(metatiles.next(), Metatile::new(8, 7, 56, 40));

    assert_eq!(metatiles.next(), Metatile::new(8, 8, 120, 80));

    assert_eq!(metatiles.next(), Metatile::new(8, 9, 240, 160));

    assert_eq!(metatiles.next(), Metatile::new(8, 10, 488, 328));

    assert_eq!(metatiles.next(), None);
}

#[test]
fn size_bbox_zoom1() {
    let ie_bbox = ireland();
    assert_eq!(size_bbox_zoom(&bounds_at(&ie_bbox, 0)), Some(1));
    assert_eq!(size_bbox_zoom(&bounds_at(&ie_bbox, 1)), Some(1));
    assert_eq!(size_bbox_zoom(&bounds_at(&ie_bbox, 2)), Some(1));
    assert_eq!(size_bbox_zoom(&bounds_at(&ie_bbox, 3)), Some(1));
    assert_eq!(size_bbox_zoom(&bounds_at(&ie_bbox, 4)), Some(1));
    assert_eq!(size_bbox_zoom(&bounds_at(&ie_bbox, 5)), Some(2));
    assert_eq!(size_bbox_zoom(&bounds_at(&ie_bbox, 6)), Some(6));
    assert_eq!(size_bbox_zoom(&bounds_at(&ie_bbox, 7)), Some(12));
    assert_eq!(size_bbox_zoom(&bounds_at(&ie_bbox, 8)), Some(36));
    assert_eq!(size_bbox_zoom(&bounds_at(&ie_bbox, 9)), Some(120));
    assert_eq!(size_bbox_zoom(&bounds_at(&ie_bbox, 10)), Some(437));
    assert_eq!(size_bbox_zoom(&bounds_at(&ie_bbox, 11)), Some(1665));
    assert_eq!(size_bbox_zoom(&bounds_at(&ie_bbox, 12)), Some(6497));
    assert_eq!(size_bbox_zoom(&bounds_at(&ie_bbox, 13)), Some(25520));
    assert_eq!(size_bbox_zoom(&bounds_at(&ie_bbox, 14)), Some(102080));
    assert_eq!(size_bbox_zoom(&bounds_at(&ie_bbox, 15)), Some(407037));
    assert_eq!(size_bbox_zoom(&bounds_at(&ie_bbox, 16)), Some(1625585));
    assert_eq!(size_bbox_zoom(&bounds_at(&ie_bbox, 17)), Some(6494904));
    assert_eq!(size_bbox_zoom(&bounds_at(&ie_bbox, 18)), Some(25959136));
}

#[test]
fn size_bbox_zoom2() {
    let bbox = Box4 { top: 1e-5, left: -1e-5, bottom: -1e-5, right: 1e-5 };
    assert_eq!(size_bbox_zoom(&bounds_at(&bbox, 0)), Some(1));
    assert_eq!(size_bbox_zoom(&bounds_at(&bbox, 1)), Some(4));
    assert_eq!(size_bbox_zoom(&bounds_at(&bbox, 2)), Some(4));
    assert_eq!(size_bbox_zoom(&bounds_at(&bbox, 3)), Some(4));
    assert_eq!(size_bbox_zoom(&bounds_at(&bbox, 4)), Some(4));
    assert_eq!(size_bbox_zoom(&bounds_at(&bbox, 5)), Some(4));
    assert_eq!(size_bbox_zoom(&bounds_at(&bbox, 6)), Some(4));
    assert_eq!(size_bbox_zoom(&bounds_at(&bbox, 7)), Some(4));
    assert_eq!(size_bbox_zoom(&bounds_at(&bbox, 8)), Some(4));
    assert_eq!(size_bbox_zoom(&bounds_at(&bbox, 9)), Some(4));
    assert_eq!(size_bbox_zoom(&bounds_at(&bbox, 10)), Some(4));
    assert_eq!(size_bbox_zoom(&bounds_at(&bbox, 11)), Some(4));
    assert_eq!(size_bbox_zoom(&bounds_at(&bbox, 12)), Some(4));
    assert_eq!(size_bbox_zoom(&bounds_at(&bbox, 13)), Some(4));
    assert_eq!(size_bbox_zoom(&bounds_at(&bbox, 14)), Some(4));
    assert_eq!(size_bbox_zoom(&bounds_at(&bbox, 15)), Some(4));
    assert_eq!(size_bbox_zoom(&bounds_at(&bbox, 16)), Some(4));
    assert_eq!(size_bbox_zoom(&bounds_at(&bbox, 17)), Some(4));
    assert_eq!(size_bbox_zoom(&bounds_at(&bbox, 18)), Some(4));
}

#[test]
fn size_bbox_zoom_metatiles1() {
    let ie_bbox = ireland();
    assert_eq!(size_bbox_zoom_metatiles(&bounds_at(&ie_bbox, 0), 8), Some(1));
    assert_eq!(size_bbox_zoom_metatiles(&bounds_at(&ie_bbox, 1), 8), Some(1));
    assert_eq!(size_bbox_zoom_metatiles(&bounds_at(&ie_bbox, 2), 8), Some(1));
    assert_eq!(size_bbox_zoom_metatiles(&bounds_at(&ie_bbox, 3), 8), Some(1));
    assert_eq!(size_bbox_zoom_metatiles(&bounds_at(&ie_bbox, 4), 8), Some(1));
    assert_eq!(size_bbox_zoom_metatiles(&bounds_at(&ie_bbox, 5), 8), Some(1));
    assert_eq!(size_bbox_zoom_metatiles(&bounds_at(&ie_bbox, 6), 8), Some(1));
    assert_eq!(size_bbox_zoom_metatiles(&bounds_at(&ie_bbox, 7), 8), Some(1));
    assert_eq!(size_bbox_zoom_metatiles(&bounds_at(&ie_bbox, 8), 8), Some(2));
    assert_eq!(size_bbox_zoom_metatiles(&bounds_at(&ie_bbox, 9), 8), Some(6));
    assert_eq!(size_bbox_zoom_metatiles(&bounds_at(&ie_bbox, 10), 8), Some(12));
    assert_eq!(size_bbox_zoom_metatiles(&bounds_at(&ie_bbox, 11), 8), Some(36));
    assert_eq!(size_bbox_zoom_metatiles(&bounds_at(&ie_bbox, 12), 8), Some(120));
    assert_eq!(size_bbox_zoom_metatiles(&bounds_at(&ie_bbox, 13), 8), Some(437));
    assert_eq!(size_bbox_zoom_metatiles(&bounds_at(&ie_bbox, 14), 8), Some(1665));
    assert_eq!(size_bbox_zoom_metatiles(&bounds_at(&ie_bbox, 15), 8), Some(6497));
    assert_eq!(size_bbox_zoom_metatiles(&bounds_at(&ie_bbox, 16), 8), Some(25520));
    assert_eq!(size_bbox_zoom_metatiles(&bounds_at(&ie_bbox, 17), 8), Some(102080));
    assert_eq!(size_bbox_zoom_metatiles(&bounds_at(&ie_bbox, 18), 8), Some(407037));
}

#[test]
fn size_bbox_zoom_metatiles2() {
    let ie_d_bbox = dublin();
    assert_eq!(size_bbox_zoom_metatiles(&bounds_at(&ie_d_bbox, 9), 8), Some(1));
    assert_eq!(size_bbox_zoom_metatiles(&bounds_at(&ie_d_bbox, 10), 8), Some(1));
    assert_eq!(size_bbox_zoom_metatiles(&bounds_at(&ie_d_bbox, 11), 8), Some(2));
    assert_eq!(size_bbox_zoom_metatiles(&bounds_at(&ie_d_bbox, 12), 8), Some(4));
    assert_eq!(size_bbox_zoom_metatiles(&bounds_at(&ie_d_bbox, 13), 8), Some(8));
    assert_eq!(size_bbox_zoom_metatiles(&bounds_at(&ie_d_bbox, 14), 8), Some(24));
    assert_eq!(size_bbox_zoom_metatiles(&bounds_at(&ie_d_bbox, 15), 8), Some(88));
    assert_eq!(size_bbox_zoom_metatiles(&bounds_at(&ie_d_bbox, 16), 8), Some(336));
    assert_eq!(size_bbox_zoom_metatiles(&bounds_at(&ie_d_bbox, 17), 8), Some(1344));
    assert_eq!(size_bbox_zoom_metatiles(&bounds_at(&ie_d_bbox, 18), 8), Some(5166));
}

fn sides(text: &str) -> Option<(f32, f32, f32, f32)> {
    let t = bbox_text(text)?;
    Some((
        t.top.parse().ok()?,
        t.left.parse().ok()?,
        t.bottom.parse().ok()?,
        t.right.parse().ok()?,
    ))
}

#[test]
fn bbox_from_string() {
    let bbox = sides("10 20 30 40");
    assert!(bbox.is_some());
    let bbox = bbox.unwrap();
    assert_eq!(bbox.0, 40.);
    assert_eq!(bbox.1, 10.);
    assert_eq!(bbox.2, 20.);
    assert_eq!(bbox.3, 30.);

    let bbox = sides("10,20,30,40");
    assert!(bbox.is_some());
    let bbox = bbox.unwrap();
    assert_eq!(bbox.0, 40.);
    assert_eq!(bbox.1, 10.);
    assert_eq!(bbox.2, 20.);
    assert_eq!(bbox.3, 30.);

    let bbox = sides("71.6,-25.93,35.55,48.9");
    assert!(bbox.is_some());
    let bbox = bbox.unwrap();
    assert_eq!(bbox.0, 48.9);
    assert_eq!(bbox.1, 71.6);
    assert_eq!(bbox.2, -25.93);
    assert_eq!(bbox.3, 35.55);

    assert!(bbox_text("foo").is_none());
    assert!(bbox_text("1.1.1.1").is_none());
    assert!(bbox_text("1  1  1  1").is_none());
}

#[test]
fn bbox_text_keeps_the_numbers_as_written() {
    let t = bbox_text("-11.32 51.11 -4.97 55.7").unwrap();
    assert_eq!(t.top, "55.7");
    assert_eq!(t.left, "-11.32");
    assert_eq!(t.bottom, "51.11");
    assert_eq!(t.right, "-4.97");
    assert!(bbox_text("1,2 3,4").is_none());
    assert!(bbox_text("1234 1 1 1").is_none());
    assert!(bbox_text("1.12345678901 1 1 1").is_none());
    assert!(bbox_text("1 2 3").is_none());
}

#[test]
fn bounds_want_their_corners_in_order() {
    assert!(TileBounds::new((3, 4), (3, 4)).is_some());
    assert!(TileBounds::new((4, 4), (3, 4)).is_none());
    assert!(TileBounds::new((3, 5), (3, 4)).is_none());
    let b = TileBounds::new((3, 4), (10, 20)).unwrap();
    assert_eq!(b.top_left(), (3, 4));
    assert_eq!(b.bottom_right(), (10, 20));
    assert_eq!(size_bbox_zoom(&b), Some(8 * 17));
    assert_eq!(size_bbox_zoom_metatiles(&b, 8), Some(2 * 3));
    assert_eq!(size_bbox_zoom_metatiles(&b, 1), Some(8 * 17));
    assert_eq!(size_bbox_zoom_metatiles(&b, 0), None);
    let world = TileBounds::new((0, 0), (u32::MAX, u32::MAX)).unwrap();
    assert_eq!(size_bbox_zoom(&world), None);
    assert_eq!(size_bbox_zoom_metatiles(&world, 128), Some(1 << 50));
}

#[test]
fn traversal_of_a_rectangle_skips_the_cells_outside() {
    // Three columns and two rows of metatiles of side 2 on zoom 4.
    let bounds: Vec<TileBounds> = (0..=4u8)
        .map(|zoom| {
            if zoom < 4 {
                TileBounds::new((0, 0), (0, 0)).unwrap()
            } else {
                TileBounds::new((4, 8), (9, 11)).unwrap()
            }
        })
        .collect();
    let mut it = MetatilesIterator::new_for_bbox_zoom(2, Some(bounds), 4, 4);
    let mut seen: Vec<(u32, u32)> = Vec::new();
    while let Some(mt) = it.next() {
        assert_eq!((mt.scale(), mt.zoom()), (2, 4));
        seen.push((mt.x(), mt.y()));
    }
    assert_eq!(seen, vec![(4, 8), (6, 8), (4, 10), (6, 10), (8, 8), (8, 10)]);
}

#[test]
fn traversal_goes_no_deeper_than_its_bounds() {
    let bounds = vec![TileBounds::new((0, 0), (0, 0)).unwrap()];
    let mut it = MetatilesIterator::new_for_bbox_zoom(8, Some(bounds), 0, 5);
    assert_eq!(it.next(), Metatile::new(8, 0, 0, 0));
    assert_eq!(it.next(), None);
}

#[test]
fn bbox_tiles_step_down_by_the_flags() {
    let mut frontier = BBoxTilesIterator::new();
    assert_eq!(frontier.next(), Tile::new(0, 0, 0));
    assert_eq!(frontier.next(), None);
    let candidates = frontier.candidates();
    assert_eq!(
        candidates,
        vec![
            Tile::new(1, 0, 0).unwrap(),
            Tile::new(1, 1, 0).unwrap(),
            Tile::new(1, 0, 1).unwrap(),
            Tile::new(1, 1, 1).unwrap(),
        ]
    );
    frontier.descend(&vec![false, true, true]);
    assert_eq!(frontier.next(), Tile::new(1, 1, 0));
    assert_eq!(frontier.candidates().len(), 8);
    assert_eq!(frontier.next(), Tile::new(1, 0, 1));
    assert_eq!(frontier.next(), None);
    frontier.descend(&vec![false, false, false, false, false, false, false, true]);
    assert_eq!(frontier.next(), Tile::new(2, 1, 3));
    assert_eq!(frontier.next(), None);
    frontier.descend(&Vec::new());
    assert_eq!(frontier.next(), None);
    assert!(frontier.candidates().is_empty());
}

fn tiles_for_zoom(b: &Box4, zoom: u8) -> Vec<Tile> {
    let bounds = bounds_at(b, zoom);
    (0u64..).map_while(|k| tile_at(&bounds, zoom, k)).collect()
}

fn tiles_on(zoom: u8, coords: Vec<(u32, u32)>) -> Vec<Tile> {
    coords
        .into_iter()
        .map(|xy| Tile::new(zoom, xy.0, xy.1).unwrap())
        .collect()
}

#[test]
fn bbox_tiles() {
    let ie_bbox = ireland();

    assert_eq!(tiles_for_zoom(&ie_bbox, 0), tiles_on(0, vec![(0, 0)]));
    assert_eq!(tiles_for_zoom(&ie_bbox, 1), tiles_on(1, vec![(0, 0)]));
    assert_eq!(tiles_for_zoom(&ie_bbox, 2), tiles_on(2, vec![(1, 1)]));
    assert_eq!(tiles_for_zoom(&ie_bbox, 3), tiles_on(3, vec![(3, 2)]));
    assert_eq!(tiles_for_zoom(&ie_bbox, 4), tiles_on(4, vec![(7, 5)]));
}

#[test]
fn tile_at_counts_column_by_column() {
    let b = TileBounds::new((4, 8), (6, 9)).unwrap();
    assert_eq!(tile_at(&b, 4, 0), Tile::new(4, 4, 8));
    assert_eq!(tile_at(&b, 4, 1), Tile::new(4, 4, 9));
    assert_eq!(tile_at(&b, 4, 2), Tile::new(4, 5, 8));
    assert_eq!(tile_at(&b, 4, 5), Tile::new(4, 6, 9));
    assert_eq!(tile_at(&b, 4, 6), None);
    assert_eq!(tile_at(&b, 4, u64::MAX), None);
    // No tile of zoom 3 has the row 8.
    assert_eq!(tile_at(&b, 3, 0), None);
    assert_eq!(tile_at(&b, 100, 0), None);
    let world = TileBounds::new((0, 0), (u32::MAX, u32::MAX)).unwrap();
    assert_eq!(tile_at(&world, 32, u64::MAX), Tile::new(32, u32::MAX, u32::MAX));
    assert_eq!(tile_at(&world, 32, 1 << 32), Tile::new(32, 1, 0));
}

#[test]
fn traversal_from_the_world_puts_one_cell_at_zoom_0() {
    // A table whose entry for zoom 0 is not the world's single tile.
    let bounds = vec![
        TileBounds::new((0, 0), (1, 1)).unwrap(),
        TileBounds::new((1, 1), (1, 1)).unwrap(),
    ];
    let mut it = MetatilesIterator::new_for_bbox_from_world(1, bounds.clone());
    assert_eq!(it.next(), Metatile::new(1, 0, 0, 0));
    assert_eq!(it.next(), Metatile::new(1, 1, 1, 1));
    assert_eq!(it.next(), None);
    // Taken as it is, the same table asks for cells at zoom 0 that are no
    // tiles, and the traversal ends on the first of them.
    let mut it = MetatilesIterator::new_for_bbox(1, bounds);
    assert_eq!(it.next(), Metatile::new(1, 0, 0, 0));
    assert_eq!(it.next(), None);
    assert_eq!(MetatilesIterator::new_for_bbox_from_world(1, Vec::new()).next(), None);
}
