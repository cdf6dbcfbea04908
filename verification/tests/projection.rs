use bnggen::geo::{latlon_to_beamng, tile_grid, BoundingBox};

fn unit_box() -> BoundingBox {
    // 0.01 degrees in 1e-7 degree units.
    BoundingBox { min_lat: 0, min_lon: 0, max_lat: 100000, max_lon: 100000 }
}

#[test]
fn projection_min_corner_is_origin() {
    let b = unit_box();
    let p = latlon_to_beamng(0, 0, &b);
    assert_eq!(p, (0, 0, 0));
}

#[test]
fn projection_max_corner_is_span() {
    let b = unit_box();
    let p = latlon_to_beamng(100000, 100000, &b);
    // SPAN = 2048 local units, in thousandths.
    assert_eq!(p, (2048000, 0, 2048000));
}

#[test]
fn projection_midpoint_is_half_span() {
    let b = unit_box();
    let p = latlon_to_beamng(50000, 50000, &b);
    assert_eq!(p, (1024000, 0, 1024000));
}

#[test]
fn projection_shifted_box() {
    // A box away from the origin: anchors still land exactly.
    let b = BoundingBox {
        min_lat: 520000000,
        min_lon: 134000000,
        max_lat: 520400000,
        max_lon: 134800000,
    };
    assert_eq!(latlon_to_beamng(520000000, 134000000, &b), (0, 0, 0));
    assert_eq!(latlon_to_beamng(520400000, 134800000, &b), (2048000, 0, 2048000));
    assert_eq!(latlon_to_beamng(520200000, 134400000, &b), (1024000, 0, 1024000));
}

#[test]
fn projection_y_is_always_zero() {
    let b = unit_box();
    assert_eq!(latlon_to_beamng(73000, 12000, &b).1, 0);
}

#[test]
fn tile_grid_enumerates_x_major() {
    let tiles = tile_grid(2, 5, 3, 6);
    assert_eq!(tiles, vec![(2, 5), (2, 6), (3, 5), (3, 6)]);
}

#[test]
fn tile_grid_single_tile() {
    assert_eq!(tile_grid(7, 9, 7, 9), vec![(7, 9)]);
}
