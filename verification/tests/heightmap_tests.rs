use bnggen::heightmap::{
    create_empty_tile, decode_pixel, encode_pixel, heightmap_from_rgb, heightmap_min_max,
    normalize_heightmap, terrarium_bytes, Heightmap,
};
use bnggen::imaging::process_terrain_data;

#[test]
fn terrarium_pixel_round_trip() {
    // Elevations in 1/256 m units, including the extremes.
    for &e in &[-8388608i32, -1000, -1, 0, 1, 256, 12345, 8388607] {
        let (r, g, b) = encode_pixel(e);
        assert_eq!(decode_pixel(r, g, b), e);
    }
}

#[test]
fn terrarium_known_encoding() {
    // 0 m is encoded as R=128, G=0, B=0 in the elevation packing.
    assert_eq!(encode_pixel(0), (128, 0, 0));
    assert_eq!(decode_pixel(128, 0, 0), 0);
    // One meter is 256 fixed-point units: R=128, G=1, B=0.
    assert_eq!(decode_pixel(128, 1, 0), 256);
}

#[test]
fn terrarium_array_round_trip() {
    let hm = Heightmap {
        rows: vec![vec![-1000, 0, 12345], vec![255, 256, -8388608]],
    };
    let bytes = terrarium_bytes(&hm);
    assert_eq!(bytes.len(), 18);
    let back = heightmap_from_rgb(3, 2, &bytes);
    assert_eq!(back.rows, vec![vec![-1000, 0, 12345], vec![255, 256, -8388608]]);
}

#[test]
fn min_max_finds_extremes() {
    let hm = Heightmap {
        rows: vec![vec![40, 10], vec![110, 55]],
    };
    assert_eq!(heightmap_min_max(&hm), (10, 110));
}

#[test]
fn normalization_spans_full_range() {
    // Values ranging [10, 110] must map the minimum to 0 and the maximum
    // to 255.
    let hm = Heightmap {
        rows: vec![vec![10, 60], vec![110, 10]],
    };
    let (mn, mx) = heightmap_min_max(&hm);
    let pix = normalize_heightmap(&hm, mn, mx);
    assert_eq!(pix, vec![0, 127, 255, 0]);
}

#[test]
fn normalization_flat_grid_is_black() {
    let hm = Heightmap {
        rows: vec![vec![42, 42]],
    };
    let (mn, mx) = heightmap_min_max(&hm);
    let pix = normalize_heightmap(&hm, mn, mx);
    assert_eq!(pix, vec![0, 0]);
}

#[test]
fn empty_tile_is_zero_filled() {
    let t = create_empty_tile();
    assert_eq!(t.len(), 256 * 256 * 3);
    assert!(t.iter().all(|&b| b == 0));
}

#[test]
fn process_terrain_data_decodes_png() {
    // Encode a 2x1 raster with the image crate, then decode it through the
    // pipeline: the decoder must recover the packed elevations, so it
    // cannot be handing the PNG bytes back unchanged.
    let samples: Vec<u8> = vec![128, 0, 0, 128, 1, 0];
    let img: image::RgbImage = image::ImageBuffer::from_raw(2, 1, samples).unwrap();
    let mut cur = std::io::Cursor::new(Vec::new());
    img.write_to(&mut cur, image::ImageOutputFormat::Png).unwrap();
    let hm = process_terrain_data(&cur.into_inner()).unwrap();
    assert_eq!(hm.rows, vec![vec![0, 256]]);
}

#[test]
fn process_terrain_data_rejects_garbage() {
    let garbage = vec![1u8, 2, 3, 4, 5];
    assert!(process_terrain_data(&garbage).is_err());
}
