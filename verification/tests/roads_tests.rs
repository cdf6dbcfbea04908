use bnggen::osm::parse_lanes;
use bnggen::roads::{calculate_road_width, get_road_material};

#[test]
fn width_motorway_three_lanes() {
    // 3 * 3.5 + 2.0 = 12.5 local units, held in tenths.
    let w = calculate_road_width("motorway", 3);
    assert_eq!(w, 125);
    assert_eq!(w as f64 / 10.0, 3.0 * 3.5 + 2.0);
}

#[test]
fn width_path_ignores_lanes() {
    // Fixed 2.0 regardless of lane count.
    assert_eq!(calculate_road_width("path", 5), 20);
    assert_eq!(calculate_road_width("path", 1), 20);
    assert_eq!(calculate_road_width("footway", 7), 20);
    assert_eq!(calculate_road_width("cycleway", 2), 20);
}

#[test]
fn width_table_rows() {
    assert_eq!(calculate_road_width("trunk", 2), 2 * 35 + 20);
    assert_eq!(calculate_road_width("primary", 2), 2 * 35 + 15);
    assert_eq!(calculate_road_width("secondary", 2), 2 * 35 + 10);
    assert_eq!(calculate_road_width("tertiary", 2), 2 * 35 + 5);
    assert_eq!(calculate_road_width("residential", 2), 2 * 30);
    assert_eq!(calculate_road_width("service", 3), 3 * 30);
    assert_eq!(calculate_road_width("unclassified", 2), 2 * 35);
}

#[test]
fn lanes_parse_digits() {
    assert_eq!(parse_lanes(Some(&"3".to_string())), 3);
}

#[test]
fn lanes_default_when_missing() {
    assert_eq!(parse_lanes(None), 2);
}

#[test]
fn lanes_default_when_unparsable() {
    assert_eq!(parse_lanes(Some(&"abc".to_string())), 2);
    assert_eq!(parse_lanes(Some(&"".to_string())), 2);
    assert_eq!(parse_lanes(Some(&"-1".to_string())), 2);
    assert_eq!(parse_lanes(Some(&"99999999999999999999".to_string())), 2);
}

#[test]
fn lanes_accepts_leading_plus() {
    // str::parse::<u32> accepts an optional leading '+'.
    assert_eq!(parse_lanes(Some(&"+4".to_string())), 4);
}

#[test]
fn materials_by_class() {
    assert_eq!(get_road_material("motorway"), "road_asphalt_highway");
    assert_eq!(get_road_material("trunk"), "road_asphalt_highway");
    assert_eq!(get_road_material("primary"), "road_asphalt");
    assert_eq!(get_road_material("secondary"), "road_asphalt");
    assert_eq!(get_road_material("tertiary"), "road_asphalt_residential");
    assert_eq!(get_road_material("residential"), "road_asphalt_residential");
    assert_eq!(get_road_material("service"), "road_concrete");
    assert_eq!(get_road_material("path"), "road_gravel");
    assert_eq!(get_road_material("whatever"), "road_asphalt");
}
