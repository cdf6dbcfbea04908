use bnggen::assemble::{
    generate_beamng_files, generate_decal_road_format, generate_items_level, generate_main_level,
    generate_mod_info, generate_preview_image, generate_road_files, generate_terrain_files,
    get_beamng_object_class, FileData,
};
use bnggen::convert::BeamNGObject;
use bnggen::heightmap::Heightmap;
use bnggen::progress::progress_milestones;
use bnggen::roads::{RoadNetwork, RoadNode, RoadSegment};

#[test]
fn object_classes() {
    assert_eq!(get_beamng_object_class("building"), "TSStatic");
    assert_eq!(get_beamng_object_class("tree"), "Forest");
    assert_eq!(get_beamng_object_class("bus_stop"), "TSStatic");
    assert_eq!(get_beamng_object_class("anything"), "TSStatic");
}

#[test]
fn mod_info_text() {
    let s = generate_mod_info("generated_map");
    assert_eq!(
        s,
        "{\"name\":\"Generated Map - generated_map\",\"version\":\"1.0\",\"author\":\"BeamNG Terrain Generator\",\"description\":\"Automatically generated map from real-world data using OpenStreetMap and AWS Terrain Tiles\",\"gameVersion\":\"0.32\",\"modType\":\"level\"}"
    );
}

#[test]
fn main_level_mentions_spawn() {
    let s = generate_main_level("generated_map");
    assert!(s.starts_with("{\"main\":{\"levelName\":\"Generated - generated_map\""));
    assert!(s.contains("\"defaultSpawnPoint\":\"spawn_0\""));
    assert!(s.contains("\"pos\":[1024,1024,105]"));
}

#[test]
fn terrain_descriptor_text() {
    assert_eq!(
        generate_terrain_files(),
        "{\"terrainSize\":2048,\"squareSize\":1,\"heightScale\":256,\"heightMap\":\"terrain.png\"}"
    );
}

#[test]
fn items_level_single_tree() {
    let objects = vec![BeamNGObject {
        obj_type: "tree".to_string(),
        position: (1024000, 0, 1024000),
        properties: vec![],
    }];
    assert_eq!(
        generate_items_level(&objects),
        "{\"objects\":[{\"class\":\"Forest\",\"persistentId\":\"tree_0\",\"position\":[1024,0,1024],\"rotation\":[0,0,1,0],\"scale\":[1,1,1],\"__gameObjectId\":1000}]}"
    );
}

#[test]
fn items_level_escapes_and_numbers() {
    let objects = vec![
        BeamNGObject {
            obj_type: "building".to_string(),
            position: (-1024000, 0, 500),
            properties: vec![],
        },
        BeamNGObject { obj_type: "tree".to_string(), position: (1, 0, 0), properties: vec![] },
    ];
    let s = generate_items_level(&objects);
    // Fixed-point positions render with trimmed fractions; a negative
    // projected offset keeps its sign.
    assert!(s.contains("\"position\":[-1024,0,0.5]"));
    assert!(s.contains("\"position\":[0.001,0,0]"));
    assert!(s.contains("\"__gameObjectId\":1001"));
    assert!(s.contains("\"persistentId\":\"tree_1\""));
}

#[test]
fn empty_items_level() {
    let objects: Vec<BeamNGObject> = vec![];
    assert_eq!(generate_items_level(&objects), "{\"objects\":[]}");
}

fn small_network() -> RoadNetwork {
    RoadNetwork {
        nodes: vec![
            RoadNode {
                id: "node_10_1".to_string(),
                position: (0, 0, 0),
                width: 125,
                road_type: "motorway".to_string(),
            },
            RoadNode {
                id: "node_10_2".to_string(),
                position: (2048000, 0, 2048000),
                width: 125,
                road_type: "motorway".to_string(),
            },
        ],
        segments: vec![RoadSegment {
            id: "segment_10_1_2".to_string(),
            start_node: "node_10_1".to_string(),
            end_node: "node_10_2".to_string(),
            width: 125,
            lanes: 3,
            road_type: "motorway".to_string(),
            one_way: true,
        }],
    }
}

#[test]
fn road_files_text() {
    let s = generate_road_files(&small_network());
    assert_eq!(
        s,
        "{\"nodes\":[\
         {\"id\":\"node_10_1\",\"position\":[0,0,0],\"width\":12.5,\"roadType\":\"motorway\"},\
         {\"id\":\"node_10_2\",\"position\":[2048,0,2048],\"width\":12.5,\"roadType\":\"motorway\"}],\
         \"segments\":[\
         {\"id\":\"segment_10_1_2\",\"startNode\":\"node_10_1\",\"endNode\":\"node_10_2\",\
         \"width\":12.5,\"lanes\":3,\"roadType\":\"motorway\",\"oneWay\":true}]}"
    );
}

#[test]
fn decal_road_text() {
    let s = generate_decal_road_format(&small_network());
    assert!(s.starts_with("{\"decalRoads\":[{\"class\":\"DecalRoad\",\"persistentId\":\"segment_10_1_2\""));
    assert!(s.contains("\"Material\":\"road_asphalt_highway\""));
    // The segment's 12.5 width is split evenly to either side.
    assert!(s.contains("\"width\":12.5,\"widthLeft\":6.25,\"widthRight\":6.25"));
    assert!(s.contains("\"pos\":[2048,0,2048]"));
}

#[test]
fn decal_road_drops_unresolved_segment() {
    let mut network = small_network();
    network.segments.push(RoadSegment {
        id: "segment_10_2_9".to_string(),
        start_node: "node_10_2".to_string(),
        end_node: "node_10_9".to_string(),
        width: 125,
        lanes: 3,
        road_type: "motorway".to_string(),
        one_way: false,
    });
    let s = generate_decal_road_format(&network);
    // The segment whose end node id is absent from the node list is
    // dropped, not errored.
    assert!(!s.contains("segment_10_2_9"));
    assert!(s.contains("segment_10_1_2"));
}

#[test]
fn road_files_escape_strings() {
    let network = RoadNetwork {
        nodes: vec![RoadNode {
            id: "node_1_1".to_string(),
            position: (0, 0, 0),
            width: 20,
            road_type: "we\"ird\\cla\nss".to_string(),
        }],
        segments: vec![],
    };
    let s = generate_road_files(&network);
    assert!(s.contains("\"roadType\":\"we\\\"ird\\\\cla\\u000ass\""));
}

#[test]
fn package_layout_and_heightmap_image() {
    let hm = Heightmap { rows: vec![vec![10, 60], vec![110, 10]] };
    let objects: Vec<BeamNGObject> = vec![];
    let network = RoadNetwork { nodes: vec![], segments: vec![] };
    let pkg = generate_beamng_files(&hm, &objects, &network).unwrap();

    assert_eq!(pkg.dirs.len(), 5);
    assert_eq!(pkg.dirs[0], "generated_map");
    assert_eq!(pkg.dirs[4], "generated_map/levels/generated_map/art/terrains");

    assert_eq!(pkg.files.len(), 8);
    assert_eq!(pkg.files[0].path, "generated_map/info.json");
    assert_eq!(pkg.files[6].path, "generated_map/levels/generated_map/art/terrains/terrain.png");
    assert_eq!(pkg.files[7].path, "generated_map/levels/generated_map/preview.jpg");

    // Decode the terrain image back: the encoder must have produced a real
    // PNG of the normalized samples, spanning the full 8-bit range.
    let png = match &pkg.files[6].data {
        FileData::Binary(b) => b.clone(),
        FileData::Text(_) => panic!("terrain.png must be binary"),
    };
    let img = image::load_from_memory(&png).unwrap().to_luma8();
    assert_eq!(img.dimensions(), (2, 2));
    assert_eq!(img.as_raw(), &vec![0u8, 127, 255, 0]);

    let jpg = match &pkg.files[7].data {
        FileData::Binary(b) => b.clone(),
        FileData::Text(_) => panic!("preview.jpg must be binary"),
    };
    let preview = image::load_from_memory(&jpg).unwrap();
    assert_eq!(preview.to_rgb8().dimensions(), (512, 512));
}

#[test]
fn preview_image_always_encodes() {
    let jpg = generate_preview_image().unwrap();
    let img = image::load_from_memory(&jpg).unwrap().to_rgb8();
    assert_eq!(img.dimensions(), (512, 512));
    // The gradient's blue channel is constant at 128; JPEG is lossy, so
    // allow a small deviation.
    let b = img.get_pixel(0, 0).0[2] as i32;
    assert!((b - 128).abs() <= 8);
}

#[test]
fn package_rejects_empty_heightmap() {
    let hm = Heightmap { rows: vec![] };
    let objects: Vec<BeamNGObject> = vec![];
    let network = RoadNetwork { nodes: vec![], segments: vec![] };
    assert!(generate_beamng_files(&hm, &objects, &network).is_err());
}

#[test]
fn progress_is_monotonic_and_terminates_at_100() {
    let ms = progress_milestones();
    assert_eq!(ms.len(), 7);
    assert_eq!(ms[0].0, 0);
    assert_eq!(ms[0].1, "Initializing");
    assert_eq!(ms[6].0, 100);
    assert_eq!(ms[6].1, "Complete");
    for w in ms.windows(2) {
        assert!(w[0].0 <= w[1].0);
    }
}
