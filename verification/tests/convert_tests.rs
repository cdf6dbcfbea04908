use bnggen::convert::convert_osm_to_beamng;
use bnggen::geo::BoundingBox;
use bnggen::osm::{ElementKind, OsmElement};
use bnggen::assemble::{generate_items_level, generate_road_files};

fn node(id: i64, lat: i64, lon: i64, tags: Vec<(&str, &str)>) -> OsmElement {
    OsmElement {
        id,
        kind: ElementKind::Node,
        lat: Some(lat),
        lon: Some(lon),
        tags: tags.iter().map(|(k, v)| (k.to_string(), v.to_string())).collect(),
        nodes: None,
    }
}

fn way(id: i64, refs: Vec<i64>, tags: Vec<(&str, &str)>) -> OsmElement {
    OsmElement {
        id,
        kind: ElementKind::Way,
        lat: None,
        lon: None,
        tags: tags.iter().map(|(k, v)| (k.to_string(), v.to_string())).collect(),
        nodes: Some(refs),
    }
}

fn unit_box() -> BoundingBox {
    BoundingBox { min_lat: 0, min_lon: 0, max_lat: 100000, max_lon: 100000 }
}

#[test]
fn end_to_end_scenario() {
    // One residential way over two nodes spanning the box diagonal, one
    // tree at the midpoint.
    let elements = vec![
        node(1, 0, 0, vec![]),
        node(2, 100000, 100000, vec![]),
        node(3, 50000, 50000, vec![("natural", "tree")]),
        way(10, vec![1, 2], vec![("highway", "residential"), ("lanes", "2")]),
    ];
    let b = unit_box();
    let (objects, network) = convert_osm_to_beamng(&elements, &b).unwrap();

    assert_eq!(objects.len(), 1);
    assert_eq!(objects[0].obj_type, "tree");
    assert_eq!(objects[0].position, (1024000, 0, 1024000));

    assert_eq!(network.nodes.len(), 2);
    assert_eq!(network.nodes[0].position, (0, 0, 0));
    assert_eq!(network.nodes[1].position, (2048000, 0, 2048000));
    assert_eq!(network.nodes[0].id, "node_10_1");
    assert_eq!(network.nodes[1].id, "node_10_2");

    assert_eq!(network.segments.len(), 1);
    let seg = &network.segments[0];
    // 2 lanes * 3.0 = 6.0 local units, held in tenths.
    assert_eq!(seg.width, 60);
    assert!(!seg.one_way);
    assert_eq!(seg.start_node, "node_10_1");
    assert_eq!(seg.end_node, "node_10_2");
    assert_eq!(seg.lanes, 2);
    assert_eq!(seg.road_type, "residential");
}

#[test]
fn missing_node_reference_bridges_gap() {
    // The way references [1, 2, 3] but node 2 carries no position: one
    // segment connects 1 directly to 3, and 2 yields no road node.
    let elements = vec![
        node(1, 0, 0, vec![]),
        node(3, 100000, 100000, vec![]),
        way(10, vec![1, 2, 3], vec![("highway", "residential")]),
    ];
    let b = unit_box();
    let (_, network) = convert_osm_to_beamng(&elements, &b).unwrap();
    assert_eq!(network.nodes.len(), 2);
    assert_eq!(network.nodes[0].id, "node_10_1");
    assert_eq!(network.nodes[1].id, "node_10_3");
    assert_eq!(network.segments.len(), 1);
    assert_eq!(network.segments[0].start_node, "node_10_1");
    assert_eq!(network.segments[0].end_node, "node_10_3");
}

#[test]
fn building_anchors_at_first_resolvable_node() {
    let elements = vec![
        node(2, 50000, 50000, vec![]),
        way(20, vec![1, 2], vec![("building", "yes")]),
    ];
    let b = unit_box();
    let (objects, _) = convert_osm_to_beamng(&elements, &b).unwrap();
    assert_eq!(objects.len(), 1);
    assert_eq!(objects[0].obj_type, "building");
    // Node 1 is unresolvable, so the anchor is node 2's position.
    assert_eq!(objects[0].position, (1024000, 0, 1024000));
}

#[test]
fn bus_stop_node_yields_feature() {
    let elements = vec![node(5, 0, 50000, vec![("highway", "bus_stop")])];
    let b = unit_box();
    let (objects, network) = convert_osm_to_beamng(&elements, &b).unwrap();
    assert_eq!(objects.len(), 1);
    assert_eq!(objects[0].obj_type, "bus_stop");
    assert_eq!(objects[0].position, (1024000, 0, 0));
    // A node is not a routable way.
    assert_eq!(network.nodes.len(), 0);
}

#[test]
fn one_way_tag_carries_over() {
    let elements = vec![
        node(1, 0, 0, vec![]),
        node(2, 100000, 0, vec![]),
        way(7, vec![1, 2], vec![("highway", "motorway"), ("oneway", "yes"), ("lanes", "3")]),
    ];
    let b = unit_box();
    let (_, network) = convert_osm_to_beamng(&elements, &b).unwrap();
    assert_eq!(network.segments.len(), 1);
    assert!(network.segments[0].one_way);
    assert_eq!(network.segments[0].width, 125);
}

#[test]
fn rules_fire_independently() {
    // A single element may satisfy several classifications: a way tagged
    // both building and highway yields a feature and road output.
    let elements = vec![
        node(1, 0, 0, vec![]),
        node(2, 100000, 100000, vec![]),
        way(9, vec![1, 2], vec![("building", "yes"), ("highway", "service")]),
    ];
    let b = unit_box();
    let (objects, network) = convert_osm_to_beamng(&elements, &b).unwrap();
    assert_eq!(objects.len(), 1);
    assert_eq!(objects[0].obj_type, "building");
    assert_eq!(network.nodes.len(), 2);
    assert_eq!(network.segments.len(), 1);
}

#[test]
fn node_ids_are_owned_per_way() {
    // A way revisiting a node emits the same id again; a different way
    // referencing the same node owns a distinct projected copy.
    let elements = vec![
        node(1, 0, 0, vec![]),
        node(2, 100000, 100000, vec![]),
        way(10, vec![1, 2, 1], vec![("highway", "residential")]),
        way(11, vec![1, 2], vec![("highway", "residential")]),
    ];
    let b = unit_box();
    let (_, network) = convert_osm_to_beamng(&elements, &b).unwrap();
    let ids: Vec<&str> = network.nodes.iter().map(|n| n.id.as_str()).collect();
    assert_eq!(
        ids,
        vec!["node_10_1", "node_10_2", "node_10_1", "node_11_1", "node_11_2"]
    );
    assert_eq!(network.segments.len(), 3);
    assert_eq!(network.segments[1].id, "segment_10_2_1");
}

#[test]
fn invalid_coordinate_is_rejected() {
    // A latitude beyond 90 degrees is malformed input, fatal for the run.
    let elements = vec![node(1, 950000000, 0, vec![])];
    let b = unit_box();
    assert!(convert_osm_to_beamng(&elements, &b).is_err());
}

#[test]
fn graph_build_is_deterministic() {
    // Building twice from the same inputs gives byte-identical outputs.
    let elements = vec![
        node(1, 0, 0, vec![("natural", "tree")]),
        node(2, 100000, 100000, vec![]),
        node(3, 20000, 80000, vec![("highway", "bus_stop")]),
        way(10, vec![1, 2, 3], vec![("highway", "tertiary"), ("lanes", "4")]),
        way(11, vec![3, 1], vec![("building", "yes")]),
    ];
    let b = unit_box();
    let (o1, n1) = convert_osm_to_beamng(&elements, &b).unwrap();
    let (o2, n2) = convert_osm_to_beamng(&elements, &b).unwrap();
    assert_eq!(generate_items_level(&o1), generate_items_level(&o2));
    assert_eq!(generate_road_files(&n1), generate_road_files(&n2));
}
