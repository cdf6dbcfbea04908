//! The element graph builder: turns a flat collection of tagged geographic
//! elements into projected point features and a road network. Every rule is
//! an independent predicate check, so one element may yield several outputs;
//! node references absent from the position index are skipped silently, and
//! a gap inside a way's node chain is bridged, not broken.

use vstd::prelude::*;
use crate::geo::BoundingBox;
use crate::geo::spec_project;
use crate::geo::valid_lat;
use crate::geo::valid_lon;
use crate::geo::latlon_to_beamng;
use crate::geo::LAT_LIMIT;
use crate::geo::LON_LIMIT;
use crate::osm::OsmElement;
use crate::osm::ElementKind;
use crate::osm::spec_tag;
use crate::osm::spec_has_tag;
use crate::osm::spec_tag_is;
use crate::osm::spec_lanes;
use crate::osm::get_tag;
use crate::osm::parse_lanes;
use crate::roads::RoadNode;
use crate::roads::RoadSegment;
use crate::roads::RoadNetwork;
use crate::roads::RoadNodeModel;
use crate::roads::RoadSegModel;
use crate::roads::spec_road_width;
use crate::roads::calculate_road_width;
use crate::text::spec_dec_i64;
use crate::text::push_i64_dec;
use crate::text::str_is;

verus! {

/// A projected point feature: a building, a tree, a bus stop.
pub struct BeamNGObject {
    pub obj_type: String,
    pub position: (i64, i64, i64),
    pub properties: Vec<(String, String)>,
}

/// Mathematical image of a point feature.
pub struct ObjModel {
    pub obj_type: Seq<char>,
    pub position: (int, int, int),
    pub properties: Seq<(Seq<char>, Seq<char>)>,
}

/// Tag entries as character-sequence pairs.
pub open spec fn view_tags(tags: Seq<(String, String)>) -> Seq<(Seq<char>, Seq<char>)> {
    tags.map_values(|p: (String, String)| (p.0@, p.1@))
}

impl BeamNGObject {
    pub open spec fn view_model(self) -> ObjModel {
        ObjModel {
            obj_type: self.obj_type@,
            position: (
                self.position.0 as int,
                self.position.1 as int,
                self.position.2 as int,
            ),
            properties: view_tags(self.properties@),
        }
    }
}

pub open spec fn view_objs(s: Seq<BeamNGObject>) -> Seq<ObjModel> {
    s.map_values(|o: BeamNGObject| o.view_model())
}

pub open spec fn view_road_nodes(s: Seq<RoadNode>) -> Seq<RoadNodeModel> {
    s.map_values(|n: RoadNode| n.view_model())
}

pub open spec fn view_road_segs(s: Seq<RoadSegment>) -> Seq<RoadSegModel> {
    s.map_values(|n: RoadSegment| n.view_model())
}

/// A node element that carries a position carries a well-formed one.
pub open spec fn elem_coords_valid(e: OsmElement) -> bool {
    (e.kind is Node && e.lat is Some && e.lon is Some) ==> valid_lat(e.lat->0 as int) && valid_lon(
        e.lon->0 as int,
    )
}

/// Every node position in the collection is well-formed.
pub open spec fn coords_valid(elements: Seq<OsmElement>) -> bool {
    forall|i: int| 0 <= i < elements.len() ==> elem_coords_valid(#[trigger] elements[i])
}

/// The node position index: the position of every node element that carries
/// one, later elements overriding earlier ones with the same id.
pub open spec fn spec_node_index(elements: Seq<OsmElement>) -> Map<i64, (i64, i64)>
    decreases elements.len(),
{
    if elements.len() == 0 {
        Map::empty()
    } else {
        let m = spec_node_index(elements.drop_last());
        let e = elements.last();
        if e.kind is Node && e.lat is Some && e.lon is Some {
            m.insert(e.id, (e.lat->0, e.lon->0))
        } else {
            m
        }
    }
}

/// Every position held in the index is well-formed.
pub open spec fn index_coords_valid(m: Map<i64, (i64, i64)>) -> bool {
    forall|k: i64|
        m.contains_key(k) ==> valid_lat((#[trigger] m[k]).0 as int) && valid_lon(m[k].1 as int)
}

proof fn lemma_node_index_valid(elements: Seq<OsmElement>)
    requires
        coords_valid(elements),
    ensures
        index_coords_valid(spec_node_index(elements)),
    decreases elements.len(),
{
    if elements.len() > 0 {
        assert(coords_valid(elements.drop_last())) by {
            assert(forall|i: int|
                0 <= i < elements.len() - 1 ==> elements.drop_last()[i] == #[trigger] elements[i]);
        }
        lemma_node_index_valid(elements.drop_last());
        assert(elem_coords_valid(elements.last()));
    }
}

/// The index as a map of pushed `(id, lat, lon)` entries, later entries
/// overriding earlier ones.
pub open spec fn entries_map(s: Seq<(i64, i64, i64)>) -> Map<i64, (i64, i64)>
    decreases s.len(),
{
    if s.len() == 0 {
        Map::empty()
    } else {
        entries_map(s.drop_last()).insert(s.last().0, (s.last().1, s.last().2))
    }
}

proof fn lemma_entries_map_absent(s: Seq<(i64, i64, i64)>, id: i64)
    requires
        forall|j: int| 0 <= j < s.len() ==> (#[trigger] s[j]).0 != id,
    ensures
        !entries_map(s).contains_key(id),
    decreases s.len(),
{
    if s.len() > 0 {
        lemma_entries_map_absent(s.drop_last(), id);
    }
}

proof fn lemma_entries_map_found(s: Seq<(i64, i64, i64)>, id: i64, j: int)
    requires
        0 <= j < s.len(),
        s[j].0 == id,
        forall|jj: int| j < jj < s.len() ==> (#[trigger] s[jj]).0 != id,
    ensures
        entries_map(s).contains_key(id),
        entries_map(s)[id] == (s[j].1, s[j].2),
    decreases s.len(),
{
    if j == s.len() - 1 {
    } else {
        lemma_entries_map_found(s.drop_last(), id, j);
    }
}

/// Looks a node id up in the built index entries; the latest entry wins.
fn index_lookup(entries: &Vec<(i64, i64, i64)>, id: i64) -> (r: Option<(i64, i64)>)
    ensures
        r == if entries_map(entries@).contains_key(id) {
            Some(entries_map(entries@)[id])
        } else {
            None::<(i64, i64)>
        },
{
    let mut k = entries.len();
    while k > 0
        invariant
            k <= entries@.len(),
            forall|jj: int| k <= jj < entries@.len() ==> (#[trigger] entries@[jj]).0 != id,
        decreases k,
    {
        k = k - 1;
        let e = entries[k];
        if e.0 == id {
            proof {
                lemma_entries_map_found(entries@, id, k as int);
            }
            return Some((e.1, e.2));
        }
    }
    proof {
        lemma_entries_map_absent(entries@, id);
    }
    None
}

/// The first referenced node id that resolves in the index.
pub open spec fn spec_first_resolvable(refs: Seq<i64>, m: Map<i64, (i64, i64)>) -> Option<i64>
    decreases refs.len(),
{
    if refs.len() == 0 {
        None
    } else if m.contains_key(refs[0]) {
        Some(refs[0])
    } else {
        spec_first_resolvable(refs.drop_first(), m)
    }
}

/// Position of the first resolvable referenced node, if any.
fn find_first_resolvable(refs: &Vec<i64>, entries: &Vec<(i64, i64, i64)>) -> (r: Option<(i64, i64)>)
    ensures
        match spec_first_resolvable(refs@, entries_map(entries@)) {
            Some(nid) => entries_map(entries@).contains_key(nid) && r == Some(
                entries_map(entries@)[nid],
            ),
            None => r is None,
        },
{
    let ghost m = entries_map(entries@);
    let mut j: usize = 0;
    proof {
        assert(refs@.skip(0) =~= refs@);
    }
    while j < refs.len()
        invariant
            j <= refs@.len(),
            m == entries_map(entries@),
            spec_first_resolvable(refs@, m) == spec_first_resolvable(refs@.skip(j as int), m),
        decreases refs@.len() - j,
    {
        match index_lookup(entries, refs[j]) {
            Some(pos) => {
                return Some(pos);
            },
            None => {},
        }
        proof {
            assert(refs@.skip(j as int).drop_first() =~= refs@.skip(j + 1));
        }
        j = j + 1;
    }
    None
}

/// Local position of a geographic point; `y` is always zero.
pub open spec fn spec_pos(lat: int, lon: int, bbox: BoundingBox) -> (int, int, int) {
    (
        spec_project(lon, bbox.min_lon as int, bbox.max_lon as int),
        0,
        spec_project(lat, bbox.min_lat as int, bbox.max_lat as int),
    )
}

/// Features a `building`-tagged way yields: one, anchored at the first
/// resolvable referenced node, or none.
pub open spec fn spec_building_objects(
    e: OsmElement,
    m: Map<i64, (i64, i64)>,
    bbox: BoundingBox,
) -> Seq<ObjModel> {
    match e.nodes {
        Some(refs) => if spec_has_tag(e.tags@, "building"@) && e.kind is Way {
            match spec_first_resolvable(refs@, m) {
                Some(nid) => seq![
                    ObjModel {
                        obj_type: "building"@,
                        position: spec_pos(m[nid].0 as int, m[nid].1 as int, bbox),
                        properties: view_tags(e.tags@),
                    },
                ],
                None => Seq::empty(),
            }
        } else {
            Seq::empty()
        },
        None => Seq::empty(),
    }
}

/// Features a `natural=tree` node yields: one at its own position.
pub open spec fn spec_tree_objects(e: OsmElement, bbox: BoundingBox) -> Seq<ObjModel> {
    if spec_tag_is(e.tags@, "natural"@, "tree"@) && e.kind is Node && e.lat is Some && e.lon
        is Some {
        seq![
            ObjModel {
                obj_type: "tree"@,
                position: spec_pos(e.lat->0 as int, e.lon->0 as int, bbox),
                properties: view_tags(e.tags@),
            },
        ]
    } else {
        Seq::empty()
    }
}

/// Features a `highway=bus_stop` node yields: one at its own position.
pub open spec fn spec_busstop_objects(e: OsmElement, bbox: BoundingBox) -> Seq<ObjModel> {
    if spec_tag_is(e.tags@, "highway"@, "bus_stop"@) && e.kind is Node && e.lat is Some && e.lon
        is Some {
        seq![
            ObjModel {
                obj_type: "bus_stop"@,
                position: spec_pos(e.lat->0 as int, e.lon->0 as int, bbox),
                properties: view_tags(e.tags@),
            },
        ]
    } else {
        Seq::empty()
    }
}

/// All features one element yields, each applicable rule firing
/// independently, in a fixed order.
pub open spec fn spec_elem_objects(
    e: OsmElement,
    m: Map<i64, (i64, i64)>,
    bbox: BoundingBox,
) -> Seq<ObjModel> {
    spec_building_objects(e, m, bbox) + spec_tree_objects(e, bbox) + spec_busstop_objects(e, bbox)
}

/// All features of the whole collection, in element order.
pub open spec fn spec_objects(
    elements: Seq<OsmElement>,
    m: Map<i64, (i64, i64)>,
    bbox: BoundingBox,
) -> Seq<ObjModel>
    decreases elements.len(),
{
    if elements.len() == 0 {
        Seq::empty()
    } else {
        spec_objects(elements.drop_last(), m, bbox) + spec_elem_objects(elements.last(), m, bbox)
    }
}

/// Identifier of a way's projected copy of a referenced node: derived
/// deterministically from the owning way id and the node id.
pub open spec fn spec_node_id_str(way: int, node: int) -> Seq<char> {
    "node_"@ + spec_dec_i64(way) + "_"@ + spec_dec_i64(node)
}

/// Identifier of a segment between two referenced nodes of one way.
pub open spec fn spec_seg_id_str(way: int, a: int, b: int) -> Seq<char> {
    "segment_"@ + spec_dec_i64(way) + "_"@ + spec_dec_i64(a) + "_"@ + spec_dec_i64(b)
}

/// Road nodes a routable way yields: one per resolvable referenced node, in
/// reference order.
pub open spec fn spec_way_road_nodes(
    way_id: int,
    refs: Seq<i64>,
    m: Map<i64, (i64, i64)>,
    bbox: BoundingBox,
    width: int,
    cls: Seq<char>,
) -> Seq<RoadNodeModel>
    decreases refs.len(),
{
    if refs.len() == 0 {
        Seq::empty()
    } else {
        let rest = spec_way_road_nodes(way_id, refs.drop_first(), m, bbox, width, cls);
        if m.contains_key(refs[0]) {
            seq![
                RoadNodeModel {
                    id: spec_node_id_str(way_id, refs[0] as int),
                    position: spec_pos(m[refs[0]].0 as int, m[refs[0]].1 as int, bbox),
                    width: width,
                    road_type: cls,
                },
            ] + rest
        } else {
            rest
        }
    }
}

/// Road segments a routable way yields: one per consecutive pair of
/// resolvable referenced nodes; an unresolvable reference is bridged, so
/// the next resolvable node connects to the previous resolvable one.
pub open spec fn spec_way_road_segs(
    way_id: int,
    refs: Seq<i64>,
    prev: Option<i64>,
    m: Map<i64, (i64, i64)>,
    width: int,
    lanes: int,
    cls: Seq<char>,
    one_way: bool,
) -> Seq<RoadSegModel>
    decreases refs.len(),
{
    if refs.len() == 0 {
        Seq::empty()
    } else if m.contains_key(refs[0]) {
        let rest = spec_way_road_segs(
            way_id,
            refs.drop_first(),
            Some(refs[0]),
            m,
            width,
            lanes,
            cls,
            one_way,
        );
        match prev {
            Some(p) => seq![
                RoadSegModel {
                    id: spec_seg_id_str(way_id, p as int, refs[0] as int),
                    start_node: spec_node_id_str(way_id, p as int),
                    end_node: spec_node_id_str(way_id, refs[0] as int),
                    width: width,
                    lanes: lanes,
                    road_type: cls,
                    one_way: one_way,
                },
            ] + rest,
            None => rest,
        }
    } else {
        spec_way_road_segs(way_id, refs.drop_first(), prev, m, width, lanes, cls, one_way)
    }
}

/// The element is a way tagged as routable.
pub open spec fn spec_elem_routable(e: OsmElement) -> bool {
    spec_has_tag(e.tags@, "highway"@) && e.kind is Way && e.nodes is Some
}

/// Highway class of a routable element.
pub open spec fn spec_elem_cls(e: OsmElement) -> Seq<char> {
    spec_tag(e.tags@, "highway"@)->0
}

/// Derived width of a routable element, in tenths of a local unit.
pub open spec fn spec_elem_width(e: OsmElement) -> int {
    spec_road_width(spec_elem_cls(e), spec_elem_lanes(e))
}

/// Derived lane count of a routable element.
pub open spec fn spec_elem_lanes(e: OsmElement) -> int {
    spec_lanes(spec_tag(e.tags@, "lanes"@))
}

/// The element is explicitly one-way.
pub open spec fn spec_elem_one_way(e: OsmElement) -> bool {
    spec_tag_is(e.tags@, "oneway"@, "yes"@)
}

/// Road nodes one element yields.
pub open spec fn spec_elem_road_nodes(
    e: OsmElement,
    m: Map<i64, (i64, i64)>,
    bbox: BoundingBox,
) -> Seq<RoadNodeModel> {
    if spec_elem_routable(e) {
        spec_way_road_nodes(
            e.id as int,
            (e.nodes->0)@,
            m,
            bbox,
            spec_elem_width(e),
            spec_elem_cls(e),
        )
    } else {
        Seq::empty()
    }
}

/// Road segments one element yields.
pub open spec fn spec_elem_road_segs(
    e: OsmElement,
    m: Map<i64, (i64, i64)>,
) -> Seq<RoadSegModel> {
    if spec_elem_routable(e) {
        spec_way_road_segs(
            e.id as int,
            (e.nodes->0)@,
            None,
            m,
            spec_elem_width(e),
            spec_elem_lanes(e),
            spec_elem_cls(e),
            spec_elem_one_way(e),
        )
    } else {
        Seq::empty()
    }
}

/// All road nodes of the collection, in element order.
pub open spec fn spec_road_nodes(
    elements: Seq<OsmElement>,
    m: Map<i64, (i64, i64)>,
    bbox: BoundingBox,
) -> Seq<RoadNodeModel>
    decreases elements.len(),
{
    if elements.len() == 0 {
        Seq::empty()
    } else {
        spec_road_nodes(elements.drop_last(), m, bbox) + spec_elem_road_nodes(
            elements.last(),
            m,
            bbox,
        )
    }
}

/// All road segments of the collection, in element order.
pub open spec fn spec_road_segs(
    elements: Seq<OsmElement>,
    m: Map<i64, (i64, i64)>,
) -> Seq<RoadSegModel>
    decreases elements.len(),
{
    if elements.len() == 0 {
        Seq::empty()
    } else {
        spec_road_segs(elements.drop_last(), m) + spec_elem_road_segs(elements.last(), m)
    }
}

/// Renders a road node identifier; see [`spec_node_id_str`].
fn make_node_id(way: i64, node: i64) -> (s: String)
    ensures
        s@ == spec_node_id_str(way as int, node as int),
{
    let mut s = String::new();
    s.append("node_");
    push_i64_dec(&mut s, way);
    s.append("_");
    push_i64_dec(&mut s, node);
    proof {
        assert(s@ =~= spec_node_id_str(way as int, node as int));
    }
    s
}

/// Renders a road segment identifier; see [`spec_seg_id_str`].
fn make_seg_id(way: i64, a: i64, b: i64) -> (s: String)
    ensures
        s@ == spec_seg_id_str(way as int, a as int, b as int),
{
    let mut s = String::new();
    s.append("segment_");
    push_i64_dec(&mut s, way);
    s.append("_");
    push_i64_dec(&mut s, a);
    s.append("_");
    push_i64_dec(&mut s, b);
    proof {
        assert(s@ =~= spec_seg_id_str(way as int, a as int, b as int));
    }
    s
}

/// Copies a tag mapping.
fn clone_tags(tags: &Vec<(String, String)>) -> (r: Vec<(String, String)>)
    ensures
        view_tags(r@) == view_tags(tags@),
{
    let mut r: Vec<(String, String)> = Vec::new();
    let mut i: usize = 0;
    while i < tags.len()
        invariant
            i <= tags@.len(),
            r@.len() == i,
            forall|j: int|
                0 <= j < i ==> ((#[trigger] r@[j]).0@, r@[j].1@) == ((tags@[j]).0@, (tags@[j]).1@),
        decreases tags@.len() - i,
    {
        let k = tags[i].0.clone();
        let v = tags[i].1.clone();
        r.push((k, v));
        i = i + 1;
    }
    proof {
        assert(view_tags(r@) =~= view_tags(tags@));
    }
    r
}

/// Builds the feature set and the road network from the element collection:
/// a position index over all node elements first, then every rule checked
/// against every element independently. Fails exactly when some node
/// element carries a malformed position.
pub fn convert_osm_to_beamng(elements: &Vec<OsmElement>, bbox: &BoundingBox) -> (r: Result<
    (Vec<BeamNGObject>, RoadNetwork),
    String,
>)
    requires
        bbox.wf(),
    ensures
        r is Ok <==> coords_valid(elements@),
        r matches Ok(t) ==> ({
            let m = spec_node_index(elements@);
            &&& view_objs(t.0@) == spec_objects(elements@, m, *bbox)
            &&& view_road_nodes(t.1.nodes@) == spec_road_nodes(elements@, m, *bbox)
            &&& view_road_segs(t.1.segments@) == spec_road_segs(elements@, m)
        }),
{
    let ghost ev = elements@;
    let mut entries: Vec<(i64, i64, i64)> = Vec::new();
    let mut i: usize = 0;
    proof {
        assert(ev.take(0) =~= Seq::<OsmElement>::empty());
    }
    while i < elements.len()
        invariant
            ev == elements@,
            i <= ev.len(),
            entries_map(entries@) == spec_node_index(ev.take(i as int)),
            forall|j: int| 0 <= j < i ==> elem_coords_valid(#[trigger] ev[j]),
        decreases ev.len() - i,
    {
        let e = &elements[i];
        let is_node = matches!(e.kind, ElementKind::Node);
        if is_node {
            if let (Some(la), Some(lo)) = (e.lat, e.lon) {
                if la < -LAT_LIMIT || la > LAT_LIMIT || lo < -LON_LIMIT || lo > LON_LIMIT {
                    proof {
                        assert(!elem_coords_valid(ev[i as int]));
                        assert(!coords_valid(ev));
                    }
                    return Err(String::from_str("element coordinate out of range"));
                }
                let ghost before = entries@;
                entries.push((e.id, la, lo));
                proof {
                    assert(entries@.drop_last() =~= before);
                }
            }
        }
        proof {
            assert(ev.take(i + 1).drop_last() =~= ev.take(i as int));
            assert(ev.take(i + 1).last() == ev[i as int]);
        }
        i = i + 1;
    }
    proof {
        assert(ev.take(ev.len() as int) =~= ev);
    }
    let ghost m = spec_node_index(ev);
    proof {
        lemma_node_index_valid(ev);
    }
    let mut objects: Vec<BeamNGObject> = Vec::new();
    let mut road_nodes: Vec<RoadNode> = Vec::new();
    let mut road_segments: Vec<RoadSegment> = Vec::new();
    i = 0;
    proof {
        assert(ev.take(0) =~= Seq::<OsmElement>::empty());
    }
    while i < elements.len()
        invariant
            ev == elements@,
            i <= ev.len(),
            bbox.wf(),
            coords_valid(ev),
            m == spec_node_index(ev),
            index_coords_valid(m),
            entries_map(entries@) == m,
            view_objs(objects@) == spec_objects(ev.take(i as int), m, *bbox),
            view_road_nodes(road_nodes@) == spec_road_nodes(ev.take(i as int), m, *bbox),
            view_road_segs(road_segments@) == spec_road_segs(ev.take(i as int), m),
        decreases ev.len() - i,
    {
        let e = &elements[i];
        let ghost objs0 = view_objs(objects@);
        let is_way = matches!(e.kind, ElementKind::Way);
        let is_node = matches!(e.kind, ElementKind::Node);
        // Building rule: a tagged way anchored at its first resolvable node.
        if is_way && get_tag(&e.tags, "building").is_some() {
            if let Some(refs) = &e.nodes {
                match find_first_resolvable(refs, &entries) {
                    Some((la, lo)) => {
                        let p = latlon_to_beamng(la, lo, bbox);
                        let obj = BeamNGObject {
                            obj_type: String::from_str("building"),
                            position: p,
                            properties: clone_tags(&e.tags),
                        };
                        objects.push(obj);
                    },
                    None => {},
                }
            }
        }
        proof {
            assert(view_objs(objects@) =~= objs0 + spec_building_objects(ev[i as int], m, *bbox));
        }
        // Tree rule: a tagged node at its own position.
        if is_node {
            if let (Some(la), Some(lo)) = (e.lat, e.lon) {
                let is_tree = match get_tag(&e.tags, "natural") {
                    Some(v) => str_is(v.as_str(), "tree"),
                    None => false,
                };
                if is_tree {
                    assert(elem_coords_valid(ev[i as int]));
                    let p = latlon_to_beamng(la, lo, bbox);
                    let obj = BeamNGObject {
                        obj_type: String::from_str("tree"),
                        position: p,
                        properties: clone_tags(&e.tags),
                    };
                    objects.push(obj);
                }
            }
        }
        proof {
            assert(view_objs(objects@) =~= objs0 + spec_building_objects(ev[i as int], m, *bbox)
                + spec_tree_objects(ev[i as int], *bbox));
        }
        // Bus stop rule: a tagged node at its own position.
        if is_node {
            if let (Some(la), Some(lo)) = (e.lat, e.lon) {
                let is_stop = match get_tag(&e.tags, "highway") {
                    Some(v) => str_is(v.as_str(), "bus_stop"),
                    None => false,
                };
                if is_stop {
                    assert(elem_coords_valid(ev[i as int]));
                    let p = latlon_to_beamng(la, lo, bbox);
                    let obj = BeamNGObject {
                        obj_type: String::from_str("bus_stop"),
                        position: p,
                        properties: clone_tags(&e.tags),
                    };
                    objects.push(obj);
                }
            }
        }
        proof {
            assert(view_objs(objects@) =~= objs0 + spec_elem_objects(ev[i as int], m, *bbox));
            assert(ev.take(i + 1).drop_last() =~= ev.take(i as int));
            assert(ev.take(i + 1).last() == ev[i as int]);
            assert(view_objs(objects@) =~= spec_objects(ev.take(i + 1), m, *bbox));
        }
        // Road rule: a routable way walked in reference order.
        let ghost nodes0 = view_road_nodes(road_nodes@);
        let ghost segs0 = view_road_segs(road_segments@);
        let mut routable = false;
        if let Some(refs) = &e.nodes {
            if let Some(cls) = if is_way {
                get_tag(&e.tags, "highway")
            } else {
                None
            } {
                routable = true;
                let lanes = parse_lanes(get_tag(&e.tags, "lanes"));
                let width = calculate_road_width(cls.as_str(), lanes);
                let one_way = match get_tag(&e.tags, "oneway") {
                    Some(v) => str_is(v.as_str(), "yes"),
                    None => false,
                };
                proof {
                    assert(spec_elem_routable(ev[i as int]));
                    assert(spec_elem_cls(ev[i as int]) == cls@);
                    assert(spec_elem_lanes(ev[i as int]) == lanes as int);
                    assert(spec_elem_width(ev[i as int]) == width as int);
                    assert(spec_elem_one_way(ev[i as int]) == one_way);
                    assert(refs@ == (ev[i as int].nodes->0)@);
                    assert(refs@.skip(0) =~= refs@);
                }
                let mut prev: Option<i64> = None;
                let mut j: usize = 0;
                while j < refs.len()
                    invariant
                        j <= refs@.len(),
                        bbox.wf(),
                        m == spec_node_index(ev),
                        index_coords_valid(m),
                        entries_map(entries@) == m,
                        view_road_nodes(road_nodes@) + spec_way_road_nodes(
                            e.id as int,
                            refs@.skip(j as int),
                            m,
                            *bbox,
                            width as int,
                            cls@,
                        ) == nodes0 + spec_way_road_nodes(
                            e.id as int,
                            refs@,
                            m,
                            *bbox,
                            width as int,
                            cls@,
                        ),
                        view_road_segs(road_segments@) + spec_way_road_segs(
                            e.id as int,
                            refs@.skip(j as int),
                            prev,
                            m,
                            width as int,
                            lanes as int,
                            cls@,
                            one_way,
                        ) == segs0 + spec_way_road_segs(
                            e.id as int,
                            refs@,
                            None,
                            m,
                            width as int,
                            lanes as int,
                            cls@,
                            one_way,
                        ),
                    decreases refs@.len() - j,
                {
                    let nid = refs[j];
                    match index_lookup(&entries, nid) {
                        Some((la, lo)) => {
                            assert(m.contains_key(nid));
                            let p = latlon_to_beamng(la, lo, bbox);
                            let node_id = make_node_id(e.id, nid);
                            let rn = RoadNode {
                                id: node_id,
                                position: p,
                                width,
                                road_type: cls.clone(),
                            };
                            let ghost rn_nodes0 = view_road_nodes(road_nodes@);
                            road_nodes.push(rn);
                            proof {
                                assert(view_road_nodes(road_nodes@) =~= rn_nodes0 + seq![
                                    RoadNodeModel {
                                        id: spec_node_id_str(e.id as int, nid as int),
                                        position: spec_pos(m[nid].0 as int, m[nid].1 as int, *bbox),
                                        width: width as int,
                                        road_type: cls@,
                                    },
                                ]);
                            }
                            if let Some(pv) = prev {
                                let seg = RoadSegment {
                                    id: make_seg_id(e.id, pv, nid),
                                    start_node: make_node_id(e.id, pv),
                                    end_node: make_node_id(e.id, nid),
                                    width,
                                    lanes,
                                    road_type: cls.clone(),
                                    one_way,
                                };
                                let ghost rs_segs0 = view_road_segs(road_segments@);
                                road_segments.push(seg);
                                proof {
                                    assert(view_road_segs(road_segments@) =~= rs_segs0 + seq![
                                        RoadSegModel {
                                            id: spec_seg_id_str(e.id as int, pv as int, nid as int),
                                            start_node: spec_node_id_str(e.id as int, pv as int),
                                            end_node: spec_node_id_str(e.id as int, nid as int),
                                            width: width as int,
                                            lanes: lanes as int,
                                            road_type: cls@,
                                            one_way: one_way,
                                        },
                                    ]);
                                }
                            }
                            prev = Some(nid);
                        },
                        None => {
                            assert(!m.contains_key(nid));
                        },
                    }
                    proof {
                        assert(refs@.skip(j as int).drop_first() =~= refs@.skip(j + 1));
                        assert(refs@.skip(j as int)[0] == refs@[j as int]);
                    }
                    j = j + 1;
                }
                proof {
                    assert(refs@.skip(refs@.len() as int) =~= Seq::<i64>::empty());
                    assert(view_road_nodes(road_nodes@) =~= nodes0 + spec_elem_road_nodes(
                        ev[i as int],
                        m,
                        *bbox,
                    ));
                    assert(view_road_segs(road_segments@) =~= segs0 + spec_elem_road_segs(
                        ev[i as int],
                        m,
                    ));
                }
            }
        }
        proof {
            if !routable {
                assert(!spec_elem_routable(ev[i as int]));
                assert(view_road_nodes(road_nodes@) =~= nodes0 + spec_elem_road_nodes(
                    ev[i as int],
                    m,
                    *bbox,
                ));
                assert(view_road_segs(road_segments@) =~= segs0 + spec_elem_road_segs(
                    ev[i as int],
                    m,
                ));
            }
            assert(ev.take(i + 1).drop_last() =~= ev.take(i as int));
            assert(ev.take(i + 1).last() == ev[i as int]);
            assert(view_road_nodes(road_nodes@) =~= spec_road_nodes(ev.take(i + 1), m, *bbox));
            assert(view_road_segs(road_segments@) =~= spec_road_segs(ev.take(i + 1), m));
        }
        i = i + 1;
    }
    proof {
        assert(ev.take(ev.len() as int) =~= ev);
    }
    Ok((objects, RoadNetwork { nodes: road_nodes, segments: road_segments }))
}

/// Some road node in `ns` carries the identifier `id`.
pub open spec fn has_node_id(ns: Seq<RoadNodeModel>, id: Seq<char>) -> bool {
    exists|j: int| 0 <= j < ns.len() && (#[trigger] ns[j]).id == id
}

proof fn lemma_way_segs_endpoints(
    way_id: int,
    refs: Seq<i64>,
    prev: Option<i64>,
    m: Map<i64, (i64, i64)>,
    bbox: BoundingBox,
    width: int,
    lanes: int,
    cls: Seq<char>,
    one_way: bool,
)
    ensures
        forall|k: int|
            0 <= k < spec_way_road_segs(way_id, refs, prev, m, width, lanes, cls, one_way).len()
                ==> {
                let g = #[trigger] spec_way_road_segs(
                    way_id,
                    refs,
                    prev,
                    m,
                    width,
                    lanes,
                    cls,
                    one_way,
                )[k];
                let ns = spec_way_road_nodes(way_id, refs, m, bbox, width, cls);
                &&& (has_node_id(ns, g.start_node) || (prev matches Some(p) && g.start_node
                    == spec_node_id_str(way_id, p as int)))
                &&& has_node_id(ns, g.end_node)
            },
    decreases refs.len(),
{
    if refs.len() == 0 {
    } else {
        let rest_refs = refs.drop_first();
        let ns = spec_way_road_nodes(way_id, refs, m, bbox, width, cls);
        let segs = spec_way_road_segs(way_id, refs, prev, m, width, lanes, cls, one_way);
        if m.contains_key(refs[0]) {
            lemma_way_segs_endpoints(
                way_id,
                rest_refs,
                Some(refs[0]),
                m,
                bbox,
                width,
                lanes,
                cls,
                one_way,
            );
            let ns_rest = spec_way_road_nodes(way_id, rest_refs, m, bbox, width, cls);
            let rest_segs = spec_way_road_segs(
                way_id,
                rest_refs,
                Some(refs[0]),
                m,
                width,
                lanes,
                cls,
                one_way,
            );
            assert(ns[0].id == spec_node_id_str(way_id, refs[0] as int));
            assert(forall|j: int| 0 <= j < ns_rest.len() ==> ns[j + 1] == (#[trigger] ns_rest[j]));
            assert forall|k: int| 0 <= k < segs.len() implies {
                let g = #[trigger] segs[k];
                &&& (has_node_id(ns, g.start_node) || (prev matches Some(p) && g.start_node
                    == spec_node_id_str(way_id, p as int)))
                &&& has_node_id(ns, g.end_node)
            } by {
                let off: int = if prev is Some {
                    1
                } else {
                    0
                };
                if prev is Some && k == 0 {
                    assert(segs[0].end_node == ns[0].id);
                    assert(has_node_id(ns, segs[0].end_node));
                } else {
                    let g = segs[k];
                    assert(g == rest_segs[k - off]);
                    let gs = g.start_node;
                    if has_node_id(ns_rest, gs) {
                        let j = choose|j: int|
                            0 <= j < ns_rest.len() && (#[trigger] ns_rest[j]).id == gs;
                        assert(ns[j + 1].id == gs);
                        assert(has_node_id(ns, gs));
                    } else {
                        assert(gs == spec_node_id_str(way_id, refs[0] as int));
                        assert(ns[0].id == gs);
                        assert(has_node_id(ns, gs));
                    }
                    let ge = g.end_node;
                    assert(has_node_id(ns_rest, ge));
                    let j2 = choose|j: int|
                        0 <= j < ns_rest.len() && (#[trigger] ns_rest[j]).id == ge;
                    assert(ns[j2 + 1].id == ge);
                    assert(has_node_id(ns, ge));
                }
            }
        } else {
            lemma_way_segs_endpoints(way_id, rest_refs, prev, m, bbox, width, lanes, cls, one_way);
            let ns_rest = spec_way_road_nodes(way_id, rest_refs, m, bbox, width, cls);
            let rest_segs = spec_way_road_segs(way_id, rest_refs, prev, m, width, lanes, cls, one_way);
            assert(ns =~= ns_rest);
            assert forall|k: int| 0 <= k < segs.len() implies {
                let g = #[trigger] segs[k];
                &&& (has_node_id(ns, g.start_node) || (prev matches Some(p) && g.start_node
                    == spec_node_id_str(way_id, p as int)))
                &&& has_node_id(ns, g.end_node)
            } by {
                let g = segs[k];
                assert(g == rest_segs[k]);
                assert(has_node_id(ns_rest, g.end_node));
            }
        }
    }
}

proof fn lemma_elem_segs_endpoints(e: OsmElement, m: Map<i64, (i64, i64)>, bbox: BoundingBox)
    ensures
        forall|k: int|
            0 <= k < spec_elem_road_segs(e, m).len() ==> has_node_id(
                spec_elem_road_nodes(e, m, bbox),
                (#[trigger] spec_elem_road_segs(e, m)[k]).start_node,
            ) && has_node_id(
                spec_elem_road_nodes(e, m, bbox),
                spec_elem_road_segs(e, m)[k].end_node,
            ),
{
    if spec_elem_routable(e) {
        lemma_way_segs_endpoints(
            e.id as int,
            (e.nodes->0)@,
            None,
            m,
            bbox,
            spec_elem_width(e),
            spec_elem_lanes(e),
            spec_elem_cls(e),
            spec_elem_one_way(e),
        );
    }
}

/// The road network invariant: every segment's start and end identifier
/// names a road node that the same way emitted, so each endpoint is present
/// in the network's node sequence.
pub proof fn lemma_network_endpoints_resolve(
    elements: Seq<OsmElement>,
    m: Map<i64, (i64, i64)>,
    bbox: BoundingBox,
)
    ensures
        forall|k: int|
            0 <= k < spec_road_segs(elements, m).len() ==> has_node_id(
                spec_road_nodes(elements, m, bbox),
                (#[trigger] spec_road_segs(elements, m)[k]).start_node,
            ) && has_node_id(
                spec_road_nodes(elements, m, bbox),
                spec_road_segs(elements, m)[k].end_node,
            ),
    decreases elements.len(),
{
    if elements.len() > 0 {
        let pre = elements.drop_last();
        let e = elements.last();
        lemma_network_endpoints_resolve(pre, m, bbox);
        lemma_elem_segs_endpoints(e, m, bbox);
        let ns_pre = spec_road_nodes(pre, m, bbox);
        let ns_e = spec_elem_road_nodes(e, m, bbox);
        let ns = spec_road_nodes(elements, m, bbox);
        assert(forall|j: int| 0 <= j < ns_pre.len() ==> (#[trigger] ns_pre[j]) == ns[j]);
        assert(forall|j: int|
            0 <= j < ns_e.len() ==> (#[trigger] ns_e[j]) == ns[j + ns_pre.len()]);
        assert forall|id: Seq<char>|
            has_node_id(ns_pre, id) || has_node_id(ns_e, id) implies has_node_id(ns, id) by {
            if has_node_id(ns_pre, id) {
                let j = choose|j: int| 0 <= j < ns_pre.len() && (#[trigger] ns_pre[j]).id == id;
                assert(ns[j].id == id);
            } else {
                let j = choose|j: int| 0 <= j < ns_e.len() && (#[trigger] ns_e[j]).id == id;
                assert(ns[j + ns_pre.len()].id == id);
            }
        }
        assert(forall|k: int|
            0 <= k < spec_road_segs(pre, m).len() ==> #[trigger] spec_road_segs(pre, m)[k]
                == spec_road_segs(elements, m)[k]);
        assert(forall|k: int|
            0 <= k < spec_elem_road_segs(e, m).len() ==> #[trigger] spec_elem_road_segs(e, m)[k]
                == spec_road_segs(elements, m)[k + spec_road_segs(pre, m).len()]);
        assert forall|k: int| 0 <= k < spec_road_segs(elements, m).len() implies has_node_id(
            ns,
            (#[trigger] spec_road_segs(elements, m)[k]).start_node,
        ) && has_node_id(ns, spec_road_segs(elements, m)[k].end_node) by {
            if k < spec_road_segs(pre, m).len() {
                assert(spec_road_segs(elements, m)[k] == spec_road_segs(pre, m)[k]);
            } else {
                let kk = k - spec_road_segs(pre, m).len();
                assert(spec_road_segs(elements, m)[k] == spec_elem_road_segs(e, m)[kk]);
            }
        }
    }
}

/// Running the element graph builder twice on the same element collection
/// and bounding box produces identical feature and road network outputs:
/// the outputs are a function of the inputs alone, with no hidden ordering
/// nondeterminism.
pub proof fn lemma_graph_build_deterministic(
    elements: Seq<OsmElement>,
    bbox: BoundingBox,
    first: (Seq<ObjModel>, Seq<RoadNodeModel>, Seq<RoadSegModel>),
    second: (Seq<ObjModel>, Seq<RoadNodeModel>, Seq<RoadSegModel>),
)
    requires
        first.0 == spec_objects(elements, spec_node_index(elements), bbox),
        first.1 == spec_road_nodes(elements, spec_node_index(elements), bbox),
        first.2 == spec_road_segs(elements, spec_node_index(elements)),
        second.0 == spec_objects(elements, spec_node_index(elements), bbox),
        second.1 == spec_road_nodes(elements, spec_node_index(elements), bbox),
        second.2 == spec_road_segs(elements, spec_node_index(elements)),
    ensures
        first == second,
{
}

} // verus!
