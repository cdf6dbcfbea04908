//! The mod assembler: turns the heightmap, the feature set and the road
//! network into the package's fixed file tree — metadata descriptors, the
//! items list, road and decal descriptors, the normalized heightmap image
//! and a placeholder preview — as in-memory entries for a packager to write.

use vstd::prelude::*;
use crate::convert::BeamNGObject;
use crate::convert::ObjModel;
use crate::convert::view_objs;
use crate::convert::view_road_nodes;
use crate::convert::view_road_segs;
use crate::heightmap::Heightmap;
use crate::heightmap::heightmap_min_max;
use crate::heightmap::normalize_heightmap;
use crate::heightmap::spec_norm_pixels;
use crate::imaging::encode_gray_png;
use crate::imaging::encode_rgb_jpeg;
use crate::imaging::gray_png_of;
use crate::imaging::rgb_jpeg_of;
use crate::roads::RoadNetwork;
use crate::roads::RoadNode;
use crate::roads::RoadNodeModel;
use crate::roads::RoadSegModel;
use crate::roads::spec_road_material;
use crate::roads::get_road_material;
use crate::text::spec_dec_u64;
use crate::text::spec_milli;
use crate::text::spec_tenths;
use crate::text::spec_half_tenths;
use crate::text::spec_json_str;
use crate::text::push_u64_dec;
use crate::text::push_milli;
use crate::text::push_tenths;
use crate::text::push_half_tenths;
use crate::text::push_json_str;
use crate::text::str_is;

verus! {

/// Contents of one package entry: descriptor text or encoded image bytes.
pub enum FileData {
    Text(String),
    Binary(Vec<u8>),
}

/// One package entry, with its path relative to the package root.
pub struct ModFile {
    pub path: String,
    pub data: FileData,
}

/// The assembled package: its directory tree and its files, in a fixed
/// order.
pub struct ModPackage {
    pub dirs: Vec<String>,
    pub files: Vec<ModFile>,
}

/// Package object class of a feature type: vegetation for trees, a static
/// mesh for everything else.
pub open spec fn spec_object_class(obj_type: Seq<char>) -> Seq<char> {
    if obj_type == "tree"@ {
        "Forest"@
    } else {
        "TSStatic"@
    }
}

/// Package object class of a feature type; see [`spec_object_class`].
pub fn get_beamng_object_class(obj_type: &str) -> (r: &'static str)
    ensures
        r@ == spec_object_class(obj_type@),
{
    if str_is(obj_type, "tree") {
        "Forest"
    } else {
        "TSStatic"
    }
}

/// Comma-separated continuation of a record list: a leading comma before
/// every record.
pub open spec fn spec_rest_comma(rs: Seq<Seq<char>>) -> Seq<char>
    decreases rs.len(),
{
    if rs.len() == 0 {
        Seq::empty()
    } else {
        seq![','] + rs[0] + spec_rest_comma(rs.drop_first())
    }
}

/// Comma-separated join of a record list.
pub open spec fn spec_join_comma(rs: Seq<Seq<char>>) -> Seq<char> {
    if rs.len() == 0 {
        Seq::empty()
    } else {
        rs[0] + spec_rest_comma(rs.drop_first())
    }
}

/// The package metadata descriptor.
pub open spec fn spec_mod_info_json(name: Seq<char>) -> Seq<char> {
    "{\"name\":"@ + spec_json_str("Generated Map - "@ + name)
        + ",\"version\":\"1.0\",\"author\":\"BeamNG Terrain Generator\",\"description\":\"Automatically generated map from real-world data using OpenStreetMap and AWS Terrain Tiles\",\"gameVersion\":\"0.32\",\"modType\":\"level\"}"@
}

/// Writes the package metadata descriptor; see [`spec_mod_info_json`].
pub fn generate_mod_info(mod_name: &str) -> (r: String)
    ensures
        r@ == spec_mod_info_json(mod_name@),
{
    let mut s = String::new();
    s.append("{\"name\":");
    let mut v = String::new();
    v.append("Generated Map - ");
    v.append(mod_name);
    push_json_str(&mut s, v.as_str());
    s.append(
        ",\"version\":\"1.0\",\"author\":\"BeamNG Terrain Generator\",\"description\":\"Automatically generated map from real-world data using OpenStreetMap and AWS Terrain Tiles\",\"gameVersion\":\"0.32\",\"modType\":\"level\"}",
    );
    proof {
        assert(s@ =~= spec_mod_info_json(mod_name@));
    }
    s
}

/// The main level descriptor: level identity, previews, the default spawn
/// point at the centre of the square, and fixed sun settings.
pub open spec fn spec_main_level_json(name: Seq<char>) -> Seq<char> {
    "{\"main\":{\"levelName\":"@ + spec_json_str("Generated - "@ + name)
        + ",\"title\":\"Generated Map\",\"description\":\"Map generated from real-world OpenStreetMap data\",\"authors\":\"BeamNG Terrain Generator\",\"biome\":\"Urban\",\"previews\":[\"preview.jpg\"],\"previewPosition\":{\"pos\":[1024,1024,100],\"rot\":[0,0,1,0]}},\"spawn\":{\"defaultSpawnPoint\":\"spawn_0\",\"spawnPoints\":[{\"objectname\":\"spawn_0\",\"pos\":[1024,1024,105],\"rot\":[0,0,1,0],\"rotationMatrix\":[[1,0,0],[0,1,0],[0,0,1]]}]},\"sun\":{\"azimuth\":0,\"elevation\":45,\"shadowDistance\":1000,\"shadowSoftness\":0.15}}"@
}

/// Writes the main level descriptor; see [`spec_main_level_json`].
pub fn generate_main_level(mod_name: &str) -> (r: String)
    ensures
        r@ == spec_main_level_json(mod_name@),
{
    let mut s = String::new();
    s.append("{\"main\":{\"levelName\":");
    let mut v = String::new();
    v.append("Generated - ");
    v.append(mod_name);
    push_json_str(&mut s, v.as_str());
    s.append(
        ",\"title\":\"Generated Map\",\"description\":\"Map generated from real-world OpenStreetMap data\",\"authors\":\"BeamNG Terrain Generator\",\"biome\":\"Urban\",\"previews\":[\"preview.jpg\"],\"previewPosition\":{\"pos\":[1024,1024,100],\"rot\":[0,0,1,0]}},\"spawn\":{\"defaultSpawnPoint\":\"spawn_0\",\"spawnPoints\":[{\"objectname\":\"spawn_0\",\"pos\":[1024,1024,105],\"rot\":[0,0,1,0],\"rotationMatrix\":[[1,0,0],[0,1,0],[0,0,1]]}]},\"sun\":{\"azimuth\":0,\"elevation\":45,\"shadowDistance\":1000,\"shadowSoftness\":0.15}}",
    );
    proof {
        assert(s@ =~= spec_main_level_json(mod_name@));
    }
    s
}

/// The terrain descriptor: fixed square size and height scale, naming the
/// heightmap image.
pub open spec fn spec_terrain_ter_json() -> Seq<char> {
    "{\"terrainSize\":2048,\"squareSize\":1,\"heightScale\":256,\"heightMap\":\"terrain.png\"}"@
}

/// Writes the terrain descriptor; see [`spec_terrain_ter_json`].
pub fn generate_terrain_files() -> (r: String)
    ensures
        r@ == spec_terrain_ter_json(),
{
    let mut s = String::new();
    s.append(
        "{\"terrainSize\":2048,\"squareSize\":1,\"heightScale\":256,\"heightMap\":\"terrain.png\"}",
    );
    proof {
        assert(s@ =~= spec_terrain_ter_json());
    }
    s
}

/// One record of the items list: the feature's object class, a stable
/// per-index identifier, its local position, and fixed rotation and scale.
pub open spec fn spec_item_record(o: ObjModel, i: int) -> Seq<char> {
    "{\"class\":"@ + spec_json_str(spec_object_class(o.obj_type)) + ",\"persistentId\":"@
        + spec_json_str(o.obj_type + "_"@ + spec_dec_u64(i as nat)) + ",\"position\":["@
        + spec_milli(o.position.0) + ","@ + spec_milli(o.position.1) + ","@ + spec_milli(
        o.position.2,
    ) + "],\"rotation\":[0,0,1,0],\"scale\":[1,1,1],\"__gameObjectId\":"@ + spec_dec_u64(
        (i + 1000) as nat,
    ) + "}"@
}

fn push_item_record(s: &mut String, o: &BeamNGObject, i: usize)
    requires
        i < 1000000000000,
    ensures
        final (s)@ == old(s)@ + spec_item_record(o.view_model(), i as int),
{
    s.append("{\"class\":");
    let cls = get_beamng_object_class(o.obj_type.as_str());
    push_json_str(s, cls);
    s.append(",\"persistentId\":");
    let mut pid = String::new();
    pid.append(o.obj_type.as_str());
    pid.append("_");
    push_u64_dec(&mut pid, i as u64);
    push_json_str(s, pid.as_str());
    s.append(",\"position\":[");
    push_milli(s, o.position.0);
    s.append(",");
    push_milli(s, o.position.1);
    s.append(",");
    push_milli(s, o.position.2);
    s.append("],\"rotation\":[0,0,1,0],\"scale\":[1,1,1],\"__gameObjectId\":");
    push_u64_dec(s, (i as u64) + 1000);
    s.append("}");
    proof {
        assert(s@ =~= old(s)@ + spec_item_record(o.view_model(), i as int));
    }
}

/// The items list: one record per feature, in feature order.
pub open spec fn spec_items_level(objs: Seq<ObjModel>) -> Seq<char> {
    "{\"objects\":["@ + spec_join_comma(Seq::new(objs.len(), |i: int| spec_item_record(objs[i], i)))
        + "]}"@
}

/// Writes the items list descriptor; see [`spec_items_level`].
#[verifier::rlimit(100)]
pub fn generate_items_level(objects: &Vec<BeamNGObject>) -> (r: String)
    requires
        objects@.len() < 1000000000000,
    ensures
        r@ == spec_items_level(view_objs(objects@)),
{
    let ghost records = Seq::new(
        view_objs(objects@).len(),
        |i: int| spec_item_record(view_objs(objects@)[i], i),
    );
    let mut s = String::new();
    s.append("{\"objects\":[");
    let ghost base = s@;
    let mut j: usize = 0;
    while j < objects.len()
        invariant
            objects@.len() < 1000000000000,
            j <= objects@.len(),
            records == Seq::new(
                view_objs(objects@).len(),
                |i: int| spec_item_record(view_objs(objects@)[i], i),
            ),
            j == 0 ==> s@ == base,
            j > 0 ==> s@ + spec_rest_comma(records.skip(j as int)) == base + spec_join_comma(
                records,
            ),
        decreases objects@.len() - j,
    {
        let ghost pre = s@;
        if j > 0 {
            s.append(",");
        }
        push_item_record(&mut s, &objects[j], j);
        proof {
            assert(records.skip(j as int).drop_first() =~= records.skip(j + 1));
            if j == 0 {
                assert(s@ =~= base + records[0]);
                assert(s@ + spec_rest_comma(records.skip(1)) =~= base + spec_join_comma(records));
            } else {
                reveal_strlit(",");
                assert(s@ =~= pre + seq![','] + records[j as int]);
                assert(s@ + spec_rest_comma(records.skip(j + 1)) =~= base + spec_join_comma(
                    records,
                ));
            }
        }
        j = j + 1;
    }
    proof {
        if objects@.len() > 0 {
            assert(records.skip(objects@.len() as int) =~= Seq::<Seq<char>>::empty());
        }
    }
    s.append("]}");
    proof {
        assert(s@ =~= spec_items_level(view_objs(objects@)));
    }
    s
}

/// One record of the road node list.
pub open spec fn spec_road_node_record(n: RoadNodeModel) -> Seq<char> {
    "{\"id\":"@ + spec_json_str(n.id) + ",\"position\":["@ + spec_milli(n.position.0) + ","@
        + spec_milli(n.position.1) + ","@ + spec_milli(n.position.2) + "],\"width\":"@
        + spec_tenths(n.width as nat) + ",\"roadType\":"@ + spec_json_str(n.road_type) + "}"@
}

fn push_road_node_record(s: &mut String, n: &RoadNode)
    ensures
        final (s)@ == old(s)@ + spec_road_node_record(n.view_model()),
{
    s.append("{\"id\":");
    push_json_str(s, n.id.as_str());
    s.append(",\"position\":[");
    push_milli(s, n.position.0);
    s.append(",");
    push_milli(s, n.position.1);
    s.append(",");
    push_milli(s, n.position.2);
    s.append("],\"width\":");
    push_tenths(s, n.width);
    s.append(",\"roadType\":");
    push_json_str(s, n.road_type.as_str());
    s.append("}");
    proof {
        assert(s@ =~= old(s)@ + spec_road_node_record(n.view_model()));
    }
}

/// One record of the road segment list.
pub open spec fn spec_road_seg_record(g: RoadSegModel) -> Seq<char> {
    "{\"id\":"@ + spec_json_str(g.id) + ",\"startNode\":"@ + spec_json_str(g.start_node)
        + ",\"endNode\":"@ + spec_json_str(g.end_node) + ",\"width\":"@ + spec_tenths(
        g.width as nat,
    ) + ",\"lanes\":"@ + spec_dec_u64(g.lanes as nat) + ",\"roadType\":"@ + spec_json_str(
        g.road_type,
    ) + ",\"oneWay\":"@ + (if g.one_way {
        "true"@
    } else {
        "false"@
    }) + "}"@
}

fn push_road_seg_record(s: &mut String, g: &crate::roads::RoadSegment)
    ensures
        final (s)@ == old(s)@ + spec_road_seg_record(g.view_model()),
{
    s.append("{\"id\":");
    push_json_str(s, g.id.as_str());
    s.append(",\"startNode\":");
    push_json_str(s, g.start_node.as_str());
    s.append(",\"endNode\":");
    push_json_str(s, g.end_node.as_str());
    s.append(",\"width\":");
    push_tenths(s, g.width);
    s.append(",\"lanes\":");
    push_u64_dec(s, g.lanes as u64);
    s.append(",\"roadType\":");
    push_json_str(s, g.road_type.as_str());
    s.append(",\"oneWay\":");
    if g.one_way {
        s.append("true");
    } else {
        s.append("false");
    }
    s.append("}");
    proof {
        assert(s@ =~= old(s)@ + spec_road_seg_record(g.view_model()));
    }
}

/// The road descriptor: every road node, then every segment, in network
/// order.
pub open spec fn spec_road_nodes_json(
    nodes: Seq<RoadNodeModel>,
    segs: Seq<RoadSegModel>,
) -> Seq<char> {
    "{\"nodes\":["@ + spec_join_comma(
        Seq::new(nodes.len(), |i: int| spec_road_node_record(nodes[i])),
    ) + "],\"segments\":["@ + spec_join_comma(
        Seq::new(segs.len(), |i: int| spec_road_seg_record(segs[i])),
    ) + "]}"@
}

/// Writes the road descriptor; see [`spec_road_nodes_json`].
#[verifier::rlimit(100)]
pub fn generate_road_files(network: &RoadNetwork) -> (r: String)
    ensures
        r@ == spec_road_nodes_json(
            view_road_nodes(network.nodes@),
            view_road_segs(network.segments@),
        ),
{
    let ghost nrecords = Seq::new(
        view_road_nodes(network.nodes@).len(),
        |i: int| spec_road_node_record(view_road_nodes(network.nodes@)[i]),
    );
    let ghost srecords = Seq::new(
        view_road_segs(network.segments@).len(),
        |i: int| spec_road_seg_record(view_road_segs(network.segments@)[i]),
    );
    let mut s = String::new();
    s.append("{\"nodes\":[");
    let ghost base = s@;
    let mut j: usize = 0;
    while j < network.nodes.len()
        invariant
            j <= network.nodes@.len(),
            nrecords == Seq::new(
                view_road_nodes(network.nodes@).len(),
                |i: int| spec_road_node_record(view_road_nodes(network.nodes@)[i]),
            ),
            j == 0 ==> s@ == base,
            j > 0 ==> s@ + spec_rest_comma(nrecords.skip(j as int)) == base + spec_join_comma(
                nrecords,
            ),
        decreases network.nodes@.len() - j,
    {
        let ghost pre = s@;
        if j > 0 {
            s.append(",");
        }
        push_road_node_record(&mut s, &network.nodes[j]);
        proof {
            assert(nrecords.skip(j as int).drop_first() =~= nrecords.skip(j + 1));
            if j == 0 {
                assert(s@ + spec_rest_comma(nrecords.skip(1)) =~= base + spec_join_comma(
                    nrecords,
                ));
            } else {
                reveal_strlit(",");
                assert(s@ =~= pre + seq![','] + nrecords[j as int]);
                assert(s@ + spec_rest_comma(nrecords.skip(j + 1)) =~= base + spec_join_comma(
                    nrecords,
                ));
            }
        }
        j = j + 1;
    }
    proof {
        if network.nodes@.len() > 0 {
            assert(nrecords.skip(network.nodes@.len() as int) =~= Seq::<Seq<char>>::empty());
        }
        assert(s@ =~= base + spec_join_comma(nrecords));
    }
    s.append("],\"segments\":[");
    let ghost base2 = s@;
    let mut k: usize = 0;
    while k < network.segments.len()
        invariant
            k <= network.segments@.len(),
            srecords == Seq::new(
                view_road_segs(network.segments@).len(),
                |i: int| spec_road_seg_record(view_road_segs(network.segments@)[i]),
            ),
            k == 0 ==> s@ == base2,
            k > 0 ==> s@ + spec_rest_comma(srecords.skip(k as int)) == base2 + spec_join_comma(
                srecords,
            ),
        decreases network.segments@.len() - k,
    {
        let ghost pre = s@;
        if k > 0 {
            s.append(",");
        }
        push_road_seg_record(&mut s, &network.segments[k]);
        proof {
            assert(srecords.skip(k as int).drop_first() =~= srecords.skip(k + 1));
            if k == 0 {
                assert(s@ + spec_rest_comma(srecords.skip(1)) =~= base2 + spec_join_comma(
                    srecords,
                ));
            } else {
                reveal_strlit(",");
                assert(s@ =~= pre + seq![','] + srecords[k as int]);
                assert(s@ + spec_rest_comma(srecords.skip(k + 1)) =~= base2 + spec_join_comma(
                    srecords,
                ));
            }
        }
        k = k + 1;
    }
    proof {
        if network.segments@.len() > 0 {
            assert(srecords.skip(network.segments@.len() as int) =~= Seq::<Seq<char>>::empty());
        }
    }
    s.append("]}");
    proof {
        assert(s@ =~= spec_road_nodes_json(
            view_road_nodes(network.nodes@),
            view_road_segs(network.segments@),
        ));
    }
    s
}

/// The first road node carrying the given identifier.
pub open spec fn spec_find_node(nodes: Seq<RoadNodeModel>, id: Seq<char>) -> Option<RoadNodeModel>
    decreases nodes.len(),
{
    if nodes.len() == 0 {
        None
    } else if nodes[0].id == id {
        Some(nodes[0])
    } else {
        spec_find_node(nodes.drop_first(), id)
    }
}

fn find_node<'a>(nodes: &'a Vec<RoadNode>, id: &String) -> (r: Option<&'a RoadNode>)
    ensures
        match r {
            Some(n) => spec_find_node(view_road_nodes(nodes@), id@) == Some(n.view_model()),
            None => spec_find_node(view_road_nodes(nodes@), id@) is None,
        },
{
    let ghost nv = view_road_nodes(nodes@);
    let mut j: usize = 0;
    proof {
        assert(nv.skip(0) =~= nv);
    }
    while j < nodes.len()
        invariant
            j <= nodes@.len(),
            nv == view_road_nodes(nodes@),
            spec_find_node(nv, id@) == spec_find_node(nv.skip(j as int), id@),
        decreases nodes@.len() - j,
    {
        if str_is(nodes[j].id.as_str(), id.as_str()) {
            return Some(&nodes[j]);
        }
        proof {
            assert(nv.skip(j as int).drop_first() =~= nv.skip(j + 1));
        }
        j = j + 1;
    }
    None
}

/// One point of a decal road entity: a position with the segment's width
/// split evenly to either side.
pub open spec fn spec_decal_point(p: (int, int, int), width: int) -> Seq<char> {
    "{\"pos\":["@ + spec_milli(p.0) + ","@ + spec_milli(p.1) + ","@ + spec_milli(p.2)
        + "],\"width\":"@ + spec_tenths(width as nat) + ",\"widthLeft\":"@ + spec_half_tenths(
        width as nat,
    ) + ",\"widthRight\":"@ + spec_half_tenths(width as nat) + "}"@
}

/// One decal road entity: built from a segment and its two endpoint nodes.
pub open spec fn spec_decal_record(
    g: RoadSegModel,
    start: RoadNodeModel,
    end: RoadNodeModel,
) -> Seq<char> {
    "{\"class\":\"DecalRoad\",\"persistentId\":"@ + spec_json_str(g.id) + ",\"position\":["@
        + spec_milli(start.position.0) + ","@ + spec_milli(start.position.1) + ","@ + spec_milli(
        start.position.2,
    ) + "],\"detail\":4,\"breakAngle\":3,\"textureLength\":5,\"Material\":"@ + spec_json_str(
        spec_road_material(g.road_type),
    ) + ",\"nodes\":["@ + spec_decal_point(start.position, g.width) + ","@ + spec_decal_point(
        end.position,
        g.width,
    ) + "]}"@
}

#[verifier::rlimit(100)]
fn push_decal_record(s: &mut String, g: &crate::roads::RoadSegment, start: &RoadNode, end: &RoadNode)
    ensures
        final (s)@ == old(s)@ + spec_decal_record(
            g.view_model(),
            start.view_model(),
            end.view_model(),
        ),
{
    s.append("{\"class\":\"DecalRoad\",\"persistentId\":");
    push_json_str(s, g.id.as_str());
    s.append(",\"position\":[");
    push_milli(s, start.position.0);
    s.append(",");
    push_milli(s, start.position.1);
    s.append(",");
    push_milli(s, start.position.2);
    s.append("],\"detail\":4,\"breakAngle\":3,\"textureLength\":5,\"Material\":");
    let mat = get_road_material(g.road_type.as_str());
    push_json_str(s, mat);
    s.append(",\"nodes\":[");
    push_decal_point(s, start.position, g.width);
    s.append(",");
    push_decal_point(s, end.position, g.width);
    s.append("]}");
    proof {
        assert(s@ =~= old(s)@ + spec_decal_record(
            g.view_model(),
            start.view_model(),
            end.view_model(),
        ));
    }
}

fn push_decal_point(s: &mut String, p: (i64, i64, i64), width: u64)
    ensures
        final (s)@ == old(s)@ + spec_decal_point(
            (p.0 as int, p.1 as int, p.2 as int),
            width as int,
        ),
{
    s.append("{\"pos\":[");
    push_milli(s, p.0);
    s.append(",");
    push_milli(s, p.1);
    s.append(",");
    push_milli(s, p.2);
    s.append("],\"width\":");
    push_tenths(s, width);
    s.append(",\"widthLeft\":");
    push_half_tenths(s, width);
    s.append(",\"widthRight\":");
    push_half_tenths(s, width);
    s.append("}");
    proof {
        assert(s@ =~= old(s)@ + spec_decal_point(
            (p.0 as int, p.1 as int, p.2 as int),
            width as int,
        ));
    }
}

/// The decal entities of all segments whose two endpoint ids resolve in the
/// node list; segments with an unresolved endpoint are dropped, not errored.
pub open spec fn spec_decal_records(
    segs: Seq<RoadSegModel>,
    nodes: Seq<RoadNodeModel>,
) -> Seq<Seq<char>>
    decreases segs.len(),
{
    if segs.len() == 0 {
        Seq::empty()
    } else {
        let rest = spec_decal_records(segs.drop_first(), nodes);
        match (spec_find_node(nodes, segs[0].start_node), spec_find_node(nodes, segs[0].end_node)) {
            (Some(st), Some(en)) => seq![spec_decal_record(segs[0], st, en)] + rest,
            _ => rest,
        }
    }
}

/// The decal road descriptor: one renderable road entity per segment whose
/// endpoints resolve.
pub open spec fn spec_decal_json(segs: Seq<RoadSegModel>, nodes: Seq<RoadNodeModel>) -> Seq<char> {
    "{\"decalRoads\":["@ + spec_join_comma(spec_decal_records(segs, nodes)) + "]}"@
}

/// Writes the decal road descriptor; see [`spec_decal_json`].
#[verifier::rlimit(100)]
pub fn generate_decal_road_format(network: &RoadNetwork) -> (r: String)
    ensures
        r@ == spec_decal_json(view_road_segs(network.segments@), view_road_nodes(network.nodes@)),
{
    let ghost sv = view_road_segs(network.segments@);
    let ghost nv = view_road_nodes(network.nodes@);
    let ghost recs = spec_decal_records(sv, nv);
    let mut s = String::new();
    s.append("{\"decalRoads\":[");
    let ghost base = s@;
    let mut first = true;
    let mut j: usize = 0;
    proof {
        assert(sv.skip(0) =~= sv);
    }
    while j < network.segments.len()
        invariant
            j <= network.segments@.len(),
            sv == view_road_segs(network.segments@),
            nv == view_road_nodes(network.nodes@),
            recs == spec_decal_records(sv, nv),
            first ==> s@ + spec_join_comma(spec_decal_records(sv.skip(j as int), nv)) == base
                + spec_join_comma(recs),
            !first ==> s@ + spec_rest_comma(spec_decal_records(sv.skip(j as int), nv)) == base
                + spec_join_comma(recs),
        decreases network.segments@.len() - j,
    {
        let seg = &network.segments[j];
        let ghost pre = s@;
        proof {
            assert(sv.skip(j as int)[0] == sv[j as int]);
            assert(sv.skip(j as int).drop_first() =~= sv.skip(j + 1));
        }
        let start = find_node(&network.nodes, &seg.start_node);
        let end = find_node(&network.nodes, &seg.end_node);
        match (start, end) {
            (Some(st), Some(en)) => {
                let ghost rec = spec_decal_record(sv[j as int], st.view_model(), en.view_model());
                proof {
                    assert(spec_decal_records(sv.skip(j as int), nv) =~= seq![rec]
                        + spec_decal_records(sv.skip(j + 1), nv));
                    assert((seq![rec] + spec_decal_records(sv.skip(j + 1), nv)).drop_first()
                        =~= spec_decal_records(sv.skip(j + 1), nv));
                }
                if first {
                    push_decal_record(&mut s, seg, st, en);
                    first = false;
                    proof {
                        assert(s@ + spec_rest_comma(spec_decal_records(sv.skip(j + 1), nv)) =~= base
                            + spec_join_comma(recs));
                    }
                } else {
                    s.append(",");
                    push_decal_record(&mut s, seg, st, en);
                    proof {
                        reveal_strlit(",");
                        assert(s@ =~= pre + seq![','] + rec);
                        assert(s@ + spec_rest_comma(spec_decal_records(sv.skip(j + 1), nv)) =~= base
                            + spec_join_comma(recs));
                    }
                }
            },
            _ => {
                proof {
                    assert(spec_decal_records(sv.skip(j as int), nv) =~= spec_decal_records(
                        sv.skip(j + 1),
                        nv,
                    ));
                }
            },
        }
        j = j + 1;
    }
    proof {
        assert(sv.skip(network.segments@.len() as int) =~= Seq::<RoadSegModel>::empty());
    }
    s.append("]}");
    proof {
        assert(s@ =~= spec_decal_json(sv, nv));
    }
    s
}

/// The placeholder preview's RGB8 samples: a red/green gradient over a
/// 512 by 512 square with a constant blue channel.
pub open spec fn spec_preview_pixels() -> Seq<u8> {
    Seq::new(
        3 * 512 * 512,
        |k: int|
            {
                let p = k / 3;
                if k % 3 == 0 {
                    ((p % 512) * 255 / 512) as u8
                } else if k % 3 == 1 {
                    ((p / 512) * 255 / 512) as u8
                } else {
                    128
                }
            },
    )
}

/// Builds the placeholder preview's sample buffer; see
/// [`spec_preview_pixels`].
pub fn generate_preview_pixels() -> (pix: Vec<u8>)
    ensures
        pix@ == spec_preview_pixels(),
{
    let mut pix: Vec<u8> = Vec::new();
    let mut y: u32 = 0;
    while y < 512
        invariant
            y <= 512,
            pix@.len() == 1536 * y,
            forall|k: int| 0 <= k < pix@.len() ==> pix@[k] == spec_preview_pixels()[k],
        decreases 512 - y,
    {
        let mut x: u32 = 0;
        while x < 512
            invariant
                y < 512,
                x <= 512,
                pix@.len() == 1536 * y + 3 * x,
                forall|k: int| 0 <= k < pix@.len() ==> pix@[k] == spec_preview_pixels()[k],
            decreases 512 - x,
        {
            let r = ((x * 255) / 512) as u8;
            let g = ((y * 255) / 512) as u8;
            let ghost p: int = 512 * y + x;
            proof {
                assert(3 * p == 1536 * y + 3 * x);
                vstd::arithmetic::div_mod::lemma_fundamental_div_mod_converse(3 * p, 3, p, 0);
                vstd::arithmetic::div_mod::lemma_fundamental_div_mod_converse(3 * p + 1, 3, p, 1);
                vstd::arithmetic::div_mod::lemma_fundamental_div_mod_converse(3 * p + 2, 3, p, 2);
                vstd::arithmetic::div_mod::lemma_fundamental_div_mod_converse(
                    p,
                    512,
                    y as int,
                    x as int,
                );
            }
            pix.push(r);
            pix.push(g);
            pix.push(128);
            x = x + 1;
        }
        y = y + 1;
    }
    proof {
        assert(pix@ =~= spec_preview_pixels());
    }
    pix
}

/// Encodes the placeholder preview image.
pub fn generate_preview_image() -> (r: Result<Vec<u8>, String>)
    ensures
        r is Ok,
        r matches Ok(b) ==> b@ == rgb_jpeg_of(512, 512, spec_preview_pixels()),
{
    let pix = generate_preview_pixels();
    encode_rgb_jpeg(512, 512, pix)
}

/// Normalizes a non-empty heightmap against its own observed extrema and
/// encodes it as a grayscale PNG — the same physical elevation range
/// renders to different pixel values across different bounding boxes.
/// Succeeds on every input the signature admits.
pub fn save_heightmap_as_png(hm: &Heightmap, mn: i32, mx: i32) -> (r: Result<Vec<u8>, String>)
    requires
        hm.wf(),
        hm.spec_height() > 0,
        hm.spec_width() > 0,
        hm.spec_height() <= u32::MAX,
        hm.spec_width() <= u32::MAX,
        hm.spec_width() * hm.spec_height() <= usize::MAX,
        hm.is_min_of(mn as int),
        hm.is_max_of(mx as int),
    ensures
        r is Ok,
        r matches Ok(b) ==> b@ == gray_png_of(
            hm.spec_width(),
            hm.spec_height(),
            spec_norm_pixels(*hm, mn as int, mx as int),
        ),
{
    let h = hm.rows.len();
    let w = hm.rows[0].len();
    let pix = normalize_heightmap(hm, mn, mx);
    encode_gray_png(w as u32, h as u32, pix)
}

/// Assembles the package tree from the heightmap, the feature set and the
/// road network: the fixed directory layout, the descriptors, the encoded
/// heightmap image and the preview. Fails exactly when the heightmap is
/// empty, a dimension or the cell count overflows the machine's indexing,
/// or the feature list is too large to number.
pub fn generate_beamng_files(
    hm: &Heightmap,
    objects: &Vec<BeamNGObject>,
    network: &RoadNetwork,
) -> (r: Result<ModPackage, String>)
    requires
        hm.wf(),
    ensures
        r is Ok <==> ({
            &&& hm.spec_height() > 0
            &&& hm.spec_width() > 0
            &&& hm.spec_width() <= u32::MAX
            &&& hm.spec_height() <= u32::MAX
            &&& hm.spec_width() * hm.spec_height() <= usize::MAX
            &&& objects@.len() < 1000000000000
        }),
        r matches Ok(pkg) ==> ({
            &&& pkg.dirs@.len() == 5
            &&& pkg.dirs@[0]@ == "generated_map"@
            &&& pkg.dirs@[1]@ == "generated_map/levels"@
            &&& pkg.dirs@[2]@ == "generated_map/levels/generated_map"@
            &&& pkg.dirs@[3]@ == "generated_map/levels/generated_map/art"@
            &&& pkg.dirs@[4]@ == "generated_map/levels/generated_map/art/terrains"@
            &&& pkg.files@.len() == 8
            &&& pkg.files@[0].path@ == "generated_map/info.json"@
            &&& pkg.files@[0].data matches FileData::Text(t) && t@ == spec_mod_info_json(
                "generated_map"@,
            )
            &&& pkg.files@[1].path@ == "generated_map/levels/generated_map/main.level.json"@
            &&& pkg.files@[1].data matches FileData::Text(t) && t@ == spec_main_level_json(
                "generated_map"@,
            )
            &&& pkg.files@[2].path@ == "generated_map/levels/generated_map/items.level.json"@
            &&& pkg.files@[2].data matches FileData::Text(t) && t@ == spec_items_level(
                view_objs(objects@),
            )
            &&& pkg.files@[3].path@ == "generated_map/levels/generated_map/road_nodes.json"@
            &&& pkg.files@[3].data matches FileData::Text(t) && t@ == spec_road_nodes_json(
                view_road_nodes(network.nodes@),
                view_road_segs(network.segments@),
            )
            &&& pkg.files@[4].path@ == "generated_map/levels/generated_map/decalRoad.json"@
            &&& pkg.files@[4].data matches FileData::Text(t) && t@ == spec_decal_json(
                view_road_segs(network.segments@),
                view_road_nodes(network.nodes@),
            )
            &&& pkg.files@[5].path@
                == "generated_map/levels/generated_map/art/terrains/terrain.ter.json"@
            &&& pkg.files@[5].data matches FileData::Text(t) && t@ == spec_terrain_ter_json()
            &&& pkg.files@[6].path@
                == "generated_map/levels/generated_map/art/terrains/terrain.png"@
            &&& (exists|mn: int, mx: int|
                #![trigger spec_norm_pixels(*hm, mn, mx)]
                hm.is_min_of(mn) && hm.is_max_of(mx) && (pkg.files@[6].data matches
                FileData::Binary(b) && b@ == gray_png_of(
                    hm.spec_width(),
                    hm.spec_height(),
                    spec_norm_pixels(*hm, mn, mx),
                )))
            &&& pkg.files@[7].path@ == "generated_map/levels/generated_map/preview.jpg"@
            &&& pkg.files@[7].data matches FileData::Binary(b) && b@ == rgb_jpeg_of(
                512,
                512,
                spec_preview_pixels(),
            )
        }),
{
    let h = hm.rows.len();
    if h == 0 {
        return Err(String::from_str("heightmap holds no rows"));
    }
    let w = hm.rows[0].len();
    if w == 0 {
        return Err(String::from_str("heightmap holds empty rows"));
    }
    if w > 0xffffffff || h > 0xffffffff {
        return Err(String::from_str("heightmap too large"));
    }
    if h > usize::MAX / w {
        proof {
            vstd::arithmetic::div_mod::lemma_fundamental_div_mod(usize::MAX as int, w as int);
            vstd::arithmetic::div_mod::lemma_mod_bound(usize::MAX as int, w as int);
            vstd::arithmetic::mul::lemma_mul_inequality(
                usize::MAX as int / w as int + 1,
                h as int,
                w as int,
            );
            assert((usize::MAX as int / w as int + 1) * (w as int) == (w as int) * (usize::MAX as int
                / w as int) + (w as int)) by (nonlinear_arith);
            assert((h as int) * (w as int) == (w as int) * (h as int)) by (nonlinear_arith);
            assert(hm.spec_width() * hm.spec_height() > usize::MAX);
        }
        return Err(String::from_str("heightmap too large"));
    }
    proof {
        vstd::arithmetic::div_mod::lemma_fundamental_div_mod(usize::MAX as int, w as int);
        vstd::arithmetic::div_mod::lemma_mod_bound(usize::MAX as int, w as int);
        vstd::arithmetic::mul::lemma_mul_inequality(h as int, usize::MAX as int / w as int, w as int);
        assert((usize::MAX as int / w as int) * (w as int) == (w as int) * (usize::MAX as int
            / w as int)) by (nonlinear_arith);
        assert((h as int) * (w as int) == (w as int) * (h as int)) by (nonlinear_arith);
        assert(hm.spec_width() * hm.spec_height() <= usize::MAX);
    }
    if objects.len() as u64 >= 1000000000000 {
        return Err(String::from_str("too many features"));
    }
    let (mn, mx) = heightmap_min_max(hm);
    let png = match save_heightmap_as_png(hm, mn, mx) {
        Ok(b) => b,
        Err(e) => {
            return Err(e);
        },
    };
    let jpg = match generate_preview_image() {
        Ok(b) => b,
        Err(e) => {
            return Err(e);
        },
    };
    let mut dirs: Vec<String> = Vec::new();
    dirs.push(String::from_str("generated_map"));
    dirs.push(String::from_str("generated_map/levels"));
    dirs.push(String::from_str("generated_map/levels/generated_map"));
    dirs.push(String::from_str("generated_map/levels/generated_map/art"));
    dirs.push(String::from_str("generated_map/levels/generated_map/art/terrains"));
    let mut files: Vec<ModFile> = Vec::new();
    files.push(
        ModFile {
            path: String::from_str("generated_map/info.json"),
            data: FileData::Text(generate_mod_info("generated_map")),
        },
    );
    files.push(
        ModFile {
            path: String::from_str("generated_map/levels/generated_map/main.level.json"),
            data: FileData::Text(generate_main_level("generated_map")),
        },
    );
    files.push(
        ModFile {
            path: String::from_str("generated_map/levels/generated_map/items.level.json"),
            data: FileData::Text(generate_items_level(objects)),
        },
    );
    files.push(
        ModFile {
            path: String::from_str("generated_map/levels/generated_map/road_nodes.json"),
            data: FileData::Text(generate_road_files(network)),
        },
    );
    files.push(
        ModFile {
            path: String::from_str("generated_map/levels/generated_map/decalRoad.json"),
            data: FileData::Text(generate_decal_road_format(network)),
        },
    );
    files.push(
        ModFile {
            path: String::from_str(
                "generated_map/levels/generated_map/art/terrains/terrain.ter.json",
            ),
            data: FileData::Text(generate_terrain_files()),
        },
    );
    files.push(
        ModFile {
            path: String::from_str("generated_map/levels/generated_map/art/terrains/terrain.png"),
            data: FileData::Binary(png),
        },
    );
    files.push(
        ModFile {
            path: String::from_str("generated_map/levels/generated_map/preview.jpg"),
            data: FileData::Binary(jpg),
        },
    );
    proof {
        assert(hm.is_min_of(mn as int) && hm.is_max_of(mx as int) && (files@[6].data matches
        FileData::Binary(b) && b@ == gray_png_of(
            hm.spec_width(),
            hm.spec_height(),
            spec_norm_pixels(*hm, mn as int, mx as int),
        )));
    }
    Ok(ModPackage { dirs, files })
}

} // verus!
