//! The road network model: projected road nodes, segments with derived
//! width, lane and material attributes, and the fixed width table.
//!
//! Widths are held in tenths of a local unit, so a lane width of 3.5 units
//! is the integer 35.

use vstd::prelude::*;
use crate::text::str_is;

verus! {

/// Width of one lane, in tenths of a local unit.
pub const LANE_WIDTH_TENTHS: u64 = 35;

/// A projected copy of a referenced node, owned by one way. The same
/// underlying node yields one copy per way that references it.
pub struct RoadNode {
    pub id: String,
    pub position: (i64, i64, i64),
    pub width: u64,
    pub road_type: String,
}

/// A directed or undirected stretch between two consecutive resolvable
/// nodes of one way; attributes are derived once from the way's tags.
pub struct RoadSegment {
    pub id: String,
    pub start_node: String,
    pub end_node: String,
    pub width: u64,
    pub lanes: u32,
    pub road_type: String,
    pub one_way: bool,
}

/// The connected road network: every segment's endpoint ids name road nodes
/// emitted for the same way.
pub struct RoadNetwork {
    pub nodes: Vec<RoadNode>,
    pub segments: Vec<RoadSegment>,
}

/// Mathematical image of a road node.
pub struct RoadNodeModel {
    pub id: Seq<char>,
    pub position: (int, int, int),
    pub width: int,
    pub road_type: Seq<char>,
}

/// Mathematical image of a road segment.
pub struct RoadSegModel {
    pub id: Seq<char>,
    pub start_node: Seq<char>,
    pub end_node: Seq<char>,
    pub width: int,
    pub lanes: int,
    pub road_type: Seq<char>,
    pub one_way: bool,
}

impl RoadNode {
    pub open spec fn view_model(self) -> RoadNodeModel {
        RoadNodeModel {
            id: self.id@,
            position: (self.position.0 as int, self.position.1 as int, self.position.2 as int),
            width: self.width as int,
            road_type: self.road_type@,
        }
    }
}

impl RoadSegment {
    pub open spec fn view_model(self) -> RoadSegModel {
        RoadSegModel {
            id: self.id@,
            start_node: self.start_node@,
            end_node: self.end_node@,
            width: self.width as int,
            lanes: self.lanes as int,
            road_type: self.road_type@,
            one_way: self.one_way,
        }
    }
}

/// The fixed width table, in tenths of a local unit, keyed by highway class
/// and lane count.
pub open spec fn spec_road_width(cls: Seq<char>, lanes: int) -> int {
    if cls == "motorway"@ || cls == "trunk"@ {
        lanes * 35 + 20
    } else if cls == "primary"@ {
        lanes * 35 + 15
    } else if cls == "secondary"@ {
        lanes * 35 + 10
    } else if cls == "tertiary"@ {
        lanes * 35 + 5
    } else if cls == "residential"@ || cls == "service"@ {
        lanes * 30
    } else if cls == "path"@ || cls == "footway"@ || cls == "cycleway"@ {
        20
    } else {
        lanes * 35
    }
}

/// Road width for a highway class and lane count, in tenths of a local
/// unit; see [`spec_road_width`].
pub fn calculate_road_width(highway_type: &str, lanes: u32) -> (w: u64)
    ensures
        w as int == spec_road_width(highway_type@, lanes as int),
{
    let l = lanes as u64;
    if str_is(highway_type, "motorway") || str_is(highway_type, "trunk") {
        l * LANE_WIDTH_TENTHS + 20
    } else if str_is(highway_type, "primary") {
        l * LANE_WIDTH_TENTHS + 15
    } else if str_is(highway_type, "secondary") {
        l * LANE_WIDTH_TENTHS + 10
    } else if str_is(highway_type, "tertiary") {
        l * LANE_WIDTH_TENTHS + 5
    } else if str_is(highway_type, "residential") || str_is(highway_type, "service") {
        l * 30
    } else if str_is(highway_type, "path") || str_is(highway_type, "footway") || str_is(
        highway_type,
        "cycleway",
    ) {
        20
    } else {
        l * LANE_WIDTH_TENTHS
    }
}

/// Decal surface material for a highway class.
pub open spec fn spec_road_material(cls: Seq<char>) -> Seq<char> {
    if cls == "motorway"@ || cls == "trunk"@ {
        "road_asphalt_highway"@
    } else if cls == "primary"@ || cls == "secondary"@ {
        "road_asphalt"@
    } else if cls == "tertiary"@ || cls == "residential"@ {
        "road_asphalt_residential"@
    } else if cls == "service"@ {
        "road_concrete"@
    } else if cls == "path"@ || cls == "footway"@ || cls == "cycleway"@ {
        "road_gravel"@
    } else {
        "road_asphalt"@
    }
}

/// Decal surface material for a highway class; see [`spec_road_material`].
pub fn get_road_material(road_type: &str) -> (r: &'static str)
    ensures
        r@ == spec_road_material(road_type@),
{
    if str_is(road_type, "motorway") || str_is(road_type, "trunk") {
        "road_asphalt_highway"
    } else if str_is(road_type, "primary") || str_is(road_type, "secondary") {
        "road_asphalt"
    } else if str_is(road_type, "tertiary") || str_is(road_type, "residential") {
        "road_asphalt_residential"
    } else if str_is(road_type, "service") {
        "road_concrete"
    } else if str_is(road_type, "path") || str_is(road_type, "footway") || str_is(
        road_type,
        "cycleway",
    ) {
        "road_gravel"
    } else {
        "road_asphalt"
    }
}

} // verus!
