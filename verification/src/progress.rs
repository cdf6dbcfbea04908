//! The run's progress milestones: a fixed, ordered sequence of percentage
//! and stage-label pairs that a front-end replays on whatever transport it
//! has.

use vstd::prelude::*;

verus! {

/// The milestones of one run, in order: the percentages are monotonically
/// non-decreasing, starting at 0 and terminating at 100.
pub fn progress_milestones() -> (r: Vec<(u8, String)>)
    ensures
        r@.len() == 7,
        r@[0].0 == 0,
        r@[6].0 == 100,
        forall|i: int, j: int| 0 <= i <= j < r@.len() ==> (#[trigger] r@[i]).0 <= (#[trigger] r@[j]).0,
        r@[0].1@ == "Initializing"@,
        r@[1].0 == 10 && r@[1].1@ == "Downloading terrain data from AWS"@,
        r@[2].0 == 30 && r@[2].1@ == "Fetching OpenStreetMap data"@,
        r@[3].0 == 50 && r@[3].1@ == "Processing terrain heightmap"@,
        r@[4].0 == 70 && r@[4].1@ == "Converting objects to BeamNG format"@,
        r@[5].0 == 85 && r@[5].1@ == "Generating BeamNG map files"@,
        r@[6].1@ == "Complete"@,
{
    let mut r: Vec<(u8, String)> = Vec::new();
    r.push((0, String::from_str("Initializing")));
    r.push((10, String::from_str("Downloading terrain data from AWS")));
    r.push((30, String::from_str("Fetching OpenStreetMap data")));
    r.push((50, String::from_str("Processing terrain heightmap")));
    r.push((70, String::from_str("Converting objects to BeamNG format")));
    r.push((85, String::from_str("Generating BeamNG map files")));
    r.push((100, String::from_str("Complete")));
    r
}

} // verus!
