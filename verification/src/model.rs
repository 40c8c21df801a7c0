use vstd::prelude::*;

use crate::geometry::BBox;
use crate::ids::{AreaID, BuildingID, BusStopID, IntersectionID, LaneID, ParcelID, TurnID};

verus! {

/// A lane of the map, reduced to what the renderer reads: its endpoints'
/// intersections, its bounding box, and the z-order of its drawable.
#[derive(Clone, Copy, PartialEq, Eq, Structural, Debug)]
pub struct LaneRec {
    pub id: LaneID,
    pub src_i: IntersectionID,
    pub dst_i: IntersectionID,
    pub bbox: BBox,
    pub zorder: i64,
    /// The opaque draw payload handle produced by the caller at load
    /// time; the library passes it through unchanged.
    pub payload: u64,
}

/// A turn of the map: its traversal angle in normalized degrees decides the
/// placement order of its icon among the turns of the same lane.
#[derive(Clone, Copy, PartialEq, Eq, Structural, Debug)]
pub struct TurnRec {
    pub id: TurnID,
    pub angle_degrees: i64,
    pub bbox: BBox,
    pub zorder: i64,
    /// The opaque draw payload handle produced by the caller at load
    /// time; the library passes it through unchanged.
    pub payload: u64,
}

/// An intersection and the turns crossing it.
#[derive(Clone, Debug)]
pub struct IntersectionRec {
    pub id: IntersectionID,
    pub turns: Vec<TurnID>,
    pub bbox: BBox,
    pub zorder: i64,
    /// The opaque draw payload handle produced by the caller at load
    /// time; the library passes it through unchanged.
    pub payload: u64,
}

/// A building of the map.
#[derive(Clone, Copy, PartialEq, Eq, Structural, Debug)]
pub struct BuildingRec {
    pub id: BuildingID,
    pub bbox: BBox,
    pub zorder: i64,
    /// The opaque draw payload handle produced by the caller at load
    /// time; the library passes it through unchanged.
    pub payload: u64,
}

/// A parcel of the map.
#[derive(Clone, Copy, PartialEq, Eq, Structural, Debug)]
pub struct ParcelRec {
    pub id: ParcelID,
    pub bbox: BBox,
    pub zorder: i64,
    /// The opaque draw payload handle produced by the caller at load
    /// time; the library passes it through unchanged.
    pub payload: u64,
}

/// An extra geo-shape already matched to the map by the ingestion
/// collaborator; its identifier is assigned when the drawables are built.
#[derive(Clone, Copy, PartialEq, Eq, Structural, Debug)]
pub struct ExtraShapeRec {
    pub bbox: BBox,
    pub zorder: i64,
    /// The opaque draw payload handle produced by the caller at load
    /// time; the library passes it through unchanged.
    pub payload: u64,
}

/// A bus stop of the map.
#[derive(Clone, Copy, PartialEq, Eq, Structural, Debug)]
pub struct BusStopRec {
    pub id: BusStopID,
    pub bbox: BBox,
    pub zorder: i64,
    /// The opaque draw payload handle produced by the caller at load
    /// time; the library passes it through unchanged.
    pub payload: u64,
}

/// An area of the map.
#[derive(Clone, Copy, PartialEq, Eq, Structural, Debug)]
pub struct AreaRec {
    pub id: AreaID,
    pub bbox: BBox,
    pub zorder: i64,
    /// The opaque draw payload handle produced by the caller at load
    /// time; the library passes it through unchanged.
    pub payload: u64,
}

/// The static map as the renderer sees it. Geometry is fixed once loaded;
/// identifiers of each category are dense integers starting at zero.
pub struct MapModel {
    pub lanes: Vec<LaneRec>,
    pub turns: Vec<TurnRec>,
    pub intersections: Vec<IntersectionRec>,
    pub buildings: Vec<BuildingRec>,
    pub parcels: Vec<ParcelRec>,
    pub bus_stops: Vec<BusStopRec>,
    pub areas: Vec<AreaRec>,
}

impl MapModel {
    /// Some turn of the map carries this id.
    pub open spec fn has_turn(self, id: TurnID) -> bool {
        exists|k: int| 0 <= k < self.turns@.len() && #[trigger] self.turns@[k].id == id
    }

    /// The position of the turn carrying `id`.
    pub open spec fn turn_index(self, id: TurnID) -> int {
        choose|k: int| 0 <= k < self.turns@.len() && #[trigger] self.turns@[k].id == id
    }

    /// The turn carrying `id`; well defined when the map is well formed and
    /// has the turn.
    pub open spec fn turn_of(self, id: TurnID) -> TurnRec {
        self.turns@[self.turn_index(id)]
    }

    /// Identifiers are dense per category, every turn id is unique, every
    /// turn starts at an existing lane, every lane ends at existing
    /// intersections, and every turn listed at an intersection exists.
    pub open spec fn wf(self) -> bool {
        &&& forall|i: int|
            0 <= i < self.lanes@.len() ==> (#[trigger] self.lanes@[i]).id.0 == i
        &&& forall|i: int|
            0 <= i < self.lanes@.len()
                ==> (#[trigger] self.lanes@[i]).src_i.0 < self.intersections@.len()
                    && self.lanes@[i].dst_i.0 < self.intersections@.len()
        &&& forall|i: int|
            0 <= i < self.intersections@.len()
                ==> (#[trigger] self.intersections@[i]).id.0 == i
        &&& forall|i: int, j: int|
            0 <= i < j < self.turns@.len() ==> self.turns@[i].id != self.turns@[j].id
        &&& forall|i: int|
            0 <= i < self.turns@.len() ==> (#[trigger] self.turns@[i]).id.src.0 < self.lanes@.len()
        &&& forall|i: int, j: int|
            0 <= i < self.intersections@.len() && 0 <= j < self.intersections@[i].turns@.len()
                ==> self.has_turn(#[trigger] self.intersections@[i].turns@[j])
        &&& forall|i: int|
            0 <= i < self.buildings@.len() ==> (#[trigger] self.buildings@[i]).id.0 == i
        &&& forall|i: int|
            0 <= i < self.parcels@.len() ==> (#[trigger] self.parcels@[i]).id.0 == i
        &&& forall|i: int|
            0 <= i < self.bus_stops@.len() ==> (#[trigger] self.bus_stops@[i]).id.0 == i
        &&& forall|i: int|
            0 <= i < self.areas@.len() ==> (#[trigger] self.areas@[i]).id.0 == i
    }

    pub fn get_lane(&self, id: LaneID) -> (r: &LaneRec)
        requires
            id.0 < self.lanes@.len(),
        ensures
            r == self.lanes@[id.0 as int],
    {
        &self.lanes[id.0]
    }

    pub fn get_intersection(&self, id: IntersectionID) -> (r: &IntersectionRec)
        requires
            id.0 < self.intersections@.len(),
        ensures
            r == self.intersections@[id.0 as int],
    {
        &self.intersections[id.0]
    }

    /// Point lookup of a turn by its id.
    pub fn get_turn(&self, id: TurnID) -> (r: &TurnRec)
        requires
            self.wf(),
            self.has_turn(id),
        ensures
            r == self.turn_of(id),
    {
        let mut i: usize = 0;
        while i < self.turns.len()
            invariant
                self.wf(),
                i <= self.turns@.len(),
                forall|j: int| 0 <= j < i ==> self.turns@[j].id != id,
            decreases self.turns@.len() - i,
        {
            if self.turns[i].id == id {
                proof {
                    assert(self.turns@[i as int].id == id);
                    let k = self.turn_index(id);
                    assert(self.turns@[k].id == id);
                    if k < i as int {
                        assert(self.turns@[k].id != self.turns@[i as int].id);
                    } else if k > i as int {
                        assert(self.turns@[i as int].id != self.turns@[k].id);
                    }
                    assert(k == i as int);
                }
                return &self.turns[i];
            }
            i = i + 1;
        }
        proof {
            let k = self.turn_index(id);
            assert(self.turns@[k].id == id);
            assert(false);
        }
        vstd::pervasive::unreached()
    }
}

} // verus!
