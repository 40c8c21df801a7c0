use vstd::prelude::*;

use crate::geometry::BBox;
use crate::ids::{
    AreaID, BuildingID, BusStopID, ExtraShapeID, IntersectionID, LaneID, ParcelID, TurnID, ID,
};

verus! {

/// The immutable drawable record of a lane.
#[derive(Clone, Copy, PartialEq, Eq, Structural, Debug)]
pub struct DrawLane {
    pub id: LaneID,
    pub bbox: BBox,
    pub zorder: i64,
    /// The opaque draw payload handle, passed through unchanged from
    /// the map record it was built from.
    pub payload: u64,
}

/// The immutable drawable record of a turn icon; `offset` spaces the icon
/// apart from the other turns of the same lane ending at the same
/// intersection.
#[derive(Clone, Copy, PartialEq, Eq, Structural, Debug)]
pub struct DrawTurn {
    pub id: TurnID,
    pub offset: usize,
    pub bbox: BBox,
    pub zorder: i64,
    /// The opaque draw payload handle, passed through unchanged from
    /// the map record it was built from.
    pub payload: u64,
}

/// The immutable drawable record of an intersection.
#[derive(Clone, Copy, PartialEq, Eq, Structural, Debug)]
pub struct DrawIntersection {
    pub id: IntersectionID,
    pub bbox: BBox,
    pub zorder: i64,
    /// The opaque draw payload handle, passed through unchanged from
    /// the map record it was built from.
    pub payload: u64,
}

/// The immutable drawable record of a building.
#[derive(Clone, Copy, PartialEq, Eq, Structural, Debug)]
pub struct DrawBuilding {
    pub id: BuildingID,
    pub bbox: BBox,
    pub zorder: i64,
    /// The opaque draw payload handle, passed through unchanged from
    /// the map record it was built from.
    pub payload: u64,
}

/// The immutable drawable record of a parcel.
#[derive(Clone, Copy, PartialEq, Eq, Structural, Debug)]
pub struct DrawParcel {
    pub id: ParcelID,
    pub bbox: BBox,
    pub zorder: i64,
    /// The opaque draw payload handle, passed through unchanged from
    /// the map record it was built from.
    pub payload: u64,
}

/// The immutable drawable record of an extra geo-shape.
#[derive(Clone, Copy, PartialEq, Eq, Structural, Debug)]
pub struct DrawExtraShape {
    pub id: ExtraShapeID,
    pub bbox: BBox,
    pub zorder: i64,
    /// The opaque draw payload handle, passed through unchanged from
    /// the map record it was built from.
    pub payload: u64,
}

/// The immutable drawable record of a bus stop.
#[derive(Clone, Copy, PartialEq, Eq, Structural, Debug)]
pub struct DrawBusStop {
    pub id: BusStopID,
    pub bbox: BBox,
    pub zorder: i64,
    /// The opaque draw payload handle, passed through unchanged from
    /// the map record it was built from.
    pub payload: u64,
}

/// The immutable drawable record of an area.
#[derive(Clone, Copy, PartialEq, Eq, Structural, Debug)]
pub struct DrawArea {
    pub id: AreaID,
    pub bbox: BBox,
    pub zorder: i64,
    /// The opaque draw payload handle, passed through unchanged from
    /// the map record it was built from.
    pub payload: u64,
}

/// What a frame's consumer sees of one renderable object, static or dynamic:
/// its identifier, bounding box, z-order, and the opaque handle to its draw
/// action.
#[derive(Clone, Copy, PartialEq, Eq, Structural, Debug)]
pub struct DrawRef {
    pub id: ID,
    pub bbox: BBox,
    pub zorder: i64,
    /// The opaque draw payload handle, passed through unchanged from
    /// the map record it was built from.
    pub payload: u64,
}

} // verus!
