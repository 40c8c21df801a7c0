use vstd::prelude::*;

verus! {

/// Identifier of a lane; lanes are numbered densely from zero.
#[derive(Clone, Copy, PartialEq, Eq, Structural, Debug, Hash)]
pub struct LaneID(pub usize);

/// Identifier of an intersection; numbered densely from zero.
#[derive(Clone, Copy, PartialEq, Eq, Structural, Debug, Hash)]
pub struct IntersectionID(pub usize);

/// Identifier of a turn: the movement from one lane to another across a
/// parent intersection.
#[derive(Clone, Copy, PartialEq, Eq, Structural, Debug, Hash)]
pub struct TurnID {
    /// The intersection the turn crosses.
    pub parent: IntersectionID,
    /// The lane the turn starts from.
    pub src: LaneID,
    /// The lane the turn ends at.
    pub dst: LaneID,
}

/// Identifier of a building; numbered densely from zero.
#[derive(Clone, Copy, PartialEq, Eq, Structural, Debug, Hash)]
pub struct BuildingID(pub usize);

/// Identifier of a parcel; numbered densely from zero.
#[derive(Clone, Copy, PartialEq, Eq, Structural, Debug, Hash)]
pub struct ParcelID(pub usize);

/// Identifier of an extra geo-shape; numbered densely from zero in the order
/// the shapes were accepted.
#[derive(Clone, Copy, PartialEq, Eq, Structural, Debug, Hash)]
pub struct ExtraShapeID(pub usize);

/// Identifier of a bus stop; numbered densely from zero.
#[derive(Clone, Copy, PartialEq, Eq, Structural, Debug, Hash)]
pub struct BusStopID(pub usize);

/// Identifier of an area; numbered densely from zero.
#[derive(Clone, Copy, PartialEq, Eq, Structural, Debug, Hash)]
pub struct AreaID(pub usize);

/// Identifier of a simulated vehicle.
#[derive(Clone, Copy, PartialEq, Eq, Structural, Debug, Hash)]
pub struct CarID(pub usize);

/// Identifier of a simulated pedestrian.
#[derive(Clone, Copy, PartialEq, Eq, Structural, Debug, Hash)]
pub struct PedestrianID(pub usize);

/// Identifier of a simulated trip.
#[derive(Clone, Copy, PartialEq, Eq, Structural, Debug, Hash)]
pub struct TripID(pub usize);

/// A category-tagged identifier for anything that can be drawn. The first
/// eight variants are static map geometry; the last three identify dynamic
/// simulation objects and must never appear in the spatial index.
#[derive(Clone, Copy, PartialEq, Eq, Structural, Debug, Hash)]
pub enum ID {
    Lane(LaneID),
    Intersection(IntersectionID),
    Turn(TurnID),
    Building(BuildingID),
    Parcel(ParcelID),
    ExtraShape(ExtraShapeID),
    BusStop(BusStopID),
    Area(AreaID),
    Car(CarID),
    Pedestrian(PedestrianID),
    Trip(TripID),
}

/// A piece of roadway that can host moving agents: the key for the
/// tick-scoped agent cache.
#[derive(Clone, Copy, PartialEq, Eq, Structural, Debug, Hash)]
pub enum Traversable {
    Lane(LaneID),
    Turn(TurnID),
}

/// The direction a frame's draw sequence is streamed in. Lower z-order is
/// drawn first in back-to-front mode.
#[derive(Clone, Copy, PartialEq, Eq, Structural, Debug)]
pub enum RenderOrder {
    BackToFront,
    FrontToBack,
}

} // verus!
