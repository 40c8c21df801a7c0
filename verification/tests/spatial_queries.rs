use draw_map::geometry::BBox;
use draw_map::ids::{AreaID, BuildingID, LaneID, ID};
use draw_map::spatial::SpatialIndex;

fn bb(x1: i64, y1: i64, x2: i64, y2: i64) -> BBox {
    BBox { x1, y1, x2, y2 }
}

#[test]
fn query_returns_exactly_the_intersecting_ids() {
    let mut index = SpatialIndex::new();
    index.insert(ID::Lane(LaneID(0)), bb(0, 0, 10, 10));
    index.insert(ID::Building(BuildingID(0)), bb(20, 20, 30, 30));
    index.insert(ID::Area(AreaID(0)), bb(5, 5, 25, 25));
    let hits = index.query(&bb(0, 0, 12, 12));
    assert_eq!(hits, vec![ID::Lane(LaneID(0)), ID::Area(AreaID(0))]);
}

#[test]
fn query_finds_nothing_outside_every_box() {
    let mut index = SpatialIndex::new();
    index.insert(ID::Lane(LaneID(0)), bb(0, 0, 10, 10));
    let hits = index.query(&bb(11, 11, 20, 20));
    assert!(hits.is_empty());
}

#[test]
fn query_on_empty_index_is_empty() {
    let index = SpatialIndex::new();
    assert!(index.query(&bb(0, 0, 100, 100)).is_empty());
}

#[test]
fn boxes_touching_only_at_the_edge_intersect() {
    let mut index = SpatialIndex::new();
    index.insert(ID::Lane(LaneID(3)), bb(0, 0, 10, 10));
    let hits = index.query(&bb(10, 10, 20, 20));
    assert_eq!(hits, vec![ID::Lane(LaneID(3))]);
}

#[test]
fn an_id_inserted_once_appears_once() {
    let mut index = SpatialIndex::new();
    index.insert(ID::Lane(LaneID(0)), bb(0, 0, 4, 4));
    index.insert(ID::Lane(LaneID(1)), bb(2, 2, 6, 6));
    index.insert(ID::Lane(LaneID(2)), bb(100, 100, 110, 110));
    let hits = index.query(&bb(0, 0, 50, 50));
    assert_eq!(hits.len(), 2);
    assert!(hits.contains(&ID::Lane(LaneID(0))));
    assert!(hits.contains(&ID::Lane(LaneID(1))));
}
