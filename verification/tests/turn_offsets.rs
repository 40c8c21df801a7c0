use draw_map::drawmap::DrawMap;
use draw_map::geometry::BBox;
use draw_map::ids::{IntersectionID, LaneID, TurnID};
use draw_map::model::{IntersectionRec, LaneRec, MapModel, TurnRec};

fn bb(x1: i64, y1: i64, x2: i64, y2: i64) -> BBox {
    BBox { x1, y1, x2, y2 }
}

fn turn(src: usize, dst: usize, parent: usize, angle: i64) -> TurnRec {
    TurnRec {
        id: TurnID {
            parent: IntersectionID(parent),
            src: LaneID(src),
            dst: LaneID(dst),
        },
        angle_degrees: angle,
        bbox: bb(0, 0, 1, 1),
        zorder: 3,
        payload: 0,
    }
}

fn two_intersection_map(turns: Vec<TurnRec>) -> MapModel {
    MapModel {
        lanes: vec![
            LaneRec {
                id: LaneID(0),
                src_i: IntersectionID(1),
                dst_i: IntersectionID(0),
                bbox: bb(0, 0, 10, 10),
                zorder: 1,
                payload: 0,
            },
            LaneRec {
                id: LaneID(1),
                src_i: IntersectionID(0),
                dst_i: IntersectionID(1),
                bbox: bb(0, 10, 10, 20),
                zorder: 1,
                payload: 0,
            },
        ],
        turns,
        intersections: vec![
            IntersectionRec {
                id: IntersectionID(0),
                turns: vec![],
                bbox: bb(10, 0, 12, 2),
                zorder: 2,
                payload: 0,
            },
            IntersectionRec {
                id: IntersectionID(1),
                turns: vec![],
                bbox: bb(20, 0, 22, 2),
                zorder: 2,
                payload: 0,
            },
        ],
        buildings: vec![],
        parcels: vec![],
        bus_stops: vec![],
        areas: vec![],
    }
}

fn offset_of(offsets: &[(TurnID, usize)], id: TurnID) -> usize {
    offsets.iter().find(|p| p.0 == id).expect("offset missing").1
}

#[test]
fn offsets_follow_ascending_angle() {
    // Three turns from one lane, all ending at the lane's destination
    // intersection, at angles 170, 10 and 90 degrees.
    let t170 = turn(0, 1, 0, 170);
    let t10 = turn(0, 0, 0, 10);
    let t90 = turn(0, 2, 0, 90);
    let map = two_intersection_map(vec![t170, t10, t90]);
    let mut offsets: Vec<(TurnID, usize)> = Vec::new();
    DrawMap::compute_turn_to_lane_offset(&mut offsets, &map.lanes[0], &map);
    assert_eq!(offsets.len(), 3);
    assert_eq!(offset_of(&offsets, t10.id), 0);
    assert_eq!(offset_of(&offsets, t90.id), 1);
    assert_eq!(offset_of(&offsets, t170.id), 2);
}

#[test]
fn groups_are_numbered_independently() {
    // One turn ends at the lane's destination intersection, the other at its
    // source intersection: each is first within its own group.
    let near = turn(0, 1, 0, 120);
    let far = turn(0, 2, 1, 30);
    let map = two_intersection_map(vec![near, far]);
    let mut offsets: Vec<(TurnID, usize)> = Vec::new();
    DrawMap::compute_turn_to_lane_offset(&mut offsets, &map.lanes[0], &map);
    assert_eq!(offsets.len(), 2);
    assert_eq!(offset_of(&offsets, near.id), 0);
    assert_eq!(offset_of(&offsets, far.id), 0);
}

#[test]
fn equal_angles_keep_the_map_order() {
    let first = turn(0, 1, 0, 45);
    let second = turn(0, 2, 0, 45);
    let map = two_intersection_map(vec![first, second]);
    let mut offsets: Vec<(TurnID, usize)> = Vec::new();
    DrawMap::compute_turn_to_lane_offset(&mut offsets, &map.lanes[0], &map);
    assert_eq!(offset_of(&offsets, first.id), 0);
    assert_eq!(offset_of(&offsets, second.id), 1);
}

#[test]
fn other_lanes_turns_are_ignored() {
    let mine = turn(0, 1, 0, 10);
    let other = turn(1, 0, 1, 20);
    let map = two_intersection_map(vec![mine, other]);
    let mut offsets: Vec<(TurnID, usize)> = Vec::new();
    DrawMap::compute_turn_to_lane_offset(&mut offsets, &map.lanes[0], &map);
    assert_eq!(offsets.len(), 1);
    assert_eq!(offset_of(&offsets, mine.id), 0);
}
