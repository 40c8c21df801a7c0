use draw_map::drawmap::DrawMap;
use draw_map::geometry::BBox;
use draw_map::ids::{AreaID, BuildingID, IntersectionID, LaneID, TurnID, ID};
use draw_map::model::{
    AreaRec, BuildingRec, BusStopRec, ExtraShapeRec, IntersectionRec, LaneRec, MapModel, ParcelRec,
    TurnRec,
};

fn bb(x1: i64, y1: i64, x2: i64, y2: i64) -> BBox {
    BBox { x1, y1, x2, y2 }
}

fn full_map() -> MapModel {
    let t0 = TurnRec {
        id: TurnID {
            parent: IntersectionID(0),
            src: LaneID(0),
            dst: LaneID(1),
        },
        angle_degrees: 30,
        bbox: bb(9, 9, 11, 11),
        zorder: 3,
        payload: 300,
    };
    let t1 = TurnRec {
        id: TurnID {
            parent: IntersectionID(0),
            src: LaneID(0),
            dst: LaneID(0),
        },
        angle_degrees: 10,
        bbox: bb(9, 9, 11, 11),
        zorder: 3,
        payload: 0,
    };
    MapModel {
        lanes: vec![
            LaneRec {
                id: LaneID(0),
                src_i: IntersectionID(1),
                dst_i: IntersectionID(0),
                bbox: bb(0, 0, 10, 10),
                zorder: 1,
                payload: 100,
            },
            LaneRec {
                id: LaneID(1),
                src_i: IntersectionID(0),
                dst_i: IntersectionID(1),
                bbox: bb(0, 20, 10, 30),
                zorder: 1,
                payload: 0,
            },
        ],
        turns: vec![t0, t1],
        intersections: vec![
            IntersectionRec {
                id: IntersectionID(0),
                turns: vec![t0.id, t1.id],
                bbox: bb(10, 10, 12, 12),
                zorder: 2,
                payload: 0,
            },
            IntersectionRec {
                id: IntersectionID(1),
                turns: vec![],
                bbox: bb(40, 40, 42, 42),
                zorder: 2,
                payload: 0,
            },
        ],
        buildings: vec![BuildingRec {
            id: BuildingID(0),
            bbox: bb(3, 3, 5, 5),
            zorder: 2,
            payload: 200,
        }],
        parcels: vec![ParcelRec {
            id: draw_map::ids::ParcelID(0),
            bbox: bb(1, 1, 2, 2),
            zorder: 0,
            payload: 0,
        }],
        bus_stops: vec![BusStopRec {
            id: draw_map::ids::BusStopID(0),
            bbox: bb(6, 6, 7, 7),
            zorder: 4,
            payload: 0,
        }],
        areas: vec![AreaRec {
            id: AreaID(0),
            bbox: bb(0, 0, 50, 50),
            zorder: 0,
            payload: 0,
        }],
    }
}

#[test]
fn editing_a_lane_type_leaves_spatial_queries_unchanged() {
    let map = full_map();
    let shapes = vec![ExtraShapeRec { bbox: bb(8, 8, 9, 9), zorder: 5, payload: 0 }];
    let mut dm = DrawMap::new(&map, true, &shapes);
    let viewport = bb(0, 0, 20, 20);
    let before = dm.index.query(&viewport);
    let lanes_before = dm.get_matching_lanes(&viewport);
    dm.edit_lane_type(LaneID(0), &map);
    let after = dm.index.query(&viewport);
    let lanes_after = dm.get_matching_lanes(&viewport);
    assert_eq!(before, after);
    assert_eq!(lanes_before, lanes_after);
}

#[test]
fn removing_and_adding_a_turn_restores_its_offset() {
    let map = full_map();
    let mut dm = DrawMap::new(&map, false, &Vec::new());
    assert_eq!(dm.turns.len(), 2);
    let id = map.turns[0].id;
    dm.edit_remove_turn(id);
    assert_eq!(dm.turns.len(), 1);
    assert!(dm.turns.iter().all(|t| t.id != id));
    dm.edit_add_turn(id, &map);
    assert_eq!(dm.turns.len(), 2);
    let added = dm.turns.iter().find(|t| t.id == id).expect("turn missing");
    // The 10-degree turn sorts first, so this 30-degree turn keeps offset 1.
    assert_eq!(added.offset, 1);
    assert_eq!(added.bbox, map.turns[0].bbox);
    assert_eq!(added.payload, map.turns[0].payload);
}

#[test]
fn removing_an_absent_turn_changes_nothing() {
    let map = full_map();
    let mut dm = DrawMap::new(&map, false, &Vec::new());
    let ghost_turn = TurnID {
        parent: IntersectionID(1),
        src: LaneID(1),
        dst: LaneID(0),
    };
    let before = dm.turns.clone();
    dm.edit_remove_turn(ghost_turn);
    assert_eq!(dm.turns, before);
}

#[test]
fn builder_assigns_offsets_and_indexes_every_category() {
    let map = full_map();
    let shapes = vec![ExtraShapeRec { bbox: bb(8, 8, 9, 9), zorder: 5, payload: 0 }];
    let dm = DrawMap::new(&map, true, &shapes);
    assert_eq!(dm.lanes.len(), 2);
    assert_eq!(dm.intersections.len(), 2);
    assert_eq!(dm.turns.len(), 2);
    assert_eq!(dm.buildings.len(), 1);
    assert_eq!(dm.parcels.len(), 1);
    assert_eq!(dm.extra_shapes.len(), 1);
    assert_eq!(dm.bus_stops.len(), 1);
    assert_eq!(dm.areas.len(), 1);
    // 10 degrees before 30 degrees within the same group.
    let t10 = dm.turns.iter().find(|t| t.id == map.turns[1].id).unwrap();
    let t30 = dm.turns.iter().find(|t| t.id == map.turns[0].id).unwrap();
    assert_eq!(t10.offset, 0);
    assert_eq!(t30.offset, 1);
    // Turns and dynamic agents are never in the index; everything else is.
    assert_eq!(dm.index.entries.len(), 2 + 2 + 1 + 1 + 1 + 1 + 1);
    assert!(dm.index.entries.iter().all(|e| !matches!(e.id, ID::Turn(_))));
}

#[test]
fn parcels_are_skipped_when_disabled() {
    let map = full_map();
    let dm = DrawMap::new(&map, false, &Vec::new());
    assert_eq!(dm.parcels.len(), 0);
    assert_eq!(dm.index.entries.len(), 2 + 2 + 1 + 0 + 0 + 1 + 1);
}

#[test]
fn point_lookups_return_the_right_drawables() {
    let map = full_map();
    let dm = DrawMap::new(&map, true, &Vec::new());
    assert_eq!(dm.get_l(LaneID(1)).id, LaneID(1));
    assert_eq!(dm.get_i(IntersectionID(0)).id, IntersectionID(0));
    assert_eq!(dm.get_t(map.turns[1].id).id, map.turns[1].id);
    assert_eq!(dm.get_b(BuildingID(0)).id, BuildingID(0));
    assert_eq!(dm.get_p(draw_map::ids::ParcelID(0)).bbox, bb(1, 1, 2, 2));
    assert_eq!(dm.get_bs(draw_map::ids::BusStopID(0)).zorder, 4);
    assert_eq!(dm.get_a(AreaID(0)).zorder, 0);
    // The opaque draw payload handles pass through the build untouched.
    assert_eq!(dm.get_l(LaneID(0)).payload, 100);
    assert_eq!(dm.get_b(BuildingID(0)).payload, 200);
    assert_eq!(dm.get_t(map.turns[0].id).payload, 300);
}

#[test]
fn matching_lanes_filters_the_query() {
    let map = full_map();
    let dm = DrawMap::new(&map, true, &Vec::new());
    let lanes = dm.get_matching_lanes(&bb(0, 0, 50, 50));
    assert_eq!(lanes, vec![LaneID(0), LaneID(1)]);
    let near_origin = dm.get_matching_lanes(&bb(0, 0, 15, 15));
    assert_eq!(near_origin, vec![LaneID(0)]);
}
