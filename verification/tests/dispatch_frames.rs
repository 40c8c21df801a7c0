use draw_map::dispatch::delivered_items;
use draw_map::drawable::DrawRef;
use draw_map::drawmap::DrawMap;
use draw_map::geometry::BBox;
use draw_map::ids::{
    AreaID, BuildingID, CarID, IntersectionID, LaneID, PedestrianID, RenderOrder, Traversable,
    TurnID, ID,
};
use draw_map::model::{AreaRec, BuildingRec, IntersectionRec, LaneRec, MapModel, TurnRec};
use draw_map::traits::{GetDrawAgents, RenderCallback, ShowObjects};

fn bb(x1: i64, y1: i64, x2: i64, y2: i64) -> BBox {
    BBox { x1, y1, x2, y2 }
}

/// One area (z 0), one lane (z 1), one building (z 2) inside the viewport;
/// the lane's destination intersection sits far outside it, carrying one
/// turn (z 3).
fn small_map() -> MapModel {
    let t = TurnRec {
        id: TurnID {
            parent: IntersectionID(0),
            src: LaneID(0),
            dst: LaneID(0),
        },
        angle_degrees: 90,
        bbox: bb(100, 100, 101, 101),
        zorder: 3,
        payload: 0,
    };
    MapModel {
        lanes: vec![LaneRec {
            id: LaneID(0),
            src_i: IntersectionID(0),
            dst_i: IntersectionID(0),
            bbox: bb(0, 0, 10, 10),
            zorder: 1,
            payload: 0,
        }],
        turns: vec![t],
        intersections: vec![IntersectionRec {
            id: IntersectionID(0),
            turns: vec![t.id],
            bbox: bb(100, 100, 110, 110),
            zorder: 2,
            payload: 0,
        }],
        buildings: vec![BuildingRec {
            id: BuildingID(0),
            bbox: bb(2, 2, 6, 6),
            zorder: 2,
            payload: 0,
        }],
        parcels: vec![],
        bus_stops: vec![],
        areas: vec![AreaRec {
            id: AreaID(0),
            bbox: bb(0, 0, 9, 9),
            zorder: 0,
            payload: 0,
        }],
    }
}

struct ShowAll {
    icons: bool,
}

impl ShowObjects for ShowAll {
    fn show(&self, _id: ID) -> bool {
        true
    }

    fn show_icons_for(&self, _id: IntersectionID) -> bool {
        self.icons
    }
}

struct FixedSim {
    now: u64,
    cars: Vec<DrawRef>,
    peds: Vec<DrawRef>,
}

impl GetDrawAgents for FixedSim {
    fn tick(&self) -> u64 {
        self.now
    }

    fn get_draw_cars(&self, _on: Traversable, _map: &MapModel) -> Vec<DrawRef> {
        self.cars.clone()
    }

    fn get_draw_peds(&self, _on: Traversable, _map: &MapModel) -> Vec<DrawRef> {
        self.peds.clone()
    }
}

struct Collect {
    seen: Vec<ID>,
    keep_first: usize,
}

impl RenderCallback for Collect {
    fn draw_next(&mut self, obj: &DrawRef) -> bool {
        self.seen.push(obj.id);
        self.seen.len() < self.keep_first
    }
}

fn collect_everything() -> Collect {
    Collect { seen: Vec::new(), keep_first: usize::MAX }
}

#[test]
fn back_to_front_goes_area_lane_building() {
    let map = small_map();
    let mut dm = DrawMap::new(&map, true, &Vec::new());
    let sim = FixedSim { now: 0, cars: vec![], peds: vec![] };
    let mut out = collect_everything();
    dm.handle_objects(
        bb(0, 0, 20, 20),
        &map,
        &sim,
        &ShowAll { icons: true },
        RenderOrder::BackToFront,
        &mut out,
    );
    assert_eq!(
        out.seen,
        vec![ID::Area(AreaID(0)), ID::Lane(LaneID(0)), ID::Building(BuildingID(0))],
    );
}

#[test]
fn front_to_back_is_the_exact_reverse() {
    let map = small_map();
    let mut dm = DrawMap::new(&map, true, &Vec::new());
    let sim = FixedSim { now: 0, cars: vec![], peds: vec![] };
    let mut out = collect_everything();
    dm.handle_objects(
        bb(0, 0, 20, 20),
        &map,
        &sim,
        &ShowAll { icons: true },
        RenderOrder::FrontToBack,
        &mut out,
    );
    assert_eq!(
        out.seen,
        vec![ID::Building(BuildingID(0)), ID::Lane(LaneID(0)), ID::Area(AreaID(0))],
    );
}

#[test]
fn aborting_on_the_second_object_delivers_no_third() {
    let map = small_map();
    let mut dm = DrawMap::new(&map, true, &Vec::new());
    let sim = FixedSim { now: 0, cars: vec![], peds: vec![] };
    let mut out = Collect { seen: Vec::new(), keep_first: 2 };
    let delivered = dm.handle_objects(
        bb(0, 0, 20, 20),
        &map,
        &sim,
        &ShowAll { icons: true },
        RenderOrder::BackToFront,
        &mut out,
    );
    assert_eq!(out.seen, vec![ID::Area(AreaID(0)), ID::Lane(LaneID(0))]);
    // The dispatcher reports exactly what the consumer received.
    let delivered_ids: Vec<ID> = delivered.iter().map(|d| d.id).collect();
    assert_eq!(delivered_ids, out.seen);
}

#[test]
fn hidden_objects_are_skipped() {
    struct HideLanes;
    impl ShowObjects for HideLanes {
        fn show(&self, id: ID) -> bool {
            !matches!(id, ID::Lane(_))
        }

        fn show_icons_for(&self, _id: IntersectionID) -> bool {
            true
        }
    }
    let map = small_map();
    let mut dm = DrawMap::new(&map, true, &Vec::new());
    let sim = FixedSim { now: 0, cars: vec![], peds: vec![] };
    let mut out = collect_everything();
    dm.handle_objects(
        bb(0, 0, 20, 20),
        &map,
        &sim,
        &HideLanes,
        RenderOrder::BackToFront,
        &mut out,
    );
    assert_eq!(out.seen, vec![ID::Area(AreaID(0)), ID::Building(BuildingID(0))]);
}

#[test]
fn suppressed_icons_materialize_agents_on_the_lane() {
    let map = small_map();
    let mut dm = DrawMap::new(&map, true, &Vec::new());
    let car = DrawRef { id: ID::Car(CarID(7)), bbox: bb(1, 1, 2, 2), zorder: 10, payload: 0 };
    let ped = DrawRef { id: ID::Pedestrian(PedestrianID(8)), bbox: bb(3, 3, 4, 4), zorder: 11, payload: 0 };
    let sim = FixedSim { now: 42, cars: vec![car], peds: vec![ped] };
    let mut out = collect_everything();
    dm.handle_objects(
        bb(0, 0, 20, 20),
        &map,
        &sim,
        &ShowAll { icons: false },
        RenderOrder::BackToFront,
        &mut out,
    );
    assert_eq!(
        out.seen,
        vec![
            ID::Area(AreaID(0)),
            ID::Lane(LaneID(0)),
            ID::Building(BuildingID(0)),
            ID::Car(CarID(7)),
            ID::Pedestrian(PedestrianID(8)),
        ],
    );
}

#[test]
fn visible_intersection_with_icons_shown_delivers_the_turn_icon() {
    let map = small_map();
    let mut dm = DrawMap::new(&map, true, &Vec::new());
    let sim = FixedSim { now: 0, cars: vec![], peds: vec![] };
    let mut out = collect_everything();
    dm.handle_objects(
        bb(0, 0, 120, 120),
        &map,
        &sim,
        &ShowAll { icons: true },
        RenderOrder::BackToFront,
        &mut out,
    );
    assert_eq!(
        out.seen,
        vec![
            ID::Area(AreaID(0)),
            ID::Lane(LaneID(0)),
            ID::Intersection(IntersectionID(0)),
            ID::Building(BuildingID(0)),
            ID::Turn(map.turns[0].id),
        ],
    );
}

#[test]
fn equal_zorders_keep_category_order() {
    let mut map = small_map();
    map.areas[0].zorder = 2;
    map.lanes[0].zorder = 2;
    map.buildings[0].zorder = 2;
    let mut dm = DrawMap::new(&map, true, &Vec::new());
    let sim = FixedSim { now: 0, cars: vec![], peds: vec![] };
    let mut out = collect_everything();
    dm.handle_objects(
        bb(0, 0, 20, 20),
        &map,
        &sim,
        &ShowAll { icons: true },
        RenderOrder::BackToFront,
        &mut out,
    );
    assert_eq!(
        out.seen,
        vec![ID::Area(AreaID(0)), ID::Lane(LaneID(0)), ID::Building(BuildingID(0))],
    );
}

#[test]
fn replayed_answers_match_the_early_abort_rule() {
    let a = DrawRef { id: ID::Car(CarID(0)), bbox: bb(0, 0, 1, 1), zorder: 0, payload: 0 };
    let b = DrawRef { id: ID::Car(CarID(1)), bbox: bb(0, 0, 1, 1), zorder: 1, payload: 0 };
    let c = DrawRef { id: ID::Car(CarID(2)), bbox: bb(0, 0, 1, 1), zorder: 2, payload: 0 };
    let items = vec![a, b, c];
    let answers = vec![true, false, true];
    let got = delivered_items(&items, &answers);
    assert_eq!(got, vec![a, b]);
    let all = delivered_items(&items, &vec![true, true, true]);
    assert_eq!(all, vec![a, b, c]);
}
