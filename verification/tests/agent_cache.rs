use draw_map::cache::AgentCache;
use draw_map::drawable::DrawRef;
use draw_map::geometry::BBox;
use draw_map::ids::{CarID, LaneID, PedestrianID, Traversable, ID};

fn agent(id: ID) -> DrawRef {
    DrawRef {
        id,
        bbox: BBox { x1: 0, y1: 0, x2: 1, y2: 1 },
        zorder: 10,
        payload: 0,
    }
}

#[test]
fn cache_round_trip_across_ticks() {
    let seg_a = Traversable::Lane(LaneID(0));
    let seg_b = Traversable::Lane(LaneID(1));
    let x = agent(ID::Car(CarID(1)));
    let y = agent(ID::Pedestrian(PedestrianID(2)));

    let mut cache = AgentCache::new();
    assert!(!cache.has(5, seg_a));

    cache.put(5, seg_a, vec![x]);
    assert!(cache.has(5, seg_a));
    assert_eq!(cache.get(seg_a).as_slice(), &[x]);
    assert!(!cache.has(6, seg_a));

    cache.put(6, seg_b, vec![y]);
    assert!(!cache.has(5, seg_a));
    assert!(!cache.has(6, seg_a));
    assert!(cache.has(6, seg_b));
    assert_eq!(cache.get(seg_b).as_slice(), &[y]);
}

#[test]
fn same_tick_entries_accumulate() {
    let seg_a = Traversable::Lane(LaneID(0));
    let seg_b = Traversable::Turn(draw_map::ids::TurnID {
        parent: draw_map::ids::IntersectionID(0),
        src: LaneID(0),
        dst: LaneID(1),
    });
    let x = agent(ID::Car(CarID(3)));
    let mut cache = AgentCache::new();
    cache.put(7, seg_a, vec![x]);
    cache.put(7, seg_b, vec![]);
    assert!(cache.has(7, seg_a));
    assert!(cache.has(7, seg_b));
    assert!(cache.get(seg_b).is_empty());
}

#[test]
fn stale_tick_is_never_served() {
    let seg_a = Traversable::Lane(LaneID(4));
    let mut cache = AgentCache::new();
    cache.put(1, seg_a, vec![agent(ID::Car(CarID(0)))]);
    assert!(!cache.has(0, seg_a));
    assert!(!cache.has(2, seg_a));
    assert!(cache.has(1, seg_a));
}
