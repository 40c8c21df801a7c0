use vstd::prelude::*;

use crate::cache::{AgentCache, CacheEntry};
use crate::dispatch::{delivered_spec, law_early_abort, law_full_delivery, render_order_spec, sorted_for_render};
use crate::drawable::{
    DrawArea, DrawBuilding, DrawBusStop, DrawExtraShape, DrawIntersection, DrawLane, DrawParcel,
    DrawRef, DrawTurn,
};
use crate::geometry::BBox;
use crate::ids::{IntersectionID, LaneID, RenderOrder, Traversable, TurnID, ID};
use crate::model::{ExtraShapeRec, LaneRec, MapModel, TurnRec};
use crate::traits::{GetDrawAgents, RenderCallback, ShowObjects};
use crate::sorting::{
    law_stable_sort_contains, law_stable_sort_members, law_stable_sort_sorted, stable_sort_by_key,
    stable_sort_spec, Keyed,
};
use crate::spatial::{hit_at, law_query_exact, query_spec, IndexEntry, SpatialIndex};

verus! {

/// The turns of `s` that start at lane `src`, keyed by traversal angle, in
/// their original order. `near` selects the group ending at `dst` — the
/// lane's own destination intersection — and `!near` the rest.
pub open spec fn group_spec(
    s: Seq<TurnRec>,
    src: LaneID,
    dst: IntersectionID,
    near: bool,
) -> Seq<Keyed<TurnRec>>
    decreases s.len(),
{
    if s.len() == 0 {
        Seq::empty()
    } else {
        let rest = group_spec(s.drop_last(), src, dst, near);
        let t = s.last();
        if t.id.src == src && ((t.id.parent == dst) == near) {
            rest.push(Keyed { key: t.angle_degrees, val: t })
        } else {
            rest
        }
    }
}

/// The icon placement offsets of the turns starting at lane `l`: each of the
/// two destination groups is sorted by ascending angle (ties keep the map's
/// turn order) and numbered densely from zero.
pub open spec fn lane_offsets_spec(map: MapModel, l: LaneRec) -> Seq<(TurnID, usize)> {
    let s0 = stable_sort_spec(group_spec(map.turns@, l.id, l.dst_i, true));
    let s1 = stable_sort_spec(group_spec(map.turns@, l.id, l.dst_i, false));
    Seq::new(s0.len(), |p: int| (s0[p].val.id, p as usize)) + Seq::new(
        s1.len(),
        |p: int| (s1[p].val.id, p as usize),
    )
}

/// The turn drawables of lane `l`, carrying the offsets of
/// `lane_offsets_spec`.
pub open spec fn lane_draw_turns_spec(map: MapModel, l: LaneRec) -> Seq<DrawTurn> {
    let s0 = stable_sort_spec(group_spec(map.turns@, l.id, l.dst_i, true));
    let s1 = stable_sort_spec(group_spec(map.turns@, l.id, l.dst_i, false));
    Seq::new(
        s0.len(),
        |p: int| DrawTurn {
            id: s0[p].val.id,
            offset: p as usize,
            bbox: s0[p].val.bbox,
            zorder: s0[p].val.zorder,
            payload: s0[p].val.payload,
        },
    ) + Seq::new(
        s1.len(),
        |p: int| DrawTurn {
            id: s1[p].val.id,
            offset: p as usize,
            bbox: s1[p].val.bbox,
            zorder: s1[p].val.zorder,
            payload: s1[p].val.payload,
        },
    )
}

/// The turn drawables of the first `n` lanes, lane by lane.
pub open spec fn all_draw_turns_spec(map: MapModel, n: int) -> Seq<DrawTurn>
    decreases n,
{
    if n <= 0 {
        Seq::empty()
    } else {
        all_draw_turns_spec(map, n - 1) + lane_draw_turns_spec(map, map.lanes@[n - 1])
    }
}

/// Some drawable of `s` carries turn id `id`.
pub open spec fn seq_has_turn(s: Seq<DrawTurn>, id: TurnID) -> bool {
    exists|k: int| 0 <= k < s.len() && (#[trigger] s[k]).id == id
}

/// One lane drawable per map lane, in map order.
pub open spec fn draw_lanes_spec(map: MapModel) -> Seq<DrawLane> {
    Seq::new(
        map.lanes@.len(),
        |i: int| DrawLane {
            id: map.lanes@[i].id,
            bbox: map.lanes@[i].bbox,
            zorder: map.lanes@[i].zorder,
            payload: map.lanes@[i].payload,
        },
    )
}

/// One intersection drawable per map intersection, in map order.
pub open spec fn draw_intersections_spec(map: MapModel) -> Seq<DrawIntersection> {
    Seq::new(
        map.intersections@.len(),
        |i: int| DrawIntersection {
            id: map.intersections@[i].id,
            bbox: map.intersections@[i].bbox,
            zorder: map.intersections@[i].zorder,
            payload: map.intersections@[i].payload,
        },
    )
}

/// One building drawable per map building, in map order.
pub open spec fn draw_buildings_spec(map: MapModel) -> Seq<DrawBuilding> {
    Seq::new(
        map.buildings@.len(),
        |i: int| DrawBuilding {
            id: map.buildings@[i].id,
            bbox: map.buildings@[i].bbox,
            zorder: map.buildings@[i].zorder,
            payload: map.buildings@[i].payload,
        },
    )
}

/// One parcel drawable per map parcel, in map order.
pub open spec fn draw_parcels_spec(map: MapModel) -> Seq<DrawParcel> {
    Seq::new(
        map.parcels@.len(),
        |i: int| DrawParcel {
            id: map.parcels@[i].id,
            bbox: map.parcels@[i].bbox,
            zorder: map.parcels@[i].zorder,
            payload: map.parcels@[i].payload,
        },
    )
}

/// One extra-shape drawable per accepted shape, numbered in order.
pub open spec fn draw_extra_shapes_spec(shapes: Seq<ExtraShapeRec>) -> Seq<DrawExtraShape> {
    Seq::new(
        shapes.len(),
        |i: int| DrawExtraShape {
            id: crate::ids::ExtraShapeID(i as usize),
            bbox: shapes[i].bbox,
            zorder: shapes[i].zorder,
            payload: shapes[i].payload,
        },
    )
}

/// One bus stop drawable per map bus stop, in map order.
pub open spec fn draw_bus_stops_spec(map: MapModel) -> Seq<DrawBusStop> {
    Seq::new(
        map.bus_stops@.len(),
        |i: int| DrawBusStop {
            id: map.bus_stops@[i].id,
            bbox: map.bus_stops@[i].bbox,
            zorder: map.bus_stops@[i].zorder,
            payload: map.bus_stops@[i].payload,
        },
    )
}

/// One area drawable per map area, in map order.
pub open spec fn draw_areas_spec(map: MapModel) -> Seq<DrawArea> {
    Seq::new(
        map.areas@.len(),
        |i: int| DrawArea {
            id: map.areas@[i].id,
            bbox: map.areas@[i].bbox,
            zorder: map.areas@[i].zorder,
            payload: map.areas@[i].payload,
        },
    )
}

/// The spatial index entries contributed by each drawable category.
pub open spec fn lane_entries(s: Seq<DrawLane>) -> Seq<IndexEntry> {
    Seq::new(s.len(), |i: int| IndexEntry { id: ID::Lane(s[i].id), bbox: s[i].bbox })
}

pub open spec fn intersection_entries(s: Seq<DrawIntersection>) -> Seq<IndexEntry> {
    Seq::new(s.len(), |i: int| IndexEntry { id: ID::Intersection(s[i].id), bbox: s[i].bbox })
}

pub open spec fn building_entries(s: Seq<DrawBuilding>) -> Seq<IndexEntry> {
    Seq::new(s.len(), |i: int| IndexEntry { id: ID::Building(s[i].id), bbox: s[i].bbox })
}

pub open spec fn parcel_entries(s: Seq<DrawParcel>) -> Seq<IndexEntry> {
    Seq::new(s.len(), |i: int| IndexEntry { id: ID::Parcel(s[i].id), bbox: s[i].bbox })
}

pub open spec fn extra_shape_entries(s: Seq<DrawExtraShape>) -> Seq<IndexEntry> {
    Seq::new(s.len(), |i: int| IndexEntry { id: ID::ExtraShape(s[i].id), bbox: s[i].bbox })
}

pub open spec fn bus_stop_entries(s: Seq<DrawBusStop>) -> Seq<IndexEntry> {
    Seq::new(s.len(), |i: int| IndexEntry { id: ID::BusStop(s[i].id), bbox: s[i].bbox })
}

pub open spec fn area_entries(s: Seq<DrawArea>) -> Seq<IndexEntry> {
    Seq::new(s.len(), |i: int| IndexEntry { id: ID::Area(s[i].id), bbox: s[i].bbox })
}

/// Everything the spatial index holds after a build: every static drawable's
/// box under its id, category by category. Turn icons are not indexed.
pub open spec fn static_entries(dm: DrawMap) -> Seq<IndexEntry> {
    lane_entries(dm.lanes@) + intersection_entries(dm.intersections@) + building_entries(
        dm.buildings@,
    ) + parcel_entries(dm.parcels@) + extra_shape_entries(dm.extra_shapes@) + bus_stop_entries(
        dm.bus_stops@,
    ) + area_entries(dm.areas@)
}

/// The position an indexed id must sit at in `static_entries`; dynamic ids
/// have none.
pub open spec fn entry_slot(dm: DrawMap, id: ID) -> int {
    let n1 = dm.lanes@.len() as int;
    let n2 = n1 + dm.intersections@.len() as int;
    let n3 = n2 + dm.buildings@.len() as int;
    let n4 = n3 + dm.parcels@.len() as int;
    let n5 = n4 + dm.extra_shapes@.len() as int;
    let n6 = n5 + dm.bus_stops@.len() as int;
    match id {
        ID::Lane(x) => x.0 as int,
        ID::Intersection(x) => n1 + x.0 as int,
        ID::Building(x) => n2 + x.0 as int,
        ID::Parcel(x) => n3 + x.0 as int,
        ID::ExtraShape(x) => n4 + x.0 as int,
        ID::BusStop(x) => n5 + x.0 as int,
        ID::Area(x) => n6 + x.0 as int,
        _ => -1,
    }
}

/// The lane identifiers among a query result, in order.
pub open spec fn lane_ids_spec(ids: Seq<ID>) -> Seq<LaneID>
    decreases ids.len(),
{
    if ids.len() == 0 {
        Seq::empty()
    } else {
        lane_ids_spec(ids.drop_last()) + match ids.last() {
            ID::Lane(l) => seq![l],
            _ => Seq::empty(),
        }
    }
}

/// The bucket an identifier is classified into, background first; dynamic
/// identifiers have none.
pub open spec fn category_of(id: ID) -> int {
    match id {
        ID::Area(_) => 0,
        ID::Parcel(_) => 1,
        ID::Lane(_) => 2,
        ID::Intersection(_) => 3,
        ID::Building(_) => 4,
        ID::ExtraShape(_) => 5,
        ID::BusStop(_) => 6,
        _ => 7,
    }
}

/// What the consumer sees of one static drawable, looked up by its id.
pub open spec fn static_ref_of(dm: DrawMap, id: ID) -> DrawRef {
    match id {
        ID::Lane(x) => DrawRef {
            id,
            bbox: dm.lanes@[x.0 as int].bbox,
            zorder: dm.lanes@[x.0 as int].zorder,
            payload: dm.lanes@[x.0 as int].payload,
        },
        ID::Intersection(x) => DrawRef {
            id,
            bbox: dm.intersections@[x.0 as int].bbox,
            zorder: dm.intersections@[x.0 as int].zorder,
            payload: dm.intersections@[x.0 as int].payload,
        },
        ID::Building(x) => DrawRef {
            id,
            bbox: dm.buildings@[x.0 as int].bbox,
            zorder: dm.buildings@[x.0 as int].zorder,
            payload: dm.buildings@[x.0 as int].payload,
        },
        ID::Parcel(x) => DrawRef {
            id,
            bbox: dm.parcels@[x.0 as int].bbox,
            zorder: dm.parcels@[x.0 as int].zorder,
            payload: dm.parcels@[x.0 as int].payload,
        },
        ID::ExtraShape(x) => DrawRef {
            id,
            bbox: dm.extra_shapes@[x.0 as int].bbox,
            zorder: dm.extra_shapes@[x.0 as int].zorder,
            payload: dm.extra_shapes@[x.0 as int].payload,
        },
        ID::BusStop(x) => DrawRef {
            id,
            bbox: dm.bus_stops@[x.0 as int].bbox,
            zorder: dm.bus_stops@[x.0 as int].zorder,
            payload: dm.bus_stops@[x.0 as int].payload,
        },
        ID::Area(x) => DrawRef {
            id,
            bbox: dm.areas@[x.0 as int].bbox,
            zorder: dm.areas@[x.0 as int].zorder,
            payload: dm.areas@[x.0 as int].payload,
        },
        _ => DrawRef { id, bbox: BBox { x1: 0, y1: 0, x2: 0, y2: 0 }, zorder: 0, payload: 0 },
    }
}

/// The drawables of one category among the queried ids, in query order; the
/// k-th id is kept exactly when the recorded visibility answer `shown[k]` is
/// true.
pub open spec fn bucket_spec(dm: DrawMap, ids: Seq<ID>, shown: Seq<bool>, cat: int) -> Seq<DrawRef>
    decreases ids.len(),
{
    if ids.len() == 0 {
        Seq::empty()
    } else {
        let rest = bucket_spec(dm, ids.drop_last(), shown.drop_last(), cat);
        let k = ids.len() - 1;
        if k < shown.len() && shown[k] && category_of(ids[k]) == cat {
            rest.push(static_ref_of(dm, ids[k]))
        } else {
            rest
        }
    }
}

/// The position of the drawable of turn `id`; well defined when the map
/// holds the turn and turn ids are unique.
pub open spec fn draw_turn_pos(dm: DrawMap, id: TurnID) -> int {
    choose|k: int| 0 <= k < dm.turns@.len() && (#[trigger] dm.turns@[k]).id == id
}

/// What the consumer sees of one turn icon.
pub open spec fn turn_icon_ref(dm: DrawMap, id: TurnID) -> DrawRef {
    DrawRef {
        id: ID::Turn(id),
        bbox: dm.turns@[draw_turn_pos(dm, id)].bbox,
        zorder: dm.turns@[draw_turn_pos(dm, id)].zorder,
        payload: dm.turns@[draw_turn_pos(dm, id)].payload,
    }
}

/// The icons of every turn at intersection `x`, in the map's turn order.
pub open spec fn icon_refs_of(dm: DrawMap, map: MapModel, x: IntersectionID) -> Seq<DrawRef> {
    Seq::new(
        map.intersections@[x.0 as int].turns@.len(),
        |j: int| turn_icon_ref(dm, map.intersections@[x.0 as int].turns@[j]),
    )
}

/// The turn-icon bucket: for every visible intersection whose icons are
/// shown (`shown[k] && icons[k]`), all its turns' icons, in query order.
pub open spec fn icons_spec(
    dm: DrawMap,
    map: MapModel,
    ids: Seq<ID>,
    shown: Seq<bool>,
    icons: Seq<bool>,
) -> Seq<DrawRef>
    decreases ids.len(),
{
    if ids.len() == 0 {
        Seq::empty()
    } else {
        let rest = icons_spec(dm, map, ids.drop_last(), shown.drop_last(), icons.drop_last());
        let k = ids.len() - 1;
        if k < shown.len() && k < icons.len() && shown[k] && icons[k] {
            match ids[k] {
                ID::Intersection(x) => rest + icon_refs_of(dm, map, x),
                _ => rest,
            }
        } else {
            rest
        }
    }
}

/// Every turn at intersection `x` as a traversable segment.
pub open spec fn turn_segs_of(map: MapModel, x: IntersectionID) -> Seq<Traversable> {
    Seq::new(
        map.intersections@[x.0 as int].turns@.len(),
        |j: int| Traversable::Turn(map.intersections@[x.0 as int].turns@[j]),
    )
}

/// The segments recorded for dynamic agents, in query order: each visible
/// lane whose destination's icons are suppressed, and every turn of each
/// visible intersection whose icons are suppressed (`shown[k] && !icons[k]`).
pub open spec fn segments_spec(
    map: MapModel,
    ids: Seq<ID>,
    shown: Seq<bool>,
    icons: Seq<bool>,
) -> Seq<Traversable>
    decreases ids.len(),
{
    if ids.len() == 0 {
        Seq::empty()
    } else {
        let rest = segments_spec(map, ids.drop_last(), shown.drop_last(), icons.drop_last());
        let k = ids.len() - 1;
        if k < shown.len() && k < icons.len() && shown[k] && !icons[k] {
            match ids[k] {
                ID::Lane(l) => rest.push(Traversable::Lane(l)),
                ID::Intersection(x) => rest + turn_segs_of(map, x),
                _ => rest,
            }
        } else {
            rest
        }
    }
}

/// The merged static draw candidates of one frame, before the z-order sort:
/// the eight buckets in fixed background-to-foreground category order —
/// areas, parcels, lanes, intersections, buildings, extra shapes, bus stops,
/// turn icons. The stable sort makes this order the tie-break among equal
/// z-orders.
pub open spec fn classify_spec(
    dm: DrawMap,
    map: MapModel,
    ids: Seq<ID>,
    shown: Seq<bool>,
    icons: Seq<bool>,
) -> Seq<DrawRef> {
    bucket_spec(dm, ids, shown, 0) + bucket_spec(dm, ids, shown, 1) + bucket_spec(dm, ids, shown, 2)
        + bucket_spec(dm, ids, shown, 3) + bucket_spec(dm, ids, shown, 4) + bucket_spec(
        dm,
        ids,
        shown,
        5,
    ) + bucket_spec(dm, ids, shown, 6) + icons_spec(dm, map, ids, shown, icons)
}

/// The cached drawables of the recorded segments, flattened in record order,
/// each segment's list in cache insertion order.
pub open spec fn cached_agents_spec(cache: AgentCache, segs: Seq<Traversable>) -> Seq<DrawRef>
    decreases segs.len(),
{
    if segs.len() == 0 {
        Seq::empty()
    } else {
        cached_agents_spec(cache, segs.drop_last()) + cache.agents_spec(segs.last())
    }
}

/// One frame's observable outcome, given the recorded collaborator answers:
/// `shown[k]` is the visibility answer for the k-th queried id, `icons[k]`
/// the movement-icon answer for the k-th id where it is a lane or an
/// intersection, and `answers` the consumer's successive replies. What the
/// consumer received is then exactly the early-abort prefix of the merged
/// candidates — the classified statics plus the cached agents of every
/// recorded segment — stable-sorted by z-order and oriented for `order`.
pub open spec fn frame_delivery(
    before: DrawMap,
    after: DrawMap,
    map: MapModel,
    screen_bounds: BBox,
    order: RenderOrder,
    delivered: Seq<DrawRef>,
    shown: Seq<bool>,
    icons: Seq<bool>,
    answers: Seq<bool>,
) -> bool {
    let ids = query_spec(before.index.entries@, screen_bounds);
    let stat = classify_spec(before, map, ids, shown, icons);
    let segs = segments_spec(map, ids, shown, icons);
    &&& shown.len() == ids.len()
    &&& icons.len() == ids.len()
    &&& answers.len() == delivered.len()
    &&& forall|j: int| 0 <= j < segs.len() ==> after.agents.contains_seg(#[trigger] segs[j])
    &&& delivered == delivered_spec(
        render_order_spec(stat + cached_agents_spec(after.agents, segs), order),
        answers,
    )
}

/// The rendering index over one static map: per-category drawables, the
/// spatial index over their bounding boxes, and the tick-scoped cache of
/// dynamic agent drawables.
pub struct DrawMap {
    pub lanes: Vec<DrawLane>,
    pub intersections: Vec<DrawIntersection>,
    pub turns: Vec<DrawTurn>,
    pub buildings: Vec<DrawBuilding>,
    pub parcels: Vec<DrawParcel>,
    pub extra_shapes: Vec<DrawExtraShape>,
    pub bus_stops: Vec<DrawBusStop>,
    pub areas: Vec<DrawArea>,
    pub agents: AgentCache,
    pub index: SpatialIndex,
}

impl DrawMap {
    /// `id` identifies a static drawable present in this map. Turn icons are
    /// reachable through their intersection and are never indexed, and
    /// dynamic agent identifiers must never appear in the spatial index.
    pub open spec fn valid_static_id(self, id: ID) -> bool {
        match id {
            ID::Lane(l) => l.0 < self.lanes@.len(),
            ID::Intersection(i) => i.0 < self.intersections@.len(),
            ID::Building(b) => b.0 < self.buildings@.len(),
            ID::Parcel(p) => p.0 < self.parcels@.len(),
            ID::ExtraShape(e) => e.0 < self.extra_shapes@.len(),
            ID::BusStop(b) => b.0 < self.bus_stops@.len(),
            ID::Area(a) => a.0 < self.areas@.len(),
            ID::Turn(_) => false,
            ID::Car(_) => false,
            ID::Pedestrian(_) => false,
            ID::Trip(_) => false,
        }
    }

    pub open spec fn has_draw_turn(self, id: TurnID) -> bool {
        seq_has_turn(self.turns@, id)
    }

    /// Identifiers are dense per category, the spatial index holds only
    /// valid static identifiers and none twice, and the agent cache holds no
    /// segment twice.
    pub open spec fn wf(self) -> bool {
        &&& forall|i: int|
            0 <= i < self.lanes@.len() ==> (#[trigger] self.lanes@[i]).id.0 == i
        &&& forall|i: int|
            0 <= i < self.intersections@.len()
                ==> (#[trigger] self.intersections@[i]).id.0 == i
        &&& forall|i: int|
            0 <= i < self.buildings@.len()
                ==> (#[trigger] self.buildings@[i]).id.0 == i
        &&& forall|i: int|
            0 <= i < self.parcels@.len() ==> (#[trigger] self.parcels@[i]).id.0 == i
        &&& forall|i: int|
            0 <= i < self.extra_shapes@.len() ==> (#[trigger] self.extra_shapes@[i]).id.0 == i
        &&& forall|i: int|
            0 <= i < self.bus_stops@.len() ==> (#[trigger] self.bus_stops@[i]).id.0 == i
        &&& forall|i: int|
            0 <= i < self.areas@.len() ==> (#[trigger] self.areas@[i]).id.0 == i
        &&& forall|i: int, j: int|
            0 <= i < j < self.turns@.len() ==> self.turns@[i].id != self.turns@[j].id
        &&& self.index.wf()
        &&& forall|e: int|
            0 <= e < self.index.entries@.len()
                ==> self.valid_static_id((#[trigger] self.index.entries@[e]).id)
        &&& self.agents.wf()
    }

    /// The drawables mirror the map: one lane and one intersection per map
    /// entry, and a turn drawable for every turn of the map.
    pub open spec fn consistent_with(self, map: MapModel) -> bool {
        &&& self.lanes@.len() == map.lanes@.len()
        &&& self.intersections@.len() == map.intersections@.len()
        &&& forall|k: int|
            0 <= k < map.turns@.len() ==> self.has_draw_turn((#[trigger] map.turns@[k]).id)
    }

    /// Splits the turns starting at lane `l` into its two destination groups
    /// — ending at the lane's own destination intersection or not — and
    /// sorts each by ascending traversal angle, ties keeping the map's turn
    /// order.
    fn sorted_turn_groups(l: &LaneRec, map: &MapModel) -> (r: (
        Vec<Keyed<TurnRec>>,
        Vec<Keyed<TurnRec>>,
    ))
        ensures
            r.0@ == stable_sort_spec(group_spec(map.turns@, l.id, l.dst_i, true)),
            r.1@ == stable_sort_spec(group_spec(map.turns@, l.id, l.dst_i, false)),
    {
        let mut near_group: Vec<Keyed<TurnRec>> = Vec::new();
        let mut far_group: Vec<Keyed<TurnRec>> = Vec::new();
        let mut i: usize = 0;
        while i < map.turns.len()
            invariant
                i <= map.turns@.len(),
                near_group@ == group_spec(map.turns@.take(i as int), l.id, l.dst_i, true),
                far_group@ == group_spec(map.turns@.take(i as int), l.id, l.dst_i, false),
            decreases map.turns@.len() - i,
        {
            let t = map.turns[i];
            proof {
                assert(map.turns@.take(i + 1).drop_last() =~= map.turns@.take(i as int));
                assert(map.turns@.take(i + 1).last() == map.turns@[i as int]);
            }
            if t.id.src == l.id {
                if t.id.parent == l.dst_i {
                    near_group.push(Keyed { key: t.angle_degrees, val: t });
                } else {
                    far_group.push(Keyed { key: t.angle_degrees, val: t });
                }
            }
            i = i + 1;
        }
        proof {
            assert(map.turns@.take(map.turns@.len() as int) =~= map.turns@);
        }
        let sorted_near = stable_sort_by_key(&near_group);
        let sorted_far = stable_sort_by_key(&far_group);
        (sorted_near, sorted_far)
    }

    /// Appends the turn drawables of lane `l`, offsets assigned as
    /// `compute_turn_to_lane_offset` assigns them.
    fn push_lane_draw_turns(turns: &mut Vec<DrawTurn>, l: &LaneRec, map: &MapModel)
        ensures
            final(turns)@ == old(turns)@ + lane_draw_turns_spec(*map, *l),
    {
        let groups = DrawMap::sorted_turn_groups(l, map);
        let sorted_near = groups.0;
        let sorted_far = groups.1;
        let ghost base = turns@;
        let ghost s0 = sorted_near@;
        let ghost s1 = sorted_far@;
        let mut p: usize = 0;
        while p < sorted_near.len()
            invariant
                p <= s0.len(),
                sorted_near@ == s0,
                turns@ == base + Seq::new(
                    p as nat,
                    |q: int| DrawTurn {
                        id: s0[q].val.id,
                        offset: q as usize,
                        bbox: s0[q].val.bbox,
                        zorder: s0[q].val.zorder,
                        payload: s0[q].val.payload,
                    },
                ),
            decreases s0.len() - p,
        {
            let t = sorted_near[p].val;
            turns.push(DrawTurn { id: t.id, offset: p, bbox: t.bbox, zorder: t.zorder, payload: t.payload });
            proof {
                assert(turns@ =~= base + Seq::new(
                    (p + 1) as nat,
                    |q: int| DrawTurn {
                        id: s0[q].val.id,
                        offset: q as usize,
                        bbox: s0[q].val.bbox,
                        zorder: s0[q].val.zorder,
                        payload: s0[q].val.payload,
                    },
                ));
            }
            p = p + 1;
        }
        let ghost mid = turns@;
        let mut r: usize = 0;
        while r < sorted_far.len()
            invariant
                r <= s1.len(),
                sorted_far@ == s1,
                turns@ == mid + Seq::new(
                    r as nat,
                    |q: int| DrawTurn {
                        id: s1[q].val.id,
                        offset: q as usize,
                        bbox: s1[q].val.bbox,
                        zorder: s1[q].val.zorder,
                        payload: s1[q].val.payload,
                    },
                ),
            decreases s1.len() - r,
        {
            let t = sorted_far[r].val;
            turns.push(DrawTurn { id: t.id, offset: r, bbox: t.bbox, zorder: t.zorder, payload: t.payload });
            proof {
                assert(turns@ =~= mid + Seq::new(
                    (r + 1) as nat,
                    |q: int| DrawTurn {
                        id: s1[q].val.id,
                        offset: q as usize,
                        bbox: s1[q].val.bbox,
                        zorder: s1[q].val.zorder,
                        payload: s1[q].val.payload,
                    },
                ));
            }
            r = r + 1;
        }
        proof {
            assert(turns@ =~= base + lane_draw_turns_spec(*map, *l));
        }
    }

    /// Builds the whole rendering index from the static map: every
    /// category's drawables in category order — lanes, turns (with their
    /// icon offsets), intersections, buildings, parcels (only if enabled),
    /// extra shapes (already loaded and matched by the caller), bus stops,
    /// areas — then one spatial index entry per static drawable. The agent
    /// cache starts empty, with no current tick.
    pub fn new(map: &MapModel, draw_parcels: bool, extra_shapes: &Vec<ExtraShapeRec>) -> (dm:
        DrawMap)
        requires
            map.wf(),
        ensures
            dm.wf(),
            dm.consistent_with(*map),
            dm.lanes@ == draw_lanes_spec(*map),
            dm.turns@ == all_draw_turns_spec(*map, map.lanes@.len() as int),
            dm.intersections@ == draw_intersections_spec(*map),
            dm.buildings@ == draw_buildings_spec(*map),
            dm.parcels@ == if draw_parcels {
                draw_parcels_spec(*map)
            } else {
                Seq::<DrawParcel>::empty()
            },
            dm.extra_shapes@ == draw_extra_shapes_spec(extra_shapes@),
            dm.bus_stops@ == draw_bus_stops_spec(*map),
            dm.areas@ == draw_areas_spec(*map),
            dm.agents.tick is None,
            dm.agents.entries@ == Seq::<CacheEntry>::empty(),
            dm.index.entries@ == static_entries(dm),
    {
        let mut lanes: Vec<DrawLane> = Vec::new();
        let mut i: usize = 0;
        while i < map.lanes.len()
            invariant
                i <= map.lanes@.len(),
                lanes@ == draw_lanes_spec(*map).take(i as int),
            decreases map.lanes@.len() - i,
        {
            let l = &map.lanes[i];
            lanes.push(DrawLane { id: l.id, bbox: l.bbox, zorder: l.zorder, payload: l.payload });
            proof {
                assert(lanes@ =~= draw_lanes_spec(*map).take(i + 1));
            }
            i = i + 1;
        }
        proof {
            assert(lanes@ =~= draw_lanes_spec(*map));
        }
        let mut turns: Vec<DrawTurn> = Vec::new();
        let mut li: usize = 0;
        while li < map.lanes.len()
            invariant
                li <= map.lanes@.len(),
                turns@ == all_draw_turns_spec(*map, li as int),
            decreases map.lanes@.len() - li,
        {
            DrawMap::push_lane_draw_turns(&mut turns, &map.lanes[li], map);
            li = li + 1;
        }
        let mut intersections: Vec<DrawIntersection> = Vec::new();
        let mut i: usize = 0;
        while i < map.intersections.len()
            invariant
                i <= map.intersections@.len(),
                intersections@ == draw_intersections_spec(*map).take(i as int),
            decreases map.intersections@.len() - i,
        {
            let x = &map.intersections[i];
            intersections.push(DrawIntersection { id: x.id, bbox: x.bbox, zorder: x.zorder, payload: x.payload });
            proof {
                assert(intersections@ =~= draw_intersections_spec(*map).take(i + 1));
            }
            i = i + 1;
        }
        proof {
            assert(intersections@ =~= draw_intersections_spec(*map));
        }
        let mut buildings: Vec<DrawBuilding> = Vec::new();
        let mut i: usize = 0;
        while i < map.buildings.len()
            invariant
                i <= map.buildings@.len(),
                buildings@ == draw_buildings_spec(*map).take(i as int),
            decreases map.buildings@.len() - i,
        {
            let x = &map.buildings[i];
            buildings.push(DrawBuilding { id: x.id, bbox: x.bbox, zorder: x.zorder, payload: x.payload });
            proof {
                assert(buildings@ =~= draw_buildings_spec(*map).take(i + 1));
            }
            i = i + 1;
        }
        proof {
            assert(buildings@ =~= draw_buildings_spec(*map));
        }
        let mut parcels: Vec<DrawParcel> = Vec::new();
        if draw_parcels {
            let mut i: usize = 0;
            while i < map.parcels.len()
                invariant
                    i <= map.parcels@.len(),
                    parcels@ == draw_parcels_spec(*map).take(i as int),
                decreases map.parcels@.len() - i,
            {
                let x = &map.parcels[i];
                parcels.push(DrawParcel { id: x.id, bbox: x.bbox, zorder: x.zorder, payload: x.payload });
                proof {
                    assert(parcels@ =~= draw_parcels_spec(*map).take(i + 1));
                }
                i = i + 1;
            }
            proof {
                assert(parcels@ =~= draw_parcels_spec(*map));
            }
        }
        let mut shapes: Vec<DrawExtraShape> = Vec::new();
        let mut i: usize = 0;
        while i < extra_shapes.len()
            invariant
                i <= extra_shapes@.len(),
                shapes@ == draw_extra_shapes_spec(extra_shapes@).take(i as int),
            decreases extra_shapes@.len() - i,
        {
            let x = &extra_shapes[i];
            shapes.push(DrawExtraShape {
                id: crate::ids::ExtraShapeID(i),
                bbox: x.bbox,
                zorder: x.zorder,
                payload: x.payload,
            });
            proof {
                assert(shapes@ =~= draw_extra_shapes_spec(extra_shapes@).take(i + 1));
            }
            i = i + 1;
        }
        proof {
            assert(shapes@ =~= draw_extra_shapes_spec(extra_shapes@));
        }
        let mut bus_stops: Vec<DrawBusStop> = Vec::new();
        let mut i: usize = 0;
        while i < map.bus_stops.len()
            invariant
                i <= map.bus_stops@.len(),
                bus_stops@ == draw_bus_stops_spec(*map).take(i as int),
            decreases map.bus_stops@.len() - i,
        {
            let x = &map.bus_stops[i];
            bus_stops.push(DrawBusStop { id: x.id, bbox: x.bbox, zorder: x.zorder, payload: x.payload });
            proof {
                assert(bus_stops@ =~= draw_bus_stops_spec(*map).take(i + 1));
            }
            i = i + 1;
        }
        proof {
            assert(bus_stops@ =~= draw_bus_stops_spec(*map));
        }
        let mut areas: Vec<DrawArea> = Vec::new();
        let mut i: usize = 0;
        while i < map.areas.len()
            invariant
                i <= map.areas@.len(),
                areas@ == draw_areas_spec(*map).take(i as int),
            decreases map.areas@.len() - i,
        {
            let x = &map.areas[i];
            areas.push(DrawArea { id: x.id, bbox: x.bbox, zorder: x.zorder, payload: x.payload });
            proof {
                assert(areas@ =~= draw_areas_spec(*map).take(i + 1));
            }
            i = i + 1;
        }
        proof {
            assert(areas@ =~= draw_areas_spec(*map));
        }
        let mut index = SpatialIndex::new();
        let ghost e1 = lane_entries(lanes@);
        let mut i: usize = 0;
        while i < lanes.len()
            invariant
                i <= lanes@.len(),
                index.entries@ == lane_entries(lanes@).take(i as int),
            decreases lanes@.len() - i,
        {
            index.insert(ID::Lane(lanes[i].id), lanes[i].bbox);
            proof {
                assert(index.entries@ =~= lane_entries(lanes@).take(i + 1));
            }
            i = i + 1;
        }
        proof {
            assert(index.entries@ =~= e1);
        }
        let ghost e2 = e1 + intersection_entries(intersections@);
        let mut i: usize = 0;
        while i < intersections.len()
            invariant
                i <= intersections@.len(),
                index.entries@ == e1 + intersection_entries(intersections@).take(i as int),
            decreases intersections@.len() - i,
        {
            index.insert(ID::Intersection(intersections[i].id), intersections[i].bbox);
            proof {
                assert(index.entries@ =~= e1 + intersection_entries(intersections@).take(i + 1));
            }
            i = i + 1;
        }
        proof {
            assert(index.entries@ =~= e2);
        }
        let ghost e3 = e2 + building_entries(buildings@);
        let mut i: usize = 0;
        while i < buildings.len()
            invariant
                i <= buildings@.len(),
                index.entries@ == e2 + building_entries(buildings@).take(i as int),
            decreases buildings@.len() - i,
        {
            index.insert(ID::Building(buildings[i].id), buildings[i].bbox);
            proof {
                assert(index.entries@ =~= e2 + building_entries(buildings@).take(i + 1));
            }
            i = i + 1;
        }
        proof {
            assert(index.entries@ =~= e3);
        }
        let ghost e4 = e3 + parcel_entries(parcels@);
        let mut i: usize = 0;
        while i < parcels.len()
            invariant
                i <= parcels@.len(),
                index.entries@ == e3 + parcel_entries(parcels@).take(i as int),
            decreases parcels@.len() - i,
        {
            index.insert(ID::Parcel(parcels[i].id), parcels[i].bbox);
            proof {
                assert(index.entries@ =~= e3 + parcel_entries(parcels@).take(i + 1));
            }
            i = i + 1;
        }
        proof {
            assert(index.entries@ =~= e4);
        }
        let ghost e5 = e4 + extra_shape_entries(shapes@);
        let mut i: usize = 0;
        while i < shapes.len()
            invariant
                i <= shapes@.len(),
                index.entries@ == e4 + extra_shape_entries(shapes@).take(i as int),
            decreases shapes@.len() - i,
        {
            index.insert(ID::ExtraShape(shapes[i].id), shapes[i].bbox);
            proof {
                assert(index.entries@ =~= e4 + extra_shape_entries(shapes@).take(i + 1));
            }
            i = i + 1;
        }
        proof {
            assert(index.entries@ =~= e5);
        }
        let ghost e6 = e5 + bus_stop_entries(bus_stops@);
        let mut i: usize = 0;
        while i < bus_stops.len()
            invariant
                i <= bus_stops@.len(),
                index.entries@ == e5 + bus_stop_entries(bus_stops@).take(i as int),
            decreases bus_stops@.len() - i,
        {
            index.insert(ID::BusStop(bus_stops[i].id), bus_stops[i].bbox);
            proof {
                assert(index.entries@ =~= e5 + bus_stop_entries(bus_stops@).take(i + 1));
            }
            i = i + 1;
        }
        proof {
            assert(index.entries@ =~= e6);
        }
        let ghost e7 = e6 + area_entries(areas@);
        let mut i: usize = 0;
        while i < areas.len()
            invariant
                i <= areas@.len(),
                index.entries@ == e6 + area_entries(areas@).take(i as int),
            decreases areas@.len() - i,
        {
            index.insert(ID::Area(areas[i].id), areas[i].bbox);
            proof {
                assert(index.entries@ =~= e6 + area_entries(areas@).take(i + 1));
            }
            i = i + 1;
        }
        proof {
            assert(index.entries@ =~= e7);
        }
        let dm = DrawMap {
            lanes,
            intersections,
            turns,
            buildings,
            parcels,
            extra_shapes: shapes,
            bus_stops,
            areas,
            agents: AgentCache::new(),
            index,
        };
        proof {
            assert(dm.index.entries@ =~= static_entries(dm));
            lemma_built_index_wf(dm);
            lemma_all_draw_turns_distinct(*map, map.lanes@.len() as int);
            assert forall|k: int| 0 <= k < map.turns@.len() implies dm.has_draw_turn(
                (#[trigger] map.turns@[k]).id,
            ) by {
                let id = map.turns@[k].id;
                let l = map.lanes@[id.src.0 as int];
                assert(map.turns@[k].id == id);
                assert(map.has_turn(id));
                lemma_lane_draw_turns_has(*map, l, id);
                lemma_all_draw_turns_has(*map, map.lanes@.len() as int, id.src.0 as int, id);
            }
        }
        dm
    }

    /// Appends to `result` the icon offset of every turn starting at lane
    /// `l`: turns are split by destination into two groups, each group is
    /// sorted by ascending traversal angle (stable, so ties keep the map's
    /// turn order), and offsets are assigned densely from zero within each
    /// group independently.
    pub fn compute_turn_to_lane_offset(
        result: &mut Vec<(TurnID, usize)>,
        l: &LaneRec,
        map: &MapModel,
    )
        ensures
            final(result)@ == old(result)@ + lane_offsets_spec(*map, *l),
    {
        let groups = DrawMap::sorted_turn_groups(l, map);
        let sorted_near = groups.0;
        let sorted_far = groups.1;
        let ghost base = result@;
        let ghost s0 = sorted_near@;
        let ghost s1 = sorted_far@;
        let mut p: usize = 0;
        while p < sorted_near.len()
            invariant
                p <= s0.len(),
                sorted_near@ == s0,
                result@ == base + Seq::new(p as nat, |q: int| (s0[q].val.id, q as usize)),
            decreases s0.len() - p,
        {
            result.push((sorted_near[p].val.id, p));
            proof {
                assert(result@ =~= base + Seq::new(
                    (p + 1) as nat,
                    |q: int| (s0[q].val.id, q as usize),
                ));
            }
            p = p + 1;
        }
        let mut r: usize = 0;
        while r < sorted_far.len()
            invariant
                r <= s1.len(),
                sorted_far@ == s1,
                result@ == base + Seq::new(s0.len(), |q: int| (s0[q].val.id, q as usize)) + Seq::new(
                    r as nat,
                    |q: int| (s1[q].val.id, q as usize),
                ),
            decreases s1.len() - r,
        {
            result.push((sorted_far[r].val.id, r));
            proof {
                assert(result@ =~= base + Seq::new(s0.len(), |q: int| (s0[q].val.id, q as usize))
                    + Seq::new((r + 1) as nat, |q: int| (s1[q].val.id, q as usize)));
            }
            r = r + 1;
        }
        proof {
            assert(result@ =~= base + lane_offsets_spec(*map, *l));
        }
    }

    /// Makes sure the agent cache holds fresh data for `(tick, on)`,
    /// querying the simulation for the segment's vehicles and pedestrians at
    /// most once per segment per tick. Whatever the simulation returns, every
    /// segment already cached for this tick stays cached.
    fn ensure_agents<S: GetDrawAgents>(
        &mut self,
        tick: u64,
        on: Traversable,
        map: &MapModel,
        sim: &S,
    )
        requires
            old(self).agents.wf(),
        ensures
            final(self).agents.wf(),
            final(self).agents.has_spec(tick, on),
            forall|o: Traversable|
                old(self).agents.has_spec(tick, o) ==> final(self).agents.has_spec(tick, o),
            final(self).lanes == old(self).lanes,
            final(self).intersections == old(self).intersections,
            final(self).turns == old(self).turns,
            final(self).buildings == old(self).buildings,
            final(self).parcels == old(self).parcels,
            final(self).extra_shapes == old(self).extra_shapes,
            final(self).bus_stops == old(self).bus_stops,
            final(self).areas == old(self).areas,
            final(self).index == old(self).index,
    {
        if !self.agents.has(tick, on) {
            let ghost pre = self.agents;
            let mut list = sim.get_draw_cars(on, map);
            let mut peds = sim.get_draw_peds(on, map);
            list.append(&mut peds);
            self.agents.put(tick, on, list);
            proof {
                assert forall|o: Traversable| pre.has_spec(tick, o) implies self.agents.has_spec(
                    tick,
                    o,
                ) by {
                    assert(pre.tick == Some(tick));
                    let w = choose|w: int|
                        0 <= w < pre.entries@.len() && #[trigger] pre.entries@[w].on == o;
                    assert(self.agents.entries@[w].on == o);
                }
            }
        }
    }

    /// Streams the ordered draw sequence to the consumer, one object at a
    /// time, stopping immediately the first time it answers false. Returns
    /// what was delivered together with the consumer's recorded answers:
    /// exactly the early-abort prefix those answers dictate.
    fn stream_to<C: RenderCallback>(items: &Vec<DrawRef>, callback: &mut C) -> (r: (
        Vec<DrawRef>,
        Vec<bool>,
    ))
        ensures
            r.0@ == delivered_spec(items@, r.1@),
            r.0@.len() == r.1@.len(),
            r.1@.len() <= items@.len(),
    {
        let mut delivered: Vec<DrawRef> = Vec::new();
        let mut answers: Vec<bool> = Vec::new();
        let mut j: usize = 0;
        let mut go = true;
        while go && j < items.len()
            invariant
                j <= items@.len(),
                delivered@.len() == j,
                answers@.len() == j,
                go ==> delivered@ == items@.take(j as int),
                go ==> forall|p: int| 0 <= p < j ==> answers@[p],
                !go ==> delivered@ == delivered_spec(items@, answers@),
            decreases items@.len() - j, (if go {
                1int
            } else {
                0
            }),
        {
            delivered.push(items[j]);
            let keep = callback.draw_next(&items[j]);
            answers.push(keep);
            j = j + 1;
            proof {
                assert(delivered@ =~= items@.take(j as int));
            }
            if !keep {
                go = false;
                proof {
                    law_early_abort(items@, answers@, j - 1);
                }
            }
        }
        proof {
            if go {
                law_full_delivery(items@, answers@);
                assert(delivered@ =~= items@);
            }
        }
        (delivered, answers)
    }

    /// Classifies one frame's queried ids by the recorded collaborator
    /// answers — `shown[k]` whether the k-th id is visible, `icons[k]`
    /// whether movement icons are shown for it where it is a lane or an
    /// intersection — into the merged static draw candidates in fixed
    /// category order, and the traversable segments recorded for dynamic
    /// agents.
    pub fn classify_frame(
        &self,
        map: &MapModel,
        ids: &Vec<ID>,
        shown: &Vec<bool>,
        icons: &Vec<bool>,
    ) -> (r: (Vec<DrawRef>, Vec<Traversable>))
        requires
            self.wf(),
            map.wf(),
            self.consistent_with(*map),
            shown@.len() == ids@.len(),
            icons@.len() == ids@.len(),
            forall|q: int| 0 <= q < ids@.len() ==> self.valid_static_id(#[trigger] ids@[q]),
        ensures
            r.0@ == classify_spec(*self, *map, ids@, shown@, icons@),
            r.1@ == segments_spec(*map, ids@, shown@, icons@),
    {
        let mut areas: Vec<DrawRef> = Vec::new();
        let mut parcels: Vec<DrawRef> = Vec::new();
        let mut lanes: Vec<DrawRef> = Vec::new();
        let mut intersections: Vec<DrawRef> = Vec::new();
        let mut buildings: Vec<DrawRef> = Vec::new();
        let mut extra_shapes: Vec<DrawRef> = Vec::new();
        let mut bus_stops: Vec<DrawRef> = Vec::new();
        let mut turn_icons: Vec<DrawRef> = Vec::new();
        let mut segments: Vec<Traversable> = Vec::new();
        let mut k: usize = 0;
        while k < ids.len()
            invariant
                self.wf(),
                map.wf(),
                self.consistent_with(*map),
                shown@.len() == ids@.len(),
                icons@.len() == ids@.len(),
                forall|q: int| 0 <= q < ids@.len() ==> self.valid_static_id(#[trigger] ids@[q]),
                k <= ids@.len(),
                areas@ == bucket_spec(*self, ids@.take(k as int), shown@.take(k as int), 0),
                parcels@ == bucket_spec(*self, ids@.take(k as int), shown@.take(k as int), 1),
                lanes@ == bucket_spec(*self, ids@.take(k as int), shown@.take(k as int), 2),
                intersections@ == bucket_spec(*self, ids@.take(k as int), shown@.take(k as int), 3),
                buildings@ == bucket_spec(*self, ids@.take(k as int), shown@.take(k as int), 4),
                extra_shapes@ == bucket_spec(*self, ids@.take(k as int), shown@.take(k as int), 5),
                bus_stops@ == bucket_spec(*self, ids@.take(k as int), shown@.take(k as int), 6),
                turn_icons@ == icons_spec(
                    *self,
                    *map,
                    ids@.take(k as int),
                    shown@.take(k as int),
                    icons@.take(k as int),
                ),
                segments@ == segments_spec(
                    *map,
                    ids@.take(k as int),
                    shown@.take(k as int),
                    icons@.take(k as int),
                ),
            decreases ids@.len() - k,
        {
            let id = ids[k];
            proof {
                assert(ids@.take(k + 1).drop_last() =~= ids@.take(k as int));
                assert(shown@.take(k + 1).drop_last() =~= shown@.take(k as int));
                assert(icons@.take(k + 1).drop_last() =~= icons@.take(k as int));
                assert(ids@.take(k + 1).last() == ids@[k as int]);
            }
            if shown[k] {
                match id {
                    ID::Area(a) => {
                        let d = self.get_a(a);
                        areas.push(DrawRef { id, bbox: d.bbox, zorder: d.zorder, payload: d.payload });
                    },
                    ID::Parcel(p) => {
                        let d = self.get_p(p);
                        parcels.push(DrawRef { id, bbox: d.bbox, zorder: d.zorder, payload: d.payload });
                    },
                    ID::Lane(l) => {
                        let d = self.get_l(l);
                        lanes.push(DrawRef { id, bbox: d.bbox, zorder: d.zorder, payload: d.payload });
                        if !icons[k] {
                            segments.push(Traversable::Lane(l));
                        }
                    },
                    ID::Intersection(x) => {
                        let d = self.get_i(x);
                        intersections.push(DrawRef { id, bbox: d.bbox, zorder: d.zorder, payload: d.payload });
                        let inter = map.get_intersection(x);
                        if icons[k] {
                            let mut ti: usize = 0;
                            while ti < inter.turns.len()
                                invariant
                                    self.wf(),
                                    map.wf(),
                                    self.consistent_with(*map),
                                    x.0 < map.intersections@.len(),
                                    inter == map.intersections@[x.0 as int],
                                    ti <= inter.turns@.len(),
                                    turn_icons@ == icons_spec(
                                        *self,
                                        *map,
                                        ids@.take(k as int),
                                        shown@.take(k as int),
                                        icons@.take(k as int),
                                    ) + icon_refs_of(*self, *map, x).take(ti as int),
                                decreases inter.turns@.len() - ti,
                            {
                                let t_id = inter.turns[ti];
                                proof {
                                    assert(map.has_turn(
                                        map.intersections@[x.0 as int].turns@[ti as int],
                                    ));
                                    let w = choose|w: int|
                                        0 <= w < map.turns@.len() && #[trigger] map.turns@[w].id
                                            == t_id;
                                    assert(self.has_draw_turn(map.turns@[w].id));
                                }
                                let dt = *self.get_t(t_id);
                                proof {
                                    let ka = choose|ka: int|
                                        0 <= ka < self.turns@.len() && #[trigger] self.turns@[ka]
                                            == dt && (forall|jj: int|
                                            0 <= jj < ka ==> self.turns@[jj].id != t_id);
                                    let kb = draw_turn_pos(*self, t_id);
                                    assert(self.turns@[kb].id == t_id);
                                    if ka < kb {
                                        assert(self.turns@[ka].id != self.turns@[kb].id);
                                    } else if kb < ka {
                                        assert(self.turns@[kb].id != self.turns@[ka].id);
                                    }
                                    assert(dt == self.turns@[draw_turn_pos(*self, t_id)]);
                                }
                                turn_icons.push(
                                    DrawRef { id: ID::Turn(t_id), bbox: dt.bbox, zorder: dt.zorder, payload: dt.payload },
                                );
                                proof {
                                    assert(turn_icons@ =~= icons_spec(
                                        *self,
                                        *map,
                                        ids@.take(k as int),
                                        shown@.take(k as int),
                                        icons@.take(k as int),
                                    ) + icon_refs_of(*self, *map, x).take(ti + 1));
                                }
                                ti = ti + 1;
                            }
                            proof {
                                assert(icon_refs_of(*self, *map, x).take(
                                    icon_refs_of(*self, *map, x).len() as int,
                                ) =~= icon_refs_of(*self, *map, x));
                            }
                        } else {
                            let mut ti: usize = 0;
                            while ti < inter.turns.len()
                                invariant
                                    map.wf(),
                                    x.0 < map.intersections@.len(),
                                    inter == map.intersections@[x.0 as int],
                                    ti <= inter.turns@.len(),
                                    segments@ == segments_spec(
                                        *map,
                                        ids@.take(k as int),
                                        shown@.take(k as int),
                                        icons@.take(k as int),
                                    ) + turn_segs_of(*map, x).take(ti as int),
                                decreases inter.turns@.len() - ti,
                            {
                                segments.push(Traversable::Turn(inter.turns[ti]));
                                proof {
                                    assert(segments@ =~= segments_spec(
                                        *map,
                                        ids@.take(k as int),
                                        shown@.take(k as int),
                                        icons@.take(k as int),
                                    ) + turn_segs_of(*map, x).take(ti + 1));
                                }
                                ti = ti + 1;
                            }
                            proof {
                                assert(turn_segs_of(*map, x).take(
                                    turn_segs_of(*map, x).len() as int,
                                ) =~= turn_segs_of(*map, x));
                            }
                        }
                    },
                    ID::Building(b) => {
                        let d = self.get_b(b);
                        buildings.push(DrawRef { id, bbox: d.bbox, zorder: d.zorder, payload: d.payload });
                    },
                    ID::ExtraShape(e) => {
                        let d = self.get_es(e);
                        extra_shapes.push(DrawRef { id, bbox: d.bbox, zorder: d.zorder, payload: d.payload });
                    },
                    ID::BusStop(bs) => {
                        let d = self.get_bs(bs);
                        bus_stops.push(DrawRef { id, bbox: d.bbox, zorder: d.zorder, payload: d.payload });
                    },
                    ID::Turn(_) | ID::Car(_) | ID::Pedestrian(_) | ID::Trip(_) => {
                        proof {
                            assert(false);
                        }
                    },
                }
            }
            proof {
                assert(areas@ =~= bucket_spec(*self, ids@.take(k + 1), shown@.take(k + 1), 0));
                assert(parcels@ =~= bucket_spec(*self, ids@.take(k + 1), shown@.take(k + 1), 1));
                assert(lanes@ =~= bucket_spec(*self, ids@.take(k + 1), shown@.take(k + 1), 2));
                assert(intersections@ =~= bucket_spec(
                    *self,
                    ids@.take(k + 1),
                    shown@.take(k + 1),
                    3,
                ));
                assert(buildings@ =~= bucket_spec(*self, ids@.take(k + 1), shown@.take(k + 1), 4));
                assert(extra_shapes@ =~= bucket_spec(
                    *self,
                    ids@.take(k + 1),
                    shown@.take(k + 1),
                    5,
                ));
                assert(bus_stops@ =~= bucket_spec(*self, ids@.take(k + 1), shown@.take(k + 1), 6));
                assert(turn_icons@ =~= icons_spec(
                    *self,
                    *map,
                    ids@.take(k + 1),
                    shown@.take(k + 1),
                    icons@.take(k + 1),
                ));
                assert(segments@ =~= segments_spec(
                    *map,
                    ids@.take(k + 1),
                    shown@.take(k + 1),
                    icons@.take(k + 1),
                ));
            }
            k = k + 1;
        }
        proof {
            assert(ids@.take(ids@.len() as int) =~= ids@);
            assert(shown@.take(shown@.len() as int) =~= shown@);
            assert(icons@.take(icons@.len() as int) =~= icons@);
        }
        let mut stat: Vec<DrawRef> = Vec::new();
        stat.append(&mut areas);
        stat.append(&mut parcels);
        stat.append(&mut lanes);
        stat.append(&mut intersections);
        stat.append(&mut buildings);
        stat.append(&mut extra_shapes);
        stat.append(&mut bus_stops);
        stat.append(&mut turn_icons);
        proof {
            assert(stat@ =~= classify_spec(*self, *map, ids@, shown@, icons@));
        }
        (stat, segments)
    }

    /// Produces one frame: queries the spatial index over the viewport, asks
    /// the visibility policy once per queried id (and the movement-icon
    /// policy once per visible lane or intersection), classifies the
    /// survivors into category buckets — areas, parcels, lanes,
    /// intersections, buildings, extra shapes, bus stops, turn icons,
    /// background first — materializes dynamic agents for every visible
    /// segment whose movement icons are suppressed, merges everything,
    /// stable-sorts by z-order (category order breaks ties), orients the
    /// sequence for `order`, and streams it to `callback` with early abort.
    /// Returns what was delivered: exactly the `frame_delivery` outcome for
    /// the recorded policy and consumer answers.
    pub fn handle_objects<T: ShowObjects, S: GetDrawAgents, C: RenderCallback>(
        &mut self,
        screen_bounds: BBox,
        map: &MapModel,
        sim: &S,
        show_objs: &T,
        order: RenderOrder,
        callback: &mut C,
    ) -> (delivered: Vec<DrawRef>)
        requires
            old(self).wf(),
            map.wf(),
            old(self).consistent_with(*map),
        ensures
            final(self).wf(),
            final(self).consistent_with(*map),
            final(self).lanes == old(self).lanes,
            final(self).intersections == old(self).intersections,
            final(self).turns == old(self).turns,
            final(self).buildings == old(self).buildings,
            final(self).parcels == old(self).parcels,
            final(self).extra_shapes == old(self).extra_shapes,
            final(self).bus_stops == old(self).bus_stops,
            final(self).areas == old(self).areas,
            final(self).index == old(self).index,
            exists|shown: Seq<bool>, icons: Seq<bool>, answers: Seq<bool>|
                #[trigger] frame_delivery(
                    *old(self),
                    *final(self),
                    *map,
                    screen_bounds,
                    order,
                    delivered@,
                    shown,
                    icons,
                    answers,
                ),
    {
        let ghost orig = *self;
        let tick = sim.tick();
        let ids = self.index.query(&screen_bounds);
        proof {
            law_query_exact(self.index, screen_bounds);
            assert forall|q: int| 0 <= q < ids@.len() implies self.valid_static_id(
                #[trigger] ids@[q],
            ) by {
                assert(query_spec(self.index.entries@, screen_bounds).contains(ids@[q]));
                let e = choose|e: int| hit_at(self.index.entries@, screen_bounds, ids@[q], e);
                assert(self.index.entries@[e].id == ids@[q]);
            }
        }
        let mut shown: Vec<bool> = Vec::new();
        let mut icons: Vec<bool> = Vec::new();
        let mut k: usize = 0;
        while k < ids.len()
            invariant
                orig == *old(self),
                *self == orig,
                orig.wf(),
                map.wf(),
                orig.consistent_with(*map),
                forall|q: int| 0 <= q < ids@.len() ==> orig.valid_static_id(#[trigger] ids@[q]),
                k <= ids@.len(),
                shown@.len() == k,
                icons@.len() == k,
            decreases ids@.len() - k,
        {
            let id = ids[k];
            let visible = show_objs.show(id);
            let icons_shown = if visible {
                match id {
                    ID::Lane(l) => show_objs.show_icons_for(map.get_lane(l).dst_i),
                    ID::Intersection(x) => show_objs.show_icons_for(x),
                    _ => false,
                }
            } else {
                false
            };
            shown.push(visible);
            icons.push(icons_shown);
            k = k + 1;
        }
        let classified = self.classify_frame(map, &ids, &shown, &icons);
        let stat = classified.0;
        let segments = classified.1;
        let ghost stat0 = stat@;
        let mut j: usize = 0;
        while j < segments.len()
            invariant
                orig == *old(self),
                self.lanes == orig.lanes,
                self.intersections == orig.intersections,
                self.turns == orig.turns,
                self.buildings == orig.buildings,
                self.parcels == orig.parcels,
                self.extra_shapes == orig.extra_shapes,
                self.bus_stops == orig.bus_stops,
                self.areas == orig.areas,
                self.index == orig.index,
                orig.wf(),
                self.agents.wf(),
                j <= segments@.len(),
                forall|t: int|
                    0 <= t < j ==> self.agents.has_spec(tick, #[trigger] segments@[t]),
            decreases segments@.len() - j,
        {
            self.ensure_agents(tick, segments[j], map, sim);
            j = j + 1;
        }
        let ghost mid = *self;
        let mut candidates = stat;
        let mut s2: usize = 0;
        while s2 < segments.len()
            invariant
                *self == mid,
                mid.agents.wf(),
                s2 <= segments@.len(),
                forall|t: int|
                    0 <= t < segments@.len() ==> self.agents.has_spec(
                        tick,
                        #[trigger] segments@[t],
                    ),
                candidates@ == stat0 + cached_agents_spec(self.agents, segments@.take(s2 as int)),
            decreases segments@.len() - s2,
        {
            let on = segments[s2];
            let list = self.agents.get(on);
            let ghost before_len = candidates@.len();
            let mut q: usize = 0;
            while q < list.len()
                invariant
                    q <= list@.len(),
                    candidates@ == stat0 + cached_agents_spec(
                        self.agents,
                        segments@.take(s2 as int),
                    ) + list@.take(q as int),
                    list@ == self.agents.agents_spec(segments@[s2 as int]),
                    *self == mid,
                    mid.agents.wf(),
                    s2 < segments@.len(),
                    forall|t: int|
                        0 <= t < segments@.len() ==> self.agents.has_spec(
                            tick,
                            #[trigger] segments@[t],
                        ),
                decreases list@.len() - q,
            {
                candidates.push(list[q]);
                proof {
                    assert(candidates@ =~= stat0 + cached_agents_spec(
                        self.agents,
                        segments@.take(s2 as int),
                    ) + list@.take(q + 1));
                }
                q = q + 1;
            }
            proof {
                assert(segments@.take(s2 + 1).drop_last() =~= segments@.take(s2 as int));
                assert(segments@.take(s2 + 1).last() == segments@[s2 as int]);
                assert(list@.take(list@.len() as int) =~= list@);
                assert(candidates@ =~= stat0 + cached_agents_spec(
                    self.agents,
                    segments@.take(s2 + 1),
                ));
            }
            s2 = s2 + 1;
        }
        proof {
            assert(segments@.take(segments@.len() as int) =~= segments@);
        }
        let ordered = sorted_for_render(&candidates, order);
        let streamed = DrawMap::stream_to(&ordered, callback);
        let delivered = streamed.0;
        let answers = streamed.1;
        proof {
            assert forall|t: int| 0 <= t < segments@.len() implies self.agents.contains_seg(
                #[trigger] segments@[t],
            ) by {
                assert(self.agents.has_spec(tick, segments@[t]));
            }
            assert(frame_delivery(
                *old(self),
                *self,
                *map,
                screen_bounds,
                order,
                delivered@,
                shown@,
                icons@,
                answers@,
            ));
        }
        delivered
    }

    /// Rebuilds exactly one lane's drawable in place after a lane type edit.
    /// The spatial index is not touched: a lane's bounding box does not
    /// depend on its type.
    pub fn edit_lane_type(&mut self, id: LaneID, map: &MapModel)
        requires
            old(self).wf(),
            map.wf(),
            old(self).consistent_with(*map),
            id.0 < map.lanes@.len(),
        ensures
            final(self).lanes@ == old(self).lanes@.update(
                id.0 as int,
                (DrawLane {
                    id: map.lanes@[id.0 as int].id,
                    bbox: map.lanes@[id.0 as int].bbox,
                    zorder: map.lanes@[id.0 as int].zorder,
                    payload: map.lanes@[id.0 as int].payload,
                }),
            ),
            final(self).index == old(self).index,
            final(self).turns == old(self).turns,
            final(self).intersections == old(self).intersections,
            final(self).buildings == old(self).buildings,
            final(self).parcels == old(self).parcels,
            final(self).extra_shapes == old(self).extra_shapes,
            final(self).bus_stops == old(self).bus_stops,
            final(self).areas == old(self).areas,
            final(self).agents == old(self).agents,
            final(self).wf(),
            final(self).consistent_with(*map),
    {
        let l = &map.lanes[id.0];
        self.lanes[id.0] = DrawLane { id: l.id, bbox: l.bbox, zorder: l.zorder, payload: l.payload };
    }

    /// Removes the drawable of one turn, if present.
    pub fn edit_remove_turn(&mut self, id: TurnID)
        requires
            old(self).wf(),
        ensures
            final(self).turns@ == remove_first_turn(old(self).turns@, id),
            !final(self).has_draw_turn(id),
            final(self).index == old(self).index,
            final(self).lanes == old(self).lanes,
            final(self).intersections == old(self).intersections,
            final(self).buildings == old(self).buildings,
            final(self).parcels == old(self).parcels,
            final(self).extra_shapes == old(self).extra_shapes,
            final(self).bus_stops == old(self).bus_stops,
            final(self).areas == old(self).areas,
            final(self).agents == old(self).agents,
            final(self).wf(),
    {
        let ghost orig = *self;
        let mut i: usize = 0;
        while i < self.turns.len()
            invariant
                orig == *old(self),
                *self == orig,
                orig.wf(),
                i <= self.turns@.len(),
                forall|j: int| 0 <= j < i ==> self.turns@[j].id != id,
            decreases self.turns@.len() - i,
        {
            if self.turns[i].id == id {
                proof {
                    assert(self.turns@[i as int].id == id);
                }
                self.turns.remove(i);
                proof {
                    lemma_remove_first_at(orig.turns@, id, i as int);
                    lemma_remove_first_no_id(orig.turns@, id);
                    if self.has_draw_turn(id) {
                        let k = choose|k: int|
                            0 <= k < self.turns@.len() && (#[trigger] self.turns@[k]).id == id;
                        assert(false);
                    }
                }
                return;
            }
            i = i + 1;
        }
        proof {
            lemma_remove_first_absent(self.turns@, id);
            if self.has_draw_turn(id) {
                let k = choose|k: int|
                    0 <= k < self.turns@.len() && (#[trigger] self.turns@[k]).id == id;
                assert(false);
            }
        }
    }

    /// Inserts (or replaces) the drawable of one turn, recomputing its icon
    /// offset from its source lane's full current turn set.
    pub fn edit_add_turn(&mut self, id: TurnID, map: &MapModel)
        requires
            old(self).wf(),
            map.wf(),
            map.has_turn(id),
        ensures
            final(self).turns@ == remove_first_turn(old(self).turns@, id).push(
                final(self).turns@.last(),
            ),
            final(self).turns@.last().id == id,
            final(self).turns@.last().bbox == map.turn_of(id).bbox,
            final(self).turns@.last().zorder == map.turn_of(id).zorder,
            final(self).turns@.last().payload == map.turn_of(id).payload,
            exists|p: int|
                0 <= p < lane_offsets_spec(*map, map.lanes@[id.src.0 as int]).len()
                    && #[trigger] lane_offsets_spec(*map, map.lanes@[id.src.0 as int])[p] == (
                id,
                final(self).turns@.last().offset,
            ),
            final(self).has_draw_turn(id),
            final(self).index == old(self).index,
            final(self).lanes == old(self).lanes,
            final(self).intersections == old(self).intersections,
            final(self).buildings == old(self).buildings,
            final(self).parcels == old(self).parcels,
            final(self).extra_shapes == old(self).extra_shapes,
            final(self).bus_stops == old(self).bus_stops,
            final(self).areas == old(self).areas,
            final(self).agents == old(self).agents,
            final(self).wf(),
    {
        proof {
            let k = map.turn_index(id);
            assert(map.turns@[k].id == id);
            assert(map.turns@[k].id.src.0 < map.lanes@.len());
        }
        self.edit_remove_turn(id);
        let src_lane = map.get_lane(id.src);
        let mut offsets: Vec<(TurnID, usize)> = Vec::new();
        DrawMap::compute_turn_to_lane_offset(&mut offsets, src_lane, map);
        proof {
            lemma_offsets_has_turn(*map, map.lanes@[id.src.0 as int], id);
        }
        let off = offset_of(&offsets, id);
        let t = map.get_turn(id);
        let ghost mid = self.turns@;
        proof {
            assert(forall|k: int| 0 <= k < mid.len() ==> (#[trigger] mid[k]).id != id);
        }
        self.turns.push(DrawTurn { id, offset: off, bbox: t.bbox, zorder: t.zorder, payload: t.payload });
        proof {
            assert(self.turns@.last().id == id);
            assert forall|i: int, j: int| 0 <= i < j < self.turns@.len() implies self.turns@[i].id
                != self.turns@[j].id by {
                if j < mid.len() {
                    assert(self.turns@[i] == mid[i] && self.turns@[j] == mid[j]);
                } else {
                    assert(self.turns@[i] == mid[i]);
                }
            }
        }
    }

    pub fn get_l(&self, id: LaneID) -> (r: &DrawLane)
        requires
            id.0 < self.lanes@.len(),
        ensures
            r == self.lanes@[id.0 as int],
    {
        &self.lanes[id.0]
    }

    pub fn get_i(&self, id: IntersectionID) -> (r: &DrawIntersection)
        requires
            id.0 < self.intersections@.len(),
        ensures
            r == self.intersections@[id.0 as int],
    {
        &self.intersections[id.0]
    }

    /// Point lookup of a turn drawable by its id; returns the first match.
    pub fn get_t(&self, id: TurnID) -> (r: &DrawTurn)
        requires
            self.has_draw_turn(id),
        ensures
            r.id == id,
            self.turns@.contains(*r),
            exists|k: int|
                0 <= k < self.turns@.len() && #[trigger] self.turns@[k] == *r && (forall|j: int|
                    0 <= j < k ==> self.turns@[j].id != id),
    {
        let mut i: usize = 0;
        while i < self.turns.len()
            invariant
                i <= self.turns@.len(),
                forall|j: int| 0 <= j < i ==> self.turns@[j].id != id,
            decreases self.turns@.len() - i,
        {
            if self.turns[i].id == id {
                proof {
                    assert(self.turns@[i as int].id == id);
                    assert(self.turns@.contains(self.turns@[i as int]));
                }
                return &self.turns[i];
            }
            i = i + 1;
        }
        proof {
            let k = choose|k: int| 0 <= k < self.turns@.len() && (#[trigger] self.turns@[k]).id == id;
            assert(false);
        }
        vstd::pervasive::unreached()
    }

    pub fn get_b(&self, id: crate::ids::BuildingID) -> (r: &DrawBuilding)
        requires
            id.0 < self.buildings@.len(),
        ensures
            r == self.buildings@[id.0 as int],
    {
        &self.buildings[id.0]
    }

    pub fn get_p(&self, id: crate::ids::ParcelID) -> (r: &DrawParcel)
        requires
            id.0 < self.parcels@.len(),
        ensures
            r == self.parcels@[id.0 as int],
    {
        &self.parcels[id.0]
    }

    pub fn get_es(&self, id: crate::ids::ExtraShapeID) -> (r: &DrawExtraShape)
        requires
            id.0 < self.extra_shapes@.len(),
        ensures
            r == self.extra_shapes@[id.0 as int],
    {
        &self.extra_shapes[id.0]
    }

    pub fn get_bs(&self, id: crate::ids::BusStopID) -> (r: &DrawBusStop)
        requires
            id.0 < self.bus_stops@.len(),
        ensures
            r == self.bus_stops@[id.0 as int],
    {
        &self.bus_stops[id.0]
    }

    pub fn get_a(&self, id: crate::ids::AreaID) -> (r: &DrawArea)
        requires
            id.0 < self.areas@.len(),
        ensures
            r == self.areas@[id.0 as int],
    {
        &self.areas[id.0]
    }

    /// The lanes whose bounding boxes intersect `bounds`, in index order.
    pub fn get_matching_lanes(&self, bounds: &BBox) -> (r: Vec<LaneID>)
        ensures
            r@ == lane_ids_spec(query_spec(self.index.entries@, *bounds)),
    {
        let ids = self.index.query(bounds);
        let mut results: Vec<LaneID> = Vec::new();
        let mut i: usize = 0;
        while i < ids.len()
            invariant
                i <= ids@.len(),
                ids@ == query_spec(self.index.entries@, *bounds),
                results@ == lane_ids_spec(ids@.take(i as int)),
            decreases ids@.len() - i,
        {
            proof {
                assert(ids@.take(i + 1).drop_last() =~= ids@.take(i as int));
                assert(ids@.take(i + 1).last() == ids@[i as int]);
            }
            if let ID::Lane(l) = ids[i] {
                results.push(l);
                proof {
                    assert(results@ =~= lane_ids_spec(ids@.take(i + 1)));
                }
            } else {
                proof {
                    assert(results@ =~= lane_ids_spec(ids@.take(i + 1)));
                }
            }
            i = i + 1;
        }
        proof {
            assert(ids@.take(ids@.len() as int) =~= ids@);
        }
        results
    }
}

/// `s` without its first drawable carrying `id`, if any.
pub open spec fn remove_first_turn(s: Seq<DrawTurn>, id: TurnID) -> Seq<DrawTurn>
    decreases s.len(),
{
    if s.len() == 0 {
        s
    } else if s.first().id == id {
        s.drop_first()
    } else {
        seq![s.first()] + remove_first_turn(s.drop_first(), id)
    }
}

proof fn lemma_remove_first_at(s: Seq<DrawTurn>, id: TurnID, k: int)
    requires
        0 <= k < s.len(),
        s[k].id == id,
        forall|j: int| 0 <= j < k ==> s[j].id != id,
    ensures
        remove_first_turn(s, id) == s.remove(k),
    decreases s.len(),
{
    if k == 0 {
        assert(s.first().id == id);
        assert(s.drop_first() =~= s.remove(0));
    } else {
        assert(s.first().id != id);
        let d = s.drop_first();
        assert(d[k - 1].id == id);
        assert(forall|j: int| 0 <= j < k - 1 ==> d[j].id != id);
        lemma_remove_first_at(d, id, k - 1);
        assert(seq![s.first()] + d.remove(k - 1) =~= s.remove(k));
    }
}

proof fn lemma_remove_first_absent(s: Seq<DrawTurn>, id: TurnID)
    requires
        forall|j: int| 0 <= j < s.len() ==> s[j].id != id,
    ensures
        remove_first_turn(s, id) == s,
    decreases s.len(),
{
    if s.len() > 0 {
        assert(s.first().id != id);
        let d = s.drop_first();
        lemma_remove_first_absent(d, id);
        assert(seq![s.first()] + d =~= s);
    }
}

/// When turn ids are unique, removing the first match removes the id
/// entirely, keeps every other element, and keeps ids unique.
proof fn lemma_remove_first_no_id(s: Seq<DrawTurn>, id: TurnID)
    requires
        forall|i: int, j: int| 0 <= i < j < s.len() ==> s[i].id != s[j].id,
    ensures
        forall|j: int|
            0 <= j < remove_first_turn(s, id).len() ==> (#[trigger] remove_first_turn(s, id)[j]).id
                != id,
        forall|j: int|
            0 <= j < remove_first_turn(s, id).len() ==> s.contains(
                #[trigger] remove_first_turn(s, id)[j],
            ),
        forall|i: int, j: int|
            0 <= i < j < remove_first_turn(s, id).len() ==> remove_first_turn(s, id)[i].id
                != remove_first_turn(s, id)[j].id,
    decreases s.len(),
{
    if s.len() > 0 {
        let out = remove_first_turn(s, id);
        if s.first().id == id {
            assert forall|j: int| 0 <= j < out.len() implies (#[trigger] out[j]).id != id
                && s.contains(out[j]) by {
                assert(out[j] == s[j + 1]);
                assert(s[0].id != s[j + 1].id);
            }
        } else {
            let d = s.drop_first();
            assert(forall|i: int, j: int| 0 <= i < j < d.len() ==> d[i].id != d[j].id);
            lemma_remove_first_no_id(d, id);
            let rec = remove_first_turn(d, id);
            assert forall|j: int| 0 <= j < out.len() implies (#[trigger] out[j]).id != id
                && s.contains(out[j]) by {
                if j == 0 {
                    assert(out[0] == s.first());
                    assert(s.contains(s[0]));
                } else {
                    assert(out[j] == rec[j - 1]);
                    assert(d.contains(rec[j - 1]));
                    let i = choose|i: int| 0 <= i < d.len() && d[i] == rec[j - 1];
                    assert(s[i + 1] == d[i]);
                    assert(s.contains(s[i + 1]));
                }
            }
            assert forall|i: int, j: int| 0 <= i < j < out.len() implies out[i].id
                != out[j].id by {
                if i == 0 {
                    assert(out[j] == rec[j - 1]);
                    assert(d.contains(rec[j - 1]));
                    let w = choose|w: int| 0 <= w < d.len() && d[w] == rec[j - 1];
                    assert(s[w + 1] == d[w]);
                    assert(s[0].id != s[w + 1].id);
                } else {
                    assert(out[i] == rec[i - 1] && out[j] == rec[j - 1]);
                }
            }
        }
    }
}

/// Looks up the offset assigned to one turn.
fn offset_of(offsets: &Vec<(TurnID, usize)>, id: TurnID) -> (r: usize)
    requires
        exists|p: int| 0 <= p < offsets@.len() && #[trigger] offsets@[p].0 == id,
    ensures
        exists|p: int| 0 <= p < offsets@.len() && #[trigger] offsets@[p] == (id, r),
{
    let mut i: usize = 0;
    while i < offsets.len()
        invariant
            i <= offsets@.len(),
            forall|j: int| 0 <= j < i ==> (#[trigger] offsets@[j]).0 != id,
        decreases offsets@.len() - i,
    {
        let pair = offsets[i];
        if pair.0 == id {
            proof {
                assert(offsets@[i as int] == (id, pair.1));
            }
            return pair.1;
        }
        i = i + 1;
    }
    proof {
        let p = choose|p: int| 0 <= p < offsets@.len() && #[trigger] offsets@[p].0 == id;
        assert(false);
    }
    vstd::pervasive::unreached()
}

/// Law: an edit that replaces one lane's drawable in place leaves the
/// spatial index untouched, so a spatial query over the same viewport
/// returns the same identifier sequence as before the edit.
pub proof fn law_edit_preserves_queries(before: DrawMap, after: DrawMap, rect: BBox)
    requires
        after.index.entries@ == before.index.entries@,
    ensures
        query_spec(after.index.entries@, rect) == query_spec(before.index.entries@, rect),
{
}

/// After a build, the index holds only valid static identifiers and none
/// twice: each category contributes one entry per drawable, at the slot its
/// dense identifier dictates.
proof fn lemma_built_index_wf(dm: DrawMap)
    requires
        forall|i: int|
            0 <= i < dm.lanes@.len() ==> (#[trigger] dm.lanes@[i]).id.0 == i,
        forall|i: int|
            0 <= i < dm.intersections@.len() ==> (#[trigger] dm.intersections@[i]).id.0 == i,
        forall|i: int| 0 <= i < dm.buildings@.len() ==> (#[trigger] dm.buildings@[i]).id.0 == i,
        forall|i: int| 0 <= i < dm.parcels@.len() ==> (#[trigger] dm.parcels@[i]).id.0 == i,
        forall|i: int|
            0 <= i < dm.extra_shapes@.len() ==> (#[trigger] dm.extra_shapes@[i]).id.0 == i,
        forall|i: int| 0 <= i < dm.bus_stops@.len() ==> (#[trigger] dm.bus_stops@[i]).id.0 == i,
        forall|i: int| 0 <= i < dm.areas@.len() ==> (#[trigger] dm.areas@[i]).id.0 == i,
        dm.index.entries@ == static_entries(dm),
    ensures
        dm.index.wf(),
        forall|e: int|
            0 <= e < dm.index.entries@.len()
                ==> dm.valid_static_id((#[trigger] dm.index.entries@[e]).id),
{
    let s = dm.index.entries@;
    let c1 = lane_entries(dm.lanes@);
    let c2 = c1 + intersection_entries(dm.intersections@);
    let c3 = c2 + building_entries(dm.buildings@);
    let c4 = c3 + parcel_entries(dm.parcels@);
    let c5 = c4 + extra_shape_entries(dm.extra_shapes@);
    let c6 = c5 + bus_stop_entries(dm.bus_stops@);
    assert(s == c6 + area_entries(dm.areas@));
    assert forall|k: int| 0 <= k < s.len() implies entry_slot(dm, (#[trigger] s[k]).id) == k
        && dm.valid_static_id(s[k].id) by {
        if k < c1.len() {
            assert(s[k] == c1[k]);
            assert(s[k].id == ID::Lane(dm.lanes@[k].id));
        } else if k < c2.len() {
            assert(s[k] == c2[k]);
            assert(s[k].id == ID::Intersection(dm.intersections@[k - c1.len()].id));
        } else if k < c3.len() {
            assert(s[k] == c3[k]);
            assert(s[k].id == ID::Building(dm.buildings@[k - c2.len()].id));
        } else if k < c4.len() {
            assert(s[k] == c4[k]);
            assert(s[k].id == ID::Parcel(dm.parcels@[k - c3.len()].id));
        } else if k < c5.len() {
            assert(s[k] == c5[k]);
            assert(s[k].id == ID::ExtraShape(dm.extra_shapes@[k - c4.len()].id));
        } else if k < c6.len() {
            assert(s[k] == c6[k]);
            assert(s[k].id == ID::BusStop(dm.bus_stops@[k - c5.len()].id));
        } else {
            assert(s[k] == area_entries(dm.areas@)[k - c6.len()]);
            assert(s[k].id == ID::Area(dm.areas@[k - c6.len()].id));
        }
    }
    assert forall|a: int, b: int| 0 <= a < b < s.len() implies s[a].id != s[b].id by {
        if s[a].id == s[b].id {
            assert(entry_slot(dm, s[a].id) == a);
            assert(entry_slot(dm, s[b].id) == b);
            assert(false);
        }
    }
}

/// Every lane's turn drawables are part of the whole map's.
proof fn lemma_all_draw_turns_has(map: MapModel, n: int, m: int, id: TurnID)
    requires
        0 <= m < n <= map.lanes@.len(),
        seq_has_turn(lane_draw_turns_spec(map, map.lanes@[m]), id),
    ensures
        seq_has_turn(all_draw_turns_spec(map, n), id),
    decreases n,
{
    let whole = all_draw_turns_spec(map, n);
    let prefix = all_draw_turns_spec(map, n - 1);
    if m == n - 1 {
        let lane_turns = lane_draw_turns_spec(map, map.lanes@[m]);
        let p = choose|p: int| 0 <= p < lane_turns.len() && (#[trigger] lane_turns[p]).id == id;
        assert(whole[prefix.len() + p].id == id);
    } else {
        lemma_all_draw_turns_has(map, n - 1, m, id);
        let k = choose|k: int| 0 <= k < prefix.len() && (#[trigger] prefix[k]).id == id;
        assert(whole[k].id == id);
    }
}

/// Each keyed turn of a group is an element of the map's turn sequence and
/// belongs there: it starts at `src` and matches the group's destination
/// side.
proof fn lemma_group_elements(s: Seq<TurnRec>, src: LaneID, dst: IntersectionID, near: bool, p: int)
    requires
        0 <= p < group_spec(s, src, dst, near).len(),
    ensures
        s.contains(group_spec(s, src, dst, near)[p].val),
        group_spec(s, src, dst, near)[p].val.id.src == src,
        (group_spec(s, src, dst, near)[p].val.id.parent == dst) == near,
        group_spec(s, src, dst, near)[p].key == group_spec(s, src, dst, near)[p].val.angle_degrees,
    decreases s.len(),
{
    if s.len() > 0 {
        let dl = s.drop_last();
        let rest = group_spec(dl, src, dst, near);
        if p < rest.len() {
            lemma_group_elements(dl, src, dst, near, p);
            let i = choose|i: int| 0 <= i < dl.len() && dl[i] == rest[p].val;
            assert(s[i] == rest[p].val);
            assert(s.contains(rest[p].val));
        } else {
            assert(group_spec(s, src, dst, near)[p].val == s.last());
            assert(s.contains(s.last()));
        }
    }
}

/// When the map's turn ids are unique, so are a group's.
proof fn lemma_group_distinct(s: Seq<TurnRec>, src: LaneID, dst: IntersectionID, near: bool)
    requires
        forall|i: int, j: int| 0 <= i < j < s.len() ==> s[i].id != s[j].id,
    ensures
        group_spec(s, src, dst, near).no_duplicates(),
        forall|p: int, q: int|
            0 <= p < q < group_spec(s, src, dst, near).len() ==> group_spec(
                s,
                src,
                dst,
                near,
            )[p].val.id != group_spec(s, src, dst, near)[q].val.id,
    decreases s.len(),
{
    if s.len() > 0 {
        let dl = s.drop_last();
        assert(forall|i: int, j: int| 0 <= i < j < dl.len() ==> dl[i].id != dl[j].id);
        lemma_group_distinct(dl, src, dst, near);
        let out = group_spec(s, src, dst, near);
        let rest = group_spec(dl, src, dst, near);
        if out.len() > rest.len() {
            assert forall|p: int| 0 <= p < rest.len() implies rest[p].val.id != s.last().id by {
                lemma_group_elements(dl, src, dst, near, p);
                let i = choose|i: int| 0 <= i < dl.len() && dl[i] == rest[p].val;
                assert(s[i] == dl[i]);
                assert(s[i].id != s[s.len() - 1].id);
            }
            assert forall|p: int, q: int| 0 <= p < q < out.len() implies out[p] != out[q]
                && out[p].val.id != out[q].val.id by {
                if q < rest.len() {
                    assert(out[p] == rest[p] && out[q] == rest[q]);
                } else {
                    assert(out[p] == rest[p]);
                    assert(out[q].val == s.last());
                }
            }
        }
    }
}

/// A sorted group keeps its turn ids distinct.
proof fn lemma_sorted_group_distinct(g: Seq<Keyed<TurnRec>>)
    requires
        g.no_duplicates(),
        forall|p: int, q: int| 0 <= p < q < g.len() ==> g[p].val.id != g[q].val.id,
    ensures
        forall|p: int, q: int|
            0 <= p < q < stable_sort_spec(g).len() ==> stable_sort_spec(g)[p].val.id
                != stable_sort_spec(g)[q].val.id,
{
    let sorted = stable_sort_spec(g);
    crate::sorting::law_stable_sort_no_duplicates(g);
    assert forall|p: int, q: int| 0 <= p < q < sorted.len() implies sorted[p].val.id
        != sorted[q].val.id by {
        law_stable_sort_members(g, p);
        law_stable_sort_members(g, q);
        if sorted[p].val.id == sorted[q].val.id {
            let i = choose|i: int| 0 <= i < g.len() && g[i] == sorted[p];
            let j = choose|j: int| 0 <= j < g.len() && g[j] == sorted[q];
            if i < j {
                assert(g[i].val.id != g[j].val.id);
            } else if j < i {
                assert(g[j].val.id != g[i].val.id);
            }
            assert(i == j);
            assert(sorted[p] == sorted[q]);
            assert(false);
        }
    }
}

/// One lane's turn drawables carry distinct ids, all starting at that lane.
proof fn lemma_lane_draw_turns_distinct(map: MapModel, l: LaneRec)
    requires
        map.wf(),
    ensures
        forall|p: int, q: int|
            0 <= p < q < lane_draw_turns_spec(map, l).len() ==> lane_draw_turns_spec(map, l)[p].id
                != lane_draw_turns_spec(map, l)[q].id,
        forall|p: int|
            0 <= p < lane_draw_turns_spec(map, l).len() ==> (#[trigger] lane_draw_turns_spec(
                map,
                l,
            )[p]).id.src == l.id,
    decreases map.turns@.len(),
{
    let g0 = group_spec(map.turns@, l.id, l.dst_i, true);
    let g1 = group_spec(map.turns@, l.id, l.dst_i, false);
    let s0 = stable_sort_spec(g0);
    let s1 = stable_sort_spec(g1);
    lemma_group_distinct(map.turns@, l.id, l.dst_i, true);
    lemma_group_distinct(map.turns@, l.id, l.dst_i, false);
    lemma_sorted_group_distinct(g0);
    lemma_sorted_group_distinct(g1);
    assert forall|p: int| 0 <= p < s0.len() implies (#[trigger] s0[p]).val.id.src == l.id
        && s0[p].val.id.parent == l.dst_i by {
        law_stable_sort_members(g0, p);
        let i = choose|i: int| 0 <= i < g0.len() && g0[i] == s0[p];
        lemma_group_elements(map.turns@, l.id, l.dst_i, true, i);
    }
    assert forall|p: int| 0 <= p < s1.len() implies (#[trigger] s1[p]).val.id.src == l.id
        && s1[p].val.id.parent != l.dst_i by {
        law_stable_sort_members(g1, p);
        let i = choose|i: int| 0 <= i < g1.len() && g1[i] == s1[p];
        lemma_group_elements(map.turns@, l.id, l.dst_i, false, i);
    }
}

/// The whole map's turn drawables carry distinct ids; each starts at one of
/// the first `n` lanes.
proof fn lemma_all_draw_turns_distinct(map: MapModel, n: int)
    requires
        map.wf(),
        0 <= n <= map.lanes@.len(),
    ensures
        forall|p: int, q: int|
            0 <= p < q < all_draw_turns_spec(map, n).len() ==> all_draw_turns_spec(map, n)[p].id
                != all_draw_turns_spec(map, n)[q].id,
        forall|p: int|
            0 <= p < all_draw_turns_spec(map, n).len() ==> (#[trigger] all_draw_turns_spec(
                map,
                n,
            )[p]).id.src.0 < n,
    decreases n,
{
    if n > 0 {
        lemma_all_draw_turns_distinct(map, n - 1);
        lemma_lane_draw_turns_distinct(map, map.lanes@[n - 1]);
        let whole = all_draw_turns_spec(map, n);
        let prefix = all_draw_turns_spec(map, n - 1);
        let lane_part = lane_draw_turns_spec(map, map.lanes@[n - 1]);
        assert(map.lanes@[n - 1].id.0 == n - 1);
        assert forall|p: int| 0 <= p < whole.len() implies (#[trigger] whole[p]).id.src.0 < n by {
            if p < prefix.len() {
                assert(whole[p] == prefix[p]);
            } else {
                assert(whole[p] == lane_part[p - prefix.len()]);
                assert(lane_part[p - prefix.len()].id.src == map.lanes@[n - 1].id);
            }
        }
        assert forall|p: int, q: int| 0 <= p < q < whole.len() implies whole[p].id
            != whole[q].id by {
            if q < prefix.len() {
                assert(whole[p] == prefix[p] && whole[q] == prefix[q]);
            } else if p >= prefix.len() {
                assert(whole[p] == lane_part[p - prefix.len()]);
                assert(whole[q] == lane_part[q - prefix.len()]);
            } else {
                assert(whole[p] == prefix[p]);
                assert(whole[q] == lane_part[q - prefix.len()]);
                assert(prefix[p].id.src.0 < n - 1);
                assert(lane_part[q - prefix.len()].id.src == map.lanes@[n - 1].id);
            }
        }
    }
}

/// Every keyed turn in a group carries its own traversal angle as the key.
proof fn lemma_group_keys(s: Seq<TurnRec>, src: LaneID, dst: IntersectionID, near: bool, p: int)
    requires
        0 <= p < group_spec(s, src, dst, near).len(),
    ensures
        group_spec(s, src, dst, near)[p].key == group_spec(s, src, dst, near)[p].val.angle_degrees,
    decreases s.len(),
{
    if s.len() > 0 {
        let rest = group_spec(s.drop_last(), src, dst, near);
        if p < rest.len() {
            lemma_group_keys(s.drop_last(), src, dst, near, p);
        }
    }
}

/// Law: icon offsets are unique and dense from zero within each destination
/// group, assigned by ascending traversal angle within the group. The near
/// group (turns ending at the lane's destination intersection) comes first.
pub proof fn law_offsets_dense_and_ordered(map: MapModel, l: LaneRec)
    ensures
        ({
            let s0 = stable_sort_spec(group_spec(map.turns@, l.id, l.dst_i, true));
            let s1 = stable_sort_spec(group_spec(map.turns@, l.id, l.dst_i, false));
            let offs = lane_offsets_spec(map, l);
            &&& offs.len() == s0.len() + s1.len()
            &&& forall|p: int| 0 <= p < s0.len() ==> (#[trigger] offs[p]).1 == p as usize
            &&& forall|p: int|
                s0.len() <= p < offs.len() ==> (#[trigger] offs[p]).1 == (p - s0.len()) as usize
            &&& forall|p: int, q: int|
                0 <= p < q < s0.len() ==> (#[trigger] s0[p]).val.angle_degrees
                    <= (#[trigger] s0[q]).val.angle_degrees
            &&& forall|p: int, q: int|
                0 <= p < q < s1.len() ==> (#[trigger] s1[p]).val.angle_degrees
                    <= (#[trigger] s1[q]).val.angle_degrees
        }),
{
    let g0 = group_spec(map.turns@, l.id, l.dst_i, true);
    let g1 = group_spec(map.turns@, l.id, l.dst_i, false);
    let s0 = stable_sort_spec(g0);
    let s1 = stable_sort_spec(g1);
    law_stable_sort_sorted(g0);
    law_stable_sort_sorted(g1);
    assert forall|p: int| 0 <= p < s0.len() implies (#[trigger] s0[p]).key
        == s0[p].val.angle_degrees by {
        law_stable_sort_members(g0, p);
        let i = choose|i: int| 0 <= i < g0.len() && g0[i] == s0[p];
        lemma_group_keys(map.turns@, l.id, l.dst_i, true, i);
    }
    assert forall|p: int| 0 <= p < s1.len() implies (#[trigger] s1[p]).key
        == s1[p].val.angle_degrees by {
        law_stable_sort_members(g1, p);
        let i = choose|i: int| 0 <= i < g1.len() && g1[i] == s1[p];
        lemma_group_keys(map.turns@, l.id, l.dst_i, false, i);
    }
}

/// A turn of the map belongs to one of its source lane's two groups.
proof fn lemma_group_contains(
    s: Seq<TurnRec>,
    src: LaneID,
    dst: IntersectionID,
    near: bool,
    k: int,
)
    requires
        0 <= k < s.len(),
        s[k].id.src == src,
        (s[k].id.parent == dst) == near,
    ensures
        group_spec(s, src, dst, near).contains((Keyed { key: s[k].angle_degrees, val: s[k] })),
    decreases s.len(),
{
    let out = group_spec(s, src, dst, near);
    if k == s.len() - 1 {
        assert(out.last() == (Keyed { key: s[k].angle_degrees, val: s[k] }));
    } else {
        let dl = s.drop_last();
        assert(dl[k] == s[k]);
        lemma_group_contains(dl, src, dst, near, k);
        let rest = group_spec(dl, src, dst, near);
        let y = Keyed { key: s[k].angle_degrees, val: s[k] };
        let p = choose|p: int| 0 <= p < rest.len() && rest[p] == y;
        assert(out[p] == y);
        assert(out.contains(y));
    }
}

/// Every turn of the map starting at lane `l` gets an offset.
pub proof fn lemma_offsets_has_turn(map: MapModel, l: LaneRec, id: TurnID)
    requires
        map.wf(),
        map.has_turn(id),
        id.src == l.id,
    ensures
        exists|p: int|
            0 <= p < lane_offsets_spec(map, l).len() && #[trigger] lane_offsets_spec(map, l)[p].0
                == id,
{
    let k = map.turn_index(id);
    let t = map.turns@[k];
    let near = (t.id.parent == l.dst_i);
    let y = Keyed { key: t.angle_degrees, val: t };
    lemma_group_contains(map.turns@, l.id, l.dst_i, near, k);
    law_stable_sort_contains(group_spec(map.turns@, l.id, l.dst_i, near), y);
    let s0 = stable_sort_spec(group_spec(map.turns@, l.id, l.dst_i, true));
    let s1 = stable_sort_spec(group_spec(map.turns@, l.id, l.dst_i, false));
    let out = lane_offsets_spec(map, l);
    if near {
        let q = choose|q: int| 0 <= q < s0.len() && s0[q] == y;
        assert(out[q].0 == id);
    } else {
        let q = choose|q: int| 0 <= q < s1.len() && s1[q] == y;
        assert(out[s0.len() + q].0 == id);
    }
}

/// Every turn of the map has a turn drawable for its source lane.
pub proof fn lemma_lane_draw_turns_has(map: MapModel, l: LaneRec, id: TurnID)
    requires
        map.wf(),
        map.has_turn(id),
        id.src == l.id,
    ensures
        seq_has_turn(lane_draw_turns_spec(map, l), id),
{
    let k = map.turn_index(id);
    let t = map.turns@[k];
    let near = (t.id.parent == l.dst_i);
    let y = Keyed { key: t.angle_degrees, val: t };
    lemma_group_contains(map.turns@, l.id, l.dst_i, near, k);
    law_stable_sort_contains(group_spec(map.turns@, l.id, l.dst_i, near), y);
    let s0 = stable_sort_spec(group_spec(map.turns@, l.id, l.dst_i, true));
    let s1 = stable_sort_spec(group_spec(map.turns@, l.id, l.dst_i, false));
    let out = lane_draw_turns_spec(map, l);
    if near {
        let q = choose|q: int| 0 <= q < s0.len() && s0[q] == y;
        assert(out[q].id == id);
    } else {
        let q = choose|q: int| 0 <= q < s1.len() && s1[q] == y;
        assert(out[s0.len() + q].id == id);
    }
}

} // verus!
