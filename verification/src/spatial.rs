use vstd::prelude::*;

use crate::geometry::BBox;
use crate::ids::ID;

verus! {

/// One record of the spatial index: an object and the bounding box it was
/// inserted under.
#[derive(Clone, Copy, PartialEq, Eq, Structural, Debug)]
pub struct IndexEntry {
    pub id: ID,
    pub bbox: BBox,
}

/// The ids of the entries whose boxes intersect `rect`, in insertion order.
pub open spec fn query_spec(entries: Seq<IndexEntry>, rect: BBox) -> Seq<ID>
    decreases entries.len(),
{
    if entries.len() == 0 {
        Seq::empty()
    } else if entries.last().bbox.intersects_spec(rect) {
        query_spec(entries.drop_last(), rect).push(entries.last().id)
    } else {
        query_spec(entries.drop_last(), rect)
    }
}

/// Entry `i` exists, carries `id`, and its box intersects `rect`.
pub open spec fn hit_at(entries: Seq<IndexEntry>, rect: BBox, id: ID, i: int) -> bool {
    0 <= i < entries.len() && entries[i].id == id && entries[i].bbox.intersects_spec(rect)
}

/// Some entry carries `id` under a box intersecting `rect`.
pub open spec fn hits(entries: Seq<IndexEntry>, rect: BBox, id: ID) -> bool {
    exists|i: int| hit_at(entries, rect, id, i)
}

/// A rectangle-indexed structure over the bounding boxes of every static
/// drawable. Filled once at load time; queried every frame.
///
/// The store is a flat entry list scanned in full per query: boxes are plain
/// integers here, so the query's exact set semantics can be verified, which
/// a float-keyed tree structure would not allow. A sublinear organisation
/// (grid, tree) could replace the scan behind the same contract.
pub struct SpatialIndex {
    pub entries: Vec<IndexEntry>,
}

impl SpatialIndex {
    /// No object is indexed twice.
    pub open spec fn wf(self) -> bool {
        forall|i: int, j: int|
            0 <= i < j < self.entries@.len() ==> self.entries@[i].id != self.entries@[j].id
    }

    pub fn new() -> (r: SpatialIndex)
        ensures
            r.entries@ == Seq::<IndexEntry>::empty(),
    {
        SpatialIndex { entries: Vec::new() }
    }

    /// Adds one entry. Called only while the index is built.
    pub fn insert(&mut self, id: ID, bbox: BBox)
        ensures
            final(self).entries@ == old(self).entries@.push((IndexEntry { id, bbox })),
    {
        self.entries.push(IndexEntry { id, bbox });
    }

    /// Returns every inserted id whose box intersects `rect`, in insertion
    /// order.
    pub fn query(&self, rect: &BBox) -> (r: Vec<ID>)
        ensures
            r@ == query_spec(self.entries@, *rect),
    {
        let mut r: Vec<ID> = Vec::new();
        let mut i: usize = 0;
        while i < self.entries.len()
            invariant
                i <= self.entries.len(),
                r@ == query_spec(self.entries@.take(i as int), *rect),
            decreases self.entries.len() - i,
        {
            let e = self.entries[i];
            proof {
                assert(self.entries@.take(i + 1).drop_last() =~= self.entries@.take(i as int));
                assert(self.entries@.take(i + 1).last() == self.entries@[i as int]);
            }
            if e.bbox.intersects(rect) {
                r.push(e.id);
            }
            i = i + 1;
        }
        proof {
            assert(self.entries@.take(self.entries@.len() as int) =~= self.entries@);
        }
        r
    }
}

proof fn lemma_query_membership(entries: Seq<IndexEntry>, rect: BBox)
    ensures
        forall|id: ID| #[trigger] query_spec(entries, rect).contains(id) <==> hits(entries, rect, id),
    decreases entries.len(),
{
    if entries.len() == 0 {
        assert forall|id: ID| #[trigger] query_spec(entries, rect).contains(id)
            <==> hits(entries, rect, id) by {
            assert(!query_spec(entries, rect).contains(id));
            if hits(entries, rect, id) {
                let i = choose|i: int| hit_at(entries, rect, id, i);
                assert(false);
            }
        }
    } else {
        let dl = entries.drop_last();
        lemma_query_membership(dl, rect);
        assert forall|id: ID| #[trigger] query_spec(entries, rect).contains(id)
            <==> hits(entries, rect, id) by {
            let out = query_spec(entries, rect);
            let sub = query_spec(dl, rect);
            if out.contains(id) {
                let p = choose|p: int| 0 <= p < out.len() && out[p] == id;
                if p < sub.len() {
                    assert(sub[p] == id);
                    assert(sub.contains(id));
                    let i = choose|i: int| hit_at(dl, rect, id, i);
                    assert(entries[i] == dl[i]);
                    assert(hit_at(entries, rect, id, i));
                } else {
                    assert(entries.last().bbox.intersects_spec(rect));
                    assert(id == entries.last().id);
                    assert(hit_at(entries, rect, id, entries.len() - 1));
                }
            }
            if hits(entries, rect, id) {
                let i = choose|i: int| hit_at(entries, rect, id, i);
                if i < entries.len() - 1 {
                    assert(dl[i] == entries[i]);
                    assert(hit_at(dl, rect, id, i));
                    assert(hits(dl, rect, id));
                    assert(sub.contains(id));
                    let p = choose|p: int| 0 <= p < sub.len() && sub[p] == id;
                    assert(out[p] == id);
                    assert(out.contains(id));
                } else {
                    assert(entries.last().bbox.intersects_spec(rect));
                    assert(out.last() == id);
                    assert(out.contains(id));
                }
            }
        }
    }
}

proof fn lemma_query_distinct(entries: Seq<IndexEntry>, rect: BBox)
    requires
        forall|i: int, j: int| 0 <= i < j < entries.len() ==> entries[i].id != entries[j].id,
    ensures
        forall|p: int, q: int|
            0 <= p < q < query_spec(entries, rect).len()
                ==> query_spec(entries, rect)[p] != query_spec(entries, rect)[q],
    decreases entries.len(),
{
    if entries.len() > 0 {
        let dl = entries.drop_last();
        assert(forall|i: int, j: int| 0 <= i < j < dl.len() ==> dl[i].id != dl[j].id);
        lemma_query_distinct(dl, rect);
        lemma_query_membership(dl, rect);
        let out = query_spec(entries, rect);
        let sub = query_spec(dl, rect);
        if entries.last().bbox.intersects_spec(rect) {
            assert forall|p: int, q: int| 0 <= p < q < out.len() implies out[p] != out[q] by {
                if q == out.len() - 1 {
                    assert(out[q] == entries.last().id);
                    assert(out[p] == sub[p]);
                    if out[p] == entries.last().id {
                        assert(sub.contains(sub[p]));
                        let i = choose|i: int| hit_at(dl, rect, entries.last().id, i);
                        assert(entries[i].id == entries[entries.len() - 1].id);
                        assert(false);
                    }
                } else {
                    assert(out[p] == sub[p] && out[q] == sub[q]);
                }
            }
        }
    }
}

/// Law: for any query rectangle, the query returns exactly the set of
/// inserted ids whose bounding box intersects the rectangle — an id is
/// returned if and only if some entry holds it under an intersecting box —
/// and, when no object was indexed twice, no id is returned twice.
pub proof fn law_query_exact(index: SpatialIndex, rect: BBox)
    ensures
        forall|id: ID| #[trigger] query_spec(index.entries@, rect).contains(id)
            <==> hits(index.entries@, rect, id),
        index.wf() ==> forall|p: int, q: int|
            0 <= p < q < query_spec(index.entries@, rect).len()
                ==> query_spec(index.entries@, rect)[p] != query_spec(index.entries@, rect)[q],
{
    lemma_query_membership(index.entries@, rect);
    if index.wf() {
        lemma_query_distinct(index.entries@, rect);
    }
}

} // verus!
