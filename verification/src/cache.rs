use vstd::prelude::*;

use crate::drawable::DrawRef;
use crate::ids::Traversable;

verus! {

/// One populated segment: the dynamic drawables occupying it this tick, in
/// the order they were produced.
pub struct CacheEntry {
    pub on: Traversable,
    pub agents: Vec<DrawRef>,
}

/// A cache of dynamic agent drawables per traversable segment, valid for
/// exactly one simulation tick at a time. Populating a new tick clears all
/// prior entries; stale data is never served.
pub struct AgentCache {
    pub tick: Option<u64>,
    pub entries: Vec<CacheEntry>,
}

impl AgentCache {
    /// No segment is cached twice.
    pub open spec fn wf(self) -> bool {
        forall|i: int, j: int|
            0 <= i < j < self.entries@.len() ==> self.entries@[i].on != self.entries@[j].on
    }

    pub open spec fn contains_seg(self, on: Traversable) -> bool {
        exists|i: int| 0 <= i < self.entries@.len() && #[trigger] self.entries@[i].on == on
    }

    pub open spec fn seg_index(self, on: Traversable) -> int {
        choose|i: int| 0 <= i < self.entries@.len() && #[trigger] self.entries@[i].on == on
    }

    /// The cached drawables of a segment; well defined when the segment is
    /// cached at most once.
    pub open spec fn agents_spec(self, on: Traversable) -> Seq<DrawRef> {
        self.entries@[self.seg_index(on)].agents@
    }

    /// True only if the cache's current tick equals `tick` and the segment
    /// has an entry.
    pub open spec fn has_spec(self, tick: u64, on: Traversable) -> bool {
        self.tick == Some(tick) && self.contains_seg(on)
    }

    /// A `put` for `(tick, on)` is permitted unless the cache already holds
    /// the segment for that same tick.
    pub open spec fn put_allowed(self, tick: u64, on: Traversable) -> bool {
        self.tick == Some(tick) ==> !self.contains_seg(on)
    }

    pub fn new() -> (r: AgentCache)
        ensures
            r.tick is None,
            r.entries@ == Seq::<CacheEntry>::empty(),
    {
        AgentCache { tick: None, entries: Vec::new() }
    }

    /// Is fresh data for this segment available at this tick? If the cache's
    /// current tick differs from `tick`, the answer is false unconditionally.
    pub fn has(&self, tick: u64, on: Traversable) -> (r: bool)
        ensures
            r == self.has_spec(tick, on),
    {
        match self.tick {
            None => false,
            Some(t) => {
                if t != tick {
                    false
                } else {
                    let mut i: usize = 0;
                    while i < self.entries.len()
                        invariant
                            self.tick == Some(tick),
                            i <= self.entries@.len(),
                            forall|j: int| 0 <= j < i ==> self.entries@[j].on != on,
                        decreases self.entries@.len() - i,
                    {
                        if self.entries[i].on == on {
                            proof {
                                assert(self.entries@[i as int].on == on);
                            }
                            return true;
                        }
                        i = i + 1;
                    }
                    false
                }
            },
        }
    }

    /// The cached drawables of a segment, borrowed without copying the
    /// payload. The caller must have just confirmed `has` for the current
    /// tick.
    pub fn get(&self, on: Traversable) -> (r: &Vec<DrawRef>)
        requires
            self.wf(),
            self.contains_seg(on),
        ensures
            r@ == self.agents_spec(on),
    {
        let mut i: usize = 0;
        while i < self.entries.len()
            invariant
                self.wf(),
                i <= self.entries@.len(),
                forall|j: int| 0 <= j < i ==> self.entries@[j].on != on,
            decreases self.entries@.len() - i,
        {
            if self.entries[i].on == on {
                proof {
                    let k = self.seg_index(on);
                    assert(self.entries@[k].on == on);
                    if k < i as int {
                        assert(self.entries@[k].on != self.entries@[i as int].on);
                    } else if k > i as int {
                        assert(self.entries@[i as int].on != self.entries@[k].on);
                    }
                    assert(k == i as int);
                }
                return &self.entries[i].agents;
            }
            i = i + 1;
        }
        proof {
            let k = self.seg_index(on);
            assert(self.entries@[k].on == on);
            assert(false);
        }
        vstd::pervasive::unreached()
    }

    /// Inserts `on -> agents`. A tick different from the cache's current one
    /// clears the whole cache first and is adopted as current; within one
    /// tick, inserting a segment twice is a programming error and is ruled
    /// out by the precondition.
    pub fn put(&mut self, tick: u64, on: Traversable, agents: Vec<DrawRef>)
        requires
            old(self).put_allowed(tick, on),
        ensures
            final(self).tick == Some(tick),
            final(self).entries@ == (if old(self).tick == Some(tick) {
                old(self).entries@
            } else {
                Seq::<CacheEntry>::empty()
            }).push((CacheEntry { on, agents })),
            final(self).has_spec(tick, on),
            final(self).agents_spec(on) == agents@,
            old(self).wf() ==> final(self).wf(),
    {
        let same = match self.tick {
            Some(t) => t == tick,
            None => false,
        };
        if !same {
            self.entries.clear();
            self.tick = Some(tick);
        }
        self.entries.push(CacheEntry { on, agents });
        proof {
            let last = self.entries@.len() - 1;
            assert(self.entries@[last].on == on);
            assert(self.contains_seg(on));
            let k = self.seg_index(on);
            assert(self.entries@[k].on == on);
            if old(self).tick == Some(tick) {
                assert(forall|j: int| 0 <= j < last ==> self.entries@[j] == old(self).entries@[j]);
                assert(forall|j: int| 0 <= j < last ==> self.entries@[j].on != on);
            }
            assert(k == last);
        }
    }
}

/// Law: at most one population per segment per tick — once the cache holds a
/// segment for a tick, a further `put` for the same tick and segment is not
/// permitted.
pub proof fn law_put_once(c: AgentCache, tick: u64, on: Traversable)
    requires
        c.has_spec(tick, on),
    ensures
        !c.put_allowed(tick, on),
{
}

} // verus!
