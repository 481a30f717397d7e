//! Liveness analysis: which locations each register is live at, and the
//! merge of those locations into per-block live segments.
use vstd::prelude::*;
use crate::il::cfg::{
    count_unvisited, edge_in, is_path, lemma_back_closed_covers_path, lemma_block_handle_eq,
    lemma_count_unvisited_nonneg, lemma_count_unvisited_update, lemma_edge_gives_reach,
    lemma_location_eq, lemma_reach_extend_front, reachable, BlockHandle, CtrlFlow, Location,
};
use crate::il::reg::SSARegister;

verus! {

/// A maximal run of locations in one block during which a register is live.
/// The run covers the offsets `begin ..= end`.
#[derive(Debug, Copy, Clone)]
pub struct LiveSegment {
    block: BlockHandle,
    begin: usize,
    end: usize,
}

/// True when `seg` covers offset `x` of block `b` (endpoints included).
pub open spec fn seg_covers(seg: LiveSegment, b: int, x: int) -> bool {
    seg.spec_block().spec_index() == b && seg.spec_begin() <= x <= seg.spec_end()
}

/// True when some segment of `segs` covers offset `x` of block `b`.
pub open spec fn covered(segs: Seq<LiveSegment>, b: int, x: int) -> bool {
    exists|i: int| 0 <= i < segs.len() && seg_covers(segs[i], b, x)
}

/// True when some location of `locs` is at block `b` and offset `x` or
/// `x - 1`: a marked location seeds the unit segment `[offset, offset + 1]`.
pub open spec fn loc_covered(locs: Seq<Location>, b: int, x: int) -> bool {
    exists|k: int|
        0 <= k < locs.len() && (#[trigger] locs[k]).spec_block().spec_index() == b && (x
            == locs[k].spec_offset() || x == locs[k].spec_offset() + 1)
}

/// Every segment's begin is at or before its end.
pub open spec fn segs_wf(segs: Seq<LiveSegment>) -> bool {
    forall|i: int|
        0 <= i < segs.len() ==> (#[trigger] segs[i]).spec_begin() <= segs[i].spec_end()
}

/// Segments that neither overlap nor touch: the merge's fixed point.
pub open spec fn pair_clean(a: LiveSegment, b: LiveSegment) -> bool {
    !a.spec_overlaps(b) && !a.spec_is_adjacent(b)
}

impl LiveSegment {
    pub closed spec fn spec_block(&self) -> BlockHandle {
        self.block
    }

    pub closed spec fn spec_begin(&self) -> int {
        self.begin as int
    }

    pub closed spec fn spec_end(&self) -> int {
        self.end as int
    }

    pub fn begin_offset(&self) -> (r: usize)
        ensures
            r as int == self.spec_begin(),
    {
        self.begin
    }

    pub fn end_offset(&self) -> (r: usize)
        ensures
            r as int == self.spec_end(),
    {
        self.end
    }

    pub fn begin(&self) -> (r: Location)
        ensures
            r.spec_block() == self.spec_block(),
            r.spec_offset() == self.spec_begin(),
    {
        Location::new(self.block, self.begin)
    }

    pub fn end(&self) -> (r: Location)
        ensures
            r.spec_block() == self.spec_block(),
            r.spec_offset() == self.spec_end(),
    {
        Location::new(self.block, self.end)
    }

    /// Two segments of one block touch when one ends right before the other
    /// begins.
    pub open spec fn spec_is_adjacent(self, other: LiveSegment) -> bool {
        self.spec_block() == other.spec_block() && (self.spec_end() + 1 == other.spec_begin()
            || other.spec_end() + 1 == self.spec_begin())
    }

    pub fn is_adjacent_with(&self, other: &LiveSegment) -> (r: bool)
        ensures
            r == self.spec_is_adjacent(*other),
    {
        self.block == other.block && {
            let end_is_adjacent = other.begin > 0 && self.end == other.begin - 1;
            let begin_is_adjacent = self.begin > 0 && other.end == self.begin - 1;
            end_is_adjacent || begin_is_adjacent
        }
    }

    /// Grows this segment to enclose `other`.
    pub fn expand_to(&mut self, other: &LiveSegment)
        ensures
            final(self).spec_block() == old(self).spec_block(),
            final(self).spec_begin() == if old(self).spec_begin() <= other.spec_begin() {
                old(self).spec_begin()
            } else {
                other.spec_begin()
            },
            final(self).spec_end() == if old(self).spec_end() >= other.spec_end() {
                old(self).spec_end()
            } else {
                other.spec_end()
            },
    {
        if other.begin < self.begin {
            self.begin = other.begin;
        }
        if other.end > self.end {
            self.end = other.end;
        }
    }

    /// True when the location sits inside the segment; the end offset itself
    /// is just past the covered instructions.
    pub open spec fn spec_contains(self, location: Location) -> bool {
        self.spec_block() == location.spec_block() && self.spec_begin() <= location.spec_offset()
            < self.spec_end()
    }

    #[inline]
    pub fn contains(&self, location: Location) -> (r: bool)
        ensures
            r == self.spec_contains(location),
    {
        self.block == location.block_handle() && {
            location.offset() >= self.begin && location.offset() < self.end
        }
    }

    /// Two segments of one block overlap when neither lies wholly before the
    /// other.
    pub open spec fn spec_overlaps(self, other: LiveSegment) -> bool {
        self.spec_block() == other.spec_block() && self.spec_begin() <= other.spec_end()
            && other.spec_begin() <= self.spec_end()
    }

    #[inline]
    pub fn overlaps(&self, other: &LiveSegment) -> (r: bool)
        ensures
            r == self.spec_overlaps(*other),
    {
        self.block == other.block && { self.begin <= other.end && other.begin <= self.end }
    }
}

/// Replacing two touching or overlapping segments by their hull covers
/// exactly the same offsets.
proof fn lemma_merge_preserves_cover(segs: Seq<LiveSegment>, i: int, j: int, merged: LiveSegment)
    requires
        0 <= i < j < segs.len(),
        segs_wf(segs),
        !pair_clean(segs[i], segs[j]),
        merged.spec_block() == segs[i].spec_block(),
        merged.spec_begin() == if segs[i].spec_begin() <= segs[j].spec_begin() {
            segs[i].spec_begin()
        } else {
            segs[j].spec_begin()
        },
        merged.spec_end() == if segs[i].spec_end() >= segs[j].spec_end() {
            segs[i].spec_end()
        } else {
            segs[j].spec_end()
        },
    ensures
        segs_wf(segs.update(i, merged).remove(j)),
        forall|b: int, x: int|
            covered(segs.update(i, merged).remove(j), b, x) <==> covered(segs, b, x),
{
    let si = segs[i];
    let sj = segs[j];
    let u = segs.update(i, merged);
    let r = u.remove(j);
    // the two inputs share a block and leave no gap between them
    assert(si.spec_block() == sj.spec_block());
    assert(sj.spec_begin() <= si.spec_end() + 1);
    assert(si.spec_begin() <= sj.spec_end() + 1);
    assert forall|k: int| 0 <= k < r.len() implies (#[trigger] r[k]).spec_begin()
        <= r[k].spec_end() by {
        if k < j {
            assert(r[k] == u[k]);
        } else {
            assert(r[k] == u[k + 1]);
        }
    }
    assert forall|b: int, x: int| covered(r, b, x) implies covered(segs, b, x) by {
        let s = choose|s: int| 0 <= s < r.len() && seg_covers(r[s], b, x);
        let su = if s < j {
            s
        } else {
            s + 1
        };
        assert(r[s] == u[su]);
        if su == i {
            // the hull covers x, so one of the two inputs does
            if si.spec_begin() <= x <= si.spec_end() {
                assert(seg_covers(segs[i], b, x));
            } else {
                assert(seg_covers(segs[j], b, x));
            }
        } else {
            assert(u[su] == segs[su]);
            assert(seg_covers(segs[su], b, x));
        }
    }
    assert forall|b: int, x: int| covered(segs, b, x) implies covered(r, b, x) by {
        let s = choose|s: int| 0 <= s < segs.len() && seg_covers(segs[s], b, x);
        if s == i || s == j {
            assert(seg_covers(merged, b, x));
            assert(r[i] == merged);
            assert(seg_covers(r[i], b, x));
        } else {
            let sr = if s < j {
                s
            } else {
                s - 1
            };
            assert(r[sr] == u[s]);
            assert(u[s] == segs[s]);
            assert(seg_covers(r[sr], b, x));
        }
    }
}

/// Merges the unit segments seeded by `locations` until no two segments of
/// one block overlap or touch. The result covers exactly the seeded offsets.
#[verifier::loop_isolation(false)]
pub fn merge_to_live_segments(locations: Vec<Location>) -> (r: Vec<LiveSegment>)
    requires
        forall|k: int|
            0 <= k < locations@.len() ==> (#[trigger] locations@[k]).spec_offset() + 1
                <= usize::MAX,
    ensures
        segs_wf(r@),
        forall|i: int, j: int| 0 <= i < j < r@.len() ==> pair_clean(r@[i], r@[j]),
        forall|b: int, x: int| covered(r@, b, x) <==> loc_covered(locations@, b, x),
{
    let mut segments: Vec<LiveSegment> = Vec::new();
    // Initialise the segments: one unit segment per marked location.
    let mut k: usize = 0;
    while k < locations.len()
        invariant
            0 <= k <= locations@.len(),
            forall|t: int|
                0 <= t < locations@.len() ==> (#[trigger] locations@[t]).spec_offset() + 1
                    <= usize::MAX,
            segments@.len() == k as int,
            forall|t: int|
                0 <= t < k ==> {
                    &&& (#[trigger] segments@[t]).spec_block() == locations@[t].spec_block()
                    &&& segments@[t].spec_begin() == locations@[t].spec_offset()
                    &&& segments@[t].spec_end() == locations@[t].spec_offset() + 1
                },
        decreases locations@.len() - k,
    {
        let loc = locations[k];
        segments.push(
            LiveSegment { block: loc.block_handle(), begin: loc.offset(), end: loc.offset() + 1 },
        );
        k = k + 1;
    }
    let ghost seeds = segments@;
    proof {
        assert forall|b: int, x: int| covered(seeds, b, x) implies loc_covered(
            locations@,
            b,
            x,
        ) by {
            let i = choose|i: int| 0 <= i < seeds.len() && seg_covers(seeds[i], b, x);
            assert(locations@[i].spec_block().spec_index() == b && (x == locations@[i].spec_offset()
                || x == locations@[i].spec_offset() + 1));
        }
        assert forall|b: int, x: int| loc_covered(locations@, b, x) implies covered(
            seeds,
            b,
            x,
        ) by {
            let t = choose|t: int|
                0 <= t < locations@.len() && (#[trigger] locations@[t]).spec_block().spec_index()
                    == b && (x == locations@[t].spec_offset() || x == locations@[t].spec_offset()
                    + 1);
            assert(seg_covers(seeds[t], b, x));
        }
    }
    // Merge to a fixed point: a pass that changes nothing proves every pair
    // of remaining segments clean.
    let mut found_adjacent = true;
    while found_adjacent
        invariant
            segs_wf(segments@),
            forall|b: int, x: int| covered(segments@, b, x) <==> covered(seeds, b, x),
            forall|b: int, x: int| covered(seeds, b, x) <==> loc_covered(locations@, b, x),
            !found_adjacent ==> forall|a: int, c: int|
                0 <= a < c < segments@.len() ==> pair_clean(segments@[a], segments@[c]),
        decreases segments@.len(), (if found_adjacent {
            1int
        } else {
            0int
        }),
    {
        found_adjacent = false;
        let ghost pass_start = segments@;
        let mut i: usize = 0;
        while i < segments.len()
            invariant
                0 <= i <= segments@.len(),
                segs_wf(segments@),
                forall|b: int, x: int| covered(segments@, b, x) <==> covered(seeds, b, x),
                found_adjacent ==> segments@.len() < pass_start.len(),
                !found_adjacent ==> segments@ == pass_start,
                !found_adjacent ==> forall|a: int, c: int|
                    0 <= a < c < segments@.len() && a < i ==> pair_clean(
                        segments@[a],
                        segments@[c],
                    ),
            decreases segments@.len() - i,
        {
            let ghost len0 = segments@.len();
            let mut j: usize = i + 1;
            while j < segments.len()
                invariant
                    segments@.len() <= len0,
                    0 <= i < j <= segments@.len(),
                    segs_wf(segments@),
                    forall|b: int, x: int| covered(segments@, b, x) <==> covered(seeds, b, x),
                    found_adjacent ==> segments@.len() < pass_start.len(),
                    !found_adjacent ==> segments@ == pass_start,
                    !found_adjacent ==> forall|a: int, c: int|
                        0 <= a < c < segments@.len() && (a < i || (a == i && c < j)) ==> pair_clean(
                            segments@[a],
                            segments@[c],
                        ),
                decreases segments@.len() - j,
            {
                let seg = segments[i];
                let other = segments[j];
                if seg.is_adjacent_with(&other) || seg.overlaps(&other) {
                    let ghost before = segments@;
                    let mut merged = seg;
                    merged.expand_to(&other);
                    segments.set(i, merged);
                    segments.remove(j);
                    found_adjacent = true;
                    proof {
                        lemma_merge_preserves_cover(before, i as int, j as int, merged);
                        assert(segments@ == before.update(i as int, merged).remove(j as int));
                    }
                } else {
                    j = j + 1;
                }
            }
            i = i + 1;
        }
        proof {
            if !found_adjacent {
                assert(segments@ == pass_start);
            }
        }
    }
    proof {
        assert forall|b: int, x: int|
            covered(segments@, b, x) <==> loc_covered(locations@, b, x) by {
            assert(covered(segments@, b, x) <==> covered(seeds, b, x));
            assert(covered(seeds, b, x) <==> loc_covered(locations@, b, x));
        }
    }
    segments
}

/// A register together with the segments during which it is live.
#[derive(Debug)]
pub struct LiveRange {
    segments: Vec<LiveSegment>,
    reg: SSARegister,
}

impl LiveRange {
    pub closed spec fn spec_segments(&self) -> Seq<LiveSegment> {
        self.segments@
    }

    pub closed spec fn spec_reg(&self) -> SSARegister {
        self.reg
    }

    /// Two ranges interfere when any segment of one overlaps a segment of
    /// the other.
    pub open spec fn spec_range_overlaps(self, other: LiveRange) -> bool {
        exists|i: int, j: int|
            0 <= i < self.spec_segments().len() && 0 <= j < other.spec_segments().len() && (
            #[trigger] self.spec_segments()[i]).spec_overlaps(#[trigger] other.spec_segments()[j])
    }

    pub fn new(segments: Vec<LiveSegment>, reg: SSARegister) -> (r: Self)
        ensures
            r.spec_segments() == segments@,
            r.spec_reg() == reg,
    {
        LiveRange { segments, reg }
    }

    #[verifier::loop_isolation(false)]
    pub fn overlaps(&self, other: &LiveRange) -> (r: bool)
        ensures
            r == self.spec_range_overlaps(*other),
    {
        let mut i: usize = 0;
        while i < self.segments.len()
            invariant
                0 <= i <= self.segments@.len(),
                forall|a: int, c: int|
                    0 <= a < i && 0 <= c < other.segments@.len() ==> !(
                    #[trigger] self.segments@[a]).spec_overlaps(#[trigger] other.segments@[c]),
            decreases self.segments@.len() - i,
        {
            let mut j: usize = 0;
            while j < other.segments.len()
                invariant
                    0 <= i < self.segments@.len(),
                    0 <= j <= other.segments@.len(),
                    forall|c: int|
                        0 <= c < j ==> !self.segments@[i as int].spec_overlaps(
                            #[trigger] other.segments@[c],
                        ),
                decreases other.segments@.len() - j,
            {
                if self.segments[i].overlaps(&other.segments[j]) {
                    proof {
                        assert(self.spec_segments()[i as int].spec_overlaps(
                            other.spec_segments()[j as int],
                        ));
                    }
                    return true;
                }
                j = j + 1;
            }
            i = i + 1;
        }
        false
    }

    /// True when some segment of the range contains the location.
    pub open spec fn spec_range_contains(self, location: Location) -> bool {
        exists|i: int|
            0 <= i < self.spec_segments().len() && (#[trigger] self.spec_segments()[i]).spec_contains(
                location,
            )
    }

    #[inline]
    pub fn contains(&self, location: Location) -> (r: bool)
        ensures
            r == self.spec_range_contains(location),
    {
        let mut i: usize = 0;
        while i < self.segments.len()
            invariant
                0 <= i <= self.segments@.len(),
                forall|a: int|
                    0 <= a < i ==> !(#[trigger] self.segments@[a]).spec_contains(location),
            decreases self.segments@.len() - i,
        {
            if self.segments[i].contains(location) {
                proof {
                    assert(self.spec_segments()[i as int].spec_contains(location));
                }
                return true;
            }
            i = i + 1;
        }
        false
    }

    /// The first segment of the range that lies in `block`, if any.
    #[verifier::loop_isolation(false)]
    pub fn segment_in(&self, block: BlockHandle) -> (r: Option<&LiveSegment>)
        ensures
            match r {
                Some(seg) => exists|i: int|
                    0 <= i < self.spec_segments().len() && *seg == self.spec_segments()[i]
                        && seg.spec_block() == block && forall|a: int|
                        0 <= a < i ==> (#[trigger] self.spec_segments()[a]).spec_block() != block,
                None => forall|a: int|
                    0 <= a < self.spec_segments().len() ==> (
                    #[trigger] self.spec_segments()[a]).spec_block() != block,
            },
    {
        let mut i: usize = 0;
        while i < self.segments.len()
            invariant
                0 <= i <= self.segments@.len(),
                forall|a: int|
                    0 <= a < i ==> (#[trigger] self.segments@[a]).spec_block() != block,
            decreases self.segments@.len() - i,
        {
            let found = self.segments[i].block == block;
            if found {
                proof {
                    assert(self.spec_segments()[i as int].spec_block() == block);
                }
                return Some(&self.segments[i]);
            }
            i = i + 1;
        }
        None
    }

    pub fn segments(&self) -> (r: &Vec<LiveSegment>)
        ensures
            r@ == self.spec_segments(),
    {
        &self.segments
    }

    pub fn reg(&self) -> (r: &SSARegister)
        ensures
            *r == self.spec_reg(),
    {
        &self.reg
    }
}

impl crate::il::ILSized for LiveRange {
    open spec fn spec_il_size(&self) -> crate::il::ILSize {
        self.spec_reg().spec_size()
    }

    fn il_size(&self) -> (r: crate::il::ILSize) {
        self.reg.size()
    }
}

/// Accumulates, per register, the locations at which it is live.
pub struct LiveRangesBuilder {
    entries: Vec<(SSARegister, Vec<Location>)>,
}

impl LiveRangesBuilder {
    pub closed spec fn entries_view(&self) -> Seq<(SSARegister, Seq<Location>)> {
        self.entries@.map_values(|e: (SSARegister, Vec<Location>)| (e.0, e.1@))
    }

    /// One entry per register id, and every recorded offset leaves room for
    /// the unit segment that seeds the merge.
    pub open spec fn wf(&self) -> bool {
        &&& forall|a: int, c: int|
            0 <= a < c < self.entries_view().len() ==> (#[trigger] self.entries_view()[a]).0.spec_id()
                != (#[trigger] self.entries_view()[c]).0.spec_id()
        &&& forall|a: int, l: int|
            0 <= a < self.entries_view().len() && 0 <= l < self.entries_view()[a].1.len() ==> (
            #[trigger] self.entries_view()[a].1[l]).spec_offset() + 1 <= usize::MAX
    }

    /// True when `location` has been recorded for the register with id `id`.
    pub open spec fn spec_marked(&self, id: int, location: Location) -> bool {
        exists|a: int, l: int|
            0 <= a < self.entries_view().len() && 0 <= l < self.entries_view()[a].1.len()
                && self.entries_view()[a].0.spec_id() == id && (#[trigger] self.entries_view()[a].1[l])
                == location
    }

    pub fn new() -> (r: Self)
        ensures
            r.wf(),
            forall|id: int, loc: Location| !r.spec_marked(id, loc),
            r.entries_view().len() == 0,
    {
        let r = LiveRangesBuilder { entries: Vec::new() };
        proof {
            assert(r.entries_view() =~= Seq::<(SSARegister, Seq<Location>)>::empty());
        }
        r
    }

    /// Records that `reg` is live at `location`.
    #[verifier::loop_isolation(false)]
    pub fn mark(&mut self, reg: &SSARegister, location: Location)
        requires
            old(self).wf(),
            location.spec_offset() + 1 <= usize::MAX,
        ensures
            final(self).wf(),
            forall|id: int, loc: Location|
                final(self).spec_marked(id, loc) <==> (old(self).spec_marked(id, loc) || (id
                    == reg.spec_id() && loc == location)),
            // list-level effect: the register's list gains `location` at its
            // end, duplicates kept; a first mark opens the list; every other
            // entry is untouched, order and all
            (exists|a: int|
                0 <= a < old(self).entries_view().len() && (#[trigger] old(self).entries_view()[a]).0.spec_id()
                    == reg.spec_id() && final(self).entries_view() == old(self).entries_view().update(
                    a,
                    (old(self).entries_view()[a].0, old(self).entries_view()[a].1.push(location)),
                )) || ((forall|a: int|
                0 <= a < old(self).entries_view().len() ==> (#[trigger] old(self).entries_view()[a]).0.spec_id()
                    != reg.spec_id()) && final(self).entries_view() == old(self).entries_view().push(
                (*reg, seq![location]),
            )),
    {
        let ghost pre = *self;
        let mut i: usize = 0;
        while i < self.entries.len()
            invariant
                *self == pre,
                0 <= i <= self.entries@.len(),
                forall|a: int|
                    0 <= a < i ==> (#[trigger] self.entries_view()[a]).0.spec_id()
                        != reg.spec_id(),
            decreases self.entries@.len() - i,
        {
            if self.entries[i].0.id() == reg.id() {
                let (r0, mut locs) = self.entries.remove(i);
                locs.push(location);
                self.entries.insert(i, (r0, locs));
                proof {
                    let ii = i as int;
                    assert(self.entries_view() =~= pre.entries_view().update(
                        ii,
                        (pre.entries_view()[ii].0, pre.entries_view()[ii].1.push(location)),
                    ));
                    assert forall|id: int, loc: Location|
                        self.spec_marked(id, loc) implies (pre.spec_marked(id, loc) || (id
                        == reg.spec_id() && loc == location)) by {
                        let (a, l): (int, int) = choose|a: int, l: int|
                            0 <= a < self.entries_view().len() && 0 <= l
                                < self.entries_view()[a].1.len() && self.entries_view()[a].0.spec_id()
                                == id && (#[trigger] self.entries_view()[a].1[l]) == loc;
                        if a == ii && l == pre.entries_view()[ii].1.len() {
                        } else {
                            assert(pre.entries_view()[a].1[l] == loc);
                        }
                    }
                    assert forall|id: int, loc: Location|
                        (pre.spec_marked(id, loc) || (id == reg.spec_id() && loc
                            == location)) implies self.spec_marked(id, loc) by {
                        if pre.spec_marked(id, loc) {
                            let (a, l): (int, int) = choose|a: int, l: int|
                                0 <= a < pre.entries_view().len() && 0 <= l
                                    < pre.entries_view()[a].1.len()
                                    && pre.entries_view()[a].0.spec_id() == id && (
                                #[trigger] pre.entries_view()[a].1[l]) == loc;
                            assert(self.entries_view()[a].1[l] == loc);
                            assert(self.entries_view()[a].0.spec_id() == id);
                        } else {
                            let a = ii;
                            let l = pre.entries_view()[ii].1.len() as int;
                            assert(self.entries_view()[a].1[l] == location);
                            assert(self.entries_view()[a].0.spec_id() == reg.spec_id());
                        }
                    }
                    assert forall|id: int, loc: Location|
                        self.spec_marked(id, loc) <==> (old(self).spec_marked(id, loc) || (id
                            == reg.spec_id() && loc == location)) by {
                        assert(self.spec_marked(id, loc) ==> (pre.spec_marked(id, loc) || (id
                            == reg.spec_id() && loc == location)));
                        assert((pre.spec_marked(id, loc) || (id == reg.spec_id() && loc
                            == location)) ==> self.spec_marked(id, loc));
                        assert(pre == *old(self));
                    }
                    assert((i as int) < pre.entries_view().len()
                        && pre.entries_view()[i as int].0.spec_id() == reg.spec_id()
                        && self.entries_view() == pre.entries_view().update(
                        i as int,
                        (
                            pre.entries_view()[i as int].0,
                            pre.entries_view()[i as int].1.push(location),
                        ),
                    ));
                }
                return ;
            }
            i = i + 1;
        }
        let mut fresh: Vec<Location> = Vec::new();
        fresh.push(location);
        proof {
            assert(fresh@ =~= seq![location]);
        }
        self.entries.push((*reg, fresh));
        proof {
            assert(self.entries_view() =~= pre.entries_view().push((*reg, seq![location])));
            assert forall|id: int, loc: Location|
                self.spec_marked(id, loc) implies (pre.spec_marked(id, loc) || (id
                == reg.spec_id() && loc == location)) by {
                let (a, l): (int, int) = choose|a: int, l: int|
                    0 <= a < self.entries_view().len() && 0 <= l < self.entries_view()[a].1.len()
                        && self.entries_view()[a].0.spec_id() == id && (
                    #[trigger] self.entries_view()[a].1[l]) == loc;
                if a < pre.entries_view().len() {
                    assert(pre.entries_view()[a].1[l] == loc);
                }
            }
            assert forall|id: int, loc: Location|
                (pre.spec_marked(id, loc) || (id == reg.spec_id() && loc == location)) implies self.spec_marked(
                id,
                loc,
            ) by {
                if pre.spec_marked(id, loc) {
                    let (a, l): (int, int) = choose|a: int, l: int|
                        0 <= a < pre.entries_view().len() && 0 <= l < pre.entries_view()[a].1.len()
                            && pre.entries_view()[a].0.spec_id() == id && (
                        #[trigger] pre.entries_view()[a].1[l]) == loc;
                    assert(self.entries_view()[a].1[l] == loc);
                    assert(self.entries_view()[a].0.spec_id() == id);
                } else {
                    let a = pre.entries_view().len() as int;
                    assert(self.entries_view()[a].1[0] == location);
                    assert(self.entries_view()[a].0.spec_id() == reg.spec_id());
                }
            }
            assert forall|id: int, loc: Location|
                self.spec_marked(id, loc) <==> (old(self).spec_marked(id, loc) || (id
                    == reg.spec_id() && loc == location)) by {
                assert(self.spec_marked(id, loc) ==> (pre.spec_marked(id, loc) || (id
                    == reg.spec_id() && loc == location)));
                assert((pre.spec_marked(id, loc) || (id == reg.spec_id() && loc == location))
                    ==> self.spec_marked(id, loc));
                assert(pre == *old(self));
            }
            assert(forall|a: int|
                0 <= a < pre.entries_view().len() ==> (#[trigger] pre.entries_view()[a]).0.spec_id()
                    != reg.spec_id());
            assert(self.entries_view() == pre.entries_view().push((*reg, seq![location])));
        }
    }

    /// Merges each register's marked locations into live segments. Each
    /// returned range's segments are pairwise clean and cover exactly the
    /// offsets that were marked for its register (plus one past each, the
    /// unit-segment end).
    #[verifier::loop_isolation(false)]
    pub fn build(self) -> (r: Vec<LiveRange>)
        requires
            self.wf(),
        ensures
            r@.len() == self.entries_view().len(),
            forall|k: int|
                0 <= k < r@.len() ==> {
                    &&& (#[trigger] r@[k]).spec_reg() == self.entries_view()[k].0
                    &&& segs_wf(r@[k].spec_segments())
                    &&& forall|i: int, j: int|
                        0 <= i < j < r@[k].spec_segments().len() ==> pair_clean(
                            r@[k].spec_segments()[i],
                            r@[k].spec_segments()[j],
                        )
                    &&& forall|b: int, x: int|
                        covered(r@[k].spec_segments(), b, x) <==> loc_covered(
                            self.entries_view()[k].1,
                            b,
                            x,
                        )
                },
    {
        let LiveRangesBuilder { entries } = self;
        let ghost entries_v = entries@.map_values(|e: (SSARegister, Vec<Location>)| (e.0, e.1@));
        proof {
            assert(entries_v =~= self.entries_view());
        }
        let mut out: Vec<LiveRange> = Vec::new();
        let mut entries = entries;
        let mut k: usize = 0;
        let ghost total = entries@.len();
        while k < entries.len()
            invariant
                0 <= k <= entries@.len(),
                entries@.map_values(|e: (SSARegister, Vec<Location>)| (e.0, e.1@)) == entries_v,
                forall|a: int, l: int|
                    0 <= a < entries_v.len() && 0 <= l < entries_v[a].1.len() ==> (
                    #[trigger] entries_v[a].1[l]).spec_offset() + 1 <= usize::MAX,
                out@.len() == k as int,
                forall|t: int|
                    0 <= t < k ==> {
                        &&& (#[trigger] out@[t]).spec_reg() == entries_v[t].0
                        &&& segs_wf(out@[t].spec_segments())
                        &&& forall|i: int, j: int|
                            0 <= i < j < out@[t].spec_segments().len() ==> pair_clean(
                                out@[t].spec_segments()[i],
                                out@[t].spec_segments()[j],
                            )
                        &&& forall|b: int, x: int|
                            covered(out@[t].spec_segments(), b, x) <==> loc_covered(
                                entries_v[t].1,
                                b,
                                x,
                            )
                    },
            decreases entries@.len() - k,
        {
            let reg = entries[k].0;
            let mut locs: Vec<Location> = Vec::new();
            let mut l: usize = 0;
            while l < entries[k].1.len()
                invariant
                    0 <= k < entries@.len(),
                    0 <= l <= entries@[k as int].1@.len(),
                    locs@ == entries@[k as int].1@.subrange(0, l as int),
                decreases entries@[k as int].1@.len() - l,
            {
                locs.push(entries[k].1[l]);
                l = l + 1;
            }
            proof {
                assert(locs@ =~= entries@[k as int].1@);
                assert(entries_v[k as int].1 == entries@[k as int].1@);
            }
            let merged = merge_to_live_segments(locs);
            out.push(LiveRange { segments: merged, reg });
            k = k + 1;
        }
        out
    }
}


/// Within one scanned block, the offsets that the walk records: at or after
/// `begin` in the location order, and not past `end` in `end`'s own block.
pub open spec fn block_scan_cond(
    blocks: Seq<Seq<crate::il::Instruction>>,
    edges: Seq<(int, int)>,
    begin: Location,
    end: Location,
    b: int,
    o: int,
) -> bool {
    &&& 0 <= o < blocks[b].len()
    &&& if b == begin.spec_block().spec_index() {
        o >= begin.spec_offset()
    } else {
        reachable(edges, begin.spec_block().spec_index(), b)
    }
    &&& (b == end.spec_block().spec_index() ==> o <= end.spec_offset())
}

/// The locations one call of `mark_live_in_range` records: locations of
/// blocks from which the end location's block can be reached, lying between
/// `begin` and `end` in the location order.
pub open spec fn live_mark_cond(
    blocks: Seq<Seq<crate::il::Instruction>>,
    edges: Seq<(int, int)>,
    begin: Location,
    end: Location,
    b: int,
    o: int,
) -> bool {
    &&& 0 <= b < blocks.len()
    &&& (b == end.spec_block().spec_index() || reachable(edges, b, end.spec_block().spec_index()))
    &&& block_scan_cond(blocks, edges, begin, end, b, o)
}

spec fn in_bstack(stack: Seq<BlockHandle>, j: int) -> bool {
    exists|i: int| 0 <= i < stack.len() && stack[i].spec_index() == j
}

/// Records `var` as live at every location between `begin` and `end`: the
/// walk starts at `end`, scans its block backwards, and follows predecessor
/// edges, visiting each block once.
#[verifier::loop_isolation(false)]
pub fn mark_live_in_range(
    var: &SSARegister,
    begin: Location,
    end: Location,
    ranges: &mut LiveRangesBuilder,
    graph: &CtrlFlow,
)
    requires
        graph.wf(),
        old(ranges).wf(),
        0 <= begin.spec_block().spec_index() < graph.block_ins().len(),
        0 <= end.spec_block().spec_index() < graph.block_ins().len(),
        0 <= begin.spec_offset() < graph.block_ins()[begin.spec_block().spec_index()].len(),
        0 <= end.spec_offset() < graph.block_ins()[end.spec_block().spec_index()].len(),
        forall|b: int|
            0 <= b < graph.block_ins().len() ==> (#[trigger] graph.block_ins()[b]).len() >= 1,
    ensures
        final(ranges).wf(),
        forall|id: int, loc: Location|
            final(ranges).spec_marked(id, loc) <==> (old(ranges).spec_marked(id, loc) || (id
                == var.spec_id() && live_mark_cond(
                graph.block_ins(),
                graph.edge_list(),
                begin,
                end,
                loc.spec_block().spec_index(),
                loc.spec_offset(),
            ))),
{
    let ghost e = graph.edge_list();
    let ghost blocks = graph.block_ins();
    let ghost endb = end.spec_block().spec_index();
    let n = graph.block_count();
    let mut visited: Vec<bool> = Vec::new();
    let mut i: usize = 0;
    while i < n
        invariant
            0 <= i <= n,
            visited@.len() == i as int,
            forall|j: int| 0 <= j < i ==> !visited@[j],
        decreases n - i,
    {
        visited.push(false);
        i = i + 1;
    }
    let mut stack: Vec<BlockHandle> = Vec::new();
    let end_handle = end.block_handle();
    visited.set(end_handle.as_usize(), true);
    stack.push(end_handle);
    proof {
        lemma_count_unvisited_nonneg(visited@);
        assert(stack@[0] == end_handle);
        assert(in_bstack(stack@, endb));
    }
    while stack.len() > 0
        invariant
            visited@.len() == n as int,
            ranges.wf(),
            forall|idx: int|
                0 <= idx < stack@.len() ==> 0 <= (#[trigger] stack@[idx]).spec_index() < n
                    && visited@[stack@[idx].spec_index()],
            forall|i1: int, i2: int|
                0 <= i1 < i2 < stack@.len() ==> (#[trigger] stack@[i1]).spec_index() != (
                #[trigger] stack@[i2]).spec_index(),
            forall|j: int| 0 <= j < n && visited@[j] ==> (j == endb || reachable(e, j, endb)),
            visited@[endb],
            forall|j: int, t: int|
                0 <= j < n && visited@[j] && !in_bstack(stack@, j) && #[trigger] edge_in(e, t, j)
                    ==> 0 <= t < n && visited@[t],
            forall|id: int, loc: Location| #![trigger ranges.spec_marked(id, loc)]
                ranges.spec_marked(id, loc) <==> (old(ranges).spec_marked(id, loc) || (id
                    == var.spec_id() && {
                    let b = loc.spec_block().spec_index();
                    &&& 0 <= b < n
                    &&& visited@[b]
                    &&& !in_bstack(stack@, b)
                    &&& block_scan_cond(blocks, e, begin, end, b, loc.spec_offset())
                })),
            count_unvisited(visited@) >= 0,
        decreases count_unvisited(visited@), stack@.len(),
    {
        let ghost stack_head = stack@;
        let ghost visited_head = visited@;
        let bh = match stack.pop() {
            Some(h) => h,
            None => {
                break ;
            },
        };
        let ghost stack0 = stack@;
        let b = bh.as_usize();
        assert(stack_head[stack_head.len() - 1] == bh);
        assert(visited@[b as int]);
        assert(!in_bstack(stack0, b as int)) by {
            if in_bstack(stack0, b as int) {
                let idx = choose|idx: int|
                    0 <= idx < stack0.len() && stack0[idx].spec_index() == b as int;
                assert(stack_head[idx].spec_index() == b as int);
                assert(stack_head[stack_head.len() - 1].spec_index() == b as int);
            }
        }
        proof {
            // every closed block other than b stays closed after the pop
            assert forall|j: int, t: int|
                0 <= j < n && j != b as int && visited@[j] && !in_bstack(stack0, j)
                    && #[trigger] edge_in(e, t, j) implies 0 <= t < n && visited@[t] by {
                if in_bstack(stack_head, j) {
                    let idx = choose|idx: int|
                        0 <= idx < stack_head.len() && stack_head[idx].spec_index() == j;
                    assert(idx < stack_head.len() - 1);
                    assert(stack0[idx].spec_index() == j);
                    assert(false);
                }
            }
        }
        // Scan the block backwards, recording the locations in range.
        let blk_len = graph.realise_handle(bh).instructions().len();
        let end_here = if bh == end_handle {
            end
        } else {
            Location::new(bh, blk_len - 1)
        };
        let ghost ranges0 = *ranges;
        let mut o = blk_len;
        while o > 0
            invariant
                0 <= o <= blk_len,
                blk_len as int == blocks[b as int].len(),
                ranges.wf(),
                forall|id: int, loc: Location| #![trigger ranges.spec_marked(id, loc)]
                    ranges.spec_marked(id, loc) <==> (ranges0.spec_marked(id, loc) || (id
                        == var.spec_id() && loc.spec_block() == bh && o <= loc.spec_offset()
                        && block_scan_cond(blocks, e, begin, end, b as int, loc.spec_offset()))),
            decreases o,
        {
            o = o - 1;
            let cur = Location::new(bh, o);
            let ghost ranges_pre = *ranges;
            let is_before_end = cur == end_here || cur.is_before(graph, &end_here);
            let is_after_begin = cur == begin || cur.is_after(graph, &begin);
            if is_before_end && is_after_begin {
                ranges.mark(var, cur);
                proof {
                    lemma_location_eq(cur, end_here);
                    lemma_location_eq(cur, begin);
                    lemma_block_handle_eq(bh, end.spec_block());
                    lemma_block_handle_eq(bh, begin.spec_block());
                    assert(block_scan_cond(blocks, e, begin, end, b as int, o as int));
                    assert forall|id: int, loc: Location|
                        ranges.spec_marked(id, loc) <==> (ranges0.spec_marked(id, loc) || (id
                            == var.spec_id() && loc.spec_block() == bh && o <= loc.spec_offset()
                            && block_scan_cond(
                            blocks,
                            e,
                            begin,
                            end,
                            b as int,
                            loc.spec_offset(),
                        ))) by {
                        lemma_location_eq(loc, cur);
                        assert(ranges.spec_marked(id, loc) <==> (ranges_pre.spec_marked(id, loc)
                            || (id == var.spec_id() && loc == cur)));
                        assert(ranges_pre.spec_marked(id, loc) <==> (ranges0.spec_marked(id, loc)
                            || (id == var.spec_id() && loc.spec_block() == bh && o + 1
                            <= loc.spec_offset() && block_scan_cond(
                            blocks,
                            e,
                            begin,
                            end,
                            b as int,
                            loc.spec_offset(),
                        ))));
                        if id == var.spec_id() && loc.spec_block() == bh && o <= loc.spec_offset()
                            && block_scan_cond(blocks, e, begin, end, b as int, loc.spec_offset()) {
                            if loc.spec_offset() == o as int {
                                assert(loc == cur);
                            }
                        }
                    }
                }
            } else {
                proof {
                    lemma_location_eq(cur, end_here);
                    lemma_location_eq(cur, begin);
                    lemma_block_handle_eq(bh, end.spec_block());
                    lemma_block_handle_eq(bh, begin.spec_block());
                    assert(!(block_scan_cond(blocks, e, begin, end, b as int, o as int))) by {
                        if block_scan_cond(blocks, e, begin, end, b as int, o as int) {
                            assert(is_before_end);
                            assert(is_after_begin);
                        }
                    }
                    assert forall|id: int, loc: Location|
                        ranges.spec_marked(id, loc) <==> (ranges0.spec_marked(id, loc) || (id
                            == var.spec_id() && loc.spec_block() == bh && o <= loc.spec_offset()
                            && block_scan_cond(
                            blocks,
                            e,
                            begin,
                            end,
                            b as int,
                            loc.spec_offset(),
                        ))) by {
                        if ranges.spec_marked(id, loc) {
                        }
                        if id == var.spec_id() && loc.spec_block() == bh && o <= loc.spec_offset()
                            && block_scan_cond(blocks, e, begin, end, b as int, loc.spec_offset()) {
                            if loc.spec_offset() == o as int {
                                lemma_location_eq(loc, cur);
                                assert(loc == cur);
                                assert(false);
                            }
                        }
                    }
                }
            }
        }
        // Queue the predecessors that have not been visited yet.
        let preds = graph.predecessors(bh);
        let ghost predsv = preds@.map_values(|h: BlockHandle| h.spec_index());
        let mut d: usize = 0;
        while d < preds.len()
            invariant
                0 <= d <= preds@.len(),
                predsv == crate::bb::preds_of(e, b as int),
                predsv == preds@.map_values(|h: BlockHandle| h.spec_index()),
                visited@.len() == n as int,
                visited@[b as int],
                forall|j: int| 0 <= j < n && visited_head[j] ==> visited@[j],
                forall|j: int|
                    0 <= j < n && visited@[j] && !visited_head[j] ==> in_bstack(stack@, j),
                forall|idx: int| 0 <= idx < stack0.len() ==> stack@[idx] == stack0[idx],
                stack@.len() >= stack0.len(),
                forall|idx: int|
                    stack0.len() <= idx < stack@.len() ==> !visited_head[(
                    #[trigger] stack@[idx]).spec_index()],
                forall|idx: int|
                    0 <= idx < stack@.len() ==> 0 <= (#[trigger] stack@[idx]).spec_index() < n
                        && visited@[stack@[idx].spec_index()],
                forall|i1: int, i2: int|
                    0 <= i1 < i2 < stack@.len() ==> (#[trigger] stack@[i1]).spec_index() != (
                    #[trigger] stack@[i2]).spec_index(),
                forall|j: int| 0 <= j < n && visited@[j] ==> (j == endb || reachable(e, j, endb)),
                visited@[endb],
                forall|j: int, t: int|
                    0 <= j < n && j != b as int && visited@[j] && !in_bstack(stack@, j)
                        && #[trigger] edge_in(e, t, j) ==> 0 <= t < n && visited@[t],
                forall|dd: int|
                    0 <= dd < d ==> 0 <= #[trigger] predsv[dd] < n && visited@[predsv[dd]],
                count_unvisited(visited@) < count_unvisited(visited_head) || (visited@
                    == visited_head && stack@ == stack0),
            decreases preds@.len() - d,
        {
            let p = preds[d];
            proof {
                assert(predsv[d as int] == p.spec_index());
                assert(crate::bb::preds_of(e, b as int).contains(p.spec_index()));
                crate::bb::lemma_preds_are_exactly_the_edges(e, b as int, p.spec_index());
                assert(edge_in(e, p.spec_index(), b as int));
                assert(0 <= p.spec_index() < n) by {
                    let k = choose|k: int|
                        0 <= k < e.len() && e[k] == (p.spec_index(), b as int);
                }
            }
            if !visited[p.as_usize()] {
                let ghost stack_pre = stack@;
                let ghost visited_pre = visited@;
                proof {
                    lemma_count_unvisited_update(visited@, p.spec_index());
                    if b as int == endb {
                        lemma_edge_gives_reach(e, p.spec_index(), endb);
                    } else {
                        lemma_reach_extend_front(e, p.spec_index(), b as int, endb);
                    }
                }
                visited.set(p.as_usize(), true);
                stack.push(p);
                proof {
                    assert(stack@[stack@.len() - 1] == p);
                    assert(in_bstack(stack@, p.spec_index()));
                    if count_unvisited(visited_pre) < count_unvisited(visited_head) {
                    } else {
                        assert(visited_pre == visited_head);
                    }
                    assert forall|j: int| in_bstack(stack_pre, j) implies in_bstack(
                        stack@,
                        j,
                    ) by {
                        let idx = choose|idx: int|
                            0 <= idx < stack_pre.len() && stack_pre[idx].spec_index() == j;
                        assert(stack@[idx].spec_index() == j);
                    }
                }
            }
            d = d + 1;
        }
        proof {
            lemma_count_unvisited_nonneg(visited@);
            // b is now closed: every predecessor of b is visited.
            assert forall|t: int| edge_in(e, t, b as int) implies 0 <= t < n && visited@[t] by {
                crate::bb::lemma_preds_are_exactly_the_edges(e, b as int, t);
                assert(crate::bb::preds_of(e, b as int).contains(t));
                let dd = choose|dd: int| 0 <= dd < predsv.len() && predsv[dd] == t;
            }
            assert(!in_bstack(stack@, b as int)) by {
                if in_bstack(stack@, b as int) {
                    let idx = choose|idx: int|
                        0 <= idx < stack@.len() && stack@[idx].spec_index() == b as int;
                    if idx < stack0.len() {
                        assert(stack0[idx].spec_index() == b as int);
                        assert(in_bstack(stack0, b as int));
                    } else {
                        assert(!visited_head[b as int]);
                    }
                }
            }
            // the marked set now also carries block b
            assert forall|id: int, loc: Location|
                ranges.spec_marked(id, loc) <==> (old(ranges).spec_marked(id, loc) || (id
                    == var.spec_id() && {
                    let lb = loc.spec_block().spec_index();
                    &&& 0 <= lb < n
                    &&& visited@[lb]
                    &&& !in_bstack(stack@, lb)
                    &&& block_scan_cond(blocks, e, begin, end, lb, loc.spec_offset())
                })) by {
                let lb = loc.spec_block().spec_index();
                assert(ranges.spec_marked(id, loc) <==> (ranges0.spec_marked(id, loc) || (id
                    == var.spec_id() && loc.spec_block() == bh && block_scan_cond(
                    blocks,
                    e,
                    begin,
                    end,
                    b as int,
                    loc.spec_offset(),
                ))));
                lemma_block_handle_eq(loc.spec_block(), bh);
                if lb != b as int {
                    // processed status of other blocks is unchanged
                    assert((0 <= lb < n && visited@[lb] && !in_bstack(stack@, lb)) <==> (0 <= lb
                        < n && visited_head[lb] && !in_bstack(stack_head, lb))) by {
                        if 0 <= lb < n {
                            if visited_head[lb] && !in_bstack(stack_head, lb) {
                                assert(visited@[lb]);
                                if in_bstack(stack@, lb) {
                                    let idx = choose|idx: int|
                                        0 <= idx < stack@.len() && stack@[idx].spec_index() == lb;
                                    if idx < stack0.len() {
                                        assert(stack@[idx] == stack0[idx]);
                                        assert(stack0[idx] == stack_head[idx]);
                                        assert(stack_head[idx].spec_index() == lb);
                                        assert(in_bstack(stack_head, lb));
                                    } else {
                                        assert(!visited_head[lb]);
                                    }
                                }
                            }
                            if visited@[lb] && !in_bstack(stack@, lb) {
                                assert(visited_head[lb]) by {
                                    if !visited_head[lb] {
                                        assert(in_bstack(stack@, lb));
                                    }
                                }
                                if in_bstack(stack_head, lb) {
                                    let idx = choose|idx: int|
                                        0 <= idx < stack_head.len() && stack_head[idx].spec_index()
                                            == lb;
                                    assert(idx < stack_head.len() - 1);
                                    assert(stack0[idx].spec_index() == lb);
                                    assert(stack@[idx].spec_index() == lb);
                                }
                            }
                        }
                    }
                }
            }
        }
    }
    // The worklist is empty: the visited set is exactly the blocks from
    // which the end block can be reached, plus the end block itself.
    proof {
        assert forall|id: int, loc: Location|
            ranges.spec_marked(id, loc) <==> (old(ranges).spec_marked(id, loc) || (id
                == var.spec_id() && live_mark_cond(
                blocks,
                e,
                begin,
                end,
                loc.spec_block().spec_index(),
                loc.spec_offset(),
            ))) by {
            let lb = loc.spec_block().spec_index();
            if 0 <= lb < n {
                if lb == endb || reachable(e, lb, endb) {
                    if lb != endb {
                        let p = choose|p: Seq<int>| is_path(e, p, lb, endb);
                        assert forall|t: int| #[trigger] edge_in(e, t, endb) implies 0 <= t < n
                            && visited@[t] by {}
                        lemma_back_closed_covers_path(e, visited@, p, lb, endb);
                    }
                    assert(visited@[lb]);
                }
            }
        }
    }
}


/// A recorded death: a read of the register at that spot, with no later
/// read in the same block, in a block at or reachable from the root.
pub open spec fn sound_death(
    blocks: Seq<Seq<crate::il::Instruction>>,
    edges: Seq<(int, int)>,
    root: int,
    id: int,
    loc: Location,
) -> bool {
    let b = loc.spec_block().spec_index();
    let o = loc.spec_offset();
    &&& 0 <= b < blocks.len()
    &&& (b == root || reachable(edges, root, b))
    &&& 0 <= o < blocks[b].len()
    &&& blocks[b][o].spec_reads_id(id)
    &&& forall|o2: int|
        o < o2 < blocks[b].len() ==> !(#[trigger] blocks[b][o2]).spec_reads_id(id)
}

/// True when some instruction of block `j` reads the register.
pub open spec fn block_reads(blocks: Seq<Seq<crate::il::Instruction>>, j: int, id: int) -> bool {
    exists|o: int| 0 <= o < blocks[j].len() && (#[trigger] blocks[j][o]).spec_reads_id(id)
}

/// Updates the slot for one branch, or opens a new one at the end of the
/// list.
fn insert_use(list: &mut Vec<Location>, branch_id: usize, location: Location)
    ensures
        old(list)@.len() <= final(list)@.len(),
        branch_id < old(list)@.len() ==> final(list)@ == old(list)@.update(
            branch_id as int,
            location,
        ),
        branch_id >= old(list)@.len() ==> final(list)@ == old(list)@.push(location),
{
    if branch_id < list.len() {
        list.set(branch_id, location);
    } else {
        list.push(location);
    }
}

/// One step of the walk: scans the block for reads of `var`, keeping the
/// last one as the branch's death, then descends into unvisited successors,
/// each on a branch of its own.
#[verifier::loop_isolation(false)]
fn internal_find_deaths(
    var: &SSARegister,
    current_block: BlockHandle,
    branch_id: usize,
    deaths: &mut Vec<Location>,
    cfg: &CtrlFlow,
    visited: &mut Vec<bool>,
    Ghost(root): Ghost<int>,
    Ghost(fuel): Ghost<nat>,
)
    requires
        count_unvisited(old(visited)@) <= fuel,
        cfg.wf(),
        old(visited)@.len() == cfg.block_ins().len(),
        0 <= root < cfg.block_ins().len(),
        0 <= current_block.spec_index() < cfg.block_ins().len(),
        old(visited)@[current_block.spec_index()],
        current_block.spec_index() == root || reachable(
            cfg.edge_list(),
            root,
            current_block.spec_index(),
        ),
        forall|k: int|
            0 <= k < old(deaths)@.len() ==> sound_death(
                cfg.block_ins(),
                cfg.edge_list(),
                root,
                var.spec_id(),
                #[trigger] old(deaths)@[k],
            ),
        // this block has no death yet, every recorded death lies in a
        // block already walked, and no two share a block
        forall|k: int|
            0 <= k < old(deaths)@.len() ==> (#[trigger] old(deaths)@[k]).spec_block().spec_index()
                != current_block.spec_index(),
        forall|k: int|
            0 <= k < old(deaths)@.len() ==> 0 <= (#[trigger] old(deaths)@[k]).spec_block().spec_index()
                < old(visited)@.len() && old(visited)@[old(deaths)@[k].spec_block().spec_index()],
        forall|k1: int, k2: int|
            0 <= k1 < k2 < old(deaths)@.len() ==> (#[trigger] old(deaths)@[k1]).spec_block().spec_index()
                != (#[trigger] old(deaths)@[k2]).spec_block().spec_index(),
    ensures
        final(visited)@.len() == old(visited)@.len(),
        forall|j: int|
            0 <= j < old(visited)@.len() && old(visited)@[j] ==> final(visited)@[j],
        count_unvisited(final(visited)@) <= count_unvisited(old(visited)@),
        forall|k: int|
            0 <= k < final(deaths)@.len() ==> sound_death(
                cfg.block_ins(),
                cfg.edge_list(),
                root,
                var.spec_id(),
                #[trigger] final(deaths)@[k],
            ),
        final(deaths)@.len() >= old(deaths)@.len(),
        (exists|o: int|
            0 <= o < cfg.block_ins()[current_block.spec_index()].len() && (
            #[trigger] cfg.block_ins()[current_block.spec_index()][o]).spec_reads_id(
                var.spec_id(),
            )) ==> final(deaths)@.len() > 0,
        // every successor of this block ends visited
        forall|t: int|
            #[trigger] edge_in(cfg.edge_list(), current_block.spec_index(), t) ==> 0 <= t
                < final(visited)@.len() && final(visited)@[t],
        // whatever became visited had its successors visited too
        forall|j: int, t: int|
            0 <= j < old(visited)@.len() && !old(visited)@[j] && final(visited)@[j] && (
            #[trigger] edge_in(cfg.edge_list(), j, t)) ==> 0 <= t < final(visited)@.len()
                && final(visited)@[t],
        // a read in any newly visited block leaves a death behind
        forall|j: int|
            0 <= j < old(visited)@.len() && !old(visited)@[j] && final(visited)@[j]
                && #[trigger] block_reads(cfg.block_ins(), j, var.spec_id()) ==> final(deaths)@.len() > 0,
        // every recorded death lies in a walked block, one per block
        forall|k: int|
            0 <= k < final(deaths)@.len() ==> 0 <= (#[trigger] final(deaths)@[k]).spec_block().spec_index()
                < final(visited)@.len() && final(visited)@[final(deaths)@[k].spec_block().spec_index()],
        forall|k1: int, k2: int|
            0 <= k1 < k2 < final(deaths)@.len() ==> (#[trigger] final(deaths)@[k1]).spec_block().spec_index()
                != (#[trigger] final(deaths)@[k2]).spec_block().spec_index(),
    decreases fuel, 1int, 0int,
{
    let ghost e = cfg.edge_list();
    let ghost blocks = cfg.block_ins();
    let ghost b = current_block.spec_index();
    let ghost deaths0 = deaths@;
    let len = cfg.realise_handle(current_block).instructions().len();
    // Scan front to back; a later read of the variable overwrites the
    // branch's slot, so the slot ends holding the block's last read.
    let slot = if branch_id < deaths.len() {
        branch_id
    } else {
        deaths.len()
    };
    let ghost mut wrote = false;
    let mut ins_offset: usize = 0;
    while ins_offset < len
        invariant
            0 <= ins_offset <= len,
            len as int == blocks[b].len(),
            slot as int <= deaths0.len(),
            deaths0.len() <= deaths@.len(),
            !wrote ==> deaths@ == deaths0 && (forall|o2: int|
                0 <= o2 < ins_offset ==> !(#[trigger] blocks[b][o2]).spec_reads_id(var.spec_id())),
            wrote ==> {
                &&& deaths@.len() == if (slot as int) < deaths0.len() {
                    deaths0.len()
                } else {
                    deaths0.len() + 1
                }
                &&& (slot as int) < deaths@.len()
                &&& forall|k: int|
                    0 <= k < deaths@.len() && k != slot as int ==> k < deaths0.len() && (
                    #[trigger] deaths@[k]) == deaths0[k]
                &&& deaths@[slot as int].spec_block() == current_block
                &&& 0 <= deaths@[slot as int].spec_offset() < ins_offset
                &&& blocks[b][deaths@[slot as int].spec_offset()].spec_reads_id(var.spec_id())
                &&& forall|o2: int|
                    deaths@[slot as int].spec_offset() < o2 < ins_offset ==> !(
                    #[trigger] blocks[b][o2]).spec_reads_id(var.spec_id())
            },
        decreases len - ins_offset,
    {
        let ins = &cfg.realise_handle(current_block).instructions()[ins_offset];
        if ins.reads(var) {
            insert_use(deaths, slot, Location::new(current_block, ins_offset));
            proof {
                wrote = true;
            }
        }
        ins_offset = ins_offset + 1;
    }
    proof {
        assert forall|k: int|
            0 <= k < deaths@.len() implies sound_death(
            blocks,
            e,
            root,
            var.spec_id(),
            #[trigger] deaths@[k],
        ) by {
            if wrote && k == slot as int {
            } else if wrote {
                assert(deaths@[k] == deaths0[k]);
                assert(sound_death(blocks, e, root, var.spec_id(), deaths0[k]));
            } else {
                assert(deaths@[k] == deaths0[k]);
                assert(sound_death(blocks, e, root, var.spec_id(), deaths0[k]));
            }
        }
        lemma_count_unvisited_nonneg(visited@);
    }
    proof {
        if exists|o: int|
            0 <= o < blocks[b].len() && (#[trigger] blocks[b][o]).spec_reads_id(var.spec_id()) {
            let o = choose|o: int|
                0 <= o < blocks[b].len() && (#[trigger] blocks[b][o]).spec_reads_id(var.spec_id());
            assert(wrote);
        }
    }
    proof {
        // the slot just written holds this block; everything else is as it
        // was, in blocks walked earlier and all distinct
        assert forall|k: int|
            0 <= k < deaths@.len() implies 0 <= (#[trigger] deaths@[k]).spec_block().spec_index()
                < visited@.len() && visited@[deaths@[k].spec_block().spec_index()] by {
            if wrote && k == slot as int {
                assert(deaths@[k].spec_block() == current_block);
            } else {
                assert(deaths@[k] == deaths0[k]);
            }
        }
        assert forall|k1: int, k2: int|
            0 <= k1 < k2 < deaths@.len() implies (#[trigger] deaths@[k1]).spec_block().spec_index()
                != (#[trigger] deaths@[k2]).spec_block().spec_index() by {
            if wrote && k1 == slot as int {
                assert(deaths@[k2] == deaths0[k2]);
                assert(deaths@[k1].spec_block() == current_block);
            } else if wrote && k2 == slot as int {
                assert(deaths@[k1] == deaths0[k1]);
                assert(deaths@[k2].spec_block() == current_block);
            } else {
                assert(deaths@[k1] == deaths0[k1]);
                assert(deaths@[k2] == deaths0[k2]);
            }
        }
    }
    // Walk into the descendants, each previously unvisited one on its own
    // branch.
    let descendants = cfg.descendants(current_block);
    descend_branches(
        var,
        &descendants,
        0,
        branch_id,
        deaths,
        cfg,
        visited,
        Ghost(root),
        Ghost(b),
        Ghost(fuel),
    );
    proof {
        assert forall|t: int| #[trigger] edge_in(e, b, t) implies 0 <= t < visited@.len()
            && visited@[t] by {
            crate::bb::lemma_descs_are_exactly_the_edges(e, b, t);
            assert(crate::bb::descs_of(e, b).contains(t));
            let sx = choose|sx: int|
                0 <= sx < crate::bb::descs_of(e, b).len() && crate::bb::descs_of(e, b)[sx] == t;
            assert(descendants@.map_values(|h: BlockHandle| h.spec_index())[sx]
                == descendants@[sx].spec_index());
            assert(descendants@[sx].spec_index() == t);
        }
    }
}

/// Walks the descendants of one block from position `d` on, recursing into
/// each that has not been visited yet.
fn descend_branches(
    var: &SSARegister,
    descendants: &Vec<BlockHandle>,
    d: usize,
    next_branch: usize,
    deaths: &mut Vec<Location>,
    cfg: &CtrlFlow,
    visited: &mut Vec<bool>,
    Ghost(root): Ghost<int>,
    Ghost(b): Ghost<int>,
    Ghost(fuel): Ghost<nat>,
)
    requires
        count_unvisited(old(visited)@) <= fuel,
        cfg.wf(),
        old(visited)@.len() == cfg.block_ins().len(),
        0 <= root < cfg.block_ins().len(),
        0 <= b < cfg.block_ins().len(),
        b == root || reachable(cfg.edge_list(), root, b),
        descendants@.map_values(|h: BlockHandle| h.spec_index()) == crate::bb::descs_of(
            cfg.edge_list(),
            b,
        ),
        d <= descendants@.len(),
        forall|k: int|
            0 <= k < old(deaths)@.len() ==> sound_death(
                cfg.block_ins(),
                cfg.edge_list(),
                root,
                var.spec_id(),
                #[trigger] old(deaths)@[k],
            ),
        // every recorded death lies in a walked block, one per block
        forall|k: int|
            0 <= k < old(deaths)@.len() ==> 0 <= (#[trigger] old(deaths)@[k]).spec_block().spec_index()
                < old(visited)@.len() && old(visited)@[old(deaths)@[k].spec_block().spec_index()],
        forall|k1: int, k2: int|
            0 <= k1 < k2 < old(deaths)@.len() ==> (#[trigger] old(deaths)@[k1]).spec_block().spec_index()
                != (#[trigger] old(deaths)@[k2]).spec_block().spec_index(),
    ensures
        final(visited)@.len() == old(visited)@.len(),
        forall|j: int|
            0 <= j < old(visited)@.len() && old(visited)@[j] ==> final(visited)@[j],
        count_unvisited(final(visited)@) <= count_unvisited(old(visited)@),
        forall|k: int|
            0 <= k < final(deaths)@.len() ==> sound_death(
                cfg.block_ins(),
                cfg.edge_list(),
                root,
                var.spec_id(),
                #[trigger] final(deaths)@[k],
            ),
        final(deaths)@.len() >= old(deaths)@.len(),
        // the descendants from `d` on are all visited
        forall|t: int|
            d <= t < descendants@.len() ==> 0 <= (#[trigger] descendants@[t]).spec_index()
                < final(visited)@.len() && final(visited)@[descendants@[t].spec_index()],
        // whatever became visited had its successors visited too
        forall|j: int, t: int|
            0 <= j < old(visited)@.len() && !old(visited)@[j] && final(visited)@[j] && (
            #[trigger] edge_in(cfg.edge_list(), j, t)) ==> 0 <= t < final(visited)@.len()
                && final(visited)@[t],
        // a read in any newly visited block leaves a death behind
        forall|j: int|
            0 <= j < old(visited)@.len() && !old(visited)@[j] && final(visited)@[j]
                && #[trigger] block_reads(cfg.block_ins(), j, var.spec_id()) ==> final(deaths)@.len() > 0,
        // every recorded death lies in a walked block, one per block
        forall|k: int|
            0 <= k < final(deaths)@.len() ==> 0 <= (#[trigger] final(deaths)@[k]).spec_block().spec_index()
                < final(visited)@.len() && final(visited)@[final(deaths)@[k].spec_block().spec_index()],
        forall|k1: int, k2: int|
            0 <= k1 < k2 < final(deaths)@.len() ==> (#[trigger] final(deaths)@[k1]).spec_block().spec_index()
                != (#[trigger] final(deaths)@[k2]).spec_block().spec_index(),
    decreases fuel, 0int, descendants@.len() - d,
{
    let ghost e = cfg.edge_list();
    let ghost blocks = cfg.block_ins();
    proof {
        lemma_count_unvisited_nonneg(visited@);
    }
    if d >= descendants.len() {
        return ;
    }
    let descendant = descendants[d];
    let ghost descv = descendants@.map_values(|h: BlockHandle| h.spec_index());
    proof {
        assert(descv[d as int] == descendant.spec_index());
        assert(crate::bb::descs_of(e, b).contains(descendant.spec_index()));
        crate::bb::lemma_descs_are_exactly_the_edges(e, b, descendant.spec_index());
        assert(edge_in(e, b, descendant.spec_index()));
        assert(0 <= descendant.spec_index() < blocks.len()) by {
            let k = choose|k: int| 0 <= k < e.len() && e[k] == (b, descendant.spec_index());
        }
        if b == root {
            lemma_edge_gives_reach(e, root, descendant.spec_index());
        } else {
            crate::il::cfg::lemma_reach_extend(e, root, b, descendant.spec_index());
        }
    }
    let ghost visited_entry = visited@;
    let ghost deaths_entry = deaths@;
    if !visited[descendant.as_usize()] {
        proof {
            lemma_count_unvisited_update(visited@, descendant.spec_index());
        }
        visited.set(descendant.as_usize(), true);
        proof {
            lemma_count_unvisited_nonneg(visited@);
            assert(count_unvisited(visited@) < count_unvisited(visited_entry));
            assert(fuel >= 1);
            assert(count_unvisited(visited@) <= fuel - 1);
        }
        proof {
            // no recorded death lies in the block about to be walked, and
            // all lie in already-walked blocks
            assert forall|k: int|
                0 <= k < deaths@.len() implies 0 <= (
            #[trigger] deaths@[k]).spec_block().spec_index() < visited@.len()
                && visited@[deaths@[k].spec_block().spec_index()]
                && deaths@[k].spec_block().spec_index() != descendant.spec_index() by {
                assert(!visited_entry[descendant.spec_index()]);
                assert(visited_entry[deaths@[k].spec_block().spec_index()]);
            }
        }
        internal_find_deaths(
            var,
            descendant,
            next_branch,
            deaths,
            cfg,
            visited,
            Ghost(root),
            Ghost((fuel - 1) as nat),
        );
        proof {
            crate::il::cfg::lemma_count_unvisited_monotone(visited_entry, visited@);
        }
    }
    let ghost visited_mid = visited@;
    let ghost deaths_mid = deaths@;
    let branch = if next_branch < usize::MAX {
        next_branch + 1
    } else {
        next_branch
    };
    proof {
        crate::il::cfg::lemma_count_unvisited_monotone(visited_entry, visited@);
    }
    descend_branches(
        var,
        descendants,
        d + 1,
        branch,
        deaths,
        cfg,
        visited,
        Ghost(root),
        Ghost(b),
        Ghost(fuel),
    );
    proof {
        crate::il::cfg::lemma_count_unvisited_monotone(visited_entry, visited@);
        let di = descendant.spec_index();
        assert(visited_mid[di]);
        assert(visited@[di]);
        // the closure and death guarantees, phase by phase
        assert forall|j: int, t: int|
            0 <= j < visited_entry.len() && !visited_entry[j] && visited@[j] && (
        #[trigger] edge_in(e, j, t)) implies 0 <= t < visited@.len() && visited@[t] by {
            if visited_mid[j] {
                if j == di {
                    // its successors were visited by the inner walk
                } else {
                    // newly visited inside the inner walk
                }
            } else {
                // newly visited by the later branches
            }
        }
        assert forall|j: int|
            0 <= j < visited_entry.len() && !visited_entry[j] && visited@[j]
                && #[trigger] block_reads(blocks, j, var.spec_id()) implies deaths@.len()
            > 0 by {
            if visited_mid[j] {
                if j == di {
                    let o = choose|o: int|
                        0 <= o < blocks[j].len() && (#[trigger] blocks[j][o]).spec_reads_id(
                            var.spec_id(),
                        );
                    assert(deaths_mid.len() > 0);
                } else {
                    assert(deaths_mid.len() > 0);
                }
            }
        }
    }
}

/// One death per explored branch: the last read of `var` along the walk
/// from `begin` through each chain of descendants, every block visited
/// once. Each returned location is a read of `var` with no later read in
/// its block, in a block at or reachable from `begin`.
pub fn find_deaths(var: &SSARegister, begin: BlockHandle, cfg: &CtrlFlow) -> (r: Vec<Location>)
    requires
        cfg.wf(),
        0 <= begin.spec_index() < cfg.block_ins().len(),
    ensures
        forall|k: int|
            0 <= k < r@.len() ==> sound_death(
                cfg.block_ins(),
                cfg.edge_list(),
                begin.spec_index(),
                var.spec_id(),
                #[trigger] r@[k],
            ),
        (exists|o: int|
            0 <= o < cfg.block_ins()[begin.spec_index()].len() && (
            #[trigger] cfg.block_ins()[begin.spec_index()][o]).spec_reads_id(var.spec_id()))
            ==> r@.len() > 0,
        // a read of the register in any block the walk can reach leaves at
        // least one death behind
        forall|j: int|
            0 <= j < cfg.block_ins().len() && (j == begin.spec_index() || reachable(
                cfg.edge_list(),
                begin.spec_index(),
                j,
            )) && #[trigger] block_reads(cfg.block_ins(), j, var.spec_id()) ==> r@.len() > 0,
        // one death per explored branch: no two returned locations share a
        // block, so each is the last read of a distinct chain of the walk
        forall|k1: int, k2: int|
            0 <= k1 < k2 < r@.len() ==> (#[trigger] r@[k1]).spec_block().spec_index() != (
            #[trigger] r@[k2]).spec_block().spec_index(),
{
    let n = cfg.block_count();
    let mut visited: Vec<bool> = Vec::new();
    let mut i: usize = 0;
    while i < n
        invariant
            0 <= i <= n,
            visited@.len() == i as int,
            forall|j: int| 0 <= j < i ==> !visited@[j],
        decreases n - i,
    {
        visited.push(false);
        i = i + 1;
    }
    visited.set(begin.as_usize(), true);
    let ghost visited0 = visited@;
    let mut list: Vec<Location> = Vec::new();
    proof {
        lemma_count_unvisited_nonneg(visited@);
    }
    let ghost fuel0 = count_unvisited(visited@) as nat;
    internal_find_deaths(
        var,
        begin,
        0,
        &mut list,
        cfg,
        &mut visited,
        Ghost(begin.spec_index()),
        Ghost(fuel0),
    );
    proof {
        let e = cfg.edge_list();
        let blocks = cfg.block_ins();
        let bidx = begin.spec_index();
        assert forall|j: int|
            0 <= j < blocks.len() && (j == bidx || reachable(e, bidx, j))
                && #[trigger] block_reads(blocks, j, var.spec_id()) implies list@.len() > 0 by {
            if j == bidx {
                let o = choose|o: int|
                    0 <= o < blocks[j].len() && (#[trigger] blocks[j][o]).spec_reads_id(
                        var.spec_id(),
                    );
            } else {
                // the walk visited every block the begin block reaches
                let p = choose|p: Seq<int>| is_path(e, p, bidx, j);
                assert forall|j2: int, t: int|
                    0 <= j2 < visited@.len() && visited@[j2] && #[trigger] edge_in(
                    e,
                    j2,
                    t,
                ) implies 0 <= t < visited@.len() && visited@[t] by {
                    if j2 != bidx {
                        assert(!visited0[j2]);
                    }
                }
                assert forall|t: int| #[trigger] edge_in(e, bidx, t) implies 0 <= t
                    < visited@.len() && visited@[t] by {}
                crate::il::cfg::lemma_closed_covers_path(e, visited@, p, bidx, j);
                assert(visited@[j]);
                assert(!visited0[j]);
            }
        }
    }
    list
}

/// Liveness completeness: after a call of `mark_live_in_range` whose effect
/// is described by `marked_post`/`marked_pre`, every location on any path
/// from the begin block to the end block is marked live for the register,
/// as long as its offset is at or past `begin` in the begin block and at or
/// before `end` in the end block.
pub proof fn lemma_liveness_complete(
    pre: LiveRangesBuilder,
    post: LiveRangesBuilder,
    var_id: int,
    blocks: Seq<Seq<crate::il::Instruction>>,
    edges: Seq<(int, int)>,
    begin: Location,
    end: Location,
    p: Seq<int>,
    i: int,
    loc: Location,
)
    requires
        forall|id: int, loc2: Location| #![trigger post.spec_marked(id, loc2)]
            post.spec_marked(id, loc2) <==> (pre.spec_marked(id, loc2) || (id == var_id
                && live_mark_cond(
                blocks,
                edges,
                begin,
                end,
                loc2.spec_block().spec_index(),
                loc2.spec_offset(),
            ))),
        is_path(edges, p, begin.spec_block().spec_index(), end.spec_block().spec_index()),
        0 <= i < p.len(),
        0 <= p[i] < blocks.len(),
        loc.spec_block().spec_index() == p[i],
        0 <= loc.spec_offset() < blocks[p[i]].len(),
        p[i] == begin.spec_block().spec_index() ==> loc.spec_offset() >= begin.spec_offset(),
        p[i] == end.spec_block().spec_index() ==> loc.spec_offset() <= end.spec_offset(),
    ensures
        post.spec_marked(var_id, loc),
{
    let bb = begin.spec_block().spec_index();
    let eb = end.spec_block().spec_index();
    crate::il::cfg::lemma_path_node_reach(edges, p, bb, eb, i);
    assert(p[p.len() - 1] == eb) by {
        crate::il::cfg::lemma_path_last(edges, p, bb, eb);
    }
    assert(live_mark_cond(blocks, edges, begin, end, p[i], loc.spec_offset()));
    assert(post.spec_marked(var_id, loc));
}

/// Liveness minimality: a location of the end block past the end location
/// is never newly marked, and neither is a location of the begin block
/// before the begin location.
pub proof fn lemma_liveness_minimal(
    pre: LiveRangesBuilder,
    post: LiveRangesBuilder,
    var_id: int,
    blocks: Seq<Seq<crate::il::Instruction>>,
    edges: Seq<(int, int)>,
    begin: Location,
    end: Location,
    loc: Location,
)
    requires
        forall|id: int, loc2: Location| #![trigger post.spec_marked(id, loc2)]
            post.spec_marked(id, loc2) <==> (pre.spec_marked(id, loc2) || (id == var_id
                && live_mark_cond(
                blocks,
                edges,
                begin,
                end,
                loc2.spec_block().spec_index(),
                loc2.spec_offset(),
            ))),
        post.spec_marked(var_id, loc),
        !pre.spec_marked(var_id, loc),
    ensures
        loc.spec_block() == end.spec_block() ==> loc.spec_offset() <= end.spec_offset(),
        loc.spec_block() == begin.spec_block() ==> loc.spec_offset() >= begin.spec_offset(),
{
    crate::il::cfg::lemma_block_handle_eq(loc.spec_block(), end.spec_block());
    crate::il::cfg::lemma_block_handle_eq(loc.spec_block(), begin.spec_block());
}

} // verus!
