use crate::arena::{
    arena_blocks, arena_get, arena_get_mut, arena_ids, arena_insert, arena_len, arena_new,
    arena_remove, lemma_id_eq, BlockId,
};
use crate::description::{Block, BlockDescription};
use crate::geometry::{add_clamped, attach_dist2, clamp_i64, in_snap_range, snap_distance2, Pos2, Vec2};
use crate::instance::BlockInstance;
use crate::order::sorted_by_first;
use crate::part::{is_laid_out, layout_parts, BlockPart, Next};
use thunderdome::Arena;
use vstd::prelude::*;

verus! {

/// The canvas: every block, owned by an arena and addressed by `BlockId`, and the pan offset.
pub struct BlockEditor {
    offset: Vec2,
    blocks: Arena<BlockInstance>,
}

impl Default for BlockEditor {
    fn default() -> (r: BlockEditor)
        ensures
            r.wf(),
            r.spec_blocks().dom() == Set::<u64>::empty(),
            r.spec_offset() == (Vec2 { x: 0, y: 0 }),
    {
        BlockEditor::new()
    }
}

/// A link to be written once a dragged block is released over a candidate.
#[derive(Clone, Copy, Debug, PartialEq, Eq, Structural)]
pub struct PendingLink {
    pub upper_block: BlockId,
    pub upper_part: usize,
    pub next_block: BlockId,
}

impl BlockEditor {
    /// The blocks on the canvas, by handle.
    pub closed spec fn spec_blocks(&self) -> Map<u64, BlockInstance> {
        arena_blocks(self.blocks)
    }

    pub closed spec fn spec_offset(&self) -> Vec2 {
        self.offset
    }

    /// Finitely many blocks, each well formed.
    pub open spec fn wf(&self) -> bool {
        &&& self.spec_blocks().dom().finite()
        &&& forall|k: u64| #[trigger]
            self.spec_blocks().dom().contains(k) ==> self.spec_blocks()[k].wf()
    }

    /// An empty canvas with no pan.
    pub fn new() -> (r: BlockEditor)
        ensures
            r.wf(),
            r.spec_blocks().dom() == Set::<u64>::empty(),
            r.spec_offset() == (Vec2 { x: 0, y: 0 }),
    {
        BlockEditor { offset: Vec2 { x: 0, y: 0 }, blocks: arena_new() }
    }

    /// Number of blocks on the canvas.
    pub fn len(&self) -> (r: usize)
        ensures
            r == self.spec_blocks().len(),
    {
        arena_len(&self.blocks)
    }

    /// Pan offset of the canvas.
    pub fn offset(&self) -> (r: Vec2)
        ensures
            r == self.spec_offset(),
    {
        self.offset
    }

    /// Moves the whole canvas by `delta`.
    pub fn pan(&mut self, delta: Vec2)
        ensures
            final(self).spec_blocks() == old(self).spec_blocks(),
            final(self).spec_offset() == (Vec2 {
                x: clamp_i64(old(self).spec_offset().x + delta.x) as i64,
                y: clamp_i64(old(self).spec_offset().y + delta.y) as i64,
            }),
    {
        self.offset = Vec2 {
            x: add_clamped(self.offset.x, delta.x),
            y: add_clamped(self.offset.y, delta.y),
        };
    }

    /// Places a block described by `description` at `position`; `None`, with nothing
    /// changed, when the part count does not match the shape.
    pub fn insert(&mut self, position: Pos2, description: BlockDescription) -> (r: Option<BlockId>)
        requires
            old(self).wf(),
            old(self).spec_blocks().len() < u32::MAX,
        ensures
            final(self).wf(),
            final(self).spec_offset() == old(self).spec_offset(),
            r is Some <==> description.wf(),
            r is None ==> final(self).spec_blocks() == old(self).spec_blocks(),
            r matches Some(id) ==> {
                &&& !old(self).spec_blocks().dom().contains(id@)
                &&& final(self).spec_blocks().dom() == old(self).spec_blocks().dom().insert(id@)
                &&& final(self).spec_blocks().remove(id@) == old(self).spec_blocks()
                &&& final(self).spec_blocks()[id@].spec_created(position, description)
            },
    {
        if !description.is_well_formed() {
            return None;
        }
        let instance = BlockInstance::new(position, description);
        let id = arena_insert(&mut self.blocks, instance);
        proof {
            let m = self.spec_blocks();
            let o = old(self).spec_blocks();
            assert(m.remove(id@) =~= o);
            assert forall|k: u64| #[trigger] m.dom().contains(k) implies m[k].wf() by {
                if k != id@ {
                    assert(o.dom().contains(k));
                }
            }
        }
        Some(id)
    }

    /// Places the block that `block` describes at `position`; `None`, with nothing changed,
    /// when its description's part count does not match its shape. The canvas keeps the
    /// description only; `block` is consumed once it has described itself.
    pub fn add_block<B: Block>(&mut self, position: Pos2, block: B) -> (r: Option<BlockId>)
        requires
            old(self).wf(),
            old(self).spec_blocks().len() < u32::MAX,
        ensures
            final(self).wf(),
            final(self).spec_offset() == old(self).spec_offset(),
            r is None ==> final(self).spec_blocks() == old(self).spec_blocks(),
            r matches Some(id) ==> {
                let b = final(self).spec_blocks()[id@];
                &&& !old(self).spec_blocks().dom().contains(id@)
                &&& final(self).spec_blocks().dom() == old(self).spec_blocks().dom().insert(id@)
                &&& final(self).spec_blocks().remove(id@) == old(self).spec_blocks()
                &&& b.description.wf()
                &&& b.spec_created(position, b.description)
            },
    {
        let mut block = block;
        let description = block.describe();
        self.insert(position, description)
    }

    /// The block under `id`; `None` for a handle of a removed block.
    pub fn get(&self, id: BlockId) -> (r: Option<&BlockInstance>)
        ensures
            match r {
                Some(b) => self.spec_blocks().dom().contains(id@) && *b == self.spec_blocks()[id@],
                None => !self.spec_blocks().dom().contains(id@),
            },
    {
        arena_get(&self.blocks, id)
    }

    /// Clears every link, in any block, that points at `id`: a block that is picked up
    /// leaves the block it hung from.
    pub fn detach(&mut self, id: BlockId)
        requires
            old(self).wf(),
        ensures
            final(self).wf(),
            final(self).spec_offset() == old(self).spec_offset(),
            detached(old(self).spec_blocks(), final(self).spec_blocks(), id@),
    {
        let ghost orig = self.spec_blocks();
        let ids = arena_ids(&self.blocks);
        let mut i: usize = 0;
        while i < ids.len()
            invariant
                i <= ids@.len(),
                ids@.no_duplicates(),
                forall|k: u64| orig.dom().contains(k) <==> exists|j: int| 0 <= j < ids@.len() && (#[trigger] ids@[j])@ == k,
                self.spec_blocks().dom() == orig.dom(),
                self.spec_offset() == old(self).spec_offset(),
                forall|k: u64| #[trigger] orig.dom().contains(k) ==> orig[k].wf(),
                orig.dom().finite(),
                forall|j: int| 0 <= j < i ==> {
                    let k = (#[trigger] ids@[j])@;
                    unlinked(orig[k], self.spec_blocks()[k], id@) && self.spec_blocks()[k].snap_target == orig[k].snap_target
                },
                forall|j: int| i <= j < ids@.len() ==> self.spec_blocks()[(#[trigger] ids@[j])@] == orig[ids@[j]@],
            decreases ids@.len() - i,
        {
            let k = ids[i];
            proof {
                assert(orig.dom().contains(ids@[i as int]@));
                assert forall|j: int| 0 <= j < ids@.len() && j != i implies (#[trigger] ids@[j])@ != k@ by {
                    if ids@[j]@ == k@ {
                        lemma_id_eq(ids@[j], k);
                    }
                }
            }
            let b = arena_get_mut(&mut self.blocks, k);
            unlink_parts(&mut b.parts, id);
            i = i + 1;
        }
        proof {
            let m = self.spec_blocks();
            assert forall|k: u64| #[trigger] orig.dom().contains(k) implies unlinked(orig[k], m[k], id@) && m[k].snap_target == orig[k].snap_target by {
                let j = choose|j: int| 0 <= j < ids@.len() && (#[trigger] ids@[j])@ == k;
            }
            assert forall|k: u64| #[trigger] m.dom().contains(k) implies m[k].wf() by {
                assert(orig.dom().contains(k));
                assert(unlinked(orig[k], m[k], id@));
            }
        }
    }

    /// A closest block that the dragged block `dragging` can snap under, if any.
    pub fn find_snap_target(&self, dragging: BlockId) -> (r: Option<BlockId>)
        requires
            self.wf(),
        ensures
            is_snap_choice(self.spec_blocks(), dragging@, r),
    {
        let ghost m = self.spec_blocks();
        let me = match arena_get(&self.blocks, dragging) {
            Some(b) => b.position,
            None => {
                return None;
            },
        };
        let ids = arena_ids(&self.blocks);
        let mut best: Option<(BlockId, u64)> = None;
        let mut i: usize = 0;
        while i < ids.len()
            invariant
                i <= ids@.len(),
                m == self.spec_blocks(),
                m.dom().contains(dragging@),
                me == m[dragging@].position,
                forall|k: u64| #[trigger] m.dom().contains(k) ==> m[k].wf(),
                forall|k: u64| m.dom().contains(k) <==> exists|j: int| 0 <= j < ids@.len() && (#[trigger] ids@[j])@ == k,
                match best {
                    Some((t, d2)) => is_candidate(m, dragging@, t@) && d2 == snap_dist2(m, dragging@, t@)
                        && forall|j: int| 0 <= j < i && is_candidate(m, dragging@, (#[trigger] ids@[j])@) ==> d2 <= snap_dist2(m, dragging@, ids@[j]@),
                    None => forall|j: int| 0 <= j < i ==> !is_candidate(m, dragging@, (#[trigger] ids@[j])@),
                },
            decreases ids@.len() - i,
        {
            let k = ids[i];
            proof {
                lemma_id_eq(k, dragging);
            }
            if k != dragging {
                match arena_get(&self.blocks, k) {
                    Some(b) => {
                        let last = b.parts.len() - 1;
                        if !matches!(b.parts[0].next, Next::NotApplicable) {
                            match snap_distance2(me, b.position, b.parts[last].bottom_offset) {
                                Some(d2) => {
                                    let better = match best {
                                        Some((_, bd)) => d2 < bd,
                                        None => true,
                                    };
                                    if better {
                                        best = Some((k, d2));
                                    }
                                },
                                None => {},
                            }
                        }
                    },
                    None => {},
                }
            }
            i = i + 1;
        }
        proof {
            match best {
                Some((t, d2)) => {
                    assert forall|k: u64| #[trigger] is_candidate(m, dragging@, k) implies snap_dist2(m, dragging@, t@) <= snap_dist2(m, dragging@, k) by {
                        let j = choose|j: int| 0 <= j < ids@.len() && (#[trigger] ids@[j])@ == k;
                    }
                },
                None => {
                    assert forall|k: u64| !#[trigger] is_candidate(m, dragging@, k) by {
                        if is_candidate(m, dragging@, k) {
                            let j = choose|j: int| 0 <= j < ids@.len() && (#[trigger] ids@[j])@ == k;
                        }
                    }
                },
            }
        }
        match best {
            Some((t, _)) => Some(t),
            None => None,
        }
    }

    /// Moves block `id` by `delta` and stamps it with `frame`; a stale handle changes nothing.
    pub fn drag_block(&mut self, id: BlockId, delta: Vec2, frame: u64)
        requires
            old(self).wf(),
        ensures
            final(self).wf(),
            final(self).spec_offset() == old(self).spec_offset(),
            old(self).spec_blocks().dom().contains(id@) ==> final(self).spec_blocks() == old(self).spec_blocks().insert(
                id@,
                BlockInstance {
                    position: old(self).spec_blocks()[id@].position.spec_translate(delta),
                    last_touched_frame: frame,
                    ..old(self).spec_blocks()[id@]
                },
            ),
            !old(self).spec_blocks().dom().contains(id@) ==> final(self).spec_blocks() == old(self).spec_blocks(),
    {
        match arena_get(&self.blocks, id) {
            Some(_) => {},
            None => {
                return;
            },
        }
        let b = arena_get_mut(&mut self.blocks, id);
        b.position = b.position.translate(delta);
        b.last_touched_frame = frame;
        proof {
            let m = self.spec_blocks();
            assert forall|k: u64| #[trigger] m.dom().contains(k) implies m[k].wf() by {
                assert(old(self).spec_blocks().dom().contains(k));
            }
        }
    }

    /// Ends a drag of block `id`: its snap target is cleared, and the link to write is
    /// returned when it had one.
    pub fn release_block(&mut self, id: BlockId) -> (r: Option<PendingLink>)
        requires
            old(self).wf(),
        ensures
            final(self).wf(),
            final(self).spec_offset() == old(self).spec_offset(),
            old(self).spec_blocks().dom().contains(id@) ==> {
                &&& final(self).spec_blocks() == old(self).spec_blocks().insert(
                    id@,
                    BlockInstance { snap_target: None, ..old(self).spec_blocks()[id@] },
                )
                &&& r == match old(self).spec_blocks()[id@].snap_target {
                    Some(t) => Some(PendingLink { upper_block: t, upper_part: 0, next_block: id }),
                    None => None,
                }
            },
            !old(self).spec_blocks().dom().contains(id@) ==> final(self).spec_blocks() == old(self).spec_blocks() && r is None,
    {
        match arena_get(&self.blocks, id) {
            Some(_) => {},
            None => {
                return None;
            },
        }
        let b = arena_get_mut(&mut self.blocks, id);
        let target = b.snap_target;
        b.snap_target = None;
        proof {
            let m = self.spec_blocks();
            assert forall|k: u64| #[trigger] m.dom().contains(k) implies m[k].wf() by {
                assert(old(self).spec_blocks().dom().contains(k));
            }
        }
        match target {
            Some(t) => Some(PendingLink { upper_block: t, upper_part: 0, next_block: id }),
            None => None,
        }
    }

    /// Picks up block `dragging`: clears every link to it, then records the closest block it
    /// can snap under (or none) as its snap target.
    pub fn update_snap_target(&mut self, dragging: BlockId)
        requires
            old(self).wf(),
        ensures
            final(self).wf(),
            final(self).spec_offset() == old(self).spec_offset(),
            final(self).spec_blocks().dom() == old(self).spec_blocks().dom(),
            forall|k: u64| #[trigger] old(self).spec_blocks().dom().contains(k) ==> unlinked(
                old(self).spec_blocks()[k],
                final(self).spec_blocks()[k],
                dragging@,
            ),
            forall|k: u64| #[trigger] old(self).spec_blocks().dom().contains(k) && k != dragging@ ==> final(self).spec_blocks()[k].snap_target
                == old(self).spec_blocks()[k].snap_target,
            old(self).spec_blocks().dom().contains(dragging@) ==> is_snap_choice(
                old(self).spec_blocks(),
                dragging@,
                final(self).spec_blocks()[dragging@].snap_target,
            ),
    {
        self.detach(dragging);
        let ghost mid = self.spec_blocks();
        let target = self.find_snap_target(dragging);
        proof {
            lemma_snap_choice_detached(old(self).spec_blocks(), mid, dragging@, target);
        }
        match arena_get(&self.blocks, dragging) {
            Some(_) => {},
            None => {
                return;
            },
        }
        let b = arena_get_mut(&mut self.blocks, dragging);
        b.snap_target = target;
        proof {
            let m = self.spec_blocks();
            assert forall|k: u64| #[trigger] m.dom().contains(k) implies m[k].wf() by {
                assert(mid.dom().contains(k));
            }
            assert forall|k: u64| #[trigger] old(self).spec_blocks().dom().contains(k) implies unlinked(
                old(self).spec_blocks()[k], m[k], dragging@) by {
                assert(mid.dom().contains(k));
                assert(unlinked(old(self).spec_blocks()[k], mid[k], dragging@));
            }
        }
    }

    /// Writes `link` into its slot when that slot is open; an occupied or inapplicable slot,
    /// a slot index past the parts, or a stale handle leaves everything as it was.
    pub fn commit_link(&mut self, link: PendingLink)
        requires
            old(self).wf(),
        ensures
            final(self).wf(),
            final(self).spec_offset() == old(self).spec_offset(),
            committed(old(self).spec_blocks(), final(self).spec_blocks(), link),
    {
        let upper = match arena_get(&self.blocks, link.upper_block) {
            Some(b) => b,
            None => {
                return;
            },
        };
        if link.upper_part >= upper.parts.len() {
            return;
        }
        if !matches!(upper.parts[link.upper_part].next, Next::Open) {
            return;
        }
        let b = arena_get_mut(&mut self.blocks, link.upper_block);
        let part = b.parts[link.upper_part];
        b.parts.set(link.upper_part, BlockPart { next: Next::Linked { target: link.next_block, height: 0 }, ..part });
        proof {
            let m = self.spec_blocks();
            let o = old(self).spec_blocks();
            assert(m.dom() =~= o.dom());
            assert forall|k: u64| #[trigger] o.dom().contains(k) && k != link.upper_block@ implies m[k] == o[k] by {}
            assert forall|k: u64| #[trigger] m.dom().contains(k) implies m[k].wf() by {
                assert(old(self).spec_blocks().dom().contains(k));
            }
        }
    }

    /// Stacks the parts of block `id` from its top edge; a stale handle changes nothing.
    pub fn layout_block(&mut self, id: BlockId)
        requires
            old(self).wf(),
        ensures
            final(self).wf(),
            final(self).spec_offset() == old(self).spec_offset(),
            old(self).spec_blocks().dom().contains(id@) ==> {
                &&& final(self).spec_blocks().dom() == old(self).spec_blocks().dom()
                &&& forall|k: u64| #[trigger] old(self).spec_blocks().dom().contains(k) && k != id@ ==> final(self).spec_blocks()[k] == old(self).spec_blocks()[k]
                &&& final(self).spec_blocks()[id@] == BlockInstance { parts: final(self).spec_blocks()[id@].parts, ..old(self).spec_blocks()[id@] }
                &&& is_laid_out(old(self).spec_blocks()[id@].parts@, final(self).spec_blocks()[id@].parts@)
            },
            !old(self).spec_blocks().dom().contains(id@) ==> final(self).spec_blocks() == old(self).spec_blocks(),
    {
        match arena_get(&self.blocks, id) {
            Some(_) => {},
            None => {
                return;
            },
        }
        let b = arena_get_mut(&mut self.blocks, id);
        layout_parts(&mut b.parts);
        proof {
            let m = self.spec_blocks();
            assert forall|k: u64| #[trigger] m.dom().contains(k) implies m[k].wf() by {
                assert(old(self).spec_blocks().dom().contains(k));
            }
        }
    }

    /// Takes the measured content size of part `part` of block `id`; the part's height is
    /// at least the minimum part height. A stale handle or a part index past the parts
    /// changes nothing.
    pub fn resize_part(&mut self, id: BlockId, part: usize, width: u32, height: u32)
        requires
            old(self).wf(),
        ensures
            final(self).wf(),
            final(self).spec_offset() == old(self).spec_offset(),
            ({
                let m = old(self).spec_blocks();
                if m.dom().contains(id@) && part < m[id@].parts@.len() {
                    &&& final(self).spec_blocks().dom() == m.dom()
                    &&& forall|k: u64| #[trigger] m.dom().contains(k) && k != id@ ==> final(self).spec_blocks()[k] == m[k]
                    &&& final(self).spec_blocks()[id@] == BlockInstance { parts: final(self).spec_blocks()[id@].parts, ..m[id@] }
                    &&& final(self).spec_blocks()[id@].parts@ == m[id@].parts@.update(
                        part as int,
                        m[id@].parts@[part as int].spec_resized(width, height),
                    )
                } else {
                    final(self).spec_blocks() == m
                }
            }),
    {
        let n = match arena_get(&self.blocks, id) {
            Some(b) => b.parts.len(),
            None => {
                return;
            },
        };
        if part >= n {
            return;
        }
        let b = arena_get_mut(&mut self.blocks, id);
        let mut p = b.parts[part];
        p.resize(width, height);
        b.parts.set(part, p);
        proof {
            let m = self.spec_blocks();
            assert forall|k: u64| #[trigger] m.dom().contains(k) implies m[k].wf() by {
                assert(old(self).spec_blocks().dom().contains(k));
            }
        }
    }

    /// Moves every block that hangs from another block's first part to just under that
    /// block. All moves read positions and heights from before the pass, so a chain of
    /// several links settles one level per pass.
    pub fn propagate_chains(&mut self)
        requires
            old(self).wf(),
        ensures
            final(self).wf(),
            final(self).spec_offset() == old(self).spec_offset(),
            propagated(old(self).spec_blocks(), final(self).spec_blocks()),
    {
        let ghost orig = self.spec_blocks();
        let ids = arena_ids(&self.blocks);
        let mut moves: Vec<(BlockId, Pos2)> = Vec::new();
        let ghost mut uppers: Seq<u64> = Seq::empty();
        let mut i: usize = 0;
        while i < ids.len()
            invariant
                i <= ids@.len(),
                orig == self.spec_blocks(),
                forall|k: u64| #[trigger] orig.dom().contains(k) ==> orig[k].wf(),
                forall|k: u64| orig.dom().contains(k) <==> exists|j: int| 0 <= j < ids@.len() && (#[trigger] ids@[j])@ == k,
                uppers.len() == moves@.len(),
                forall|m: int| 0 <= m < moves@.len() ==> links_into(orig, #[trigger] uppers[m], moves@[m].0@) && moves@[m].1 == below(orig, uppers[m]),
                forall|j: int, t: u64| 0 <= j < i && #[trigger] links_into(orig, (#[trigger] ids@[j])@, t) ==> exists|m: int| 0 <= m < moves@.len() && uppers[m] == ids@[j]@,
            decreases ids@.len() - i,
        {
            let k = ids[i];
            let ghost prev_uppers = uppers;
            proof {
                assert(orig.dom().contains(ids@[i as int]@));
            }
            match arena_get(&self.blocks, k) {
                Some(b) => {
                    match b.parts[0].next {
                        Next::Linked { target, .. } => {
                            let h = b.total_height();
                            let pos = Pos2 { x: b.position.x, y: add_clamped(b.position.y, h as i64) };
                            moves.push((target, pos));
                            proof {
                                uppers = uppers.push(k@);
                            }
                        },
                        _ => {},
                    }
                },
                None => {},
            }
            proof {
                assert forall|j: int, t: u64| 0 <= j < i + 1 && #[trigger] links_into(orig, (#[trigger] ids@[j])@, t) implies exists|m: int| 0 <= m < moves@.len() && uppers[m] == ids@[j]@ by {
                    if j == i {
                        assert(uppers[moves@.len() - 1] == ids@[j]@);
                    } else {
                        let m = choose|m: int| 0 <= m < prev_uppers.len() && prev_uppers[m] == ids@[j]@;
                        assert(uppers[m] == prev_uppers[m]);
                    }
                }
            }
            i = i + 1;
        }
        let mut n: usize = 0;
        while n < moves.len()
            invariant
                n <= moves@.len(),
                self.spec_offset() == old(self).spec_offset(),
                self.spec_blocks().dom() == orig.dom(),
                uppers.len() == moves@.len(),
                forall|m: int| 0 <= m < moves@.len() ==> links_into(orig, #[trigger] uppers[m], moves@[m].0@) && moves@[m].1 == below(orig, uppers[m]),
                forall|k: u64| #[trigger] orig.dom().contains(k) ==> {
                    &&& self.spec_blocks()[k] == BlockInstance { position: self.spec_blocks()[k].position, ..orig[k] }
                    &&& (exists|m: int| 0 <= m < n && moves@[m].0@ == k) ==> exists|m: int| 0 <= m < n && #[trigger] moves@[m].0@ == k && self.spec_blocks()[k].position == moves@[m].1
                    &&& !(exists|m: int| 0 <= m < n && moves@[m].0@ == k) ==> self.spec_blocks()[k].position == orig[k].position
                },
            decreases moves@.len() - n,
        {
            let (target, pos) = moves[n];
            match arena_get(&self.blocks, target) {
                Some(_) => {
                    let b = arena_get_mut(&mut self.blocks, target);
                    b.position = pos;
                },
                None => {},
            }
            proof {
                let cur = self.spec_blocks();
                assert forall|k: u64| #[trigger] orig.dom().contains(k) implies {
                    &&& cur[k] == BlockInstance { position: cur[k].position, ..orig[k] }
                    &&& (exists|m: int| 0 <= m < n + 1 && moves@[m].0@ == k) ==> exists|m: int| 0 <= m < n + 1 && #[trigger] moves@[m].0@ == k && cur[k].position == moves@[m].1
                    &&& !(exists|m: int| 0 <= m < n + 1 && moves@[m].0@ == k) ==> cur[k].position == orig[k].position
                } by {
                    if k == target@ {
                        assert(moves@[n as int].0@ == k);
                    } else {
                        if exists|m: int| 0 <= m < n + 1 && moves@[m].0@ == k {
                            let m = choose|m: int| 0 <= m < n + 1 && moves@[m].0@ == k;
                            assert(m != n);
                        }
                    }
                }
            }
            n = n + 1;
        }
        proof {
            let cur = self.spec_blocks();
            assert forall|k: u64| #[trigger] orig.dom().contains(k) implies {
                &&& cur[k] == BlockInstance { position: cur[k].position, ..orig[k] }
                &&& (exists|u: u64| links_into(orig, u, k)) ==> exists|u: u64| #[trigger] links_into(orig, u, k) && cur[k].position == below(orig, u)
                &&& !(exists|u: u64| links_into(orig, u, k)) ==> cur[k].position == orig[k].position
            } by {
                if exists|u: u64| links_into(orig, u, k) {
                    let u = choose|u: u64| links_into(orig, u, k);
                    let j = choose|j: int| 0 <= j < ids@.len() && (#[trigger] ids@[j])@ == u;
                    assert(links_into(orig, ids@[j]@, k));
                    let m = choose|m: int| 0 <= m < moves@.len() && uppers[m] == ids@[j]@;
                    assert(links_into(orig, uppers[m], moves@[m].0@));
                    assert(moves@[m].0@ == k);
                    let m2 = choose|m2: int| 0 <= m2 < moves@.len() && #[trigger] moves@[m2].0@ == k && cur[k].position == moves@[m2].1;
                    assert(links_into(orig, uppers[m2], k));
                } else {
                    if exists|m: int| 0 <= m < moves@.len() && moves@[m].0@ == k {
                        let m = choose|m: int| 0 <= m < moves@.len() && moves@[m].0@ == k;
                        assert(links_into(orig, uppers[m], moves@[m].0@));
                    }
                }
            }
            assert forall|k: u64| #[trigger] cur.dom().contains(k) implies cur[k].wf() by {
                assert(orig.dom().contains(k));
            }
        }
    }

    /// Takes block `id` off the canvas and clears every link to it; `None`, with nothing
    /// changed, for a stale handle.
    pub fn remove_block(&mut self, id: BlockId) -> (r: Option<BlockInstance>)
        requires
            old(self).wf(),
        ensures
            final(self).wf(),
            final(self).spec_offset() == old(self).spec_offset(),
            match r {
                Some(b) => {
                    &&& old(self).spec_blocks().dom().contains(id@)
                    &&& b == old(self).spec_blocks()[id@]
                    &&& detached(old(self).spec_blocks().remove(id@), final(self).spec_blocks(), id@)
                },
                None => !old(self).spec_blocks().dom().contains(id@) && final(self).spec_blocks() == old(self).spec_blocks(),
            },
    {
        let r = arena_remove(&mut self.blocks, id);
        match r {
            Some(_) => {
                proof {
                    let m = self.spec_blocks();
                    assert forall|k: u64| #[trigger] m.dom().contains(k) implies m[k].wf() by {
                        assert(old(self).spec_blocks().dom().contains(k));
                    }
                }
                self.detach(id);
            },
            None => {
                proof {
                    assert(self.spec_blocks() =~= old(self).spec_blocks());
                }
            },
        }
        r
    }

    /// The text field `key` of block `id`.
    pub fn text_value(&self, id: BlockId, key: &String) -> (r: Option<&String>)
        requires
            self.wf(),
        ensures
            match r {
                Some(v) => self.spec_blocks().dom().contains(id@) && self.spec_blocks()[id@].text_data@.dom().contains(key@)
                    && *v == self.spec_blocks()[id@].text_data@[key@],
                None => !(self.spec_blocks().dom().contains(id@) && self.spec_blocks()[id@].text_data@.dom().contains(key@)),
            },
    {
        match arena_get(&self.blocks, id) {
            Some(b) => b.text_data.get(key),
            None => None,
        }
    }

    /// The number field `key` of block `id`.
    pub fn number_value(&self, id: BlockId, key: &String) -> (r: Option<i32>)
        requires
            self.wf(),
        ensures
            match r {
                Some(v) => self.spec_blocks().dom().contains(id@) && self.spec_blocks()[id@].number_data@.dom().contains(key@)
                    && v == self.spec_blocks()[id@].number_data@[key@],
                None => !(self.spec_blocks().dom().contains(id@) && self.spec_blocks()[id@].number_data@.dom().contains(key@)),
            },
    {
        match arena_get(&self.blocks, id) {
            Some(b) => match b.number_data.get(key) {
                Some(v) => Some(*v),
                None => None,
            },
            None => None,
        }
    }

    /// Stores an edit of the existing text field `key` of block `id`; `false`, with nothing
    /// changed, when the block or the field does not exist.
    pub fn set_text_value(&mut self, id: BlockId, key: String, value: String) -> (r: bool)
        requires
            old(self).wf(),
        ensures
            final(self).wf(),
            final(self).spec_offset() == old(self).spec_offset(),
            r == (old(self).spec_blocks().dom().contains(id@) && old(self).spec_blocks()[id@].text_data@.dom().contains(key@)),
            r ==> {
                &&& final(self).spec_blocks() == old(self).spec_blocks().insert(
                    id@,
                    BlockInstance { text_data: final(self).spec_blocks()[id@].text_data, ..old(self).spec_blocks()[id@] },
                )
                &&& final(self).spec_blocks()[id@].text_data@ == old(self).spec_blocks()[id@].text_data@.insert(key@, value)
            },
            !r ==> final(self).spec_blocks() == old(self).spec_blocks(),
    {
        match self.text_value(id, &key) {
            Some(_) => {},
            None => {
                return false;
            },
        }
        let b = arena_get_mut(&mut self.blocks, id);
        b.text_data.set(key, value);
        proof {
            let m = self.spec_blocks();
            assert forall|k: u64| #[trigger] m.dom().contains(k) implies m[k].wf() by {
                assert(old(self).spec_blocks().dom().contains(k));
            }
        }
        true
    }

    /// Stores an edit of the existing number field `key` of block `id`; `false`, with
    /// nothing changed, when the block or the field does not exist.
    pub fn set_number_value(&mut self, id: BlockId, key: String, value: i32) -> (r: bool)
        requires
            old(self).wf(),
        ensures
            final(self).wf(),
            final(self).spec_offset() == old(self).spec_offset(),
            r == (old(self).spec_blocks().dom().contains(id@) && old(self).spec_blocks()[id@].number_data@.dom().contains(key@)),
            r ==> {
                &&& final(self).spec_blocks() == old(self).spec_blocks().insert(
                    id@,
                    BlockInstance { number_data: final(self).spec_blocks()[id@].number_data, ..old(self).spec_blocks()[id@] },
                )
                &&& final(self).spec_blocks()[id@].number_data@ == old(self).spec_blocks()[id@].number_data@.insert(key@, value)
            },
            !r ==> final(self).spec_blocks() == old(self).spec_blocks(),
    {
        match self.number_value(id, &key) {
            Some(_) => {},
            None => {
                return false;
            },
        }
        let b = arena_get_mut(&mut self.blocks, id);
        b.number_data.set(key, value);
        proof {
            let m = self.spec_blocks();
            assert forall|k: u64| #[trigger] m.dom().contains(k) implies m[k].wf() by {
                assert(old(self).spec_blocks().dom().contains(k));
            }
        }
        true
    }

    /// Every block once, least recently touched first: the order in which blocks are drawn
    /// and take input, so that the block touched last is on top.
    pub fn interaction_order(&self) -> (r: Vec<BlockId>)
        ensures
            r@.no_duplicates(),
            forall|i: int| 0 <= i < r@.len() ==> self.spec_blocks().dom().contains(#[trigger] r@[i]@),
            forall|k: u64| #[trigger] self.spec_blocks().dom().contains(k) ==> exists|i: int| 0 <= i < r@.len() && r@[i]@ == k,
            forall|i: int, j: int|
                0 <= i <= j < r@.len() ==> self.spec_blocks()[r@[i]@].last_touched_frame
                    <= self.spec_blocks()[r@[j]@].last_touched_frame,
    {
        let ids = arena_ids(&self.blocks);
        let mut keyed: Vec<(u64, u64)> = Vec::new();
        let mut i: usize = 0;
        while i < ids.len()
            invariant
                i <= ids@.len(),
                keyed@.len() == i,
                forall|j: int| 0 <= j < i ==> (#[trigger] keyed@[j]).1 == ids@[j]@,
                forall|j: int| 0 <= j < i ==> self.spec_blocks().dom().contains(ids@[j]@),
                forall|j: int| 0 <= j < i ==> (#[trigger] keyed@[j]).0 == self.spec_blocks()[ids@[j]@].last_touched_frame,
                forall|k: u64| self.spec_blocks().dom().contains(k) <==> exists|j: int| 0 <= j < ids@.len() && (#[trigger] ids@[j])@ == k,
            decreases ids@.len() - i,
        {
            let id = ids[i];
            proof {
                assert(self.spec_blocks().dom().contains(ids@[i as int]@));
            }
            let frame = match arena_get(&self.blocks, id) {
                Some(b) => b.last_touched_frame,
                None => 0,
            };
            keyed.push((frame, id.to_bits()));
            i = i + 1;
        }
        let sorted = sorted_by_first(keyed);
        let mut r: Vec<BlockId> = Vec::new();
        let mut j: usize = 0;
        while j < sorted.len()
            invariant
                j <= sorted@.len(),
                r@.len() == j,
                forall|m: int| 0 <= m < j ==> (#[trigger] r@[m])@ == sorted@[m].1,
            decreases sorted@.len() - j,
        {
            r.push(BlockId::from_bits(sorted[j].1));
            j = j + 1;
        }
        proof {
            lemma_sorted_ids(self.spec_blocks(), ids@, keyed@, sorted@, r@);
        }
        r
    }
}

/// `p` with its link to `id`, if it holds one, replaced by an open slot.
pub open spec fn unlink_part(p: BlockPart, id: u64) -> BlockPart {
    match p.next {
        Next::Linked { target, .. } => if target@ == id {
            BlockPart { next: Next::Open, ..p }
        } else {
            p
        },
        _ => p,
    }
}

/// `b` is `a` with every link to `id` cleared; all but the parts and the snap target kept.
pub open spec fn unlinked(a: BlockInstance, b: BlockInstance, id: u64) -> bool {
    &&& b.position == a.position
    &&& b.last_touched_frame == a.last_touched_frame
    &&& b.description == a.description
    &&& b.text_data == a.text_data
    &&& b.number_data == a.number_data
    &&& b.parts@.len() == a.parts@.len()
    &&& forall|i: int| 0 <= i < a.parts@.len() ==> #[trigger] b.parts@[i] == unlink_part(a.parts@[i], id)
}

/// `new` is `old` with every link to `id` cleared.
pub open spec fn detached(old: Map<u64, BlockInstance>, new: Map<u64, BlockInstance>, id: u64) -> bool {
    &&& new.dom() == old.dom()
    &&& forall|k: u64| #[trigger] old.dom().contains(k) ==> unlinked(old[k], new[k], id) && new[k].snap_target == old[k].snap_target
}

/// A block whose first part can take a link (its slot is not `NotApplicable`).
pub open spec fn can_receive(b: BlockInstance) -> bool {
    b.parts@.len() > 0 && !(b.parts@[0].next is NotApplicable)
}

/// Squared distance from the top attachment point of `d` to the bottom attachment point of `k`.
pub open spec fn snap_dist2(m: Map<u64, BlockInstance>, d: u64, k: u64) -> int {
    attach_dist2(m[d].position, m[k].position, m[k].parts@.last().bottom_offset)
}

/// Block `k` may take the dragged block `d`: another live block that can receive a link,
/// with attachment points closer than the snap distance.
pub open spec fn is_candidate(m: Map<u64, BlockInstance>, d: u64, k: u64) -> bool {
    &&& m.dom().contains(d)
    &&& m.dom().contains(k)
    &&& k != d
    &&& can_receive(m[k])
    &&& in_snap_range(snap_dist2(m, d, k))
}

/// `r` is a closest candidate for the dragged block `d`, or `None` when there is none.
pub open spec fn is_snap_choice(m: Map<u64, BlockInstance>, d: u64, r: Option<BlockId>) -> bool {
    match r {
        Some(t) => is_candidate(m, d, t@) && forall|k: u64| #[trigger]
            is_candidate(m, d, k) ==> snap_dist2(m, d, t@) <= snap_dist2(m, d, k),
        None => forall|k: u64| !#[trigger] is_candidate(m, d, k),
    }
}

/// Block `u` links its first part to `t`.
pub open spec fn links_into(m: Map<u64, BlockInstance>, u: u64, t: u64) -> bool {
    &&& m.dom().contains(u)
    &&& m[u].parts@.len() > 0
    &&& m[u].parts@[0].next matches Next::Linked { target, .. } && target@ == t
}

/// Where a block linked below `u` goes: straight under it.
pub open spec fn below(m: Map<u64, BlockInstance>, u: u64) -> Pos2 {
    Pos2 {
        x: m[u].position.x,
        y: clamp_i64(m[u].position.y + m[u].spec_total_height()) as i64,
    }
}

/// `new` is `old` after one propagation pass: each linked block sits under a block that
/// links to it, as that block stood before the pass; nothing else moves or changes.
pub open spec fn propagated(old: Map<u64, BlockInstance>, new: Map<u64, BlockInstance>) -> bool {
    &&& new.dom() == old.dom()
    &&& forall|k: u64| #[trigger] old.dom().contains(k) ==> {
        &&& new[k] == BlockInstance { position: new[k].position, ..old[k] }
        &&& (exists|u: u64| links_into(old, u, k)) ==> exists|u: u64| #[trigger] links_into(old, u, k) && new[k].position == below(old, u)
        &&& !(exists|u: u64| links_into(old, u, k)) ==> new[k].position == old[k].position
    }
}

/// `new` is `old` after `link` is committed: written into its slot when that slot is open,
/// and nothing changed otherwise.
pub open spec fn committed(old: Map<u64, BlockInstance>, new: Map<u64, BlockInstance>, link: PendingLink) -> bool {
    let u = link.upper_block@;
    let i = link.upper_part as int;
    if old.dom().contains(u) && i < old[u].parts@.len() && old[u].parts@[i].next is Open {
        &&& new.dom() == old.dom()
        &&& forall|k: u64| #[trigger] old.dom().contains(k) && k != u ==> new[k] == old[k]
        &&& new[u] == BlockInstance { parts: new[u].parts, ..old[u] }
        &&& new[u].parts@ == old[u].parts@.update(
            i,
            BlockPart { next: Next::Linked { target: link.next_block, height: 0 }, ..old[u].parts@[i] },
        )
    } else {
        new == old
    }
}

fn unlink_parts(parts: &mut Vec<BlockPart>, id: BlockId)
    ensures
        final(parts)@.len() == old(parts)@.len(),
        forall|i: int| 0 <= i < old(parts)@.len() ==> #[trigger] final(parts)@[i] == unlink_part(old(parts)@[i], id@),
{
    let ghost orig = parts@;
    let mut i: usize = 0;
    while i < parts.len()
        invariant
            parts@.len() == orig.len(),
            i <= orig.len(),
            forall|j: int| 0 <= j < i ==> #[trigger] parts@[j] == unlink_part(orig[j], id@),
            forall|j: int| i <= j < orig.len() ==> #[trigger] parts@[j] == orig[j],
        decreases orig.len() - i,
    {
        let part = parts[i];
        match part.next {
            Next::Linked { target, .. } => {
                proof {
                    lemma_id_eq(target, id);
                }
                if target == id {
                    parts.set(i, BlockPart { next: Next::Open, ..part });
                }
            },
            _ => {},
        }
        i = i + 1;
    }
}

/// Clearing links to `d` keeps every block's position, bottom edge and ability to take a
/// link, so the snap choice is the same before and after.
proof fn lemma_snap_choice_detached(
    old: Map<u64, BlockInstance>,
    new: Map<u64, BlockInstance>,
    d: u64,
    r: Option<BlockId>,
)
    requires
        detached(old, new, d),
        forall|k: u64| #[trigger] old.dom().contains(k) ==> old[k].wf(),
        is_snap_choice(new, d, r),
    ensures
        is_snap_choice(old, d, r),
{
    if old.dom().contains(d) {
        assert(unlinked(old[d], new[d], d));
        assert forall|k: u64| old.dom().contains(k) implies #[trigger] is_candidate(old, d, k) == is_candidate(new, d, k)
            && snap_dist2(old, d, k) == snap_dist2(new, d, k) by {
            assert(unlinked(old[k], new[k], d));
            assert(old[k].wf());
            let n = old[k].parts@.len();
            assert(new[k].parts@[0] == unlink_part(old[k].parts@[0], d));
            assert(new[k].parts@[n - 1] == unlink_part(old[k].parts@[n - 1], d));
            assert(new[k].parts@.last() == new[k].parts@[n - 1]);
            assert(old[k].parts@.last() == old[k].parts@[n - 1]);
        }
    }
    match r {
        Some(t) => {
            assert forall|k: u64| #[trigger] is_candidate(old, d, k) implies snap_dist2(old, d, t@) <= snap_dist2(old, d, k) by {
                assert(is_candidate(new, d, k));
            }
        },
        None => {
            assert forall|k: u64| !#[trigger] is_candidate(old, d, k) by {
                if old.dom().contains(k) {
                    assert(!is_candidate(new, d, k));
                }
            }
        },
    }
}

proof fn lemma_sorted_ids(
    m: Map<u64, BlockInstance>,
    ids: Seq<BlockId>,
    keyed: Seq<(u64, u64)>,
    sorted: Seq<(u64, u64)>,
    r: Seq<BlockId>,
)
    requires
        ids.no_duplicates(),
        keyed.len() == ids.len(),
        forall|j: int| 0 <= j < ids.len() ==> (#[trigger] keyed[j]).1 == ids[j]@,
        forall|j: int| 0 <= j < ids.len() ==> m.dom().contains(ids[j]@),
        forall|j: int| 0 <= j < ids.len() ==> (#[trigger] keyed[j]).0 == m[ids[j]@].last_touched_frame,
        forall|k: u64| m.dom().contains(k) <==> exists|j: int| 0 <= j < ids.len() && (#[trigger] ids[j])@ == k,
        sorted.to_multiset() == keyed.to_multiset(),
        forall|i: int, j: int| 0 <= i <= j < sorted.len() ==> sorted[i].0 <= sorted[j].0,
        r.len() == sorted.len(),
        forall|i: int| 0 <= i < r.len() ==> (#[trigger] r[i])@ == sorted[i].1,
    ensures
        r.no_duplicates(),
        forall|i: int| 0 <= i < r.len() ==> m.dom().contains(#[trigger] r[i]@),
        forall|k: u64| #[trigger] m.dom().contains(k) ==> exists|i: int| 0 <= i < r.len() && r[i]@ == k,
        forall|i: int, j: int|
            0 <= i <= j < r.len() ==> m[r[i]@].last_touched_frame <= m[r[j]@].last_touched_frame,
{
    broadcast use vstd::seq_lib::group_to_multiset_ensures;

    assert forall|i: int| 0 <= i < sorted.len() implies exists|j: int|
        0 <= j < keyed.len() && keyed[j] == #[trigger] sorted[i] by {
        assert(sorted.contains(sorted[i]));
        assert(keyed.to_multiset().count(sorted[i]) > 0);
        assert(keyed.contains(sorted[i]));
    }
    assert forall|j: int| 0 <= j < keyed.len() implies exists|i: int|
        0 <= i < sorted.len() && sorted[i] == #[trigger] keyed[j] by {
        assert(keyed.contains(keyed[j]));
        assert(sorted.to_multiset().count(keyed[j]) > 0);
        assert(sorted.contains(keyed[j]));
    }
    assert forall|a: int, b: int| 0 <= a < keyed.len() && 0 <= b < keyed.len() && keyed[a].1 == keyed[b].1 implies a == b by {
        lemma_id_eq(ids[a], ids[b]);
    }
    assert(keyed.no_duplicates());
    keyed.lemma_multiset_has_no_duplicates();
    sorted.lemma_multiset_has_no_duplicates_conv();
    assert forall|i: int| 0 <= i < sorted.len() implies m.dom().contains(sorted[i].1)
        && sorted[i].0 == m[sorted[i].1].last_touched_frame by {
        let j = choose|j: int| 0 <= j < keyed.len() && keyed[j] == sorted[i];
    }
    assert forall|a: int, b: int| 0 <= a < r.len() && 0 <= b < r.len() && a != b implies r[a] != r[b] by {
        if r[a] == r[b] {
            let ja = choose|j: int| 0 <= j < keyed.len() && keyed[j] == sorted[a];
            let jb = choose|j: int| 0 <= j < keyed.len() && keyed[j] == sorted[b];
            assert(ja == jb);
        }
    }
    assert forall|k: u64| #[trigger] m.dom().contains(k) implies exists|i: int| 0 <= i < r.len() && r[i]@ == k by {
        let j = choose|j: int| 0 <= j < ids.len() && (#[trigger] ids[j])@ == k;
        let i = choose|i: int| 0 <= i < sorted.len() && sorted[i] == #[trigger] keyed[j];
        assert(r[i]@ == k);
    }
}

} // verus!
