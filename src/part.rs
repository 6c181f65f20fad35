use crate::arena::BlockId;
use crate::geometry::{clamp_u32, Offset, EMPTY_BRANCH_HEIGHT, MULTIPART_INDENT, PART_HEIGHT_MIN};
use vstd::prelude::*;

verus! {

/// The outgoing attachment slot of a part.
#[derive(Clone, Copy, Debug, PartialEq, Eq, Structural)]
pub enum Next {
    /// The part cannot hold a link (the last part of a shape without a bottom notch).
    NotApplicable,
    /// The part can hold a link and holds none.
    Open,
    /// The part links to `target`, reserving `height` below itself for it.
    Linked { target: BlockId, height: u32 },
}

/// One rectangular segment of a block.
#[derive(Clone, Copy, Debug, PartialEq, Eq, Structural)]
pub struct BlockPart {
    pub top_offset: Offset,
    pub bottom_offset: Offset,
    pub width: u32,
    pub next: Next,
}

/// Gap left below a part: what its link reserves, or the empty-branch placeholder.
pub open spec fn gap_below(p: BlockPart) -> int {
    match p.next {
        Next::Linked { height, .. } => height as int,
        _ => EMPTY_BRANCH_HEIGHT as int,
    }
}

/// Top of part `i` once `parts` are stacked from the block's top edge.
pub open spec fn laid_top(parts: Seq<BlockPart>, i: int) -> int
    decreases i,
{
    if i <= 0 {
        0
    } else {
        clamp_u32(clamp_u32(laid_top(parts, i - 1) + parts[i - 1].spec_height()) + gap_below(parts[i - 1]))
    }
}

/// Bottom of part `i` once `parts` are stacked from the block's top edge.
pub open spec fn laid_bottom(parts: Seq<BlockPart>, i: int) -> int {
    clamp_u32(laid_top(parts, i) + parts[i].spec_height())
}

/// Horizontal offset of the top edge of part `i`: every part but the first is inset.
pub open spec fn top_inset(i: int) -> u32 {
    if i != 0 {
        MULTIPART_INDENT
    } else {
        0
    }
}

/// Horizontal offset of the bottom edge of part `i` of `n`: every part but the last is inset.
pub open spec fn bottom_inset(i: int, n: int) -> u32 {
    if i != n - 1 {
        MULTIPART_INDENT
    } else {
        0
    }
}

/// `new` is `old` stacked top to bottom: same widths and links, fresh offsets.
pub open spec fn is_laid_out(old: Seq<BlockPart>, new: Seq<BlockPart>) -> bool {
    &&& new.len() == old.len()
    &&& forall|i: int|
        0 <= i < old.len() ==> {
            &&& (#[trigger] new[i]).width == old[i].width
            &&& new[i].next == old[i].next
            &&& new[i].top_offset == Offset { x: top_inset(i), y: laid_top(old, i) as u32 }
            &&& new[i].bottom_offset == Offset {
                x: bottom_inset(i, old.len() as int),
                y: laid_bottom(old, i) as u32,
            }
        }
}

impl BlockPart {
    /// A part before its first layout: `PART_HEIGHT_MIN` tall, no width.
    pub open spec fn spec_fresh(next: Next) -> BlockPart {
        BlockPart {
            top_offset: Offset { x: 0, y: 0 },
            bottom_offset: Offset { x: 0, y: PART_HEIGHT_MIN },
            width: 0,
            next,
        }
    }

    pub fn fresh(next: Next) -> (r: BlockPart)
        ensures
            r == BlockPart::spec_fresh(next),
    {
        BlockPart {
            top_offset: Offset { x: 0, y: 0 },
            bottom_offset: Offset { x: 0, y: PART_HEIGHT_MIN },
            width: 0,
            next,
        }
    }

    pub open spec fn spec_height(self) -> int {
        if self.bottom_offset.y >= self.top_offset.y {
            self.bottom_offset.y - self.top_offset.y
        } else {
            0
        }
    }

    /// Distance from the part's top edge to its bottom edge.
    pub fn height(&self) -> (r: u32)
        ensures
            r == self.spec_height(),
    {
        self.bottom_offset.y.saturating_sub(self.top_offset.y)
    }

    /// Width and height of the part.
    pub fn extent(&self) -> (r: Offset)
        ensures
            r == (Offset { x: self.width, y: self.spec_height() as u32 }),
    {
        Offset { x: self.width, y: self.height() }
    }

    pub open spec fn spec_resized(self, width: u32, height: u32) -> BlockPart {
        let h = if height < PART_HEIGHT_MIN {
            PART_HEIGHT_MIN as int
        } else {
            height as int
        };
        BlockPart {
            width,
            bottom_offset: Offset {
                x: self.bottom_offset.x,
                y: clamp_u32(self.top_offset.y + h) as u32,
            },
            ..self
        }
    }

    /// Takes the measured size of the part's content; the height is at least
    /// `PART_HEIGHT_MIN`.
    pub fn resize(&mut self, width: u32, height: u32)
        ensures
            *final(self) == old(self).spec_resized(width, height),
    {
        let h = if height < PART_HEIGHT_MIN {
            PART_HEIGHT_MIN
        } else {
            height
        };
        self.width = width;
        self.bottom_offset.y = self.top_offset.y.saturating_add(h);
    }
}

/// Stacks `parts` top to bottom, each below the previous one's gap.
pub fn layout_parts(parts: &mut Vec<BlockPart>)
    ensures
        is_laid_out(old(parts)@, final(parts)@),
{
    let ghost orig = parts@;
    let n = parts.len();
    let mut y: u32 = 0;
    let mut i: usize = 0;
    while i < n
        invariant
            n == orig.len(),
            parts@.len() == n,
            i <= n,
            y == laid_top(orig, i as int),
            forall|j: int| i <= j < n ==> parts@[j] == orig[j],
            forall|j: int|
                0 <= j < i ==> {
                    &&& (#[trigger] parts@[j]).width == orig[j].width
                    &&& parts@[j].next == orig[j].next
                    &&& parts@[j].top_offset == Offset { x: top_inset(j), y: laid_top(orig, j) as u32 }
                    &&& parts@[j].bottom_offset == Offset {
                        x: bottom_inset(j, n as int),
                        y: laid_bottom(orig, j) as u32,
                    }
                },
        decreases n - i,
    {
        let mut part = parts[i];
        let h = part.height();
        let bottom = y.saturating_add(h);
        part.top_offset = Offset {
            x: if i != 0 {
                MULTIPART_INDENT
            } else {
                0
            },
            y,
        };
        part.bottom_offset = Offset {
            x: if i != n - 1 {
                MULTIPART_INDENT
            } else {
                0
            },
            y: bottom,
        };
        let gap = match part.next {
            Next::Linked { height, .. } => height,
            _ => EMPTY_BRANCH_HEIGHT,
        };
        parts.set(i, part);
        y = bottom.saturating_add(gap);
        i = i + 1;
    }
}

} // verus!
