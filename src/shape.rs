use vstd::prelude::*;

verus! {

/// The outline family of a block.
#[derive(Clone, Copy, Debug, PartialEq, Eq, Structural)]
pub enum BlockShape {
    /// No top notch.
    Hat,
    /// Top and bottom notch.
    Stack,
    /// Top notch, `branches` branch notches, bottom notch; `branches` is positive.
    C { branches: usize },
    /// No bottom notch.
    Cap,
}

impl BlockShape {
    /// A shape is usable when a `C` declares at least one branch.
    pub open spec fn wf(self) -> bool {
        match self {
            BlockShape::C { branches } => branches > 0,
            _ => true,
        }
    }

    pub open spec fn spec_top_notch(self) -> bool {
        !(self is Hat)
    }

    pub open spec fn spec_bottom_notch(self) -> bool {
        !(self is Cap)
    }

    pub open spec fn spec_branches(self) -> nat {
        match self {
            BlockShape::C { branches } => branches as nat,
            _ => 0,
        }
    }

    /// Whether the top edge carries a notch.
    pub fn top_notch(&self) -> (r: bool)
        ensures
            r == self.spec_top_notch(),
    {
        !matches!(self, BlockShape::Hat)
    }

    /// Whether the bottom edge carries a notch.
    pub fn bottom_notch(&self) -> (r: bool)
        ensures
            r == self.spec_bottom_notch(),
    {
        !matches!(self, BlockShape::Cap)
    }

    /// Number of inner branch slots: the declared count for `C`, zero otherwise.
    pub fn branches(&self) -> (r: usize)
        ensures
            r == self.spec_branches(),
    {
        match self {
            BlockShape::C { branches } => *branches,
            _ => 0,
        }
    }
}

} // verus!
