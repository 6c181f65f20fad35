use crate::shape::BlockShape;
use vstd::prelude::*;

verus! {

/// One element of a block part's content.
#[derive(Clone, Copy, Debug)]
pub enum BlockWidget {
    /// Static text with no state.
    Label { text: &'static str },
    /// An editable text field backed by the content store under `key`.
    TextEdit { key: &'static str, default: &'static str },
    /// An editable number field backed by the content store under `key`.
    NumberEdit { key: &'static str, default: i32 },
}

/// A block's shape together with the widgets of each of its parts.
#[derive(Clone, Debug)]
pub struct BlockDescription {
    pub shape: BlockShape,
    /// parts -> widgets
    pub content: Vec<Vec<BlockWidget>>,
}

/// The capability a concrete kind of block supplies: describe itself, and run.
pub trait Block {
    fn describe(&mut self) -> BlockDescription;

    fn run(&mut self);
}

/// The widgets of every part, as a sequence of sequences.
pub open spec fn content_of(d: BlockDescription) -> Seq<Seq<BlockWidget>> {
    Seq::new(d.content@.len(), |i: int| d.content@[i]@)
}

impl BlockDescription {
    /// The shape is usable and there is one part for the head plus one per branch.
    pub open spec fn wf(self) -> bool {
        &&& self.shape.wf()
        &&& self.content@.len() == self.shape.spec_branches() + 1
    }

    /// Whether the description can be turned into a block.
    pub fn is_well_formed(&self) -> (r: bool)
        ensures
            r == self.wf(),
    {
        let ok_shape = match self.shape {
            BlockShape::C { branches } => branches > 0,
            _ => true,
        };
        let parts = self.content.len();
        ok_shape && parts > 0 && parts - 1 == self.shape.branches()
    }
}

} // verus!
