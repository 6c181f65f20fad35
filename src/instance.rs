use crate::arena::BlockId;
use crate::description::{content_of, BlockDescription, BlockWidget};
use crate::geometry::Pos2;
use crate::part::{BlockPart, Next};
use crate::store::FieldStore;
use vstd::prelude::*;

verus! {

/// Text fields declared by `ws`, laid over `m`; a later declaration of a key wins.
pub open spec fn seed_text_part(m: Map<Seq<char>, Seq<char>>, ws: Seq<BlockWidget>) -> Map<
    Seq<char>,
    Seq<char>,
>
    decreases ws.len(),
{
    if ws.len() == 0 {
        m
    } else {
        let m2 = seed_text_part(m, ws.drop_last());
        match ws.last() {
            BlockWidget::TextEdit { key, default } => m2.insert(key@, default@),
            _ => m2,
        }
    }
}

/// Text fields declared by all parts, each key with its default.
pub open spec fn seed_text(cs: Seq<Seq<BlockWidget>>) -> Map<Seq<char>, Seq<char>>
    decreases cs.len(),
{
    if cs.len() == 0 {
        Map::empty()
    } else {
        seed_text_part(seed_text(cs.drop_last()), cs.last())
    }
}

/// Number fields declared by `ws`, laid over `m`; a later declaration of a key wins.
pub open spec fn seed_number_part(m: Map<Seq<char>, i32>, ws: Seq<BlockWidget>) -> Map<
    Seq<char>,
    i32,
>
    decreases ws.len(),
{
    if ws.len() == 0 {
        m
    } else {
        let m2 = seed_number_part(m, ws.drop_last());
        match ws.last() {
            BlockWidget::NumberEdit { key, default } => m2.insert(key@, default),
            _ => m2,
        }
    }
}

/// Number fields declared by all parts, each key with its default.
pub open spec fn seed_number(cs: Seq<Seq<BlockWidget>>) -> Map<Seq<char>, i32>
    decreases cs.len(),
{
    if cs.len() == 0 {
        Map::empty()
    } else {
        seed_number_part(seed_number(cs.drop_last()), cs.last())
    }
}

/// The text values of a store, as character sequences.
pub open spec fn text_values(s: FieldStore<String>) -> Map<Seq<char>, Seq<char>> {
    s@.map_values(|v: String| v@)
}

/// The link slot a fresh part `i` of `n` gets: none only for the last part of a shape
/// without a bottom notch.
pub open spec fn initial_next(bottom_notch: bool, i: int, n: int) -> Next {
    if bottom_notch || i < n - 1 {
        Next::Open
    } else {
        Next::NotApplicable
    }
}

/// A block placed on the canvas.
#[derive(Debug)]
pub struct BlockInstance {
    /// Top-left corner on the canvas.
    pub position: Pos2,
    /// Frame in which the block was last dragged; orders drawing and interaction.
    pub last_touched_frame: u64,
    /// Best attachment candidate while the block is dragged.
    pub snap_target: Option<BlockId>,
    pub parts: Vec<BlockPart>,
    pub description: BlockDescription,
    pub text_data: FieldStore<String>,
    pub number_data: FieldStore<i32>,
}

impl BlockInstance {
    /// At least one part, and value stores with one entry per key.
    pub open spec fn wf(&self) -> bool {
        &&& self.parts@.len() > 0
        &&& self.text_data.wf()
        &&& self.number_data.wf()
    }

    pub open spec fn spec_total_height(&self) -> int {
        self.parts@.last().bottom_offset.y as int
    }

    /// Height of the whole block: the bottom of its last part.
    pub fn total_height(&self) -> (r: u32)
        requires
            self.wf(),
        ensures
            r == self.spec_total_height(),
    {
        self.parts[self.parts.len() - 1].bottom_offset.y
    }

    /// `self` is a block just placed at `position` as `description` declares it: one fresh
    /// part per content entry, every field at its default.
    pub open spec fn spec_created(&self, position: Pos2, description: BlockDescription) -> bool {
        &&& self.wf()
        &&& self.position == position
        &&& self.last_touched_frame == 0
        &&& self.snap_target is None
        &&& self.description == description
        &&& self.parts@.len() == description.content@.len()
        &&& forall|i: int|
            0 <= i < self.parts@.len() ==> #[trigger] self.parts@[i] == BlockPart::spec_fresh(
                initial_next(description.shape.spec_bottom_notch(), i, description.content@.len() as int),
            )
        &&& text_values(self.text_data) == seed_text(content_of(description))
        &&& self.number_data@ == seed_number(content_of(description))
    }

    /// A block at `position` as `description` declares it, with every field at its default.
    pub fn new(position: Pos2, description: BlockDescription) -> (r: BlockInstance)
        requires
            description.wf(),
        ensures
            r.spec_created(position, description),
    {
        let ghost cs = content_of(description);
        let mut text_data: FieldStore<String> = FieldStore::new();
        let mut number_data: FieldStore<i32> = FieldStore::new();
        proof {
            assert(text_values(text_data) =~= Map::empty());
            assert(cs.take(0) =~= Seq::empty());
        }
        let n = description.content.len();
        let mut i: usize = 0;
        while i < n
            invariant
                n == description.content@.len(),
                cs == content_of(description),
                i <= n,
                text_data.wf(),
                number_data.wf(),
                text_values(text_data) == seed_text(cs.take(i as int)),
                number_data@ == seed_number(cs.take(i as int)),
            decreases n - i,
        {
            let widgets = &description.content[i];
            let ghost base_t = text_values(text_data);
            let ghost base_n = number_data@;
            assert(widgets@.take(0) =~= Seq::empty());
            let mut j: usize = 0;
            while j < widgets.len()
                invariant
                    widgets@ == cs[i as int],
                    j <= widgets@.len(),
                    text_data.wf(),
                    number_data.wf(),
                    text_values(text_data) == seed_text_part(base_t, widgets@.take(j as int)),
                    number_data@ == seed_number_part(base_n, widgets@.take(j as int)),
                decreases widgets@.len() - j,
            {
                let ghost pre = widgets@.take(j as int);
                let ghost post = widgets@.take(j as int + 1);
                assert(post.drop_last() =~= pre);
                match widgets[j] {
                    BlockWidget::TextEdit { key, default } => {
                        let ghost before = text_data@;
                        text_data.set(key.to_owned(), default.to_owned());
                        assert(text_values(text_data) =~= text_values_insert(before, key@, default@));
                    },
                    BlockWidget::NumberEdit { key, default } => {
                        number_data.set(key.to_owned(), default);
                    },
                    BlockWidget::Label { .. } => {},
                }
                j = j + 1;
            }
            assert(widgets@.take(widgets@.len() as int) =~= widgets@);
            assert(cs.take(i as int + 1).drop_last() =~= cs.take(i as int));
            i = i + 1;
        }
        assert(cs.take(n as int) =~= cs);
        let bottom_notch = description.shape.bottom_notch();
        let mut parts: Vec<BlockPart> = Vec::new();
        let mut k: usize = 0;
        while k < n
            invariant
                n == description.content@.len(),
                k <= n,
                parts@.len() == k,
                bottom_notch == description.shape.spec_bottom_notch(),
                forall|m: int|
                    0 <= m < k ==> #[trigger] parts@[m] == BlockPart::spec_fresh(
                        initial_next(bottom_notch, m, n as int),
                    ),
            decreases n - k,
        {
            let next = if bottom_notch || k < n - 1 {
                Next::Open
            } else {
                Next::NotApplicable
            };
            parts.push(BlockPart::fresh(next));
            k = k + 1;
        }
        BlockInstance {
            position,
            last_touched_frame: 0,
            snap_target: None,
            parts,
            description,
            text_data,
            number_data,
        }
    }
}

/// Text values of `m` after `key` is set to `value`.
pub open spec fn text_values_insert(m: Map<Seq<char>, String>, key: Seq<char>, value: Seq<char>) -> Map<
    Seq<char>,
    Seq<char>,
> {
    m.map_values(|v: String| v@).insert(key, value)
}

} // verus!
