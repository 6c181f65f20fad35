use crate::instance::BlockInstance;
use thunderdome::{Arena, Index};
use vstd::prelude::*;

verus! {

/// A stable handle to a block: the bits of a generation-tagged arena index.
#[derive(Clone, Copy, Debug, PartialEq, Eq, Hash, Structural)]
pub struct BlockId {
    bits: u64,
}

impl View for BlockId {
    type V = u64;

    open spec fn view(&self) -> u64 {
        self.spec_bits()
    }
}

impl BlockId {
    pub closed spec fn spec_bits(&self) -> u64 {
        self.bits
    }

    pub(crate) fn from_bits(bits: u64) -> (r: BlockId)
        ensures
            r@ == bits,
    {
        BlockId { bits }
    }

    /// The handle as a number, for use outside the library.
    pub fn to_bits(&self) -> (r: u64)
        ensures
            r == self@,
    {
        self.bits
    }
}

/// Two handles with the same bits are the same handle.
pub(crate) proof fn lemma_id_eq(a: BlockId, b: BlockId)
    ensures
        a@ == b@ ==> a == b,
{
}

#[verifier::external_type_specification]
#[verifier::external_body]
#[verifier::reject_recursive_types(T)]
pub struct ExArena<T>(Arena<T>);

/// The blocks an arena holds, keyed by `Index::to_bits` of their live indices.
pub uninterp spec fn arena_blocks(a: Arena<BlockInstance>) -> Map<u64, BlockInstance>;

/// Relies on `Arena::new`: an arena with no entries.
#[verifier::external_body]
pub(crate) fn arena_new() -> (r: Arena<BlockInstance>)
    ensures
        arena_blocks(r).dom() == Set::<u64>::empty(),
{
    Arena::new()
}

/// Relies on `Arena::len`: the number of live entries.
#[verifier::external_body]
pub(crate) fn arena_len(a: &Arena<BlockInstance>) -> (r: usize)
    ensures
        r == arena_blocks(*a).len(),
{
    a.len()
}

/// Relies on `Arena::insert`: the value goes under a fresh index, which is never generation
/// zero; it panics only when `u32::MAX` entries are live.
#[verifier::external_body]
pub(crate) fn arena_insert(a: &mut Arena<BlockInstance>, value: BlockInstance) -> (r: BlockId)
    requires
        arena_blocks(*old(a)).dom().finite(),
        arena_blocks(*old(a)).len() < u32::MAX,
    ensures
        !arena_blocks(*old(a)).dom().contains(r@),
        arena_blocks(*final(a)) == arena_blocks(*old(a)).insert(r@, value),
{
    BlockId { bits: a.insert(value).to_bits() }
}

/// Relies on `Arena::get`: the live entry under the index, if any; bits of generation zero
/// name no index.
#[verifier::external_body]
pub(crate) fn arena_get(a: &Arena<BlockInstance>, id: BlockId) -> (r: Option<&BlockInstance>)
    ensures
        match r {
            Some(b) => arena_blocks(*a).dom().contains(id@) && *b == arena_blocks(*a)[id@],
            None => !arena_blocks(*a).dom().contains(id@),
        },
{
    match Index::from_bits(id.bits) {
        Some(index) => a.get(index),
        None => None,
    }
}

/// Relies on `IndexMut` of `Arena`: a mutable borrow of the live entry under the index.
#[verifier::external_body]
pub(crate) fn arena_get_mut(a: &mut Arena<BlockInstance>, id: BlockId) -> (r: &mut BlockInstance)
    requires
        arena_blocks(*old(a)).dom().contains(id@),
    ensures
        *r == arena_blocks(*old(a))[id@],
        arena_blocks(*final(a)) == arena_blocks(*old(a)).insert(id@, *final(r)),
{
    &mut a[Index::from_bits(id.bits).unwrap()]
}

/// Relies on `Arena::remove`: takes the live entry under the index out, if any.
#[verifier::external_body]
pub(crate) fn arena_remove(a: &mut Arena<BlockInstance>, id: BlockId) -> (r: Option<BlockInstance>)
    ensures
        match r {
            Some(b) => arena_blocks(*old(a)).dom().contains(id@) && b == arena_blocks(*old(a))[id@],
            None => !arena_blocks(*old(a)).dom().contains(id@),
        },
        arena_blocks(*final(a)) == arena_blocks(*old(a)).remove(id@),
{
    match Index::from_bits(id.bits) {
        Some(index) => a.remove(index),
        None => None,
    }
}

/// Relies on `Arena::iter`: every live index once, in an order the crate leaves open.
#[verifier::external_body]
pub(crate) fn arena_ids(a: &Arena<BlockInstance>) -> (r: Vec<BlockId>)
    ensures
        r@.no_duplicates(),
        forall|k: u64| arena_blocks(*a).dom().contains(k) <==> exists|i: int| 0 <= i < r@.len() && (#[trigger] r@[i])@ == k,
{
    a.iter().map(|(index, _)| BlockId { bits: index.to_bits() }).collect()
}

} // verus!
