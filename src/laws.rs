use crate::arena::BlockId;
use crate::description::{BlockDescription, BlockWidget};
use crate::editor::{
    below, can_receive, committed, detached, is_candidate, is_snap_choice, links_into, propagated, snap_dist2,
    unlink_part, unlinked, PendingLink,
};
use crate::geometry::{clamp_i64, in_snap_range, Pos2};
use crate::instance::{initial_next, seed_number, seed_number_part, seed_text, seed_text_part, BlockInstance};
use crate::part::{BlockPart, Next};
use vstd::prelude::*;

verus! {

/// A freshly created block has one part per branch plus one, and only the last part of a
/// shape without a bottom notch lacks a link slot.
pub proof fn law_created_parts(b: BlockInstance, position: Pos2, d: BlockDescription)
    requires
        d.wf(),
        b.spec_created(position, d),
    ensures
        b.parts@.len() == d.shape.spec_branches() + 1,
        forall|i: int|
            0 <= i < b.parts@.len() ==> ((#[trigger] b.parts@[i]).next is NotApplicable <==> (i
                == b.parts@.len() - 1 && !d.shape.spec_bottom_notch())),
        forall|i: int| 0 <= i < b.parts@.len() ==> !((#[trigger] b.parts@[i]).next is Linked),
{
    assert forall|i: int| 0 <= i < b.parts@.len() implies ((#[trigger] b.parts@[i]).next is NotApplicable <==> (i
        == b.parts@.len() - 1 && !d.shape.spec_bottom_notch())) && !(b.parts@[i].next is Linked) by {
        assert(b.parts@[i] == BlockPart::spec_fresh(
            initial_next(d.shape.spec_bottom_notch(), i, d.content@.len() as int),
        ));
    }
}

/// A text widget of `ws` declares `k` with `default`.
pub open spec fn declares_text(ws: Seq<BlockWidget>, j: int, k: Seq<char>, default: Seq<char>) -> bool {
    &&& 0 <= j < ws.len()
    &&& ws[j] matches BlockWidget::TextEdit { key, default: dv } && key@ == k && dv@ == default
}

/// A number widget of `ws` declares `k` with `default`.
pub open spec fn declares_number(ws: Seq<BlockWidget>, j: int, k: Seq<char>, default: i32) -> bool {
    &&& 0 <= j < ws.len()
    &&& ws[j] matches BlockWidget::NumberEdit { key, default: dv } && key@ == k && dv == default
}

proof fn lemma_seed_text_part(m: Map<Seq<char>, Seq<char>>, ws: Seq<BlockWidget>, k: Seq<char>)
    ensures
        seed_text_part(m, ws).dom().contains(k) <==> (m.dom().contains(k) || exists|j: int, v: Seq<char>| declares_text(ws, j, k, v)),
        seed_text_part(m, ws).dom().contains(k) ==> ((m.dom().contains(k) && seed_text_part(m, ws)[k] == m[k])
            || exists|j: int| declares_text(ws, j, k, seed_text_part(m, ws)[k])),
    decreases ws.len(),
{
    if ws.len() > 0 {
        let p = ws.drop_last();
        lemma_seed_text_part(m, p, k);
        let r = seed_text_part(m, ws);
        assert forall|j: int, v: Seq<char>| declares_text(p, j, k, v) implies declares_text(ws, j, k, v) by {}
        if exists|j: int, v: Seq<char>| declares_text(ws, j, k, v) {
            let (j, v) = choose|j: int, v: Seq<char>| declares_text(ws, j, k, v);
            if j < ws.len() - 1 {
                assert(declares_text(p, j, k, v));
            }
        }
        match ws.last() {
            BlockWidget::TextEdit { key, default } => {
                if key@ == k {
                    assert(declares_text(ws, ws.len() - 1, k, r[k]));
                } else if r.dom().contains(k) && !(m.dom().contains(k) && r[k] == m[k]) {
                    let j = choose|j: int| declares_text(p, j, k, seed_text_part(m, p)[k]);
                    assert(declares_text(ws, j, k, r[k]));
                }
            },
            _ => {
                if r.dom().contains(k) && !(m.dom().contains(k) && r[k] == m[k]) {
                    let j = choose|j: int| declares_text(p, j, k, seed_text_part(m, p)[k]);
                    assert(declares_text(ws, j, k, r[k]));
                }
            },
        }
    }
}

proof fn lemma_seed_number_part(m: Map<Seq<char>, i32>, ws: Seq<BlockWidget>, k: Seq<char>)
    ensures
        seed_number_part(m, ws).dom().contains(k) <==> (m.dom().contains(k) || exists|j: int, v: i32| declares_number(ws, j, k, v)),
        seed_number_part(m, ws).dom().contains(k) ==> ((m.dom().contains(k) && seed_number_part(m, ws)[k] == m[k])
            || exists|j: int| declares_number(ws, j, k, seed_number_part(m, ws)[k])),
    decreases ws.len(),
{
    if ws.len() > 0 {
        let p = ws.drop_last();
        lemma_seed_number_part(m, p, k);
        let r = seed_number_part(m, ws);
        assert forall|j: int, v: i32| declares_number(p, j, k, v) implies declares_number(ws, j, k, v) by {}
        if exists|j: int, v: i32| declares_number(ws, j, k, v) {
            let (j, v) = choose|j: int, v: i32| declares_number(ws, j, k, v);
            if j < ws.len() - 1 {
                assert(declares_number(p, j, k, v));
            }
        }
        match ws.last() {
            BlockWidget::NumberEdit { key, default } => {
                if key@ == k {
                    assert(declares_number(ws, ws.len() - 1, k, r[k]));
                } else if r.dom().contains(k) && !(m.dom().contains(k) && r[k] == m[k]) {
                    let j = choose|j: int| declares_number(p, j, k, seed_number_part(m, p)[k]);
                    assert(declares_number(ws, j, k, r[k]));
                }
            },
            _ => {
                if r.dom().contains(k) && !(m.dom().contains(k) && r[k] == m[k]) {
                    let j = choose|j: int| declares_number(p, j, k, seed_number_part(m, p)[k]);
                    assert(declares_number(ws, j, k, r[k]));
                }
            },
        }
    }
}

/// The default text fields hold exactly the keys that text widgets declare, each with the
/// default of a declaration of that key; labels and number widgets add nothing.
pub proof fn law_seeded_text(cs: Seq<Seq<BlockWidget>>, k: Seq<char>)
    ensures
        seed_text(cs).dom().contains(k) <==> exists|i: int, j: int, v: Seq<char>| 0 <= i < cs.len() && declares_text(cs[i], j, k, v),
        seed_text(cs).dom().contains(k) ==> exists|i: int, j: int| 0 <= i < cs.len() && declares_text(cs[i], j, k, seed_text(cs)[k]),
    decreases cs.len(),
{
    if cs.len() > 0 {
        let p = cs.drop_last();
        law_seeded_text(p, k);
        lemma_seed_text_part(seed_text(p), cs.last(), k);
        let r = seed_text(cs);
        assert forall|i: int, j: int, v: Seq<char>| 0 <= i < p.len() && declares_text(p[i], j, k, v) implies 0 <= i < cs.len() && declares_text(cs[i], j, k, v) by {}
        if exists|i: int, j: int, v: Seq<char>| 0 <= i < cs.len() && declares_text(cs[i], j, k, v) {
            let (i, j, v) = choose|i: int, j: int, v: Seq<char>| 0 <= i < cs.len() && declares_text(cs[i], j, k, v);
            if i < cs.len() - 1 {
                assert(declares_text(p[i], j, k, v));
            } else {
                assert(declares_text(cs.last(), j, k, v));
            }
        }
        if r.dom().contains(k) {
            if seed_text(p).dom().contains(k) && r[k] == seed_text(p)[k] {
                let (i, j) = choose|i: int, j: int| 0 <= i < p.len() && declares_text(p[i], j, k, seed_text(p)[k]);
                assert(declares_text(cs[i], j, k, r[k]));
            } else {
                let j = choose|j: int| declares_text(cs.last(), j, k, r[k]);
                assert(declares_text(cs[cs.len() - 1], j, k, r[k]));
            }
        }
    }
}

/// The default number fields hold exactly the keys that number widgets declare, each with
/// the default of a declaration of that key; labels and text widgets add nothing.
pub proof fn law_seeded_number(cs: Seq<Seq<BlockWidget>>, k: Seq<char>)
    ensures
        seed_number(cs).dom().contains(k) <==> exists|i: int, j: int, v: i32| 0 <= i < cs.len() && declares_number(cs[i], j, k, v),
        seed_number(cs).dom().contains(k) ==> exists|i: int, j: int| 0 <= i < cs.len() && declares_number(cs[i], j, k, seed_number(cs)[k]),
    decreases cs.len(),
{
    if cs.len() > 0 {
        let p = cs.drop_last();
        law_seeded_number(p, k);
        lemma_seed_number_part(seed_number(p), cs.last(), k);
        let r = seed_number(cs);
        assert forall|i: int, j: int, v: i32| 0 <= i < p.len() && declares_number(p[i], j, k, v) implies 0 <= i < cs.len() && declares_number(cs[i], j, k, v) by {}
        if exists|i: int, j: int, v: i32| 0 <= i < cs.len() && declares_number(cs[i], j, k, v) {
            let (i, j, v) = choose|i: int, j: int, v: i32| 0 <= i < cs.len() && declares_number(cs[i], j, k, v);
            if i < cs.len() - 1 {
                assert(declares_number(p[i], j, k, v));
            } else {
                assert(declares_number(cs.last(), j, k, v));
            }
        }
        if r.dom().contains(k) {
            if seed_number(p).dom().contains(k) && r[k] == seed_number(p)[k] {
                let (i, j) = choose|i: int, j: int| 0 <= i < p.len() && declares_number(p[i], j, k, seed_number(p)[k]);
                assert(declares_number(cs[i], j, k, r[k]));
            } else {
                let j = choose|j: int| declares_number(cs.last(), j, k, r[k]);
                assert(declares_number(cs[cs.len() - 1], j, k, r[k]));
            }
        }
    }
}

/// With one other block on the canvas that can take a link, the snap choice picks it exactly
/// when its attachment point is strictly closer than the snap distance.
pub proof fn law_snap_threshold(m: Map<u64, BlockInstance>, d: u64, k: u64, r: Option<BlockId>)
    requires
        m.dom() == set![d, k],
        d != k,
        can_receive(m[k]),
        is_snap_choice(m, d, r),
    ensures
        (r matches Some(t) && t@ == k) <==> in_snap_range(snap_dist2(m, d, k)),
{
    assert(m.dom().contains(d));
    assert(m.dom().contains(k));
    match r {
        Some(t) => {
            assert(m.dom().contains(t@));
        },
        None => {
            assert(!is_candidate(m, d, k));
        },
    }
}

/// Committing into a slot that already holds a link changes nothing.
pub proof fn law_occupied_slot_kept(
    old: Map<u64, BlockInstance>,
    new: Map<u64, BlockInstance>,
    link: PendingLink,
)
    requires
        old.dom().contains(link.upper_block@),
        link.upper_part < old[link.upper_block@].parts@.len(),
        old[link.upper_block@].parts@[link.upper_part as int].next is Linked,
        committed(old, new, link),
    ensures
        new == old,
{
}

/// Once block `b` is picked up, a slot that linked to it is open.
pub proof fn law_pickup_detaches(
    old: Map<u64, BlockInstance>,
    new: Map<u64, BlockInstance>,
    a: u64,
    i: int,
    b: BlockId,
)
    requires
        detached(old, new, b@),
        old.dom().contains(a),
        0 <= i < old[a].parts@.len(),
        old[a].parts@[i].next matches Next::Linked { target, .. } && target == b,
    ensures
        new[a].parts@[i].next is Open,
        new[a].parts@[i].top_offset == old[a].parts@[i].top_offset,
        new[a].parts@[i].bottom_offset == old[a].parts@[i].bottom_offset,
{
    assert(unlinked(old[a], new[a], b@));
    assert(new[a].parts@[i] == unlink_part(old[a].parts@[i], b@));
}

/// A block hanging from `a`'s first part, and from no other block, lands right under `a`
/// after one propagation pass, by the height `a` has at that pass.
pub proof fn law_chain_follows(
    old: Map<u64, BlockInstance>,
    new: Map<u64, BlockInstance>,
    a: u64,
    b: u64,
)
    requires
        propagated(old, new),
        links_into(old, a, b),
        old.dom().contains(b),
        forall|u: u64| #[trigger] links_into(old, u, b) ==> u == a,
    ensures
        new[b].position.x == old[a].position.x,
        new[b].position.y == clamp_i64(old[a].position.y + old[a].spec_total_height()),
{
    assert(exists|u: u64| links_into(old, u, b));
    let u = choose|u: u64| #[trigger] links_into(old, u, b) && new[b].position == below(old, u);
}

} // verus!
