//! The greedy cover of a plane is unique: the conditions `greedy_merge`
//! guarantees determine its result, so they pin down the mesher's output.

use vstd::prelude::*;

use crate::meshing::merge::{
    cell_index, cell_ok, covered_by, extendable, height_maximal, in_plane, in_rect, is_greedy_cover,
    origin_before, origin_sig, rect_ok, width_maximal, Rect,
};

verus! {

/// Cell `(a, b)` comes before `(i, j)` in row-major order.
pub open spec fn cell_before(a: int, b: int, i: int, j: int) -> bool {
    b < j || (b == j && a < i)
}

/// `(i, j)` is the first face cell, in row-major order, that the rectangles
/// `p` leave uncovered.
pub open spec fn first_open(mask: Seq<Option<crate::meshing::block::BlockId>>, p: Seq<Rect>, i: int, j: int) -> bool {
    &&& in_plane(i, j)
    &&& mask[cell_index(i, j)] is Some
    &&& !covered_by(p, i, j)
    &&& forall|a: int, b: int|
        in_plane(a, b) && cell_before(a, b, i, j) && #[trigger] mask[cell_index(a, b)] is Some ==> covered_by(p, a, b)
}

proof fn lemma_origins_ordered(rs: Seq<Rect>, t: int, u: int)
    requires
        forall|k: int| 0 <= k < rs.len() - 1 ==> origin_before(#[trigger] rs[k], rs[k + 1]),
        0 <= t < u < rs.len(),
    ensures
        origin_before(rs[t], rs[u]),
    decreases u - t,
{
    if u > t + 1 {
        lemma_origins_ordered(rs, t, u - 1);
        assert(origin_before(rs[u - 1], rs[u]));
    } else {
        assert(origin_before(rs[t], rs[t + 1]));
    }
}

proof fn lemma_origin_is_first_open(
    mask: Seq<Option<crate::meshing::block::BlockId>>,
    sig: Seq<u8>,
    rs: Seq<Rect>,
    t: int,
)
    requires
        mask.len() == 1024,
        sig.len() == 1024,
        is_greedy_cover(mask, sig, rs),
        0 <= t < rs.len(),
    ensures
        first_open(mask, rs.take(t), rs[t].i as int, rs[t].j as int),
{
    let r = rs[t];
    let (oi, oj) = (r.i as int, r.j as int);
    assert(rect_ok(mask, sig, r));
    assert(in_rect(r, oi, oj));
    assert(cell_ok(mask, sig, oi, oj, r.block, origin_sig(sig, r)));
    assert(!covered_by(rs.take(t), oi, oj));
    assert forall|a: int, b: int|
        in_plane(a, b) && cell_before(a, b, oi, oj) && #[trigger] mask[cell_index(a, b)] is Some implies covered_by(
        rs.take(t),
        a,
        b,
    ) by {
        assert(covered_by(rs, a, b));
        let u = choose|u: int| 0 <= u < rs.len() && #[trigger] in_rect(rs[u], a, b);
        if u == t {
            assert(false);
        } else if u > t {
            lemma_origins_ordered(rs, t, u);
            assert(false);
        } else {
            assert(rs.take(t)[u] == rs[u]);
            assert(in_rect(rs.take(t)[u], a, b));
        }
    }
}

proof fn lemma_first_open_unique(
    mask: Seq<Option<crate::meshing::block::BlockId>>,
    p: Seq<Rect>,
    i1: int,
    j1: int,
    i2: int,
    j2: int,
)
    requires
        first_open(mask, p, i1, j1),
        first_open(mask, p, i2, j2),
    ensures
        i1 == i2 && j1 == j2,
{
    if cell_before(i1, j1, i2, j2) {
        assert(mask[cell_index(i1, j1)] is Some);
        assert(covered_by(p, i1, j1));
    } else if cell_before(i2, j2, i1, j1) {
        assert(mask[cell_index(i2, j2)] is Some);
        assert(covered_by(p, i2, j2));
    }
}

proof fn lemma_same_rect(
    mask: Seq<Option<crate::meshing::block::BlockId>>,
    sig: Seq<u8>,
    rs1: Seq<Rect>,
    rs2: Seq<Rect>,
    t: int,
)
    requires
        mask.len() == 1024,
        sig.len() == 1024,
        is_greedy_cover(mask, sig, rs1),
        is_greedy_cover(mask, sig, rs2),
        0 <= t < rs1.len(),
        0 <= t < rs2.len(),
        rs1.take(t) == rs2.take(t),
    ensures
        rs1[t] == rs2[t],
{
    let a = rs1[t];
    let b = rs2[t];
    lemma_origin_is_first_open(mask, sig, rs1, t);
    lemma_origin_is_first_open(mask, sig, rs2, t);
    lemma_first_open_unique(mask, rs1.take(t), a.i as int, a.j as int, b.i as int, b.j as int);
    let (oi, oj) = (a.i as int, a.j as int);
    assert(rect_ok(mask, sig, a) && rect_ok(mask, sig, b));
    assert(in_rect(a, oi, oj) && in_rect(b, oi, oj));
    assert(a.block == b.block) by {
        assert(cell_ok(mask, sig, oi, oj, a.block, origin_sig(sig, a)));
        assert(cell_ok(mask, sig, oi, oj, b.block, origin_sig(sig, b)));
    }
    assert(origin_sig(sig, a) == origin_sig(sig, b));
    // cells of either rectangle are extendable for both
    assert forall|i: int, j: int| #[trigger] in_rect(a, i, j) implies extendable(mask, sig, rs1, t, i, j)
        && extendable(mask, sig, rs2, t, i, j) by {
        assert(cell_ok(mask, sig, i, j, a.block, origin_sig(sig, a)));
        assert(!covered_by(rs1.take(t), i, j));
    }
    assert forall|i: int, j: int| #[trigger] in_rect(b, i, j) implies extendable(mask, sig, rs1, t, i, j)
        && extendable(mask, sig, rs2, t, i, j) by {
        assert(cell_ok(mask, sig, i, j, b.block, origin_sig(sig, b)));
        assert(!covered_by(rs2.take(t), i, j));
    }
    // width
    assert(width_maximal(mask, sig, rs1, t));
    assert(width_maximal(mask, sig, rs2, t));
    if a.w < b.w {
        assert(in_rect(b, oi + a.w, oj));
    } else if b.w < a.w {
        assert(in_rect(a, oi + b.w, oj));
    }
    assert(a.w == b.w);
    // height
    assert(height_maximal(mask, sig, rs1, t));
    assert(height_maximal(mask, sig, rs2, t));
    if a.h < b.h {
        let k = choose|k: int| 0 <= k < a.w && !#[trigger] extendable(mask, sig, rs1, t, a.i + k, a.j + a.h);
        assert(in_rect(b, a.i + k, a.j + a.h));
    } else if b.h < a.h {
        let k = choose|k: int| 0 <= k < b.w && !#[trigger] extendable(mask, sig, rs2, t, b.i + k, b.j + b.h);
        assert(in_rect(a, b.i + k, b.j + b.h));
    }
}

proof fn lemma_prefix_equal(
    mask: Seq<Option<crate::meshing::block::BlockId>>,
    sig: Seq<u8>,
    rs1: Seq<Rect>,
    rs2: Seq<Rect>,
    t: int,
)
    requires
        mask.len() == 1024,
        sig.len() == 1024,
        is_greedy_cover(mask, sig, rs1),
        is_greedy_cover(mask, sig, rs2),
        0 <= t <= rs1.len(),
        t <= rs2.len(),
    ensures
        rs1.take(t) == rs2.take(t),
    decreases t,
{
    if t > 0 {
        lemma_prefix_equal(mask, sig, rs1, rs2, t - 1);
        lemma_same_rect(mask, sig, rs1, rs2, t - 1);
        assert(rs1.take(t) =~= rs1.take(t - 1).push(rs1[t - 1]));
        assert(rs2.take(t) =~= rs2.take(t - 1).push(rs2[t - 1]));
    } else {
        assert(rs1.take(0) =~= rs2.take(0));
    }
}

proof fn lemma_no_longer(
    mask: Seq<Option<crate::meshing::block::BlockId>>,
    sig: Seq<u8>,
    rs1: Seq<Rect>,
    rs2: Seq<Rect>,
)
    requires
        mask.len() == 1024,
        sig.len() == 1024,
        is_greedy_cover(mask, sig, rs1),
        is_greedy_cover(mask, sig, rs2),
    ensures
        rs2.len() <= rs1.len(),
{
    if rs1.len() < rs2.len() {
        let n = rs1.len() as int;
        lemma_prefix_equal(mask, sig, rs1, rs2, n);
        lemma_origin_is_first_open(mask, sig, rs2, n);
        let (oi, oj) = (rs2[n].i as int, rs2[n].j as int);
        assert(rs1.take(n) =~= rs1);
        assert(mask[cell_index(oi, oj)] is Some);
        assert(covered_by(rs1, oi, oj));
    }
}

/// Two greedy covers of the same plane are the same sequence of rectangles.
pub proof fn lemma_greedy_cover_unique(
    mask: Seq<Option<crate::meshing::block::BlockId>>,
    sig: Seq<u8>,
    rs1: Seq<Rect>,
    rs2: Seq<Rect>,
)
    requires
        mask.len() == 1024,
        sig.len() == 1024,
        is_greedy_cover(mask, sig, rs1),
        is_greedy_cover(mask, sig, rs2),
    ensures
        rs1 == rs2,
{
    lemma_no_longer(mask, sig, rs1, rs2);
    lemma_no_longer(mask, sig, rs2, rs1);
    lemma_prefix_equal(mask, sig, rs1, rs2, rs1.len() as int);
    assert(rs1.take(rs1.len() as int) =~= rs1);
    assert(rs2.take(rs2.len() as int) =~= rs2);
}

} // verus!
