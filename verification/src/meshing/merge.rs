//! Greedy rectangle merge over one 32x32 face plane.
//!
//! Each cell of the plane holds the block whose face is visible there (or
//! nothing) and the cell's packed 4-corner AO signature. Cells are merged
//! into rectangles of equal block and equal signature: scanning rows in
//! order, the first uncovered face cell starts a rectangle that is widened
//! as far as possible and then heightened as far as possible.

use vstd::prelude::*;
use crate::meshing::block::BlockId;

verus! {

/// Cells per plane side.
pub const PLANE_DIM: usize = 32;
/// Cells in one plane.
pub const PLANE_CELLS: usize = 1024;

/// A merged rectangle: origin `(i, j)` (column, row), size `w x h`, and block.
#[derive(Clone, Copy, Debug, PartialEq, Eq, Structural)]
pub struct Rect {
    pub i: usize,
    pub j: usize,
    pub w: usize,
    pub h: usize,
    pub block: BlockId,
}

pub open spec fn cell_index(i: int, j: int) -> int {
    j * 32 + i
}

pub open spec fn in_plane(i: int, j: int) -> bool {
    0 <= i < 32 && 0 <= j < 32
}

pub open spec fn in_rect(r: Rect, i: int, j: int) -> bool {
    r.i <= i < r.i + r.w && r.j <= j < r.j + r.h
}

/// Some rectangle of `rs` covers cell `(i, j)`.
pub open spec fn covered_by(rs: Seq<Rect>, i: int, j: int) -> bool {
    exists|t: int| 0 <= t < rs.len() && #[trigger] in_rect(rs[t], i, j)
}

/// Cell `(i, j)` shows block `b` with signature `sig`.
pub open spec fn cell_ok(mask: Seq<Option<BlockId>>, sig: Seq<u8>, i: int, j: int, b: BlockId, s: u8) -> bool {
    &&& in_plane(i, j)
    &&& mask[cell_index(i, j)] == Some(b)
    &&& sig[cell_index(i, j)] == s
}

/// The signature at a rectangle's origin.
pub open spec fn origin_sig(sig: Seq<u8>, r: Rect) -> u8 {
    sig[cell_index(r.i as int, r.j as int)]
}

/// Every cell of `r` shows `r.block` with the origin's signature.
pub open spec fn rect_ok(mask: Seq<Option<BlockId>>, sig: Seq<u8>, r: Rect) -> bool {
    &&& 1 <= r.w && 1 <= r.h
    &&& r.i + r.w <= 32 && r.j + r.h <= 32
    &&& forall|i: int, j: int| #[trigger] in_rect(r, i, j) ==> cell_ok(mask, sig, i, j, r.block, origin_sig(sig, r))
}

/// Cell `(i, j)` could still be added to rectangle `t`: it matches and no
/// earlier rectangle covers it.
pub open spec fn extendable(mask: Seq<Option<BlockId>>, sig: Seq<u8>, rs: Seq<Rect>, t: int, i: int, j: int) -> bool {
    cell_ok(mask, sig, i, j, rs[t].block, origin_sig(sig, rs[t])) && !covered_by(rs.take(t), i, j)
}

/// Rectangle `t` cannot be widened by one column.
pub open spec fn width_maximal(mask: Seq<Option<BlockId>>, sig: Seq<u8>, rs: Seq<Rect>, t: int) -> bool {
    let r = rs[t];
    !extendable(mask, sig, rs, t, r.i + r.w, r.j as int)
}

/// Rectangle `t` cannot be heightened by one row (at its width).
pub open spec fn height_maximal(mask: Seq<Option<BlockId>>, sig: Seq<u8>, rs: Seq<Rect>, t: int) -> bool {
    let r = rs[t];
    exists|k: int| 0 <= k < r.w && !#[trigger] extendable(mask, sig, rs, t, r.i + k, r.j + r.h)
}

/// Row-major order of rectangle origins.
pub open spec fn origin_before(a: Rect, b: Rect) -> bool {
    a.j < b.j || (a.j == b.j && a.i < b.i)
}

/// `rs` is the greedy cover of the plane: each rectangle is uniform and
/// maximal (first in width, then in height), rectangles do not overlap,
/// origins come in row-major order, and the rectangles cover exactly the
/// cells that show a face.
pub open spec fn is_greedy_cover(mask: Seq<Option<BlockId>>, sig: Seq<u8>, rs: Seq<Rect>) -> bool {
    &&& forall|t: int| 0 <= t < rs.len() ==> rect_ok(mask, sig, #[trigger] rs[t])
    &&& forall|t: int| 0 <= t < rs.len() ==> #[trigger] width_maximal(mask, sig, rs, t)
    &&& forall|t: int| 0 <= t < rs.len() ==> #[trigger] height_maximal(mask, sig, rs, t)
    &&& forall|t: int, i: int, j: int| 0 <= t < rs.len() && #[trigger] in_rect(rs[t], i, j) ==> !covered_by(rs.take(t), i, j)
    &&& forall|t: int| 0 <= t < rs.len() - 1 ==> origin_before(#[trigger] rs[t], rs[t + 1])
    &&& forall|i: int, j: int| in_plane(i, j) ==> (mask[cell_index(i, j)] is Some <==> covered_by(rs, i, j))
}

/// Cell `k` of the row segment starting at column `i` of row `row` holds `block` with signature `s`.
pub open spec fn seg_cell(cur: Seq<Option<BlockId>>, sig: Seq<u8>, i: int, k: int, row: int, block: BlockId, s: u8) -> bool {
    cur[cell_index(i + k, row)] == Some(block) && sig[cell_index(i + k, row)] == s
}

fn cell_matches(cur: &Vec<Option<BlockId>>, sig: &Vec<u8>, idx: usize, block: BlockId, s: u8) -> (r: bool)
    requires
        idx < cur@.len(),
        idx < sig@.len(),
    ensures
        r == (cur@[idx as int] == Some(block) && sig@[idx as int] == s),
{
    match cur[idx] {
        Some(b) => b == block && sig[idx] == s,
        None => false,
    }
}

/// All `w` cells of row `row` starting at column `i` match.
fn row_matches(cur: &Vec<Option<BlockId>>, sig: &Vec<u8>, i: usize, w: usize, row: usize, block: BlockId, s: u8) -> (r: bool)
    requires
        cur@.len() == 1024,
        sig@.len() == 1024,
        i + w <= 32,
        row < 32,
    ensures
        r == (forall|k: int| 0 <= k < w ==> #[trigger] seg_cell(cur@, sig@, i as int, k, row as int, block, s)),
{
    let mut k: usize = 0;
    while k < w
        invariant
            k <= w,
            i + w <= 32,
            row < 32,
            cur@.len() == 1024,
            sig@.len() == 1024,
            forall|k2: int| 0 <= k2 < k ==> #[trigger] seg_cell(cur@, sig@, i as int, k2, row as int, block, s),
        decreases w - k,
    {
        if !cell_matches(cur, sig, row * 32 + i + k, block, s) {
            assert(!seg_cell(cur@, sig@, i as int, k as int, row as int, block, s));
            return false;
        }
        k += 1;
    }
    true
}

/// The working mask: cells covered by `rs` are cleared, others are as in `mask`.
pub open spec fn cur_inv(mask: Seq<Option<BlockId>>, cur: Seq<Option<BlockId>>, rs: Seq<Rect>) -> bool {
    &&& cur.len() == 1024
    &&& forall|i: int, j: int| #![trigger cur[cell_index(i, j)]] in_plane(i, j) ==> cur[cell_index(i, j)] == (if covered_by(rs, i, j) {
        None
    } else {
        mask[cell_index(i, j)]
    })
}

/// Position `(i, j)` comes before `(i0, j0)` in row-major order.
pub open spec fn pos_before(i: int, j: int, i0: int, j0: int) -> bool {
    j < j0 || (j == j0 && i < i0)
}

/// Every face cell before `(i0, j0)` is covered.
pub open spec fn prefix_covered(mask: Seq<Option<BlockId>>, rs: Seq<Rect>, i0: int, j0: int) -> bool {
    forall|i: int, j: int| #![trigger mask[cell_index(i, j)]] in_plane(i, j) && pos_before(i, j, i0, j0) && mask[cell_index(i, j)] is Some ==> covered_by(rs, i, j)
}

/// The rectangle properties of a greedy cover that hold while scanning, with
/// every origin before `(i0, j0)`.
pub open spec fn rects_inv(mask: Seq<Option<BlockId>>, sig: Seq<u8>, rs: Seq<Rect>, i0: int, j0: int) -> bool {
    &&& forall|t: int| 0 <= t < rs.len() ==> rect_ok(mask, sig, #[trigger] rs[t])
    &&& forall|t: int| 0 <= t < rs.len() ==> #[trigger] width_maximal(mask, sig, rs, t)
    &&& forall|t: int| 0 <= t < rs.len() ==> #[trigger] height_maximal(mask, sig, rs, t)
    &&& forall|t: int, i: int, j: int| 0 <= t < rs.len() && #[trigger] in_rect(rs[t], i, j) ==> !covered_by(rs.take(t), i, j)
    &&& forall|t: int| 0 <= t < rs.len() - 1 ==> origin_before(#[trigger] rs[t], rs[t + 1])
    &&& forall|t: int| 0 <= t < rs.len() ==> pos_before((#[trigger] rs[t]).i as int, rs[t].j as int, i0, j0)
}

proof fn lemma_push_preserves(mask: Seq<Option<BlockId>>, sig: Seq<u8>, rs: Seq<Rect>, r: Rect)
    requires
        forall|t: int| 0 <= t < rs.len() ==> #[trigger] width_maximal(mask, sig, rs, t),
        forall|t: int| 0 <= t < rs.len() ==> #[trigger] height_maximal(mask, sig, rs, t),
        forall|t: int, i: int, j: int| 0 <= t < rs.len() && #[trigger] in_rect(rs[t], i, j) ==> !covered_by(rs.take(t), i, j),
    ensures
        forall|t: int| 0 <= t < rs.len() ==> #[trigger] width_maximal(mask, sig, rs.push(r), t),
        forall|t: int| 0 <= t < rs.len() ==> #[trigger] height_maximal(mask, sig, rs.push(r), t),
        forall|t: int, i: int, j: int| 0 <= t < rs.len() && #[trigger] in_rect(rs.push(r)[t], i, j) ==> !covered_by(rs.push(r).take(t), i, j),
{
    let rs2 = rs.push(r);
    assert forall|t: int| 0 <= t < rs.len() implies #[trigger] width_maximal(mask, sig, rs2, t) by {
        assert(rs2.take(t) =~= rs.take(t));
        assert(rs2[t] == rs[t]);
        assert(width_maximal(mask, sig, rs, t));
    }
    assert forall|t: int| 0 <= t < rs.len() implies #[trigger] height_maximal(mask, sig, rs2, t) by {
        assert(rs2.take(t) =~= rs.take(t));
        assert(rs2[t] == rs[t]);
        assert(height_maximal(mask, sig, rs, t));
        let k = choose|k: int| 0 <= k < rs[t].w && !#[trigger] extendable(mask, sig, rs, t, rs[t].i + k, rs[t].j + rs[t].h);
        assert(!extendable(mask, sig, rs2, t, rs2[t].i + k, rs2[t].j + rs2[t].h));
    }
    assert forall|t: int, i: int, j: int| 0 <= t < rs.len() && #[trigger] in_rect(rs2[t], i, j) implies !covered_by(rs2.take(t), i, j) by {
        assert(rs2.take(t) =~= rs.take(t));
        assert(rs2[t] == rs[t]);
    }
}

/// Merge the face cells of one 32x32 plane into rectangles.
///
/// `mask[j * 32 + i]` is the block whose face shows at column `i`, row `j`
/// (or `None`), and `sig` the cell's AO signature. The result is the greedy
/// cover: see [`is_greedy_cover`].
pub fn greedy_merge(mask: &Vec<Option<BlockId>>, sig: &Vec<u8>) -> (rs: Vec<Rect>)
    requires
        mask@.len() == 1024,
        sig@.len() == 1024,
    ensures
        is_greedy_cover(mask@, sig@, rs@),
{
    let mut cur: Vec<Option<BlockId>> = Vec::new();
    let mut c: usize = 0;
    while c < PLANE_CELLS
        invariant
            c <= 1024,
            mask@.len() == 1024,
            cur@ == mask@.take(c as int),
        decreases 1024 - c,
    {
        cur.push(mask[c]);
        c += 1;
        assert(cur@ =~= mask@.take(c as int));
    }
    assert(cur@ =~= mask@);
    let mut rs: Vec<Rect> = Vec::new();
    let mut j: usize = 0;
    while j < PLANE_DIM
        invariant
            j <= 32,
            mask@.len() == 1024,
            sig@.len() == 1024,
            cur_inv(mask@, cur@, rs@),
            prefix_covered(mask@, rs@, 0, j as int),
            rects_inv(mask@, sig@, rs@, 0, j as int),
        decreases 32 - j,
    {
        let mut i: usize = 0;
        while i < PLANE_DIM
            invariant
                j < 32,
                i <= 32,
                mask@.len() == 1024,
                sig@.len() == 1024,
                cur_inv(mask@, cur@, rs@),
                prefix_covered(mask@, rs@, i as int, j as int),
                rects_inv(mask@, sig@, rs@, i as int, j as int),
            decreases 32 - i,
        {
            let idx = j * 32 + i;
            assert(cur@[cell_index(i as int, j as int)] == cur@[idx as int]);
            let block = match cur[idx] {
                Some(b) => b,
                None => {
                    proof {
                        assert forall|i2: int, j2: int| #![trigger mask@[cell_index(i2, j2)]] in_plane(i2, j2) && pos_before(i2, j2, i + 1, j as int) && mask@[cell_index(i2, j2)] is Some implies covered_by(rs@, i2, j2) by {
                            if i2 == i && j2 == j {
                                assert(cur@[cell_index(i2, j2)] is None);
                            } else {
                                assert(pos_before(i2, j2, i as int, j as int));
                            }
                        }
                    }
                    i += 1;
                    continue;
                },
            };
            let base = sig[idx];
            proof {
                assert(!covered_by(rs@, i as int, j as int));
                assert(mask@[cell_index(i as int, j as int)] == Some(block));
            }
            let mut w: usize = 1;
            while i + w < PLANE_DIM && cell_matches(&cur, sig, j * 32 + i + w, block, base)
                invariant
                    j < 32,
                    i < 32,
                    1 <= w,
                    i + w <= 32,
                    cur@.len() == 1024,
                    sig@.len() == 1024,
                    base == sig@[cell_index(i as int, j as int)],
                    forall|k: int| 0 <= k < w ==> #[trigger] seg_cell(cur@, sig@, i as int, k, j as int, block, base),
                decreases 32 - i - w,
            {
                assert(seg_cell(cur@, sig@, i as int, w as int, j as int, block, base));
                w += 1;
            }
            let mut h: usize = 1;
            while j + h < PLANE_DIM && row_matches(&cur, sig, i, w, j + h, block, base)
                invariant
                    j < 32,
                    i < 32,
                    1 <= w,
                    i + w <= 32,
                    1 <= h,
                    j + h <= 32,
                    cur@.len() == 1024,
                    sig@.len() == 1024,
                    forall|r: int, k: int| 0 <= r < h && 0 <= k < w ==> #[trigger] seg_cell(cur@, sig@, i as int, k, j + r, block, base),
                decreases 32 - j - h,
            {
                h += 1;
            }
            let ghost old_rs = rs@;
            let ghost old_cur = cur@;
            let rect = Rect { i, j, w, h, block };
            proof {
                // Every cell of the new rectangle is uncovered and shows `block`.
                assert forall|i2: int, j2: int| #[trigger] in_rect(rect, i2, j2) implies cell_ok(mask@, sig@, i2, j2, block, base) && !covered_by(old_rs, i2, j2) by {
                    assert(seg_cell(cur@, sig@, i as int, i2 - i, j as int + (j2 - j), block, base));
                    assert(cur@[cell_index(i2, j2)] == Some(block));
                }
                lemma_push_preserves(mask@, sig@, old_rs, rect);
            }
            rs.push(rect);
            proof {
                let t = old_rs.len() as int;
                assert(rs@.take(t) =~= old_rs);
                assert(rs@[t] == rect);
                assert(rect_ok(mask@, sig@, rect));
                // Width is maximal.
                if i + w < 32 {
                    assert(!seg_cell(cur@, sig@, i as int, w as int, j as int, block, base));
                    assert(cur@[cell_index(i + w, j as int)] == (if covered_by(old_rs, i + w, j as int) { None } else { mask@[cell_index(i + w, j as int)] }));
                }
                assert(width_maximal(mask@, sig@, rs@, t));
                // Height is maximal.
                if j + h < 32 {
                    let k = choose|k: int| 0 <= k < w && !#[trigger] seg_cell(cur@, sig@, i as int, k, (j + h) as int, block, base);
                    assert(cur@[cell_index(i + k, j + h)] == (if covered_by(old_rs, i + k, j + h) { None } else { mask@[cell_index(i + k, j + h)] }));
                    assert(!extendable(mask@, sig@, rs@, t, rect.i + k, rect.j + rect.h));
                } else {
                    assert(!extendable(mask@, sig@, rs@, t, rect.i + 0, rect.j + rect.h));
                }
                assert(height_maximal(mask@, sig@, rs@, t));
                assert forall|i2: int, j2: int| #[trigger] in_rect(rs@[t], i2, j2) implies !covered_by(rs@.take(t), i2, j2) by {}
                if t > 0 {
                    assert(pos_before(old_rs[t - 1].i as int, old_rs[t - 1].j as int, i as int, j as int));
                }
            }
            // Clear the rectangle's cells from the working mask.
            let mut dj: usize = 0;
            while dj < h
                invariant
                    j < 32,
                    i < 32,
                    1 <= w,
                    i + w <= 32,
                    dj <= h,
                    j + h <= 32,
                    rect == (Rect { i, j, w, h, block }),
                    rs@ == old_rs.push(rect),
                    cur@.len() == 1024,
                    forall|i2: int, j2: int| #![trigger cur@[cell_index(i2, j2)]] in_plane(i2, j2) ==> cur@[cell_index(i2, j2)] == (if in_rect(rect, i2, j2) && j2 < j + dj { None } else { old_cur[cell_index(i2, j2)] }),
                decreases h - dj,
            {
                let mut di: usize = 0;
                while di < w
                    invariant
                        j < 32,
                        i < 32,
                        1 <= w,
                        i + w <= 32,
                        dj < h,
                        di <= w,
                        j + h <= 32,
                        rect == (Rect { i, j, w, h, block }),
                        cur@.len() == 1024,
                        forall|i2: int, j2: int| #![trigger cur@[cell_index(i2, j2)]] in_plane(i2, j2) ==> cur@[cell_index(i2, j2)] == (if in_rect(rect, i2, j2) && (j2 < j + dj || (j2 == j + dj && i2 < i + di)) { None } else { old_cur[cell_index(i2, j2)] }),
                    decreases w - di,
                {
                    let k = (j + dj) * 32 + i + di;
                    cur.set(k, None);
                    proof {
                        assert forall|i2: int, j2: int| #![trigger cur@[cell_index(i2, j2)]] in_plane(i2, j2) implies cur@[cell_index(i2, j2)] == (if in_rect(rect, i2, j2) && (j2 < j + dj || (j2 == j + dj && i2 < i + di + 1)) { None } else { old_cur[cell_index(i2, j2)] }) by {
                            if cell_index(i2, j2) == k as int {
                                assert(i2 == i + di && j2 == j + dj);
                            }
                        }
                    }
                    di += 1;
                }
                dj += 1;
            }
            proof {
                assert forall|i2: int, j2: int| #![trigger cur@[cell_index(i2, j2)]] in_plane(i2, j2) implies cur@[cell_index(i2, j2)] == (if covered_by(rs@, i2, j2) { None } else { mask@[cell_index(i2, j2)] }) by {
                    let t = old_rs.len() as int;
                    if in_rect(rect, i2, j2) {
                        assert(in_rect(rs@[t], i2, j2));
                    } else {
                        if covered_by(rs@, i2, j2) {
                            let t2 = choose|t2: int| 0 <= t2 < rs@.len() && #[trigger] in_rect(rs@[t2], i2, j2);
                            assert(t2 != t);
                            assert(in_rect(old_rs[t2], i2, j2));
                        }
                        if covered_by(old_rs, i2, j2) {
                            let t2 = choose|t2: int| 0 <= t2 < old_rs.len() && #[trigger] in_rect(old_rs[t2], i2, j2);
                            assert(in_rect(rs@[t2], i2, j2));
                        }
                    }
                }
                assert forall|i2: int, j2: int| #![trigger mask@[cell_index(i2, j2)]] in_plane(i2, j2) && pos_before(i2, j2, (i + w) as int, j as int) && mask@[cell_index(i2, j2)] is Some implies covered_by(rs@, i2, j2) by {
                    let t = old_rs.len() as int;
                    if j2 == j && i <= i2 {
                        assert(in_rect(rs@[t], i2, j2));
                    } else {
                        assert(covered_by(old_rs, i2, j2));
                        let t2 = choose|t2: int| 0 <= t2 < old_rs.len() && #[trigger] in_rect(old_rs[t2], i2, j2);
                        assert(in_rect(rs@[t2], i2, j2));
                    }
                }
            }
            i += w;
        }
        j += 1;
    }
    proof {
        assert forall|i: int, j: int| in_plane(i, j) implies (mask@[cell_index(i, j)] is Some <==> covered_by(rs@, i, j)) by {
            if covered_by(rs@, i, j) {
                let t = choose|t: int| 0 <= t < rs@.len() && #[trigger] in_rect(rs@[t], i, j);
                assert(rect_ok(mask@, sig@, rs@[t]));
            }
            if mask@[cell_index(i, j)] is Some {
                assert(pos_before(i, j, 0, 32));
            }
        }
    }
    rs
}

} // verus!
