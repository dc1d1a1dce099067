//! Connectivity of a grown region: the cells the wraparound can reach form a
//! torus, and a region of one color is connected on it when every cell of
//! that color can walk back to the region's seed through same-colored
//! neighbors.

use vstd::prelude::*;
use vstd::arithmetic::div_mod::lemma_add_mod_noop_right;
use crate::buffer::{Color, PixelBuffer, is_paint_of, lemma_wrap_in_range, wrap_spec};

verus! {

/// `(i, j)` lies on the walkable grid: the cells the wraparound can produce,
/// one short of each dimension.
pub open spec fn in_walk_grid(buf: PixelBuffer, i: int, j: int) -> bool {
    0 <= i < buf.spec_width() - 1 && 0 <= j < buf.spec_height() - 1
}

/// Two walkable cells are neighbors on the torus: equal on one axis and one
/// step apart modulo the wrapped dimension on the other.
pub open spec fn torus_adjacent(buf: PixelBuffer, ai: int, aj: int, bi: int, bj: int) -> bool {
    let w = buf.spec_width() - 1;
    let h = buf.spec_height() - 1;
    ||| (bi == (ai + 1) % w && bj == aj)
    ||| (ai == (bi + 1) % w && bj == aj)
    ||| (bj == (aj + 1) % h && bi == ai)
    ||| (aj == (bj + 1) % h && bi == ai)
}

/// Every cell of `path` lies on the walkable grid and carries `c`, and each
/// consecutive pair is torus-adjacent.
pub open spec fn is_colored_path(buf: PixelBuffer, c: Color, path: Seq<(int, int)>) -> bool {
    &&& forall|k: int|
        0 <= k < path.len() ==> in_walk_grid(buf, (#[trigger] path[k]).0, path[k].1)
            && buf.cell(path[k].0, path[k].1) == c
    &&& forall|k: int|
        0 <= k < path.len() - 1 ==> torus_adjacent(
            buf,
            (#[trigger] path[k]).0,
            path[k].1,
            path[k + 1].0,
            path[k + 1].1,
        )
}

/// `(i, j)` is 4-connectable back to `(si, sj)` through a path of cells all
/// carrying `c`.
pub open spec fn connected_to(
    buf: PixelBuffer,
    c: Color,
    si: int,
    sj: int,
    i: int,
    j: int,
) -> bool {
    exists|path: Seq<(int, int)>|
        #![auto]
        is_colored_path(buf, c, path) && path.len() >= 1 && path[0] == (si, sj) && path[path.len()
            - 1] == (i, j)
}

/// Region connectivity: every walkable cell carrying `c` is 4-connectable
/// back to the seed `(si, sj)`.
pub open spec fn region_connected(buf: PixelBuffer, c: Color, si: int, sj: int) -> bool {
    forall|i: int, j: int|
        in_walk_grid(buf, i, j) && #[trigger] buf.cell(i, j) == c ==> connected_to(
            buf,
            c,
            si,
            sj,
            i,
            j,
        )
}

/// A fresh seed is a connected region of one cell: when the seed is the only
/// walkable cell carrying `c`, every cell of the region walks back to it
/// trivially.
pub proof fn lemma_seed_region_connected(buf: PixelBuffer, c: Color, si: int, sj: int)
    requires
        in_walk_grid(buf, si, sj),
        buf.cell(si, sj) == c,
        forall|a: int, b: int|
            in_walk_grid(buf, a, b) && !(a == si && b == sj) ==> #[trigger] buf.cell(a, b) != c,
    ensures
        region_connected(buf, c, si, sj),
{
    assert forall|i: int, j: int|
        in_walk_grid(buf, i, j) && #[trigger] buf.cell(i, j) == c implies connected_to(
        buf,
        c,
        si,
        sj,
        i,
        j,
    ) by {
        let path: Seq<(int, int)> = seq![(si, sj)];
        assert(is_colored_path(buf, c, path) && path.len() >= 1 && path[0] == (si, sj)
            && path[path.len() - 1] == (i, j));
    }
}

/// The wrapped image of `x + 1` is the torus successor of the wrapped image
/// of `x`: stepping before wrapping is stepping on the torus.
pub proof fn lemma_wrap_succ(x: int, d: int)
    requires
        d >= 2,
    ensures
        wrap_spec(x + 1, d) == (wrap_spec(x, d) + 1) % (d - 1),
{
    let m = d - 1;
    lemma_add_mod_noop_right(1, x - 1, m);
}

/// Painting one cell with `c` invalidates no existing path of color `c`:
/// the painted cell carries `c` afterwards and every other cell is
/// untouched.
proof fn lemma_path_stable(
    pre: PixelBuffer,
    post: PixelBuffer,
    qi: int,
    qj: int,
    c: Color,
    path: Seq<(int, int)>,
)
    requires
        is_paint_of(pre, post, qi, qj, c),
        is_colored_path(pre, c, path),
    ensures
        is_colored_path(post, c, path),
{
    assert forall|k: int| 0 <= k < path.len() implies in_walk_grid(
        post,
        (#[trigger] path[k]).0,
        path[k].1,
    ) && post.cell(path[k].0, path[k].1) == c by {
        assert(in_walk_grid(pre, path[k].0, path[k].1));
        if !(path[k].0 == qi && path[k].1 == qj) {
            assert(pre.in_grid(path[k].0, path[k].1));
            assert(post.cell(path[k].0, path[k].1) == pre.cell(path[k].0, path[k].1));
        }
    }
}

/// Connectivity survives one paint of `c`.
proof fn lemma_connected_stable(
    pre: PixelBuffer,
    post: PixelBuffer,
    qi: int,
    qj: int,
    c: Color,
    si: int,
    sj: int,
    i: int,
    j: int,
)
    requires
        is_paint_of(pre, post, qi, qj, c),
        connected_to(pre, c, si, sj, i, j),
    ensures
        connected_to(post, c, si, sj, i, j),
{
    let path = choose|path: Seq<(int, int)>|
        #![auto]
        is_colored_path(pre, c, path) && path.len() >= 1 && path[0] == (si, sj) && path[path.len()
            - 1] == (i, j);
    lemma_path_stable(pre, post, qi, qj, c, path);
    assert(is_colored_path(post, c, path) && path.len() >= 1 && path[0] == (si, sj)
        && path[path.len() - 1] == (i, j));
}

/// A connection extends by one torus-adjacent cell of the same color.
proof fn lemma_connected_extend(
    buf: PixelBuffer,
    c: Color,
    si: int,
    sj: int,
    i: int,
    j: int,
    ni: int,
    nj: int,
)
    requires
        connected_to(buf, c, si, sj, i, j),
        torus_adjacent(buf, i, j, ni, nj),
        in_walk_grid(buf, ni, nj),
        buf.cell(ni, nj) == c,
    ensures
        connected_to(buf, c, si, sj, ni, nj),
{
    let path = choose|path: Seq<(int, int)>|
        #![auto]
        is_colored_path(buf, c, path) && path.len() >= 1 && path[0] == (si, sj) && path[path.len()
            - 1] == (i, j);
    let longer = path.push((ni, nj));
    assert(longer[longer.len() - 1] == (ni, nj));
    assert forall|k: int| 0 <= k < longer.len() implies in_walk_grid(
        buf,
        (#[trigger] longer[k]).0,
        longer[k].1,
    ) && buf.cell(longer[k].0, longer[k].1) == c by {
        if k < path.len() {
            assert(longer[k] == path[k]);
        }
    }
    assert forall|k: int| 0 <= k < longer.len() - 1 implies torus_adjacent(
        buf,
        (#[trigger] longer[k]).0,
        longer[k].1,
        longer[k + 1].0,
        longer[k + 1].1,
    ) by {
        if k < path.len() - 1 {
            assert(longer[k] == path[k]);
            assert(longer[k + 1] == path[k + 1]);
        } else {
            assert(longer[k] == path[path.len() - 1]);
            assert(longer[k + 1] == (ni, nj));
        }
    }
    assert(is_colored_path(buf, c, longer) && longer.len() >= 1 && longer[0] == (si, sj)
        && longer[longer.len() - 1] == (ni, nj));
}

/// A region stays connected to its seed when a walk claims the cell at
/// coordinate `(x, y)`: the claim requires a wrapped neighbor that already
/// carries the color, and that neighbor leads back to the seed.
pub proof fn lemma_paint_preserves_connectivity(
    pre: PixelBuffer,
    post: PixelBuffer,
    x: int,
    y: int,
    c: Color,
    si: int,
    sj: int,
)
    requires
        pre.wf(),
        pre.wrappable(),
        crate::buffer::has_matching_neighbor(pre, x, y, c),
        is_paint_of(
            pre,
            post,
            wrap_spec(x, pre.spec_width() as int),
            wrap_spec(y, pre.spec_height() as int),
            c,
        ),
        region_connected(pre, c, si, sj),
    ensures
        region_connected(post, c, si, sj),
{
    let w = pre.spec_width() as int;
    let h = pre.spec_height() as int;
    let qi = wrap_spec(x, w);
    let qj = wrap_spec(y, h);
    lemma_wrap_in_range(x, w);
    lemma_wrap_in_range(y, h);

    // name the matching neighbor as a walkable cell next to the claimed one
    let (ri, rj): (int, int) = if pre.pixel_at(x + 1, y) == c {
        proof_from_east(pre, x, y)
    } else if pre.pixel_at(x - 1, y) == c {
        proof_from_west(pre, x, y)
    } else if pre.pixel_at(x, y + 1) == c {
        proof_from_south(pre, x, y)
    } else {
        proof_from_north(pre, x, y)
    };
    assert(in_walk_grid(pre, ri, rj));
    assert(pre.cell(ri, rj) == c);
    assert(torus_adjacent(pre, ri, rj, qi, qj));

    assert forall|i: int, j: int|
        in_walk_grid(post, i, j) && #[trigger] post.cell(i, j) == c implies connected_to(
        post,
        c,
        si,
        sj,
        i,
        j,
    ) by {
        if i == qi && j == qj {
            // the claimed cell: walk from the seed to the matching neighbor,
            // then step onto the claim
            assert(connected_to(pre, c, si, sj, ri, rj));
            lemma_connected_stable(pre, post, qi, qj, c, si, sj, ri, rj);
            if ri == qi && rj == qj {
                // on a fully wrapped axis the claim can be its own neighbor
            } else {
                assert(post.cell(ri, rj) == pre.cell(ri, rj));
                assert(torus_adjacent(post, ri, rj, qi, qj));
                lemma_connected_extend(post, c, si, sj, ri, rj, qi, qj);
            }
        } else {
            assert(pre.in_grid(i, j));
            assert(pre.cell(i, j) == post.cell(i, j));
            assert(connected_to(pre, c, si, sj, i, j));
            lemma_connected_stable(pre, post, qi, qj, c, si, sj, i, j);
        }
    }
}

/// The wrapped cell east of coordinate `(x, y)`, shown adjacent to the
/// wrapped cell of `(x, y)` itself.
proof fn proof_from_east(pre: PixelBuffer, x: int, y: int) -> (r: (int, int))
    requires
        pre.wf(),
        pre.wrappable(),
    ensures
        r.0 == wrap_spec(x + 1, pre.spec_width() as int),
        r.1 == wrap_spec(y, pre.spec_height() as int),
        in_walk_grid(pre, r.0, r.1),
        torus_adjacent(
            pre,
            r.0,
            r.1,
            wrap_spec(x, pre.spec_width() as int),
            wrap_spec(y, pre.spec_height() as int),
        ),
        pre.cell(r.0, r.1) == pre.pixel_at(x + 1, y),
{
    let w = pre.spec_width() as int;
    let h = pre.spec_height() as int;
    lemma_wrap_in_range(x + 1, w);
    lemma_wrap_in_range(y, h);
    lemma_wrap_succ(x, w);
    lemma_wrap_in_range(x, w);
    (wrap_spec(x + 1, w), wrap_spec(y, h))
}

/// The wrapped cell west of coordinate `(x, y)`, shown adjacent to the
/// wrapped cell of `(x, y)` itself.
proof fn proof_from_west(pre: PixelBuffer, x: int, y: int) -> (r: (int, int))
    requires
        pre.wf(),
        pre.wrappable(),
    ensures
        r.0 == wrap_spec(x - 1, pre.spec_width() as int),
        r.1 == wrap_spec(y, pre.spec_height() as int),
        in_walk_grid(pre, r.0, r.1),
        torus_adjacent(
            pre,
            r.0,
            r.1,
            wrap_spec(x, pre.spec_width() as int),
            wrap_spec(y, pre.spec_height() as int),
        ),
        pre.cell(r.0, r.1) == pre.pixel_at(x - 1, y),
{
    let w = pre.spec_width() as int;
    let h = pre.spec_height() as int;
    lemma_wrap_in_range(x - 1, w);
    lemma_wrap_in_range(y, h);
    lemma_wrap_succ(x - 1, w);
    lemma_wrap_in_range(x, w);
    (wrap_spec(x - 1, w), wrap_spec(y, h))
}

/// The wrapped cell south of coordinate `(x, y)`, shown adjacent to the
/// wrapped cell of `(x, y)` itself.
proof fn proof_from_south(pre: PixelBuffer, x: int, y: int) -> (r: (int, int))
    requires
        pre.wf(),
        pre.wrappable(),
    ensures
        r.0 == wrap_spec(x, pre.spec_width() as int),
        r.1 == wrap_spec(y + 1, pre.spec_height() as int),
        in_walk_grid(pre, r.0, r.1),
        torus_adjacent(
            pre,
            r.0,
            r.1,
            wrap_spec(x, pre.spec_width() as int),
            wrap_spec(y, pre.spec_height() as int),
        ),
        pre.cell(r.0, r.1) == pre.pixel_at(x, y + 1),
{
    let w = pre.spec_width() as int;
    let h = pre.spec_height() as int;
    lemma_wrap_in_range(x, w);
    lemma_wrap_in_range(y + 1, h);
    lemma_wrap_succ(y, h);
    lemma_wrap_in_range(y, h);
    (wrap_spec(x, w), wrap_spec(y + 1, h))
}

/// The wrapped cell north of coordinate `(x, y)`, shown adjacent to the
/// wrapped cell of `(x, y)` itself.
proof fn proof_from_north(pre: PixelBuffer, x: int, y: int) -> (r: (int, int))
    requires
        pre.wf(),
        pre.wrappable(),
    ensures
        r.0 == wrap_spec(x, pre.spec_width() as int),
        r.1 == wrap_spec(y - 1, pre.spec_height() as int),
        in_walk_grid(pre, r.0, r.1),
        torus_adjacent(
            pre,
            r.0,
            r.1,
            wrap_spec(x, pre.spec_width() as int),
            wrap_spec(y, pre.spec_height() as int),
        ),
        pre.cell(r.0, r.1) == pre.pixel_at(x, y - 1),
{
    let w = pre.spec_width() as int;
    let h = pre.spec_height() as int;
    lemma_wrap_in_range(x, w);
    lemma_wrap_in_range(y - 1, h);
    lemma_wrap_succ(y - 1, h);
    lemma_wrap_in_range(y, h);
    (wrap_spec(x, w), wrap_spec(y - 1, h))
}

} // verus!
