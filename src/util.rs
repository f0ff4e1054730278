//! The movement resolver: line-traced displacement with density-driven
//! collisions.
use vstd::prelude::*;

use crate::element::Material;
use crate::outside::{bresenham_line, line_points};
use crate::playfield::{lemma_index_in_range, next_identity, relocated, ParticleModel, Particle, Playfield};

verus! {

/// Every second point of `line` after its start: the points a move visits.
pub open spec fn samples(line: Seq<(int, int)>) -> Seq<(int, int)> {
    Seq::new(line.len() / 2, |k: int| line[2 * k + 1])
}

/// A line of machine points, as integer pairs.
pub open spec fn int_points(line: Seq<(i64, i64)>) -> Seq<(int, int)> {
    line.map_values(|q: (i64, i64)| (q.0 as int, q.1 as int))
}

/// The outcome of walking the mover `p` from the sampled point `k` on, in a
/// `w` by `h` grid of shape `s` whose next identity is `next`, with `prev`
/// the last point found free: whether the move succeeds, the shape after it,
/// and the next identity after it.
///
/// A free point is passed. At an occupied point whose occupant is strictly
/// lighter than the mover, the occupant is moved to `prev` and the walk goes
/// on. At any other occupied point, or at a point outside the grid, the mover
/// goes to `prev`, or the move fails if nothing was passed. When all points
/// are passed, the mover goes to the last one.
pub open spec fn walk<E: Material>(
    s: Seq<Option<(E, u64)>>,
    next: u64,
    w: int,
    h: int,
    p: ParticleModel<E>,
    pts: Seq<(int, int)>,
    k: int,
    prev: (int, int),
) -> (bool, Seq<Option<(E, u64)>>, u64)
    decreases pts.len() - k,
{
    let home = p.y * w + p.x;
    let dest = prev.1 * w + prev.0;
    if k >= pts.len() {
        let (s2, n2) = relocated(s, next, home, p.id, p.element, dest);
        (true, s2, n2)
    } else {
        let (x, y) = pts[k];
        let inside = 0 <= x < w && 0 <= y < h;
        if inside && s[y * w + x] is None {
            walk(s, next, w, h, p, pts, k + 1, (x, y))
        } else if inside && s[y * w + x] is Some && s[y * w + x].unwrap().0.spec_density()
            < p.element.spec_density() {
            let t = s[y * w + x].unwrap();
            let (s2, n2) = relocated(s, next, y * w + x, t.1, t.0, dest);
            walk(s2, n2, w, h, p, pts, k + 1, (x, y))
        } else if prev == (p.x as int, p.y as int) {
            (false, s, next)
        } else {
            let (s2, n2) = relocated(s, next, home, p.id, p.element, dest);
            (true, s2, n2)
        }
    }
}

/// The outcome of moving `p` along the sampled points `pts` in `f`.
pub open spec fn move_outcome<E: Material>(f: Playfield<E>, p: ParticleModel<E>, pts: Seq<(int, int)>) -> (bool, Seq<Option<(E, u64)>>, u64) {
    walk(
        f.shape(),
        f.spec_next_id(),
        f.spec_width() as int,
        f.spec_height() as int,
        p,
        pts,
        0,
        (p.x as int, p.y as int),
    )
}

/// Moves `p` along `line`, a rasterised line from its cell, visiting every
/// second point after the start (see `walk`). Returns whether it moved or
/// displaced a lighter particle.
pub fn checked_move_along<E: Material>(p: &Particle<E>, line: &Vec<(i64, i64)>, f: &mut Playfield<E>) -> (r: bool)
    requires
        old(f).wf(),
        p@.x < old(f).spec_width(),
        p@.y < old(f).spec_height(),
    ensures
        final(f).wf(),
        final(f).same_size(*old(f)),
        (r, final(f).shape(), final(f).spec_next_id()) == move_outcome(*old(f), p@, samples(int_points(line@))),
        (forall|k: int|
            0 <= k < samples(int_points(line@)).len() ==> #[trigger] samples(int_points(line@))[k]
                != (p@.x as int, p@.y as int)) ==> (!r ==> *final(f) == *old(f)),
{
    let ghost pts = samples(int_points(line@));
    let ghost start = (p@.x as int, p@.y as int);
    let ghost apart = forall|k: int| 0 <= k < pts.len() ==> #[trigger] pts[k] != start;
    let ghost w = f.spec_width() as int;
    let ghost h = f.spec_height() as int;
    let wd = f.width() as i64;
    let ht = f.height() as i64;
    let len: usize = line.len();
    let n: usize = len / 2;
    let mut k: usize = 0;
    let mut prev: (usize, usize) = (p.x(), p.y());
    while k < n
        invariant
            f.wf(),
            f.same_size(*old(f)),
            w == f.spec_width(),
            h == f.spec_height(),
            wd == w,
            ht == h,
            p@.x < w,
            p@.y < h,
            prev.0 < w,
            prev.1 < h,
            k <= n,
            n == pts.len(),
            n == line@.len() / 2,
            len == line@.len(),
            pts == samples(int_points(line@)),
            walk(f.shape(), f.spec_next_id(), w, h, p@, pts, k as int, (prev.0 as int, prev.1 as int))
                == move_outcome(*old(f), p@, pts),
            apart == (forall|k: int| 0 <= k < pts.len() ==> #[trigger] pts[k] != start),
            start == (p@.x as int, p@.y as int),
            apart ==> ((prev.0 as int, prev.1 as int) == start ==> *f == *old(f)),
        decreases n - k,
    {
        assert(2 * k + 1 < line@.len()) by (nonlinear_arith)
            requires
                k < n,
                n == line@.len() / 2,
        ;
        let (x, y) = line[2 * k + 1];
        assert(pts[k as int] == (x as int, y as int));
        assert(apart ==> (x as int, y as int) != start);
        let inside = 0 <= x && x < wd && 0 <= y && y < ht;
        let mut passed = false;
        if inside {
            proof {
                f.lemma_wf();
            }
            let ghost i = f.index(x as int, y as int);
            proof {
                lemma_index_in_range(w, h, x as int, y as int);
            }
            match f.get(x as usize, y as usize) {
                None => {
                    assert(f.shape()[i] is None);
                    passed = true;
                },
                Some(t) => {
                    assert(f.shape()[i] == Some((t@.element, t@.id)));
                    if t.element().density() < p.element().density() {
                        let t2 = t.snapshot();
                        t2.move_to(prev.0, prev.1, f);
                        passed = true;
                    }
                },
            }
        }
        if !passed {
            if prev.0 == p.x() && prev.1 == p.y() {
                return false;
            }
            p.move_to(prev.0, prev.1, f);
            return true;
        }
        prev = (x as usize, y as usize);
        k = k + 1;
    }
    p.move_to(prev.0, prev.1, f);
    true
}

/// Moves `p` towards `(p.x + xoff, p.y + yoff)` along the Bresenham line,
/// visiting every second point after the start (see `walk`). Returns whether
/// it moved or displaced a lighter particle; on failure nothing changes.
pub fn checked_move<E: Material>(p: &mut Particle<E>, xoff: i32, yoff: i32, f: &mut Playfield<E>) -> (r: bool)
    requires
        old(f).wf(),
        old(p)@.x < old(f).spec_width(),
        old(p)@.y < old(f).spec_height(),
    ensures
        final(f).wf(),
        final(f).same_size(*old(f)),
        *final(p) == *old(p),
        (r, final(f).shape(), final(f).spec_next_id()) == move_outcome(
            *old(f),
            old(p)@,
            samples(
                bresenham_line(
                    old(p)@.x as int,
                    old(p)@.y as int,
                    old(p)@.x + xoff,
                    old(p)@.y + yoff,
                ),
            ),
        ),
        !r ==> *final(f) == *old(f),
        -1 <= xoff <= 1 && -1 <= yoff <= 1 && (xoff != 0 || yoff != 0) ==> (
        r,
        final(f).shape(),
        final(f).spec_next_id(),
        ) == move_outcome(*old(f), old(p)@, seq![(old(p)@.x + xoff, old(p)@.y + yoff)]),
{
    let x0 = p.x() as i64;
    let y0 = p.y() as i64;
    let line = line_points(x0, y0, x0 + xoff as i64, y0 + yoff as i64);
    proof {
        if -1 <= xoff <= 1 && -1 <= yoff <= 1 && (xoff != 0 || yoff != 0) {
            assert(samples(int_points(line@)) =~= seq![(p@.x + xoff, p@.y + yoff)]);
        }
        let pts = samples(int_points(line@));
        assert forall|k: int| 0 <= k < pts.len() implies #[trigger] pts[k] != (p@.x as int, p@.y as int) by {
            assert(line@[2 * k + 1] != (x0, y0));
        }
    }
    checked_move_along(p, &line, f)
}

/// A move whose first sampled point lies outside the grid, or holds a
/// particle at least as dense as the mover, fails and leaves the grid as it was.
pub proof fn lemma_blocked_first_point<E: Material>(
    s: Seq<Option<(E, u64)>>,
    next: u64,
    w: int,
    h: int,
    p: ParticleModel<E>,
    pts: Seq<(int, int)>,
)
    requires
        pts.len() >= 1,
        s.len() == w * h,
        !(0 <= pts[0].0 < w && 0 <= pts[0].1 < h) || (s[pts[0].1 * w + pts[0].0] is Some
            && s[pts[0].1 * w + pts[0].0].unwrap().0.spec_density() >= p.element.spec_density()),
    ensures
        walk(s, next, w, h, p, pts, 0, (p.x as int, p.y as int)) == (false, s, next),
{
}

proof fn lemma_clear_from<E: Material>(
    s: Seq<Option<(E, u64)>>,
    next: u64,
    w: int,
    h: int,
    p: ParticleModel<E>,
    pts: Seq<(int, int)>,
    k: int,
    prev: (int, int),
)
    requires
        0 <= k < pts.len(),
        forall|j: int|
            0 <= j < pts.len() ==> {
                &&& 0 <= (#[trigger] pts[j]).0 < w
                &&& 0 <= pts[j].1 < h
                &&& s[pts[j].1 * w + pts[j].0] is None
            },
    ensures
        ({
            let last = pts[pts.len() - 1];
            let (s2, n2) = relocated(s, next, p.y * w + p.x, p.id, p.element, last.1 * w + last.0);
            walk(s, next, w, h, p, pts, k, prev) == (true, s2, n2)
        }),
    decreases pts.len() - k,
{
    assert(0 <= pts[k].0 < w);
    assert(walk(s, next, w, h, p, pts, k, prev) == walk(s, next, w, h, p, pts, k + 1, pts[k]));
    if k + 1 < pts.len() {
        lemma_clear_from(s, next, w, h, p, pts, k + 1, pts[k]);
    }
}

/// When every sampled point is inside the grid and free, the mover ends at
/// the last sampled point, never at an intermediate one.
pub proof fn lemma_clear_path<E: Material>(
    s: Seq<Option<(E, u64)>>,
    next: u64,
    w: int,
    h: int,
    p: ParticleModel<E>,
    pts: Seq<(int, int)>,
)
    requires
        pts.len() >= 1,
        forall|j: int|
            0 <= j < pts.len() ==> {
                &&& 0 <= (#[trigger] pts[j]).0 < w
                &&& 0 <= pts[j].1 < h
                &&& s[pts[j].1 * w + pts[j].0] is None
            },
    ensures
        ({
            let last = pts[pts.len() - 1];
            let (s2, n2) = relocated(s, next, p.y * w + p.x, p.id, p.element, last.1 * w + last.0);
            walk(s, next, w, h, p, pts, 0, (p.x as int, p.y as int)) == (true, s2, n2)
        }),
{
    lemma_clear_from(s, next, w, h, p, pts, 0, (p.x as int, p.y as int));
}

/// A particle that moves onto the cell right below it, held by a strictly
/// lighter particle, trades places with it: the lighter one is placed in the
/// mover's cell and the mover below, each with a fresh identity.
pub proof fn lemma_denser_sinks<E: Material>(
    s: Seq<Option<(E, u64)>>,
    next: u64,
    w: int,
    h: int,
    p: ParticleModel<E>,
    below: (E, u64),
)
    requires
        p.x < w,
        p.y + 1 < h,
        s.len() == w * h,
        s[p.y * w + p.x] == Some((p.element, p.id)),
        s[(p.y + 1) * w + p.x] == Some(below),
        below.0.spec_density() < p.element.spec_density(),
        next != p.id,
    ensures
        walk(s, next, w, h, p, seq![(p.x as int, p.y + 1)], 0, (p.x as int, p.y as int)) == (
            true,
            s.update(p.y * w + p.x, Some((below.0, next))).update(
                (p.y + 1) * w + p.x,
                Some((p.element, next_identity(next))),
            ),
            next_identity(next_identity(next)),
        ),
{
    let pts = seq![(p.x as int, p.y + 1)];
    lemma_index_in_range(w, h, p.x as int, p.y as int);
    lemma_index_in_range(w, h, p.x as int, p.y + 1);
    let home = p.y * w + p.x;
    let low = (p.y + 1) * w + p.x;
    assert(low == home + w) by (nonlinear_arith)
        requires
            low == (p.y + 1) * w + p.x,
            home == p.y * w + p.x,
    ;
    let (s2, n2) = relocated(s, next, low, below.1, below.0, home);
    assert(walk(s, next, w, h, p, pts, 0, (p.x as int, p.y as int)) == walk(
        s2,
        n2,
        w,
        h,
        p,
        pts,
        1,
        (p.x as int, p.y + 1),
    ));
    assert(s2[home] == Some((below.0, next)));
    let (s3, n3) = relocated(s2, n2, home, p.id, p.element, low);
    assert(s3 =~= s.update(home, Some((below.0, next))).update(low, Some((p.element, next_identity(next)))));
}

/// A particle on the bottom row cannot move down: a move whose only sampled
/// point is the cell below, or one diagonally below, fails and leaves the
/// grid as it was.
pub proof fn lemma_bottom_row_stays<E: Material>(
    s: Seq<Option<(E, u64)>>,
    next: u64,
    w: int,
    h: int,
    p: ParticleModel<E>,
    dx: int,
)
    requires
        s.len() == w * h,
        p.y == h - 1,
        -1 <= dx <= 1,
    ensures
        walk(s, next, w, h, p, seq![(p.x + dx, p.y + 1)], 0, (p.x as int, p.y as int)) == (
            false,
            s,
            next,
        ),
{
    lemma_blocked_first_point(s, next, w, h, p, seq![(p.x + dx, p.y + 1)]);
}

} // verus!
