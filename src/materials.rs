//! Two example materials: a granular solid and a liquid.
use std::sync::Arc;

use vstd::prelude::*;

use crate::element::{Element, Material};
use crate::outside::{bresenham_line, random_in_range, shuffle_moves};
use crate::playfield::{lemma_index_unique, ParticleModel, Particle, Playfield};
use crate::simulation::{is_tick, visit, visited};
use crate::util::{checked_move, lemma_bottom_row_stays, samples, walk};

verus! {

/// How far, in cells, a liquid reaches sideways when it cannot fall.
pub const DISPERSION: i32 = 8;

/// The lowest brightness of a particle's color, in thousandths.
pub const MIN_BRIGHTNESS: u32 = 800;

/// One more than the highest brightness, in thousandths.
pub const MAX_BRIGHTNESS: u32 = 1000;

/// `c` scaled by `b` thousandths, rounded to the nearest integer.
pub open spec fn scaled(c: u8, b: u32) -> u8 {
    ((c as int * b as int + 500) / 1000) as u8
}

/// `color` with its red, green and blue channels scaled by `brightness`
/// thousandths; alpha is kept.
pub fn shade(color: [u8; 4], brightness: u32) -> (r: [u8; 4])
    requires
        brightness <= 1000,
    ensures
        r[0] == scaled(color[0], brightness),
        r[1] == scaled(color[1], brightness),
        r[2] == scaled(color[2], brightness),
        r[3] == color[3],
{
    let mut r = color;
    let mut i: usize = 0;
    while i < 3
        invariant
            i <= 3,
            brightness <= 1000,
            r[3] == color[3],
            forall|j: int| 0 <= j < i ==> r[j] == scaled(color[j], brightness),
            forall|j: int| i <= j < 4 ==> r[j] == color[j],
        decreases 3 - i,
    {
        let c = color[i] as u32;
        assert(c * brightness <= 255 * 1000) by (nonlinear_arith)
            requires
                c <= 255,
                brightness <= 1000,
        ;
        let v = (c * brightness + 500) / 1000;
        r[i] = v as u8;
        i = i + 1;
    }
    r
}

/// `c` is `base` with its red, green and blue channels scaled by `b`
/// thousandths, and its alpha kept.
pub open spec fn is_shade(c: [u8; 4], base: [u8; 4], b: u32) -> bool {
    &&& c[0] == scaled(base[0], b)
    &&& c[1] == scaled(base[1], b)
    &&& c[2] == scaled(base[2], b)
    &&& c[3] == base[3]
}

/// `c` is a shade of `base` of a brightness in the range a new particle may take.
pub open spec fn is_shade_in_range(c: [u8; 4], base: [u8; 4]) -> bool {
    exists|b: u32| MIN_BRIGHTNESS <= b < MAX_BRIGHTNESS && #[trigger] is_shade(c, base, b)
}

/// The color of sand at full brightness.
pub const SAND_COLOR: [u8; 4] = [255u8, 233u8, 168u8, 255u8];

/// The color of water at full brightness.
pub const WATER_COLOR: [u8; 4] = [33u8, 89u8, 255u8, 255u8];

/// The points a move by `(dx, dy)` from `(x, y)` visits: the target alone
/// for a neighbouring cell, else every second point of the Bresenham line.
pub open spec fn move_points(x: int, y: int, dx: int, dy: int) -> Seq<(int, int)> {
    if -1 <= dx <= 1 && -1 <= dy <= 1 && (dx != 0 || dy != 0) {
        seq![(x + dx, y + dy)]
    } else {
        samples(bresenham_line(x, y, x + dx, y + dy))
    }
}

/// The outcome of trying the moves `moves` from the `k`-th on, in order,
/// stopping at the first that succeeds.
pub open spec fn attempts<E: Material>(
    s: Seq<Option<(E, u64)>>,
    next: u64,
    w: int,
    h: int,
    p: ParticleModel<E>,
    moves: Seq<(i32, i32)>,
    k: int,
) -> (bool, Seq<Option<(E, u64)>>, u64)
    decreases moves.len() - k,
{
    if k >= moves.len() || k < 0 {
        (false, s, next)
    } else {
        let pts = move_points(p.x as int, p.y as int, moves[k].0 as int, moves[k].1 as int);
        let (ok, s2, n2) = walk(s, next, w, h, p, pts, 0, (p.x as int, p.y as int));
        if ok {
            (true, s2, n2)
        } else {
            attempts(s2, n2, w, h, p, moves, k + 1)
        }
    }
}

/// Tries the relative moves `moves` on `p` in order with `checked_move`,
/// stopping at the first that succeeds. Returns whether one did.
pub fn try_moves<E: Material>(p: &mut Particle<E>, moves: &Vec<(i32, i32)>, f: &mut Playfield<E>) -> (r: bool)
    requires
        old(f).wf(),
        old(p)@.x < old(f).spec_width(),
        old(p)@.y < old(f).spec_height(),
    ensures
        final(f).wf(),
        final(f).same_size(*old(f)),
        *final(p) == *old(p),
        !r ==> *final(f) == *old(f),
        (r, final(f).shape(), final(f).spec_next_id()) == attempts(
            old(f).shape(),
            old(f).spec_next_id(),
            old(f).spec_width() as int,
            old(f).spec_height() as int,
            old(p)@,
            moves@,
            0,
        ),
{
    let ghost w = f.spec_width() as int;
    let ghost h = f.spec_height() as int;
    let mut k: usize = 0;
    while k < moves.len()
        invariant
            f.wf(),
            f.same_size(*old(f)),
            w == f.spec_width(),
            h == f.spec_height(),
            *p == *old(p),
            *f == *old(f),
            p@.x < w,
            p@.y < h,
            k <= moves@.len(),
            attempts(f.shape(), f.spec_next_id(), w, h, p@, moves@, k as int) == attempts(
                old(f).shape(),
                old(f).spec_next_id(),
                w,
                h,
                old(p)@,
                moves@,
                0,
            ),
        decreases moves@.len() - k,
    {
        let (dx, dy) = moves[k];
        if checked_move(p, dx, dy, f) {
            return true;
        }
        k = k + 1;
    }
    false
}

/// The three downward moves: straight down, down-right and down-left.
pub open spec fn downward() -> Seq<(i32, i32)> {
    seq![(0i32, 1i32), (1i32, 1i32), (-1i32, 1i32)]
}

/// The two sideways moves, by `DISPERSION` cells right and left.
pub open spec fn sideways() -> Seq<(i32, i32)> {
    seq![(DISPERSION, 0i32), ((-DISPERSION) as i32, 0i32)]
}

/// The outcome of trying some order of `moves` on `p` in `f`.
pub open spec fn some_order_of<E: Material>(
    f: Playfield<E>,
    p: ParticleModel<E>,
    moves: Seq<(i32, i32)>,
    outcome: (bool, Seq<Option<(E, u64)>>, u64),
) -> bool {
    exists|m: Seq<(i32, i32)>|
        #![trigger m.to_multiset()]
        m.to_multiset() == moves.to_multiset() && outcome == attempts(
            f.shape(),
            f.spec_next_id(),
            f.spec_width() as int,
            f.spec_height() as int,
            p,
            m,
            0,
        )
}

/// `after` is an outcome of one tick of granular solid `p` in `before`.
pub open spec fn falls<E: Material>(before: Playfield<E>, p: ParticleModel<E>, after: Playfield<E>) -> bool {
    some_order_of(before, p, downward(), (true, after.shape(), after.spec_next_id()))
        || some_order_of(before, p, downward(), (false, after.shape(), after.spec_next_id()))
}

/// `after` is an outcome of one tick of liquid `p` in `before`.
pub open spec fn flows<E: Material>(before: Playfield<E>, p: ParticleModel<E>, after: Playfield<E>) -> bool {
    some_order_of(before, p, downward(), (true, after.shape(), after.spec_next_id()))
        || (some_order_of(before, p, downward(), (false, before.shape(), before.spec_next_id()))
        && (some_order_of(before, p, sideways(), (true, after.shape(), after.spec_next_id()))
        || some_order_of(before, p, sideways(), (false, after.shape(), after.spec_next_id()))))
}

/// Tries the moves `moves` on `p` in a random order, stopping at the first
/// that succeeds. Returns whether one did.
pub fn try_in_random_order<E: Material>(p: &mut Particle<E>, moves: Vec<(i32, i32)>, f: &mut Playfield<E>) -> (r: bool)
    requires
        old(f).wf(),
        old(p)@.x < old(f).spec_width(),
        old(p)@.y < old(f).spec_height(),
    ensures
        final(f).wf(),
        final(f).same_size(*old(f)),
        *final(p) == *old(p),
        !r ==> *final(f) == *old(f),
        some_order_of(*old(f), old(p)@, moves@, (r, final(f).shape(), final(f).spec_next_id())),
{
    let mut order = moves;
    shuffle_moves(&mut order);
    let r = try_moves(p, &order, f);
    assert(order@.to_multiset() == moves@.to_multiset());
    r
}

/// One tick of a granular solid: the downward moves in a random order, up to
/// the first that succeeds. Returns whether one did.
pub fn fall<E: Material>(p: &mut Particle<E>, f: &mut Playfield<E>) -> (r: bool)
    requires
        old(f).wf(),
        old(p)@.x < old(f).spec_width(),
        old(p)@.y < old(f).spec_height(),
    ensures
        final(f).wf(),
        final(f).same_size(*old(f)),
        *final(p) == *old(p),
        !r ==> *final(f) == *old(f),
        some_order_of(*old(f), old(p)@, downward(), (r, final(f).shape(), final(f).spec_next_id())),
{
    let moves: Vec<(i32, i32)> = vec![(0i32, 1i32), (1i32, 1i32), (-1i32, 1i32)];
    assert(moves@ =~= downward());
    try_in_random_order(p, moves, f)
}

/// One tick of a liquid: it falls as a granular solid does; when no downward
/// move succeeds, it tries the sideways moves in a random order. Returns
/// whether a move succeeded.
pub fn flow<E: Material>(p: &mut Particle<E>, f: &mut Playfield<E>) -> (r: bool)
    requires
        old(f).wf(),
        old(p)@.x < old(f).spec_width(),
        old(p)@.y < old(f).spec_height(),
    ensures
        final(f).wf(),
        final(f).same_size(*old(f)),
        *final(p) == *old(p),
        !r ==> *final(f) == *old(f),
        (r && some_order_of(*old(f), old(p)@, downward(), (true, final(f).shape(), final(f).spec_next_id())))
            || (some_order_of(*old(f), old(p)@, downward(), (false, old(f).shape(), old(f).spec_next_id()))
            && some_order_of(*old(f), old(p)@, sideways(), (r, final(f).shape(), final(f).spec_next_id()))),
{
    if fall(p, f) {
        return true;
    }
    let left: i32 = -DISPERSION;
    let moves: Vec<(i32, i32)> = vec![(DISPERSION, 0i32), (left, 0i32)];
    assert(moves@ =~= sideways());
    try_in_random_order(p, moves, f)
}

/// A granular solid: it falls straight down or diagonally, in a random order
/// each tick.
#[derive(Clone, Copy, Debug)]
pub struct Sand;

impl Sand {
    pub fn new() -> (r: Arc<Sand>) {
        Arc::new(Sand)
    }
}

/// The density of sand, in thousandths.
pub const SAND_DENSITY: u32 = 1607;

/// The density of water, in thousandths.
pub const WATER_DENSITY: u32 = 997;

impl Material for Sand {
    open spec fn spec_density(&self) -> u32 {
        SAND_DENSITY
    }

    fn density(&self) -> (r: u32) {
        SAND_DENSITY
    }

    fn name(&self) -> &str {
        "sand"
    }

    open spec fn is_color(&self, c: [u8; 4]) -> bool {
        is_shade_in_range(c, SAND_COLOR)
    }

    fn color(&self) -> (r: [u8; 4]) {
        let b = random_in_range(MIN_BRIGHTNESS, MAX_BRIGHTNESS);
        let r = shade(SAND_COLOR, b);
        assert(is_shade(r, SAND_COLOR, b));
        r
    }
}

impl Element for Sand {
    open spec fn step_relation(&self, p: ParticleModel<Sand>, before: Playfield<Sand>, after: Playfield<Sand>) -> bool {
        falls(before, p, after)
    }

    fn step(&self, particle: &mut Particle<Sand>, playfield: &mut Playfield<Sand>) {
        fall(particle, playfield);
    }
}

/// A liquid: it falls like sand and, when it cannot, flows sideways by up to
/// `DISPERSION` cells, in a random direction.
#[derive(Clone, Copy, Debug)]
pub struct Water;

impl Water {
    pub fn new() -> (r: Arc<Water>) {
        Arc::new(Water)
    }
}

impl Material for Water {
    open spec fn spec_density(&self) -> u32 {
        WATER_DENSITY
    }

    fn density(&self) -> (r: u32) {
        WATER_DENSITY
    }

    fn name(&self) -> &str {
        "water"
    }

    open spec fn is_color(&self, c: [u8; 4]) -> bool {
        is_shade_in_range(c, WATER_COLOR)
    }

    fn color(&self) -> (r: [u8; 4]) {
        let b = random_in_range(MIN_BRIGHTNESS, MAX_BRIGHTNESS);
        let r = shade(WATER_COLOR, b);
        assert(is_shade(r, WATER_COLOR, b));
        r
    }
}

impl Element for Water {
    open spec fn step_relation(&self, p: ParticleModel<Water>, before: Playfield<Water>, after: Playfield<Water>) -> bool {
        flows(before, p, after)
    }

    fn step(&self, particle: &mut Particle<Water>, playfield: &mut Playfield<Water>) {
        flow(particle, playfield);
    }
}

/// Sand or water, so that both can share one grid.
#[derive(Clone, Copy, Debug, PartialEq, Eq)]
pub enum Substance {
    Sand,
    Water,
}

impl Material for Substance {
    open spec fn spec_density(&self) -> u32 {
        match self {
            Substance::Sand => SAND_DENSITY,
            Substance::Water => WATER_DENSITY,
        }
    }

    fn density(&self) -> (r: u32) {
        match self {
            Substance::Sand => Sand.density(),
            Substance::Water => Water.density(),
        }
    }

    fn name(&self) -> &str {
        match self {
            Substance::Sand => "sand",
            Substance::Water => "water",
        }
    }

    open spec fn is_color(&self, c: [u8; 4]) -> bool {
        match self {
            Substance::Sand => is_shade_in_range(c, SAND_COLOR),
            Substance::Water => is_shade_in_range(c, WATER_COLOR),
        }
    }

    fn color(&self) -> (r: [u8; 4]) {
        match self {
            Substance::Sand => Sand.color(),
            Substance::Water => Water.color(),
        }
    }
}

impl Element for Substance {
    open spec fn step_relation(
        &self,
        p: ParticleModel<Substance>,
        before: Playfield<Substance>,
        after: Playfield<Substance>,
    ) -> bool {
        match self {
            Substance::Sand => falls(before, p, after),
            Substance::Water => flows(before, p, after),
        }
    }

    fn step(&self, particle: &mut Particle<Substance>, playfield: &mut Playfield<Substance>) {
        match self {
            Substance::Sand => {
                fall(particle, playfield);
            },
            Substance::Water => {
                flow(particle, playfield);
            },
        }
    }
}

/// On the bottom row every downward move is blocked, whatever their order:
/// trying them fails and changes nothing.
pub proof fn lemma_floor_blocks_downward<E: Material>(
    s: Seq<Option<(E, u64)>>,
    next: u64,
    w: int,
    h: int,
    p: ParticleModel<E>,
    m: Seq<(i32, i32)>,
    k: int,
)
    requires
        s.len() == w * h,
        p.y == h - 1,
        m.to_multiset() == downward().to_multiset(),
        0 <= k,
    ensures
        attempts(s, next, w, h, p, m, k) == (false, s, next),
    decreases m.len() - k,
{
    if k < m.len() {
        m.to_multiset_ensures();
        downward().to_multiset_ensures();
        let d = m[k];
        assert(m.contains(d));
        assert(m.to_multiset().count(d) > 0);
        assert(downward().to_multiset().count(d) > 0);
        assert(downward().contains(d));
        let j = choose|j: int| 0 <= j < downward().len() && downward()[j] == d;
        assert(d.1 == 1 && -1 <= d.0 <= 1);
        lemma_bottom_row_stays(s, next, w, h, p, d.0 as int);
        lemma_floor_blocks_downward(s, next, w, h, p, m, k + 1);
    }
}

proof fn lemma_lone_grain_trace(start: Playfield<Sand>, trace: Seq<Playfield<Sand>>, g: int, k: int)
    requires
        start.wf(),
        is_tick(start, trace),
        0 <= g < start.cells().len(),
        start.cells()[g] is Some,
        start.cells()[g].unwrap().y == start.spec_height() - 1,
        forall|i: int| 0 <= i < start.cells().len() && i != g ==> #[trigger] start.cells()[i] is None,
        0 <= k <= start.cells().len(),
    ensures
        trace[k].wf(),
        trace[k].same_size(start),
        trace[k].shape() == start.shape(),
        trace[k].spec_next_id() == start.spec_next_id(),
    decreases k,
{
    if k > 0 {
        lemma_lone_grain_trace(start, trace, g, k - 1);
        let n = start.cells().len() as int;
        let i = visited(n, k - 1);
        let before = trace[k - 1];
        let after = trace[k];
        assert(visit(start, visited(n, k - 1), trace[k - 1], trace[(k - 1) + 1]));
        assert(visit(start, i, before, after));
        if start.cells()[i] is Some && before.cells()[i] is Some {
            assert(i == g);
            let q = before.cells()[i].unwrap();
            let grain = start.cells()[g].unwrap();
            before.lemma_wf();
            start.lemma_wf();
            assert(before.shape()[i] == start.shape()[i]);
            lemma_index_unique(
                start.spec_width() as int,
                q.x as int,
                q.y as int,
                grain.x as int,
                grain.y as int,
            );
            let w = before.spec_width() as int;
            let h = before.spec_height() as int;
            assert(falls(before, q, after));
            if some_order_of(before, q, downward(), (true, after.shape(), after.spec_next_id())) {
                let m = choose|m: Seq<(i32, i32)>|
                    m.to_multiset() == downward().to_multiset() && (true, after.shape(), after.spec_next_id())
                        == attempts(before.shape(), before.spec_next_id(), w, h, q, m, 0);
                lemma_floor_blocks_downward(before.shape(), before.spec_next_id(), w, h, q, m, 0);
            } else {
                let m = choose|m: Seq<(i32, i32)>|
                    m.to_multiset() == downward().to_multiset() && (false, after.shape(), after.spec_next_id())
                        == attempts(before.shape(), before.spec_next_id(), w, h, q, m, 0);
                lemma_floor_blocks_downward(before.shape(), before.spec_next_id(), w, h, q, m, 0);
            }
        }
    }
}

/// A lone grain of sand on the bottom row stays where it is through a tick,
/// with its identity: the grid's shape and next identity are unchanged.
pub proof fn lemma_lone_grain_on_floor_stays(start: Playfield<Sand>, trace: Seq<Playfield<Sand>>, g: int)
    requires
        start.wf(),
        is_tick(start, trace),
        0 <= g < start.cells().len(),
        start.cells()[g] is Some,
        start.cells()[g].unwrap().y == start.spec_height() - 1,
        forall|i: int| 0 <= i < start.cells().len() && i != g ==> #[trigger] start.cells()[i] is None,
    ensures
        trace.last().wf(),
        trace.last().shape() == start.shape(),
        trace.last().spec_next_id() == start.spec_next_id(),
{
    lemma_lone_grain_trace(start, trace, g, start.cells().len() as int);
}

} // verus!
