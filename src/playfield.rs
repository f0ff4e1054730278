//! The grid: particle storage, placement, removal and pixel export.
use std::sync::Arc;

use image::RgbaImage;
use vstd::arithmetic::div_mod::lemma_fundamental_div_mod_converse;
use vstd::prelude::*;

use crate::element::Material;
use crate::outside::{
    rgba_image_from_vec, rgba_image_height, rgba_image_raw, rgba_image_width, share, GridImage,
};

verus! {

/// What a particle is, as contracts see it.
pub struct ParticleModel<E> {
    pub element: E,
    pub color: [u8; 4],
    pub id: u64,
    pub x: usize,
    pub y: usize,
}

/// One placed instance of an element, at the cell whose coordinates it holds.
/// `y` grows in the direction gravity acts.
#[derive(Clone, Debug)]
pub struct Particle<E> {
    element: Arc<E>,
    color: [u8; 4],
    id: u64,
    x: usize,
    y: usize,
}

impl<E> View for Particle<E> {
    type V = ParticleModel<E>;

    closed spec fn view(&self) -> ParticleModel<E> {
        ParticleModel { element: *self.element, color: self.color, id: self.id, x: self.x, y: self.y }
    }
}

/// The identity that follows `id` (the counter wraps around).
pub open spec fn next_identity(id: u64) -> u64 {
    if id == u64::MAX {
        0
    } else {
        (id + 1) as u64
    }
}

/// Particles are equal when their identities are.
impl<E> PartialEq for Particle<E> {
    fn eq(&self, o: &Particle<E>) -> (r: bool) {
        self.id == o.id
    }
}

impl<E> vstd::std_specs::cmp::PartialEqSpecImpl for Particle<E> {
    open spec fn obeys_eq_spec() -> bool {
        true
    }

    open spec fn eq_spec(&self, o: &Particle<E>) -> bool {
        self@.id == o@.id
    }
}

impl<E: Material> Particle<E> {
    /// A new particle of `element` with identity `id` at `(x, y)`; its color is
    /// drawn once from the element.
    pub fn new(element: Arc<E>, id: u64, x: usize, y: usize) -> (r: Particle<E>)
        ensures
            r@.element == *element,
            element.is_color(r@.color),
            r@.id == id,
            r@.x == x,
            r@.y == y,
    {
        let color = element.color();
        Particle { element, color, id, x, y }
    }

    /// A copy of this particle, identity included.
    pub fn snapshot(&self) -> (r: Particle<E>)
        ensures
            r@ == self@,
    {
        Particle { element: share(&self.element), color: self.color, id: self.id, x: self.x, y: self.y }
    }

    pub fn element(&self) -> (r: &Arc<E>)
        ensures
            **r == self@.element,
    {
        &self.element
    }

    pub fn color(&self) -> (r: [u8; 4])
        ensures
            r == self@.color,
    {
        self.color
    }

    pub fn id(&self) -> (r: u64)
        ensures
            r == self@.id,
    {
        self.id
    }

    pub fn x(&self) -> (r: usize)
        ensures
            r == self@.x,
    {
        self.x
    }

    pub fn y(&self) -> (r: usize)
        ensures
            r == self@.y,
    {
        self.y
    }

    /// Replaces the particle at this particle's cell by a fresh one of the
    /// same element.
    pub fn update(&self, playfield: &mut Playfield<E>)
        requires
            old(playfield).wf(),
            self@.x < old(playfield).spec_width(),
            self@.y < old(playfield).spec_height(),
        ensures
            final(playfield).wf(),
            final(playfield).same_size(*old(playfield)),
            final(playfield).shape() == old(playfield).shape().update(
                old(playfield).index(self@.x as int, self@.y as int),
                Some((self@.element, old(playfield).spec_next_id())),
            ),
            final(playfield).spec_next_id() == next_identity(old(playfield).spec_next_id()),
    {
        let ghost s0 = playfield.shape();
        proof {
            lemma_index_in_range(playfield.width as int, playfield.height as int, self.x as int, self.y as int);
        }
        playfield.despawn(self.x, self.y);
        playfield.spawn(share(&self.element), self.x, self.y);
        proof {
            let i = old(playfield).index(self@.x as int, self@.y as int);
            assert(playfield.shape() =~= s0.update(i, Some((self@.element, old(playfield).spec_next_id()))));
        }
    }

    /// Moves this particle to `(x, y)`: its cell is cleared if it still holds
    /// this particle, and a fresh particle of its element is placed at `(x, y)`.
    /// Returns whether `(x, y)` was occupied.
    pub(crate) fn move_to(&self, x: usize, y: usize, playfield: &mut Playfield<E>) -> (r: bool)
        requires
            old(playfield).wf(),
            self@.x < old(playfield).spec_width(),
            self@.y < old(playfield).spec_height(),
            x < old(playfield).spec_width(),
            y < old(playfield).spec_height(),
        ensures
            final(playfield).wf(),
            final(playfield).same_size(*old(playfield)),
            (final(playfield).shape(), final(playfield).spec_next_id()) == relocated(
                old(playfield).shape(),
                old(playfield).spec_next_id(),
                old(playfield).index(self@.x as int, self@.y as int),
                self@.id,
                self@.element,
                old(playfield).index(x as int, y as int),
            ),
            r == cleared(
                old(playfield).shape(),
                old(playfield).index(self@.x as int, self@.y as int),
                self@.id,
            )[old(playfield).index(x as int, y as int)] is Some,
    {
        let here = match playfield.get(self.x, self.y) {
            Some(q) => q.id == self.id,
            None => false,
        };
        proof {
            lemma_index_in_range(playfield.width as int, playfield.height as int, self.x as int, self.y as int);
            lemma_index_in_range(playfield.width as int, playfield.height as int, x as int, y as int);
        }
        if here {
            playfield.despawn(self.x, self.y);
        }
        playfield.spawn(share(&self.element), x, y)
    }

    /// Exchanges the cells of this particle and `other`, placing fresh
    /// particles of their elements.
    pub(crate) fn swap_with(&self, other: &Particle<E>, playfield: &mut Playfield<E>)
        requires
            old(playfield).wf(),
            self@.x < old(playfield).spec_width(),
            self@.y < old(playfield).spec_height(),
            other@.x < old(playfield).spec_width(),
            other@.y < old(playfield).spec_height(),
        ensures
            final(playfield).wf(),
            final(playfield).same_size(*old(playfield)),
            ({
                let here = old(playfield).index(self@.x as int, self@.y as int);
                let there = old(playfield).index(other@.x as int, other@.y as int);
                let next = old(playfield).spec_next_id();
                final(playfield).shape() == old(playfield).shape().update(here, None).update(
                    there,
                    None,
                ).update(there, Some((self@.element, next))).update(
                    here,
                    Some((other@.element, next_identity(next))),
                )
            }),
            final(playfield).spec_next_id() == next_identity(
                next_identity(old(playfield).spec_next_id()),
            ),
    {
        playfield.despawn(self.x, self.y);
        playfield.despawn(other.x, other.y);
        playfield.spawn(share(&self.element), other.x, other.y);
        playfield.spawn(share(&other.element), self.x, self.y);
    }
}

/// The shape of a grid: for each cell, the element and identity of its
/// occupant, if any.
pub open spec fn shape_of<E>(cells: Seq<Option<ParticleModel<E>>>) -> Seq<Option<(E, u64)>> {
    cells.map_values(
        |c: Option<ParticleModel<E>>|
            match c {
                Some(p) => Some((p.element, p.id)),
                None => None,
            },
    )
}

/// The shape `s` with the cell `from` cleared if it holds identity `id`.
pub open spec fn cleared<E>(s: Seq<Option<(E, u64)>>, from: int, id: u64) -> Seq<Option<(E, u64)>> {
    if s[from] matches Some(c) && c.1 == id {
        s.update(from, None)
    } else {
        s
    }
}

/// The shape after a relocation: the cell `from` is cleared if it holds
/// identity `id`, then a fresh particle of `e` takes the cell `to`.
pub open spec fn relocated<E>(
    s: Seq<Option<(E, u64)>>,
    next: u64,
    from: int,
    id: u64,
    e: E,
    to: int,
) -> (Seq<Option<(E, u64)>>, u64) {
    (cleared(s, from, id).update(to, Some((e, next))), next_identity(next))
}

/// A `height` by `width` grid where each cell is empty or holds one particle.
#[derive(Clone)]
pub struct Playfield<E> {
    height: u32,
    width: u32,
    data: Vec<Option<Particle<E>>>,
    next_id: u64,
    /// Whether the identity counter has wrapped around.
    wrapped: Ghost<bool>,
}

/// Row-major positions of in-grid cells fall within the grid.
pub proof fn lemma_index_in_range(w: int, h: int, x: int, y: int)
    requires
        0 <= x < w,
        0 <= y < h,
    ensures
        0 <= y * w + x < w * h,
{
    assert(y * w + x < w * h) by (nonlinear_arith)
        requires
            0 <= x < w,
            0 <= y < h,
    ;
    assert(0 <= y * w) by (nonlinear_arith)
        requires
            0 <= x < w,
            0 <= y < h,
    ;
}

/// Row-major positions of in-grid cells are distinct.
pub proof fn lemma_index_unique(w: int, x1: int, y1: int, x2: int, y2: int)
    requires
        0 <= x1 < w,
        0 <= x2 < w,
        0 <= y1,
        0 <= y2,
        y1 * w + x1 == y2 * w + x2,
    ensures
        x1 == x2,
        y1 == y2,
{
    if y1 < y2 {
        assert(y1 * w + w <= y2 * w) by (nonlinear_arith)
            requires
                y1 < y2,
                0 <= w,
        ;
    } else if y2 < y1 {
        assert(y2 * w + w <= y1 * w) by (nonlinear_arith)
            requires
                y2 < y1,
                0 <= w,
        ;
    }
}

impl<E> Playfield<E> {
    pub closed spec fn spec_height(&self) -> u32 {
        self.height
    }

    pub closed spec fn spec_width(&self) -> u32 {
        self.width
    }

    /// Every occupant's identity is below the next one: the identity counter
    /// has not wrapped around.
    pub closed spec fn ids_fresh(&self) -> bool {
        !self.wrapped@
    }

    /// The identity the next placed particle receives.
    pub closed spec fn spec_next_id(&self) -> u64 {
        self.next_id
    }

    /// The cells, row-major.
    pub closed spec fn cells(&self) -> Seq<Option<ParticleModel<E>>> {
        self.data@.map_values(|c: Option<Particle<E>>| match c {
            Some(p) => Some(p@),
            None => None,
        })
    }

    pub open spec fn shape(&self) -> Seq<Option<(E, u64)>> {
        shape_of(self.cells())
    }

    /// The position of cell `(x, y)` in the row-major order.
    pub open spec fn index(&self, x: int, y: int) -> int {
        y * self.spec_width() + x
    }

    pub open spec fn in_bounds(&self, x: int, y: int) -> bool {
        0 <= x < self.spec_width() && 0 <= y < self.spec_height()
    }

    /// The occupant of `(x, y)`; none outside the grid.
    pub open spec fn cell(&self, x: int, y: int) -> Option<ParticleModel<E>> {
        if self.in_bounds(x, y) {
            self.cells()[self.index(x, y)]
        } else {
            None
        }
    }

    pub open spec fn same_size(&self, other: Playfield<E>) -> bool {
        self.spec_height() == other.spec_height() && self.spec_width() == other.spec_width()
    }

    pub open spec fn is_empty(&self) -> bool {
        forall|i: int| 0 <= i < self.cells().len() ==> #[trigger] self.cells()[i] is None
    }

    /// The grid is `width * height` cells, small enough that its pixel
    /// buffer fits in memory, and each occupant holds its own coordinates.
    pub closed spec fn wf(&self) -> bool {
        &&& !self.wrapped@ ==> forall|i: int|
            0 <= i < self.data.len() ==> (#[trigger] self.data@[i] matches Some(p) ==> p.id
                < self.next_id)
        &&& self.data.len() == self.width * self.height
        &&& (self.width as int) * (self.height as int) * 4 <= usize::MAX
        &&& forall|i: int|
            0 <= i < self.data.len() ==> (#[trigger] self.data@[i] matches Some(p) ==> {
                &&& p.x < self.width
                &&& p.y < self.height
                &&& p.y * self.width + p.x == i
            })
    }

    /// The RGBA bytes of the grid, row-major: an occupant's color, or
    /// transparent black for an empty cell.
    pub open spec fn pixel_bytes(&self) -> Seq<u8> {
        Seq::new(
            (self.cells().len() * 4) as nat,
            |j: int|
                match self.cells()[j / 4] {
                    Some(p) => p.color[j % 4],
                    None => 0u8,
                },
        )
    }

    pub proof fn lemma_wf(&self)
        requires
            self.wf(),
        ensures
            self.cells().len() == self.spec_width() * self.spec_height(),
            (self.spec_width() as int) * (self.spec_height() as int) * 4 <= usize::MAX,
            forall|i: int|
                0 <= i < self.cells().len() ==> (#[trigger] self.cells()[i] matches Some(p) ==> {
                    &&& p.x < self.spec_width()
                    &&& p.y < self.spec_height()
                    &&& self.index(p.x as int, p.y as int) == i
                }),
            self.ids_fresh() ==> forall|i: int|
                0 <= i < self.cells().len() ==> (#[trigger] self.cells()[i] matches Some(p) ==> p.id
                    < self.spec_next_id()),
    {
    }
}

impl<E: Material> Playfield<E> {
    /// An empty grid of `height` rows and `width` columns.
    pub fn new(height: u32, width: u32) -> (r: Playfield<E>)
        requires
            (width as int) * (height as int) * 4 <= usize::MAX,
        ensures
            r.wf(),
            r.spec_height() == height,
            r.spec_width() == width,
            r.spec_next_id() == 0,
            r.ids_fresh(),
            r.cells().len() == width * height,
            r.is_empty(),
    {
        let n: usize = (width as usize) * (height as usize);
        let mut data: Vec<Option<Particle<E>>> = Vec::new();
        let mut i: usize = 0;
        while i < n
            invariant
                i <= n,
                data.len() == i,
                forall|j: int| 0 <= j < i ==> (#[trigger] data@[j]) is None,
            decreases n - i,
        {
            data.push(None);
            i = i + 1;
        }
        let r = Playfield { height, width, data, next_id: 0, wrapped: Ghost(false) };
        r
    }

    pub fn height(&self) -> (r: u32)
        ensures
            r == self.spec_height(),
    {
        self.height
    }

    pub fn width(&self) -> (r: u32)
        ensures
            r == self.spec_width(),
    {
        self.width
    }

    /// The occupant of `(x, y)`, or none when the cell is empty or outside the grid.
    pub fn get(&self, x: usize, y: usize) -> (r: Option<&Particle<E>>)
        requires
            self.wf(),
        ensures
            match r {
                Some(q) => self.cell(x as int, y as int) == Some(q@) && q@.x == x && q@.y == y,
                None => self.cell(x as int, y as int) is None,
            },
    {
        if x >= self.width as usize || y >= self.height as usize {
            return None;
        }
        proof {
            lemma_index_in_range(self.width as int, self.height as int, x as int, y as int);
        }
        let i = y * (self.width as usize) + x;
        match &self.data[i] {
            Some(p) => {
                proof {
                    assert(self.data@[i as int] matches Some(q) && q.y * self.width + q.x == i);
                    lemma_index_unique(self.width as int, p.x as int, p.y as int, x as int, y as int);
                }
                Some(p)
            },
            None => None,
        }
    }

    /// The occupant of `(x, y)` for in-place access, or none when the cell is
    /// empty or outside the grid.
    pub fn get_mut(&mut self, x: usize, y: usize) -> (r: Option<&mut Particle<E>>)
        requires
            old(self).wf(),
        ensures
            r is Some ==> old(self).cell(x as int, y as int) == Some((*r.unwrap())@),
            r is Some ==> (*r.unwrap())@.x == x && (*r.unwrap())@.y == y,
            r is None ==> old(self).cell(x as int, y as int) is None,
    {
        if x >= self.width as usize || y >= self.height as usize {
            return None;
        }
        proof {
            lemma_index_in_range(self.width as int, self.height as int, x as int, y as int);
            assert(self.data@[(y * self.width + x) as int] matches Some(q) ==> q.y * self.width + q.x == y * self.width + x);
        }
        let i = y * (self.width as usize) + x;
        let ghost before = self.data@[i as int];
        proof {
            if before is Some {
                lemma_index_unique(self.width as int, before.unwrap().x as int, before.unwrap().y as int, x as int, y as int);
            }
        }
        proof {
            assert(old(self).cells()[i as int] == match before {
                Some(p) => Some(p@),
                None => None,
            });
        }
        let r = self.data[i].as_mut();
        proof {
            if before is Some {
                assert(*r.unwrap() == before.unwrap());
            }
        }
        r
    }

    /// Places a fresh particle of `element` at `(x, y)`, replacing any occupant.
    /// Returns whether the cell was occupied.
    pub fn spawn(&mut self, element: Arc<E>, x: usize, y: usize) -> (r: bool)
        requires
            old(self).wf(),
            x < old(self).spec_width(),
            y < old(self).spec_height(),
        ensures
            final(self).wf(),
            final(self).same_size(*old(self)),
            r == old(self).cell(x as int, y as int) is Some,
            final(self).spec_next_id() == next_identity(old(self).spec_next_id()),
            final(self).ids_fresh() == (old(self).ids_fresh() && old(self).spec_next_id() < u64::MAX),
            ({
                let i = old(self).index(x as int, y as int);
                &&& final(self).cells() == old(self).cells().update(i, final(self).cells()[i])
                &&& final(self).cells()[i] matches Some(p) && p.element == *element && p.id
                    == old(self).spec_next_id() && p.x == x && p.y == y && element.is_color(p.color)
            }),
            final(self).shape() == old(self).shape().update(
                old(self).index(x as int, y as int),
                Some((*element, old(self).spec_next_id())),
            ),
    {
        proof {
            lemma_index_in_range(self.width as int, self.height as int, x as int, y as int);
        }
        let i = y * (self.width as usize) + x;
        let exists = self.data[i].is_some();
        let id = self.next_id;
        self.next_id = self.next_id.wrapping_add(1);
        let ghost wrapped = self.wrapped@ || id == u64::MAX;
        self.wrapped = Ghost(wrapped);
        let p = Particle::new(element, id, x, y);
        self.data.set(i, Some(p));
        proof {
            assert(self.cells() =~= old(self).cells().update(i as int, self.cells()[i as int]));
            assert(self.shape() =~= old(self).shape().update(i as int, Some((p@.element, id))));
        }
        exists
    }

    /// Clears the cell `(x, y)`.
    pub fn despawn(&mut self, x: usize, y: usize)
        requires
            old(self).wf(),
            x < old(self).spec_width(),
            y < old(self).spec_height(),
        ensures
            final(self).wf(),
            final(self).same_size(*old(self)),
            final(self).spec_next_id() == old(self).spec_next_id(),
            final(self).ids_fresh() == old(self).ids_fresh(),
            final(self).cells() == old(self).cells().update(old(self).index(x as int, y as int), None),
            final(self).shape() == old(self).shape().update(old(self).index(x as int, y as int), None),
    {
        proof {
            lemma_index_in_range(self.width as int, self.height as int, x as int, y as int);
        }
        let i = y * (self.width as usize) + x;
        self.data.set(i, None);
        proof {
            assert(self.cells() =~= old(self).cells().update(i as int, None));
            assert(self.shape() =~= old(self).shape().update(i as int, None));
        }
    }

    /// For each cell, row-major, whether it is occupied.
    pub fn occupancy(&self) -> (r: Vec<bool>)
        requires
            self.wf(),
        ensures
            r@.len() == self.cells().len(),
            forall|i: int| 0 <= i < r@.len() ==> #[trigger] r@[i] == self.cells()[i] is Some,
    {
        let n: usize = self.data.len();
        let mut r: Vec<bool> = Vec::new();
        let mut i: usize = 0;
        while i < n
            invariant
                n == self.data@.len(),
                i <= n,
                r@.len() == i,
                forall|j: int| 0 <= j < i ==> #[trigger] r@[j] == self.cells()[j] is Some,
            decreases n - i,
        {
            r.push(self.data[i].is_some());
            i = i + 1;
        }
        r
    }

    /// The grid as RGBA bytes, row-major (see `pixel_bytes`).
    pub fn pixels(&self) -> (r: Vec<u8>)
        requires
            self.wf(),
        ensures
            r@ == self.pixel_bytes(),
            r@.len() == 4 * (self.spec_width() as int) * (self.spec_height() as int),
    {
        let n: usize = self.data.len();
        let mut buf: Vec<u8> = Vec::new();
        let mut i: usize = 0;
        while i < n
            invariant
                self.wf(),
                n == self.data@.len(),
                i <= n,
                buf@.len() == 4 * i,
                forall|j: int| 0 <= j < 4 * i ==> #[trigger] buf@[j] == self.pixel_bytes()[j],
            decreases n - i,
        {
            let c: [u8; 4] = match &self.data[i] {
                Some(p) => p.color,
                None => [0u8, 0u8, 0u8, 0u8],
            };
            let mut m: usize = 0;
            while m < 4
                invariant
                    self.wf(),
                    n == self.data@.len(),
                    i < n,
                    m <= 4,
                    buf@.len() == 4 * i + m,
                    forall|j: int| 0 <= j < 4 * i + m ==> #[trigger] buf@[j] == self.pixel_bytes()[j],
                    c == match self.cells()[i as int] {
                        Some(p) => p.color,
                        None => [0u8, 0u8, 0u8, 0u8],
                    },
                decreases 4 - m,
            {
                proof {
                    lemma_fundamental_div_mod_converse(4 * i + m, 4, i as int, m as int);
                }
                buf.push(c[m]);
                m = m + 1;
            }
            i = i + 1;
        }
        proof {
            assert(buf@ =~= self.pixel_bytes());
            let w = self.width as int;
            let h = self.height as int;
            assert(4 * (w * h) == 4 * w * h) by (nonlinear_arith);
        }
        buf
    }

    /// The grid as an RGBA image of `width` by `height` pixels (see `pixel_bytes`).
    pub fn as_image(&self) -> (r: GridImage)
        requires
            self.wf(),
        ensures
            rgba_image_raw(r) == self.pixel_bytes(),
            rgba_image_width(r) == self.spec_width(),
            rgba_image_height(r) == self.spec_height(),
    {
        let buf = self.pixels();
        rgba_image_from_vec(self.width, self.height, buf).unwrap()
    }
}

/// An empty grid exports as transparent black, four bytes per cell.
pub proof fn lemma_empty_image<E>(f: Playfield<E>)
    requires
        f.wf(),
        f.is_empty(),
    ensures
        f.pixel_bytes().len() == 4 * (f.spec_width() as int) * (f.spec_height() as int),
        forall|j: int| 0 <= j < f.pixel_bytes().len() ==> #[trigger] f.pixel_bytes()[j] == 0,
{
    let w = f.spec_width() as int;
    let h = f.spec_height() as int;
    assert(4 * (w * h) == 4 * w * h) by (nonlinear_arith);
    assert forall|j: int| 0 <= j < f.pixel_bytes().len() implies #[trigger] f.pixel_bytes()[j] == 0 by {
        assert(0 <= j / 4 < f.cells().len());
        assert(f.cells()[j / 4] is None);
    }
}

/// Placing a particle in cell `i` changes the export in that cell's four
/// bytes alone, which then hold the particle's color.
pub proof fn lemma_spawn_pixels<E>(before: Playfield<E>, after: Playfield<E>, i: int)
    requires
        0 <= i < before.cells().len(),
        after.cells() == before.cells().update(i, after.cells()[i]),
        after.cells()[i] is Some,
    ensures
        after.pixel_bytes().len() == before.pixel_bytes().len(),
        forall|j: int|
            0 <= j < after.pixel_bytes().len() ==> #[trigger] after.pixel_bytes()[j] == if j / 4 == i {
                after.cells()[i].unwrap().color[j % 4]
            } else {
                before.pixel_bytes()[j]
            },
{
    assert forall|j: int| 0 <= j < after.pixel_bytes().len() implies #[trigger] after.pixel_bytes()[j]
        == if j / 4 == i {
        after.cells()[i].unwrap().color[j % 4]
    } else {
        before.pixel_bytes()[j]
    } by {
        assert(0 <= j / 4 < after.cells().len());
    }
}

} // verus!
