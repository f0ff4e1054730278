//! The per-tick driver.
use vstd::arithmetic::div_mod::lemma_fundamental_div_mod;
use vstd::prelude::*;

use crate::element::Element;
use crate::playfield::ParticleModel;
use crate::outside::share;
use crate::playfield::{lemma_index_in_range, lemma_index_unique, next_identity, Playfield};
use crate::util::{lemma_blocked_first_point, lemma_bottom_row_stays, lemma_denser_sinks, walk};

verus! {

/// A simulation: one playfield, advanced a tick at a time.
#[derive(Clone)]
pub struct Simulation<E> {
    playfield: Playfield<E>,
}

impl<E> Simulation<E> {
    pub closed spec fn spec_playfield(&self) -> Playfield<E> {
        self.playfield
    }
}

/// The row-major index of the cell visited `k`-th in a tick over `n` cells:
/// the last cell first, so rows from the bottom up and, within a row, columns
/// from right to left.
pub open spec fn visited(n: int, k: int) -> int {
    n - 1 - k
}

/// One visit of a tick that started from `start`: the cell `i` is dispatched
/// when it was occupied at the start of the tick and still is; its occupant's
/// element then relates `before` to `after`. Otherwise nothing changes.
pub open spec fn visit<E: Element>(start: Playfield<E>, i: int, before: Playfield<E>, after: Playfield<E>) -> bool {
    if start.cells()[i] is Some && before.cells()[i] is Some {
        let q = before.cells()[i].unwrap();
        &&& q.element.step_relation(q, before, after)
        &&& after.wf()
        &&& after.same_size(before)
    } else {
        after == before
    }
}

/// `trace` is the succession of grids of a tick from `start`: one visit per
/// cell, in the order of `visited`.
pub open spec fn is_tick<E: Element>(start: Playfield<E>, trace: Seq<Playfield<E>>) -> bool {
    let n = start.cells().len() as int;
    &&& trace.len() == n + 1
    &&& trace[0] == start
    &&& forall|k: int|
        0 <= k < n ==> #[trigger] visit(start, visited(n, k), trace[k], trace[k + 1])
}

impl<E: Element> Simulation<E> {
    /// A simulation over an empty grid of `height` rows and `width` columns.
    pub fn new(height: u32, width: u32) -> (r: Simulation<E>)
        requires
            (width as int) * (height as int) * 4 <= usize::MAX,
        ensures
            r.spec_playfield().wf(),
            r.spec_playfield().spec_height() == height,
            r.spec_playfield().spec_width() == width,
            r.spec_playfield().spec_next_id() == 0,
            r.spec_playfield().is_empty(),
    {
        Simulation { playfield: Playfield::new(height, width) }
    }

    pub fn get_playfield(&self) -> (r: &Playfield<E>)
        ensures
            *r == self.spec_playfield(),
    {
        &self.playfield
    }

    pub fn get_playfield_mut(&mut self) -> (r: &mut Playfield<E>)
        ensures
            *r == old(self).spec_playfield(),
            final(self).spec_playfield() == *final(r),
    {
        &mut self.playfield
    }

    /// Advances the simulation by one tick. Cells are visited bottom row
    /// first and, within a row, rightmost column first, so that a particle
    /// that falls is not visited again in the same tick. A cell is dispatched
    /// only if it was occupied when the tick began and still is: its element
    /// steps a snapshot of the present occupant.
    pub fn step(&mut self)
        requires
            old(self).spec_playfield().wf(),
        ensures
            final(self).spec_playfield().wf(),
            final(self).spec_playfield().same_size(old(self).spec_playfield()),
            exists|trace: Seq<Playfield<E>>|
                is_tick(old(self).spec_playfield(), trace) && trace.last()
                    == final(self).spec_playfield(),
            old(self).spec_playfield().is_empty() ==> *final(self) == *old(self),
    {
        let ghost start = self.playfield;
        proof {
            self.playfield.lemma_wf();
        }
        let h = self.playfield.height() as usize;
        let w = self.playfield.width() as usize;
        let at_start = self.playfield.occupancy();
        let n: usize = at_start.len();
        let ghost mut trace: Seq<Playfield<E>> = seq![start];
        let mut k: usize = 0;
        while k < n
            invariant
                self.playfield.wf(),
                self.playfield.same_size(start),
                h == start.spec_height(),
                w == start.spec_width(),
                n == start.cells().len(),
                n == w * h,
                at_start@.len() == n,
                forall|i: int| 0 <= i < n ==> #[trigger] at_start@[i] == start.cells()[i] is Some,
                k <= n,
                trace.len() == k + 1,
                trace[0] == start,
                trace[k as int] == self.playfield,
                forall|j: int|
                    0 <= j < k ==> #[trigger] visit(start, visited(n as int, j), trace[j], trace[j + 1]),
                start.is_empty() ==> self.playfield == start,
            decreases n - k,
        {
            assert(w > 0) by (nonlinear_arith)
                requires
                    n == w * h,
                    k < n,
            ;
            let i = n - 1 - k;
            let row = i / w;
            let col = i % w;
            proof {
                lemma_fundamental_div_mod(i as int, w as int);
                assert(row < h) by (nonlinear_arith)
                    requires
                        i < w * h,
                        i == w * row + col,
                        0 <= col,
                        w > 0,
                ;
                assert(self.playfield.index(col as int, row as int) == i) by (nonlinear_arith)
                    requires
                        i == w * row + col,
                        self.playfield.index(col as int, row as int) == row * w + col,
                ;
                self.playfield.lemma_wf();
            }
            let ghost before = self.playfield;
            if at_start[i] {
                let cell = self.playfield.get(col, row);
                match cell {
                    Some(q) => {
                        let mut snap = q.snapshot();
                        let e = share(snap.element());
                        e.step(&mut snap, &mut self.playfield);
                    },
                    None => {},
                }
            }
            proof {
                trace = trace.push(self.playfield);
                assert(visit(start, visited(n as int, k as int), trace[k as int], trace[k + 1]));
            }
            k = k + 1;
        }
        proof {
            assert(is_tick(start, trace));
            assert(trace.last() == self.playfield);
        }
    }
}

/// Each step of element `e` tries the cell right below its particle, and
/// nothing else.
pub open spec fn moves_straight_down<E: Element>(e: E) -> bool {
    forall|p: ParticleModel<E>, before: Playfield<E>, after: Playfield<E>|
        #[trigger] e.step_relation(p, before, after) ==> {
            let o = walk(
                before.shape(),
                before.spec_next_id(),
                before.spec_width() as int,
                before.spec_height() as int,
                p,
                seq![(p.x as int, p.y + 1)],
                0,
                (p.x as int, p.y as int),
            );
            after.shape() == o.1 && after.spec_next_id() == o.2
        }
}

/// Element `e` never moves: its steps leave the grid's shape and next
/// identity as they were.
pub open spec fn stays_put<E: Element>(e: E) -> bool {
    forall|p: ParticleModel<E>, before: Playfield<E>, after: Playfield<E>|
        #[trigger] e.step_relation(p, before, after) ==> after.shape() == before.shape()
            && after.spec_next_id() == before.spec_next_id()
}

proof fn lemma_stacked_trace<E: Element>(start: Playfield<E>, trace: Seq<Playfield<E>>, ia: int, ib: int, k: int)
    requires
        start.wf(),
        start.ids_fresh(),
        is_tick(start, trace),
        0 <= ia < start.cells().len(),
        ib == ia + start.spec_width(),
        ib < start.cells().len(),
        start.cells()[ia] is Some,
        start.cells()[ib] is Some,
        forall|i: int|
            0 <= i < start.cells().len() && i != ia && i != ib ==> #[trigger] start.cells()[i] is None,
        start.cells()[ia].unwrap().element.spec_density() > start.cells()[ib].unwrap().element.spec_density(),
        moves_straight_down(start.cells()[ia].unwrap().element),
        start.cells()[ib].unwrap().y == start.spec_height() - 1 && moves_straight_down(
            start.cells()[ib].unwrap().element,
        ) || stays_put(start.cells()[ib].unwrap().element),
        0 <= k <= start.cells().len(),
    ensures
        trace[k].wf(),
        trace[k].same_size(start),
        k <= start.cells().len() - 1 - ia ==> trace[k].shape() == start.shape() && trace[k].spec_next_id()
            == start.spec_next_id(),
        k > start.cells().len() - 1 - ia ==> {
            let a = start.cells()[ia].unwrap();
            let b = start.cells()[ib].unwrap();
            let next = start.spec_next_id();
            &&& trace[k].shape() == start.shape().update(ia, Some((b.element, next))).update(
                ib,
                Some((a.element, next_identity(next))),
            )
            &&& trace[k].spec_next_id() == next_identity(next_identity(next))
        },
    decreases k,
{
    if k > 0 {
        lemma_stacked_trace(start, trace, ia, ib, k - 1);
        let n = start.cells().len() as int;
        let i = visited(n, k - 1);
        let before = trace[k - 1];
        let after = trace[k];
        let w = start.spec_width() as int;
        let h = start.spec_height() as int;
        assert(visit(start, visited(n, k - 1), trace[k - 1], trace[(k - 1) + 1]));
        assert(visit(start, i, before, after));
        before.lemma_wf();
        start.lemma_wf();
        if i == ia || i == ib {
            assert(before.shape()[i] == start.shape()[i]);
            assert(before.cells()[i] is Some);
        }
        if start.cells()[i] is Some && before.cells()[i] is Some {
            let q = before.cells()[i].unwrap();
            before.lemma_wf();
            start.lemma_wf();
            assert(before.shape()[i] == start.shape()[i]);
            let orig = start.cells()[i].unwrap();
            lemma_index_unique(w, q.x as int, q.y as int, orig.x as int, orig.y as int);
            assert(q.element.step_relation(q, before, after));
            if i == ib {
                if !stays_put(q.element) {
                    lemma_bottom_row_stays(before.shape(), before.spec_next_id(), w, h, q, 0);
                }
                assert(after.shape() == before.shape());
            } else {
                let b = start.cells()[ib].unwrap();
                assert(i == ia);
                assert((q.y + 1) * w + q.x == ia + w) by (nonlinear_arith)
                    requires
                        q.y * w + q.x == ia,
                ;
                assert(before.shape()[ib] == Some((b.element, b.id)));
                assert(q.y * w + q.x == ia);
                assert(q.y + 1 < h) by (nonlinear_arith)
                    requires
                        (q.y + 1) * w + q.x == ib,
                        ib < w * h,
                        0 <= q.x,
                        0 < w,
                ;
                lemma_denser_sinks(before.shape(), before.spec_next_id(), w, h, q, (b.element, b.id));
                let next = start.spec_next_id();
                assert(after.shape() == before.shape().update(ia, Some((b.element, next))).update(
                    ib,
                    Some((q.element, next_identity(next))),
                ));
                assert(after.spec_next_id() == next_identity(next_identity(next)));
                assert(k - 1 == n - 1 - ia);
            }
        }
    }
}

/// Of two particles stacked alone in a column, the upper one of an element
/// that tries the cell right below and the lower one either of such an element
/// on the bottom row or of an element that never moves, the denser upper one
/// ends below after one tick: each gets a fresh identity, the lighter one
/// first.
pub proof fn lemma_denser_above_sinks<E: Element>(start: Playfield<E>, trace: Seq<Playfield<E>>, ia: int, ib: int)
    requires
        start.wf(),
        start.ids_fresh(),
        is_tick(start, trace),
        0 <= ia < start.cells().len(),
        ib == ia + start.spec_width(),
        ib < start.cells().len(),
        start.cells()[ia] is Some,
        start.cells()[ib] is Some,
        forall|i: int|
            0 <= i < start.cells().len() && i != ia && i != ib ==> #[trigger] start.cells()[i] is None,
        start.cells()[ia].unwrap().element.spec_density() > start.cells()[ib].unwrap().element.spec_density(),
        moves_straight_down(start.cells()[ia].unwrap().element),
        start.cells()[ib].unwrap().y == start.spec_height() - 1 && moves_straight_down(
            start.cells()[ib].unwrap().element,
        ) || stays_put(start.cells()[ib].unwrap().element),
    ensures
        ({
            let a = start.cells()[ia].unwrap();
            let b = start.cells()[ib].unwrap();
            let next = start.spec_next_id();
            trace.last().shape() == start.shape().update(ia, Some((b.element, next))).update(
                ib,
                Some((a.element, next_identity(next))),
            )
        }),
{
    lemma_stacked_trace(start, trace, ia, ib, start.cells().len() as int);
}

proof fn lemma_settled_trace<E: Element>(start: Playfield<E>, trace: Seq<Playfield<E>>, ia: int, ib: int, k: int)
    requires
        start.wf(),
        is_tick(start, trace),
        0 <= ia < start.cells().len(),
        ib == ia + start.spec_width(),
        ib < start.cells().len(),
        start.cells()[ia] is Some,
        start.cells()[ib] is Some,
        start.cells()[ib].unwrap().y == start.spec_height() - 1,
        forall|i: int|
            0 <= i < start.cells().len() && i != ia && i != ib ==> #[trigger] start.cells()[i] is None,
        start.cells()[ia].unwrap().element.spec_density() <= start.cells()[ib].unwrap().element.spec_density(),
        moves_straight_down(start.cells()[ia].unwrap().element),
        moves_straight_down(start.cells()[ib].unwrap().element),
        0 <= k <= start.cells().len(),
    ensures
        trace[k].wf(),
        trace[k].same_size(start),
        trace[k].shape() == start.shape(),
        trace[k].spec_next_id() == start.spec_next_id(),
    decreases k,
{
    if k > 0 {
        lemma_settled_trace(start, trace, ia, ib, k - 1);
        let n = start.cells().len() as int;
        let i = visited(n, k - 1);
        let before = trace[k - 1];
        let after = trace[k];
        let w = start.spec_width() as int;
        let h = start.spec_height() as int;
        assert(visit(start, visited(n, k - 1), trace[k - 1], trace[(k - 1) + 1]));
        assert(visit(start, i, before, after));
        before.lemma_wf();
        start.lemma_wf();
        if i == ia || i == ib {
            assert(before.shape()[i] == start.shape()[i]);
            assert(before.cells()[i] is Some);
        }
        if start.cells()[i] is Some && before.cells()[i] is Some {
            let q = before.cells()[i].unwrap();
            let orig = start.cells()[i].unwrap();
            lemma_index_unique(w, q.x as int, q.y as int, orig.x as int, orig.y as int);
            assert(q.element.step_relation(q, before, after));
            if i == ib {
                lemma_bottom_row_stays(before.shape(), before.spec_next_id(), w, h, q, 0);
            } else {
                assert(q.y * w + q.x == ia);
                assert((q.y + 1) * w + q.x == ia + w) by (nonlinear_arith)
                    requires
                        q.y * w + q.x == ia,
                ;
                assert(before.shape()[ib] == start.shape()[ib]);
                lemma_blocked_first_point(
                    before.shape(),
                    before.spec_next_id(),
                    w,
                    h,
                    q,
                    seq![(q.x as int, q.y + 1)],
                );
            }
        }
    }
}

/// Of two particles stacked alone on the bottom two rows, each of an element
/// that tries the cell right below, a lower one at least as dense keeps both
/// in place through a tick, identities included.
pub proof fn lemma_denser_below_stays<E: Element>(start: Playfield<E>, trace: Seq<Playfield<E>>, ia: int, ib: int)
    requires
        start.wf(),
        is_tick(start, trace),
        0 <= ia < start.cells().len(),
        ib == ia + start.spec_width(),
        ib < start.cells().len(),
        start.cells()[ia] is Some,
        start.cells()[ib] is Some,
        start.cells()[ib].unwrap().y == start.spec_height() - 1,
        forall|i: int|
            0 <= i < start.cells().len() && i != ia && i != ib ==> #[trigger] start.cells()[i] is None,
        start.cells()[ia].unwrap().element.spec_density() <= start.cells()[ib].unwrap().element.spec_density(),
        moves_straight_down(start.cells()[ia].unwrap().element),
        moves_straight_down(start.cells()[ib].unwrap().element),
    ensures
        trace.last().shape() == start.shape(),
        trace.last().spec_next_id() == start.spec_next_id(),
{
    lemma_settled_trace(start, trace, ia, ib, start.cells().len() as int);
}

} // verus!
