//! Escape-time classification of points, and the tables built from it.
use vstd::prelude::*;
use crate::float::{
    float_add, float_div, float_from_u64, float_gt, float_le, float_mul, float_sqrt, float_sub,
    difference, from_integer, gt, le, product, quotient, square_root, sum,
    FOUR, ONE, QUARTER, SIXTEENTH, TWO, ZERO,
};
use crate::grid::{lemma_cell_of_index, Grid};
use crate::pixelmapper::PixelMapper;
use crate::utils::{black, h_palette, pack_colour, packed, palette, Complex, Rgb};
use rayon::iter::{IndexedParallelIterator, ParallelIterator};
use rayon::slice::ParallelSliceMut;

verus! {

/// What a cell of an iteration grid holds for a point that is taken to be
/// bounded: the largest 16-bit value.
pub const SENTINEL: u16 = 0xffff;

/// Where one step of the iteration lands.
#[derive(Clone, Copy, Debug, PartialEq, Eq)]
pub enum Landing {
    /// Within fuzzy equality of the reference point: the orbit repeats.
    Periodic,
    /// Outside the circle of radius 2.
    Outside,
    /// Neither: the iteration goes on.
    Inside,
}

/// Where a step lands that reaches `z` with squared magnitude `size`, its
/// reference point being `reference`. Periodicity is tested first.
pub open spec fn landing(z: Complex, reference: Complex, size: u32) -> Landing {
    if z.spec_fuzzy_eq(reference) {
        Landing::Periodic
    } else if gt(size, FOUR) {
        Landing::Outside
    } else {
        Landing::Inside
    }
}

/// Judges one step of the iteration from the point it reached, the squared
/// magnitude of that point and the reference point.
pub fn judge(z: Complex, reference: Complex, size: u32) -> (r: Landing)
    ensures
        r == landing(z, reference, size),
{
    if z.fuzzy_eq(reference) {
        Landing::Periodic
    } else if float_gt(size, FOUR) {
        Landing::Outside
    } else {
        Landing::Inside
    }
}

/// The point lies in the main cardioid: `real <= p - 2p^2 + 1/4`, where `p`
/// is its distance from 1/4.
pub open spec fn in_cardioid(c: Complex) -> bool {
    let shifted = difference(c.real, QUARTER);
    let p = square_root(sum(product(shifted, shifted), product(c.imag, c.imag)));
    le(c.real, sum(difference(p, product(TWO, product(p, p))), QUARTER))
}

/// The point lies in the period-2 bulb: within 1/4 of -1.
pub open spec fn in_bulb(c: Complex) -> bool {
    let shifted = sum(c.real, ONE);
    le(sum(product(shifted, shifted), product(c.imag, c.imag)), SIXTEENTH)
}

/// The point lies in one of the two regions that are known to be bounded
/// without iterating.
pub open spec fn excluded(c: Complex) -> bool {
    in_cardioid(c) || in_bulb(c)
}

/// The first of the steps `s..=budget` that lands outside, if none before it
/// is periodic. Steps are numbered from 1, and `land` says where each lands.
pub open spec fn first_escape(land: spec_fn(nat) -> Landing, s: nat, budget: nat) -> Option<nat>
    decreases budget + 1 - s,
{
    if s > budget {
        None
    } else {
        match land(s) {
            Landing::Periodic => None,
            Landing::Outside => Some(s),
            Landing::Inside => first_escape(land, s + 1, budget),
        }
    }
}

/// The first escape spelled out: it is at step `k` exactly if `k` lies
/// within the budget and lands outside and every step from `s` up to it
/// stays inside.
pub proof fn lemma_first_escape_characterised(
    land: spec_fn(nat) -> Landing,
    s: nat,
    budget: nat,
    k: nat,
)
    ensures
        first_escape(land, s, budget) == Some(k) <==> {
            &&& s <= k <= budget
            &&& land(k) == Landing::Outside
            &&& forall|j: nat| s <= j < k ==> #[trigger] land(j) == Landing::Inside
        },
    decreases budget + 1 - s,
{
    if s <= budget && land(s) == Landing::Inside {
        lemma_first_escape_characterised(land, s + 1, budget, k);
    }
}

/// An escape found under one budget is found at the same step under every
/// budget that reaches that step.
pub proof fn lemma_first_escape_keeps(
    land: spec_fn(nat) -> Landing,
    s: nat,
    budget: nat,
    other: nat,
    k: nat,
)
    requires
        first_escape(land, s, budget) == Some(k),
        other >= k,
    ensures
        first_escape(land, s, other) == Some(k),
{
    lemma_first_escape_characterised(land, s, budget, k);
    lemma_first_escape_characterised(land, s, other, k);
}

/// The first escape depends only on where the steps `s..=budget` land.
pub proof fn lemma_first_escape_depends_on_landings(
    land: spec_fn(nat) -> Landing,
    other: spec_fn(nat) -> Landing,
    s: nat,
    budget: nat,
)
    requires
        forall|j: nat| s <= j <= budget ==> #[trigger] land(j) == other(j),
    ensures
        first_escape(land, s, budget) == first_escape(other, s, budget),
    decreases budget + 1 - s,
{
    if s <= budget {
        lemma_first_escape_depends_on_landings(land, other, s + 1, budget);
    }
}

/// One step `z^2 + c`, with the square taken by `Complex::square`.
pub open spec fn step(z: Complex, c: Complex) -> Complex {
    z.spec_square().spec_add(c)
}

/// The point reached from `c` after `k` steps.
pub open spec fn orbit(c: Complex, k: nat) -> Complex
    decreases k,
{
    if k == 0 {
        c
    } else {
        step(orbit(c, (k - 1) as nat), c)
    }
}

/// The point that step `s` is compared with: the orbit as it was when the
/// last multiple of four steps had been taken before step `s`.
pub open spec fn reference(c: Complex, s: nat) -> Complex
    recommends
        s >= 1,
{
    orbit(c, ((s - 1) - (s - 1) % 4) as nat)
}

/// Where step `s` lands.
pub open spec fn landing_at(c: Complex, s: nat) -> Landing {
    let z = orbit(c, s);
    landing(z, reference(c, s), z.spec_magnitude_squared())
}

/// Where each step of the direct evaluator lands.
pub open spec fn landings(c: Complex) -> spec_fn(nat) -> Landing {
    |s: nat| landing_at(c, s)
}

/// The number, counted from 1, of the step at which `c` escapes when at most
/// `budget` steps are taken; `None` where `c` is taken to be bounded: it
/// lies in the cardioid or the bulb, a step comes back to its reference
/// point before any step lands outside, or the budget runs out.
pub open spec fn escape_step(c: Complex, budget: nat) -> Option<nat> {
    if excluded(c) {
        None
    } else {
        first_escape(landings(c), 1, budget)
    }
}

/// One step `z^2 + c` as the optimised evaluator takes it: the imaginary part
/// is `(x + x) * y + c.imag` and the real part `x^2 - y^2 + c.real`.
pub open spec fn fast_step(z: Complex, c: Complex) -> Complex {
    Complex {
        real: sum(difference(product(z.real, z.real), product(z.imag, z.imag)), c.real),
        imag: sum(product(sum(z.real, z.real), z.imag), c.imag),
    }
}

/// The point reached from `c` after `k` optimised steps.
pub open spec fn fast_orbit(c: Complex, k: nat) -> Complex
    decreases k,
{
    if k == 0 {
        c
    } else {
        fast_step(fast_orbit(c, (k - 1) as nat), c)
    }
}

/// The point that the optimised step `s` is compared with: `c` itself during
/// the first three steps, afterwards the orbit as it was just before the
/// last step whose number was a multiple of four.
pub open spec fn fast_reference(c: Complex, s: nat) -> Complex {
    if s < 4 {
        c
    } else {
        fast_orbit(c, (s - s % 4 - 1) as nat)
    }
}

/// Where the optimised step `s` lands.
pub open spec fn fast_landing_at(c: Complex, s: nat) -> Landing {
    let z = fast_orbit(c, s);
    landing(z, fast_reference(c, s), z.spec_magnitude_squared())
}

/// Where each step of the optimised evaluator lands.
pub open spec fn fast_landings(c: Complex) -> spec_fn(nat) -> Landing {
    |s: nat| fast_landing_at(c, s)
}

/// The number, counted from 1, of the step at which the optimised evaluator
/// finds `c` to escape when at most `budget` steps are taken; `None` where
/// `c` is taken to be bounded.
pub open spec fn fast_escape_step(c: Complex, budget: nat) -> Option<nat> {
    if excluded(c) {
        None
    } else {
        first_escape(fast_landings(c), 1, budget)
    }
}

/// What the optimised evaluator returns: the escape step, which is at least
/// 1, or 0 for a point that is taken to be bounded.
pub open spec fn fast_count(c: Complex, budget: nat) -> nat {
    match fast_escape_step(c, budget) {
        Some(s) => s,
        None => 0,
    }
}

/// An escape step lies between 1 and the budget.
pub proof fn lemma_escape_step_in_range(c: Complex, budget: nat)
    ensures
        match escape_step(c, budget) {
            Some(s) => 1 <= s <= budget,
            None => true,
        },
        match fast_escape_step(c, budget) {
            Some(s) => 1 <= s <= budget,
            None => true,
        },
{
    if let Some(s) = escape_step(c, budget) {
        lemma_first_escape_characterised(landings(c), 1, budget, s);
    }
    if let Some(s) = fast_escape_step(c, budget) {
        lemma_first_escape_characterised(fast_landings(c), 1, budget, s);
    }
}

/// Escape is monotonic in the budget: a point that escapes at step `s` under
/// one budget escapes at step `s` under every budget of at least `s` steps.
pub proof fn lemma_escape_budget_monotonic(c: Complex, budget: nat, other: nat, s: nat)
    requires
        escape_step(c, budget) == Some(s),
        other >= s,
    ensures
        escape_step(c, other) == Some(s),
{
    lemma_first_escape_keeps(landings(c), 1, budget, other, s);
}

/// The optimised evaluator is monotonic in the budget in the same way.
pub proof fn lemma_fast_escape_budget_monotonic(c: Complex, budget: nat, other: nat, s: nat)
    requires
        fast_escape_step(c, budget) == Some(s),
        other >= s,
    ensures
        fast_escape_step(c, other) == Some(s),
        fast_count(c, other) == fast_count(c, budget),
{
    lemma_first_escape_keeps(fast_landings(c), 1, budget, other, s);
}

/// The two evaluators classify a point alike wherever every step within the
/// budget lands alike in both.
pub proof fn lemma_evaluators_agree_where_landings_agree(c: Complex, budget: nat)
    requires
        forall|s: nat| 1 <= s <= budget ==> landing_at(c, s) == #[trigger] fast_landing_at(c, s),
    ensures
        escape_step(c, budget) == fast_escape_step(c, budget),
{
    lemma_first_escape_depends_on_landings(landings(c), fast_landings(c), 1, budget);
}

fn iter(z: Complex, c: Complex) -> (r: Complex)
    ensures
        r == step(z, c),
{
    z.square().add(c)
}

/// Tests the two regions that need no iteration.
pub fn is_excluded(c: Complex) -> (r: bool)
    ensures
        r == excluded(c),
{
    let shifted = float_sub(c.real, QUARTER);
    let p = float_sqrt(float_add(float_mul(shifted, shifted), float_mul(c.imag, c.imag)));
    if float_le(c.real, float_add(float_sub(p, float_mul(TWO, float_mul(p, p))), QUARTER)) {
        return true;
    }
    let shifted = float_add(c.real, ONE);
    float_le(float_add(float_mul(shifted, shifted), float_mul(c.imag, c.imag)), SIXTEENTH)
}

/// Classifies `c` by iterating `z^2 + c` from `z = c` for at most `max_iter`
/// steps. `Some(s)` names the step, counted from 1, that first left the
/// circle of radius 2; `None` says that `c` is taken to be bounded: it lies
/// in the cardioid or the bulb, its orbit came back to a reference point, or
/// the budget ran out.
pub fn do_point(c: Complex, max_iter: usize) -> (r: Option<usize>)
    ensures
        match r {
            Some(s) => escape_step(c, max_iter as nat) == Some(s as nat) && 1 <= s <= max_iter,
            None => escape_step(c, max_iter as nat).is_none(),
        },
{
    if is_excluded(c) {
        return None;
    }
    let mut z = c;
    let mut old = z;
    let mut done: usize = 0;
    while done < max_iter
        invariant
            done <= max_iter,
            !excluded(c),
            z == orbit(c, done as nat),
            done > 0 ==> old == reference(c, done as nat),
            first_escape(landings(c), (done + 1) as nat, max_iter as nat) == escape_step(
                c,
                max_iter as nat,
            ),
        decreases max_iter - done,
    {
        if done % 4 == 0 {
            old = z;
        }
        z = iter(z, c);
        match judge(z, old, z.magnitude_squared()) {
            Landing::Periodic => {
                return None;
            },
            Landing::Outside => {
                return Some(done + 1);
            },
            Landing::Inside => {},
        }
        done += 1;
    }
    None
}

/// Classifies `c` as `do_point` does, on the parts of `z` and their squares
/// instead of complex values, and with the reference point taken just before
/// every step whose number is a multiple of four. The result is the number,
/// counted from 1, of the step that first left the circle of radius 2, and 0
/// for a point that is taken to be bounded.
pub fn do_point_optimised(c: Complex, max_iter: usize) -> (r: usize)
    ensures
        r == fast_count(c, max_iter as nat),
        r <= max_iter,
        r == 0 <==> fast_escape_step(c, max_iter as nat).is_none(),
{
    if is_excluded(c) {
        return 0;
    }
    let mut x = c.real;
    let mut y = c.imag;
    let mut x2 = float_mul(x, x);
    let mut y2 = float_mul(y, y);

    let mut oldx = x;
    let mut oldy = y;

    let mut done: usize = 0;
    while done < max_iter
        invariant
            done <= max_iter,
            !excluded(c),
            (Complex { real: x, imag: y }) == fast_orbit(c, done as nat),
            x2 == product(x, x),
            y2 == product(y, y),
            done == 0 ==> (Complex { real: oldx, imag: oldy }) == c,
            done > 0 ==> (Complex { real: oldx, imag: oldy }) == fast_reference(c, done as nat),
            first_escape(fast_landings(c), (done + 1) as nat, max_iter as nat) == fast_escape_step(
                c,
                max_iter as nat,
            ),
        decreases max_iter - done,
    {
        let i = done + 1;
        if i % 4 == 0 {
            oldx = x;
            oldy = y;
        }
        y = float_add(float_mul(float_add(x, x), y), c.imag);
        x = float_add(float_sub(x2, y2), c.real);
        x2 = float_mul(x, x);
        y2 = float_mul(y, y);

        let z = Complex { real: x, imag: y };
        match judge(z, Complex { real: oldx, imag: oldy }, float_add(x2, y2)) {
            Landing::Periodic => {
                return 0;
            },
            Landing::Outside => {
                return i;
            },
            Landing::Inside => {},
        }
        done = i;
    }
    0
}

/// What a cell holds for a point: its escape step, or the sentinel for a
/// point that is taken to be bounded. Under a budget of 65535 an escape at
/// the last step is stored as 65535 as well, so the cell reads as bounded.
pub open spec fn cell_of(step: Option<nat>) -> u16 {
    match step {
        Some(s) => if s < SENTINEL {
            s as u16
        } else {
            SENTINEL
        },
        None => SENTINEL,
    }
}

/// The value that the direct evaluator leaves in the cell of pixel `(x, y)`.
pub open spec fn direct_cell(pm: PixelMapper, x: nat, y: nat, max_iter: u16) -> u16 {
    cell_of(escape_step(pm.spec_map(x, y), max_iter as nat))
}

/// The value that the optimised evaluator leaves in the cell of pixel
/// `(x, y)`.
pub open spec fn fast_cell(pm: PixelMapper, x: nat, y: nat, max_iter: u16) -> u16 {
    cell_of(fast_escape_step(pm.spec_map(x, y), max_iter as nat))
}

/// A cell holds an escape step between 1 and the budget, or the sentinel.
pub proof fn lemma_cell_in_range(pm: PixelMapper, x: nat, y: nat, max_iter: u16)
    ensures
        1 <= direct_cell(pm, x, y, max_iter) <= max_iter || direct_cell(pm, x, y, max_iter)
            == SENTINEL,
        1 <= fast_cell(pm, x, y, max_iter) <= max_iter || fast_cell(pm, x, y, max_iter)
            == SENTINEL,
{
    lemma_escape_step_in_range(pm.spec_map(x, y), max_iter as nat);
}

/// The iteration grid that the direct evaluator gives for a view of `width`
/// by `height` pixels, row by row.
pub open spec fn direct_grid(pm: PixelMapper, width: nat, height: nat, max_iter: u16) -> Seq<u16> {
    Seq::new(
        width * height,
        |k: int| direct_cell(pm, (k % width as int) as nat, (k / width as int) as nat, max_iter),
    )
}

/// The iteration grid that the optimised evaluator gives for a view of
/// `width` by `height` pixels, row by row.
pub open spec fn fast_grid(pm: PixelMapper, width: nat, height: nat, max_iter: u16) -> Seq<u16> {
    Seq::new(
        width * height,
        |k: int| fast_cell(pm, (k % width as int) as nat, (k / width as int) as nat, max_iter),
    )
}

/// Every cell of the grid of either evaluator holds an escape step between 1
/// and the budget, or the sentinel.
pub proof fn lemma_grid_cells_in_range(pm: PixelMapper, width: nat, height: nat, max_iter: u16)
    ensures
        forall|i: int|
            0 <= i < direct_grid(pm, width, height, max_iter).len() ==> {
                let cell = #[trigger] direct_grid(pm, width, height, max_iter)[i];
                1 <= cell <= max_iter || cell == SENTINEL
            },
        forall|i: int|
            0 <= i < fast_grid(pm, width, height, max_iter).len() ==> {
                let cell = #[trigger] fast_grid(pm, width, height, max_iter)[i];
                1 <= cell <= max_iter || cell == SENTINEL
            },
{
    assert forall|i: int| 0 <= i < width * height implies {
        let cell = #[trigger] direct_grid(pm, width, height, max_iter)[i];
        1 <= cell <= max_iter || cell == SENTINEL
    } by {
        lemma_cell_in_range(
            pm,
            (i % width as int) as nat,
            (i / width as int) as nat,
            max_iter,
        );
    }
    assert forall|i: int| 0 <= i < width * height implies {
        let cell = #[trigger] fast_grid(pm, width, height, max_iter)[i];
        1 <= cell <= max_iter || cell == SENTINEL
    } by {
        lemma_cell_in_range(
            pm,
            (i % width as int) as nat,
            (i / width as int) as nat,
            max_iter,
        );
    }
}

/// Where the two evaluators classify every pixel of a view alike, their
/// grids are the same, and so are the tables built from them.
pub proof fn lemma_grids_agree(pm: PixelMapper, width: nat, height: nat, max_iter: u16)
    requires
        forall|x: nat, y: nat|
            x < width && y < height ==> escape_step(pm.spec_map(x, y), max_iter as nat)
                == fast_escape_step(#[trigger] pm.spec_map(x, y), max_iter as nat),
    ensures
        direct_grid(pm, width, height, max_iter) == fast_grid(pm, width, height, max_iter),
        coloring_table(direct_grid(pm, width, height, max_iter), max_iter) == coloring_table(
            fast_grid(pm, width, height, max_iter),
            max_iter,
        ),
{
    assert forall|k: int| 0 <= k < width * height implies direct_grid(
        pm,
        width,
        height,
        max_iter,
    )[k] == fast_grid(pm, width, height, max_iter)[k] by {
        if width > 0 {
            lemma_cell_of_index(k, width as int, height as int);
        } else {
            assert(width * height == 0) by (nonlinear_arith)
                requires
                    width == 0,
            ;
        }
    }
    assert(direct_grid(pm, width, height, max_iter) =~= fast_grid(pm, width, height, max_iter));
}

/// Turns what an evaluator found into the value of a cell.
pub fn cell_value(step: Option<usize>) -> (r: u16)
    ensures
        r == cell_of(
            match step {
                Some(s) => Some(s as nat),
                None => None,
            },
        ),
{
    match step {
        Some(s) => if s < 0xffff {
            s as u16
        } else {
            SENTINEL
        },
        None => SENTINEL,
    }
}

/// Fills one row of the iteration grid with the optimised evaluator.
pub fn fill_row(pm: &PixelMapper, y: usize, row: &mut [u16], max_iter: u16)
    ensures
        final(row)@.len() == old(row)@.len(),
        forall|x: int|
            0 <= x < old(row)@.len() ==> #[trigger] final(row)@[x] == fast_cell(
                *pm,
                x as nat,
                y as nat,
                max_iter,
            ),
{
    let n = row.len();
    let mut x: usize = 0;
    while x < n
        invariant
            n == row@.len(),
            x <= n,
            forall|j: int|
                0 <= j < x ==> #[trigger] row@[j] == fast_cell(*pm, j as nat, y as nat, max_iter),
        decreases n - x,
    {
        let count = do_point_optimised(pm.map(x, y), max_iter as usize);
        let step = if count == 0 {
            None
        } else {
            Some(count)
        };
        row[x] = cell_value(step);
        x += 1;
    }
}

/// Hands the rows of the grid to rayon's worker pool: the call is
/// `par_chunks_exact_mut(width)`, then `enumerate`, then `for_each` with
/// `fill_row`. Trusted: rayon cuts the cells into `height` rows of `width`
/// cells that do not overlap, numbers them from the top, runs `fill_row` once
/// on each, and returns when all are done; so every cell holds what
/// `fill_row` promises for its row and column.
#[verifier::external_body]
fn fill_rows_in_parallel(g: &mut Grid<u16>, pm: &PixelMapper, max_iter: u16)
    requires
        old(g).wf(),
        0 < old(g).spec_width(),
    ensures
        final(g).wf(),
        final(g).spec_width() == old(g).spec_width(),
        final(g).spec_height() == old(g).spec_height(),
        forall|x: int, y: int|
            0 <= x < old(g).spec_width() && 0 <= y < old(g).spec_height()
                ==> #[trigger] final(g)@[x + y * old(g).spec_width()]
                    == fast_cell(*pm, x as nat, y as nat, max_iter),
{
    let width = g.width;
    g.data.par_chunks_exact_mut(width).enumerate().for_each(
        |(y, row)| fill_row(pm, y, row, max_iter),
    );
}

/// The iteration grid of a view, filled row by row in parallel. A view
/// without columns has no cells to fill.
fn mt_generate_iter_counts(pm: &PixelMapper, width: usize, height: usize, max_iter: u16) -> (g:
    Grid<u16>)
    requires
        width * height <= usize::MAX,
    ensures
        g.wf(),
        g.spec_width() == width,
        g.spec_height() == height,
        g@ == fast_grid(*pm, width as nat, height as nat, max_iter),
{
    let mut g = Grid::new(width, height, SENTINEL);
    if width > 0 {
        fill_rows_in_parallel(&mut g, pm, max_iter);
    }
    proof {
        g.lemma_wf();
        assert(width == 0 ==> width * height == 0) by (nonlinear_arith);
        assert forall|k: int| 0 <= k < width * height implies #[trigger] g@[k] == fast_grid(
            *pm,
            width as nat,
            height as nat,
            max_iter,
        )[k] by {
            lemma_cell_of_index(k, width as int, height as int);
        }
    }
    g
}

/// How many of the first `n` cells hold the escape step `k`. No cell holds
/// the sentinel as an escape step.
pub open spec fn escapes_at(cells: Seq<u16>, k: int, n: nat) -> nat
    decreases n,
{
    if n == 0 {
        0
    } else {
        escapes_at(cells, k, (n - 1) as nat) + if cells[n - 1] == k && cells[n - 1] != SENTINEL {
            1nat
        } else {
            0nat
        }
    }
}

/// How many of the first `n` cells hold an escape step of `k` or less.
pub open spec fn escapes_up_to(cells: Seq<u16>, k: int, n: nat) -> nat
    decreases n,
{
    if n == 0 {
        0
    } else {
        escapes_up_to(cells, k, (n - 1) as nat) + if cells[n - 1] <= k && cells[n - 1]
            != SENTINEL {
            1nat
        } else {
            0nat
        }
    }
}

/// How many of the first `n` cells hold the sentinel.
pub open spec fn sentinels(cells: Seq<u16>, n: nat) -> nat
    decreases n,
{
    if n == 0 {
        0
    } else {
        sentinels(cells, (n - 1) as nat) + if cells[n - 1] == SENTINEL {
            1nat
        } else {
            0nat
        }
    }
}

/// The sum of the first `n` buckets.
pub open spec fn prefix_sum(h: Seq<usize>, n: nat) -> nat
    decreases n,
{
    if n == 0 {
        0
    } else {
        prefix_sum(h, (n - 1) as nat) + h[n - 1] as nat
    }
}

/// `part / total` as a number; 0.0 where nothing escaped.
pub open spec fn fraction(part: nat, total: nat) -> u32 {
    if total == 0 {
        ZERO
    } else {
        quotient(from_integer(part as u64), from_integer(total as u64))
    }
}

/// The coloring table of an iteration grid under a budget: one entry for
/// each count from 0 to the budget, entry `i` being the share of the escaped
/// cells that escaped at step `i` or before.
pub open spec fn coloring_table(cells: Seq<u16>, max_iter: u16) -> Seq<u32> {
    Seq::new(
        (max_iter + 1) as nat,
        |i: int|
            fraction(
                escapes_up_to(cells, i, cells.len()),
                escapes_up_to(cells, max_iter as int, cells.len()),
            ),
    )
}

/// A count over `n` cells is at most `n`.
pub proof fn lemma_counts_bounded(cells: Seq<u16>, k: int, n: nat)
    ensures
        escapes_at(cells, k, n) <= escapes_up_to(cells, k, n) <= n,
    decreases n,
{
    if n > 0 {
        lemma_counts_bounded(cells, k, (n - 1) as nat);
    }
}

/// The cells that escaped at step `k` or before are those that escaped
/// before `k` and those that escaped at `k`.
pub proof fn lemma_escapes_up_to_step(cells: Seq<u16>, k: int, n: nat)
    ensures
        escapes_up_to(cells, k, n) == escapes_up_to(cells, k - 1, n) + escapes_at(cells, k, n),
    decreases n,
{
    if n > 0 {
        lemma_escapes_up_to_step(cells, k, (n - 1) as nat);
    }
}

/// No cell holds less than 0.
pub proof fn lemma_escapes_up_to_negative(cells: Seq<u16>, n: nat)
    ensures
        escapes_up_to(cells, -1, n) == 0,
    decreases n,
{
    if n > 0 {
        lemma_escapes_up_to_negative(cells, (n - 1) as nat);
    }
}

/// The cumulative counts never decrease from one step to a later one.
pub proof fn lemma_escapes_up_to_monotonic(cells: Seq<u16>, j: int, k: int, n: nat)
    requires
        j <= k,
    ensures
        escapes_up_to(cells, j, n) <= escapes_up_to(cells, k, n),
    decreases n,
{
    if n > 0 {
        lemma_escapes_up_to_monotonic(cells, j, k, (n - 1) as nat);
    }
}

/// The first `m` buckets of a histogram add up to the number of cells that
/// escaped before step `m`.
pub proof fn lemma_histogram_sum(cells: Seq<u16>, h: Seq<usize>, m: nat)
    requires
        m <= h.len(),
        forall|k: int| 0 <= k < m ==> #[trigger] h[k] == escapes_at(cells, k, cells.len()),
    ensures
        prefix_sum(h, m) == escapes_up_to(cells, m - 1, cells.len()),
    decreases m,
{
    if m == 0 {
        lemma_escapes_up_to_negative(cells, cells.len());
    } else {
        lemma_histogram_sum(cells, h, (m - 1) as nat);
        lemma_escapes_up_to_step(cells, m - 1, cells.len());
    }
}

/// Where every cell holds an escape step within the budget or the sentinel,
/// as the cells of both table generators do, the buckets of the histogram
/// add up to the number of cells that do not hold the sentinel.
pub proof fn lemma_histogram_counts_all_but_sentinels(
    cells: Seq<u16>,
    h: Seq<usize>,
    max_iter: u16,
)
    requires
        h.len() == max_iter + 1,
        forall|k: int| 0 <= k <= max_iter ==> #[trigger] h[k] == escapes_at(cells, k, cells.len()),
        forall|i: int| 0 <= i < cells.len() ==> cells[i] <= max_iter || cells[i] == SENTINEL,
    ensures
        prefix_sum(h, (max_iter + 1) as nat) + sentinels(cells, cells.len()) == cells.len(),
{
    lemma_histogram_sum(cells, h, (max_iter + 1) as nat);
    lemma_escapes_and_sentinels(cells, max_iter, cells.len());
}

proof fn lemma_escapes_and_sentinels(cells: Seq<u16>, max_iter: u16, n: nat)
    requires
        n <= cells.len(),
        forall|i: int| 0 <= i < cells.len() ==> cells[i] <= max_iter || cells[i] == SENTINEL,
    ensures
        escapes_up_to(cells, max_iter as int, n) + sentinels(cells, n) == n,
    decreases n,
{
    if n > 0 {
        lemma_escapes_and_sentinels(cells, max_iter, (n - 1) as nat);
    }
}

/// The last entry of a coloring table divides the number of escaped cells by
/// itself, and every entry divides by that number.
pub proof fn lemma_table_ends_with_all_escaped(cells: Seq<u16>, max_iter: u16)
    ensures
        coloring_table(cells, max_iter).len() == max_iter + 1,
        coloring_table(cells, max_iter)[max_iter as int] == fraction(
            escapes_up_to(cells, max_iter as int, cells.len()),
            escapes_up_to(cells, max_iter as int, cells.len()),
        ),
{
}

/// The numerators of a coloring table never decrease, and none exceeds the
/// number of escaped cells.
pub proof fn lemma_table_numerators_grow(cells: Seq<u16>, max_iter: u16, i: int, j: int)
    requires
        0 <= i <= j <= max_iter,
    ensures
        escapes_up_to(cells, i, cells.len()) <= escapes_up_to(cells, j, cells.len())
            <= escapes_up_to(cells, max_iter as int, cells.len()),
{
    lemma_escapes_up_to_monotonic(cells, i, j, cells.len());
    lemma_escapes_up_to_monotonic(cells, j, max_iter as int, cells.len());
}

/// Counts the escaped cells of an iteration grid by their step: the cells
/// that hold a step up to `max_iter` and not the sentinel. Returns the
/// buckets, one for each count from 0 to `max_iter`, and the number of
/// escaped cells.
pub fn histogram(cells: &[u16], max_iter: u16) -> (r: (Vec<usize>, usize))
    ensures
        r.0@.len() == max_iter + 1,
        forall|k: int|
            0 <= k <= max_iter ==> #[trigger] r.0@[k] == escapes_at(cells@, k, cells@.len()),
        r.1 == escapes_up_to(cells@, max_iter as int, cells@.len()),
        r.1 == prefix_sum(r.0@, (max_iter + 1) as nat),
{
    let buckets = max_iter as usize + 1;
    let mut h: Vec<usize> = Vec::new();
    let mut k: usize = 0;
    while k < buckets
        invariant
            k <= buckets,
            h@.len() == k,
            forall|j: int| 0 <= j < k ==> #[trigger] h@[j] == 0,
        decreases buckets - k,
    {
        h.push(0usize);
        k += 1;
    }
    let n = cells.len();
    let mut total: usize = 0;
    let mut i: usize = 0;
    while i < n
        invariant
            n == cells@.len(),
            i <= n,
            h@.len() == max_iter + 1,
            forall|j: int|
                0 <= j <= max_iter ==> #[trigger] h@[j] == escapes_at(cells@, j, i as nat),
            total == escapes_up_to(cells@, max_iter as int, i as nat),
        decreases n - i,
    {
        let count = cells[i];
        if count <= max_iter && count != SENTINEL {
            proof {
                lemma_counts_bounded(cells@, count as int, i as nat);
                lemma_counts_bounded(cells@, max_iter as int, i as nat);
            }
            total += 1;
            let slot = count as usize;
            let bucket = h[slot];
            h[slot] = bucket + 1;
        }
        i += 1;
    }
    proof {
        lemma_histogram_sum(cells@, h@, (max_iter + 1) as nat);
    }
    (h, total)
}

/// Turns a histogram into the table of cumulative shares: entry `i` is the
/// sum of the buckets `0..=i` divided by `total`, and 0.0 where `total` is 0.
pub fn accumulate_normalise_iterations(h: &Vec<usize>, total: usize) -> (v: Vec<u32>)
    requires
        prefix_sum(h@, h@.len()) <= usize::MAX,
    ensures
        v@.len() == h@.len(),
        forall|i: int|
            0 <= i < h@.len() ==> #[trigger] v@[i] == fraction(
                prefix_sum(h@, (i + 1) as nat),
                total as nat,
            ),
{
    let n = h.len();
    let mut v: Vec<u32> = Vec::new();
    let mut acc: usize = 0;
    let denominator = float_from_u64(total as u64);
    let mut i: usize = 0;
    while i < n
        invariant
            n == h@.len(),
            i <= n,
            prefix_sum(h@, n as nat) <= usize::MAX,
            denominator == from_integer(total as u64),
            acc == prefix_sum(h@, i as nat),
            v@.len() == i,
            forall|j: int|
                0 <= j < i ==> #[trigger] v@[j] == fraction(
                    prefix_sum(h@, (j + 1) as nat),
                    total as nat,
                ),
        decreases n - i,
    {
        proof {
            lemma_prefix_sum_monotonic(h@, (i + 1) as nat, n as nat);
        }
        acc += h[i];
        let entry = if total == 0 {
            ZERO
        } else {
            float_div(float_from_u64(acc as u64), denominator)
        };
        v.push(entry);
        i += 1;
    }
    v
}

/// A longer prefix of a histogram sums to at least as much.
pub proof fn lemma_prefix_sum_monotonic(h: Seq<usize>, m: nat, n: nat)
    requires
        m <= n,
    ensures
        prefix_sum(h, m) <= prefix_sum(h, n),
    decreases n,
{
    if m < n {
        lemma_prefix_sum_monotonic(h, m, (n - 1) as nat);
    }
}

/// The coloring table of a filled iteration grid.
pub fn tabulate(ic: &Grid<u16>, max_iter: u16) -> (t: Vec<u32>)
    ensures
        t@ == coloring_table(ic@, max_iter),
{
    let cells = ic.as_slice();
    let (h, total) = histogram(cells, max_iter);
    let t = accumulate_normalise_iterations(&h, total);
    proof {
        assert forall|i: int| 0 <= i <= max_iter implies #[trigger] t@[i] == coloring_table(
            ic@,
            max_iter,
        )[i] by {
            lemma_histogram_sum(cells@, h@, (i + 1) as nat);
        }
    }
    t
}

/// Renders the iteration grid of a view of `width` by `height` pixels with
/// the optimised evaluator, the rows in parallel, and builds its coloring
/// table. A cell that holds the sentinel belongs to a point taken to be
/// bounded. A view without columns or rows gives a grid without cells and a
/// table of zeros.
pub fn mt_generate_tables(pm: &PixelMapper, width: usize, height: usize, max_iter: u16) -> (r: (
    Grid<u16>,
    Vec<u32>,
))
    requires
        width * height <= usize::MAX,
    ensures
        r.0.wf(),
        r.0.spec_width() == width,
        r.0.spec_height() == height,
        r.0@ == fast_grid(*pm, width as nat, height as nat, max_iter),
        r.1@ == coloring_table(r.0@, max_iter),
{
    let ic = mt_generate_iter_counts(pm, width, height, max_iter);
    let h = tabulate(&ic, max_iter);
    (ic, h)
}

/// Renders the iteration grid of a view of `width` by `height` pixels with
/// the direct evaluator, cell by cell, and builds its coloring table. A cell
/// that holds the sentinel belongs to a point taken to be bounded. A view
/// without columns or rows gives a grid without cells and a table of zeros.
pub fn generate_iteration_tables(pm: &PixelMapper, width: usize, height: usize, max_iter: u16) -> (r:
    (Grid<u16>, Vec<u32>))
    requires
        width * height <= usize::MAX,
    ensures
        r.0.wf(),
        r.0.spec_width() == width,
        r.0.spec_height() == height,
        r.0@ == direct_grid(*pm, width as nat, height as nat, max_iter),
        r.1@ == coloring_table(r.0@, max_iter),
{
    let mut g = Grid::new(width, height, SENTINEL);
    let classify = |x: usize, y: usize, _before: u16| -> (r: u16)
        ensures
            r == direct_cell(*pm, x as nat, y as nat, max_iter),
        {
            cell_value(do_point(pm.map(x, y), max_iter as usize))
        };
    g.iter_coords_mut(classify);
    let h = tabulate(&g, max_iter);
    (g, h)
}

/// The fraction that the coloring table holds for an iteration count, if it
/// holds one.
pub open spec fn table_entry(table: Seq<u32>, count: u16) -> Option<u32> {
    if count < table.len() {
        Some(table[count as int])
    } else {
        None
    }
}

/// The colour of a cell of the iteration grid: black for the sentinel, and
/// otherwise what the palette makes of the cell's entry in the table.
pub open spec fn cell_colour(table: Seq<u32>, count: u16) -> Rgb {
    if count == SENTINEL {
        black()
    } else {
        palette(table_entry(table, count))
    }
}

/// Colours a cell: the sentinel is black, and every other count is looked up
/// in the coloring table and the fraction found there, or its absence,
/// mapped to a colour.
pub fn colour_cell(table: &Vec<u32>, count: u16) -> (c: Rgb)
    ensures
        c == cell_colour(table@, count),
{
    let i = count as usize;
    if count != SENTINEL && i < table.len() {
        h_palette(Some(table[i]))
    } else {
        h_palette(None)
    }
}

/// The pixels of a view as the direct evaluator colours them, row by row.
pub open spec fn direct_image(pm: PixelMapper, width: nat, height: nat, max_iter: u16) -> Seq<Rgb> {
    let grid = direct_grid(pm, width, height, max_iter);
    let table = coloring_table(grid, max_iter);
    Seq::new(grid.len(), |k: int| cell_colour(table, grid[k]))
}

/// Renders a view with the direct evaluator and writes its pixels, one
/// packed word each, over the start of `buffer`. Where the buffer is shorter
/// than the grid the rest of the grid is dropped; where it is longer its
/// tail is left as it was.
pub fn draw_into_buffer(
    pm: &PixelMapper,
    width: usize,
    height: usize,
    buffer: &mut [u32],
    max_iter: u16,
)
    requires
        width * height <= usize::MAX,
    ensures
        final(buffer)@.len() == old(buffer)@.len(),
        forall|k: int|
            0 <= k < old(buffer)@.len() ==> #[trigger] final(buffer)@[k] == if k < width * height {
                packed(direct_image(*pm, width as nat, height as nat, max_iter)[k])
            } else {
                old(buffer)@[k]
            },
{
    let (g, h) = generate_iteration_tables(pm, width, height, max_iter);
    let cells = g.as_slice();
    let n = if cells.len() < buffer.len() {
        cells.len()
    } else {
        buffer.len()
    };
    let ghost before = buffer@;
    let mut k: usize = 0;
    while k < n
        invariant
            k <= n,
            n <= cells@.len(),
            n <= buffer@.len(),
            buffer@.len() == before.len(),
            forall|j: int| 0 <= j < k ==> #[trigger] buffer@[j] == packed(cell_colour(h@, cells@[j])),
            forall|j: int| k <= j < before.len() ==> #[trigger] buffer@[j] == before[j],
        decreases n - k,
    {
        let c = colour_cell(&h, cells[k]);
        buffer[k] = pack_colour(c);
        k += 1;
    }
}

} // verus!
