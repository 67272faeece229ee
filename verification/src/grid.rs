use vstd::prelude::*;

use crate::geom::Vec2;
use crate::particle::{Particle, Resting};

verus! {

/// The number of occupied cells in a cell sequence.
pub open spec fn spec_occupied_count(s: Seq<Option<Particle>>) -> nat
    decreases s.len(),
{
    if s.len() == 0 {
        0
    } else {
        spec_occupied_count(s.drop_last()) + (if s.last() is Some {
            1nat
        } else {
            0nat
        })
    }
}

/// Writing one slot changes the count by the difference of what leaves and
/// what enters.
pub proof fn lemma_count_update(s: Seq<Option<Particle>>, i: int, v: Option<Particle>)
    requires
        0 <= i < s.len(),
    ensures
        spec_occupied_count(s.update(i, v)) + (if s[i] is Some {
            1int
        } else {
            0int
        }) == spec_occupied_count(s) + (if v is Some {
            1int
        } else {
            0int
        }),
    decreases s.len(),
{
    let s2 = s.update(i, v);
    if i == s.len() - 1 {
        assert(s2.drop_last() =~= s.drop_last());
    } else {
        lemma_count_update(s.drop_last(), i, v);
        assert(s2.drop_last() =~= s.drop_last().update(i, v));
        assert(s2.last() == s.last());
    }
}

/// Two sequences occupied in the same slots hold the same count.
pub proof fn lemma_count_pointwise(s1: Seq<Option<Particle>>, s2: Seq<Option<Particle>>)
    requires
        s1.len() == s2.len(),
        forall|k: int| 0 <= k < s1.len() ==> ((#[trigger] s1[k]) is Some <==> s2[k] is Some),
    ensures
        spec_occupied_count(s1) == spec_occupied_count(s2),
    decreases s1.len(),
{
    if s1.len() > 0 {
        lemma_count_pointwise(s1.drop_last(), s2.drop_last());
    }
}

/// The cell holds a solid particle.
pub open spec fn spec_solid_cell(c: Option<Particle>) -> bool {
    c matches Some(p) && p.spec_solid()
}

/// The contents of two slots exchanged.
pub open spec fn spec_swap_cells(s: Seq<Option<Particle>>, a: int, b: int) -> Seq<
    Option<Particle>,
> {
    s.update(a, s[b]).update(b, s[a])
}

/// A swap of two slots keeps the multiset of cell contents.
pub proof fn lemma_swap_cells_multiset(s: Seq<Option<Particle>>, a: int, b: int)
    requires
        0 <= a < s.len(),
        0 <= b < s.len(),
        a != b,
    ensures
        spec_swap_cells(s, a, b).to_multiset() == s.to_multiset(),
{
    broadcast use vstd::multiset::group_multiset_axioms;

    let s1 = s.update(a, s[b]);
    vstd::seq_lib::to_multiset_update(s, a, s[b]);
    vstd::seq_lib::to_multiset_update(s1, b, s[a]);
    vstd::seq_lib::to_multiset_contains(s, s[a]);
    assert(s.contains(s[a]));
    assert(s1[b] == s[b]);
    assert(spec_swap_cells(s, a, b).to_multiset() =~= s.to_multiset());
}

/// The column scanned at step `i` of a row: ascending, or descending when
/// the scan flag is set.
pub open spec fn spec_scan_x(w: int, flip: bool, i: int) -> int {
    if flip {
        w - 1 - i
    } else {
        i
    }
}

/// One processed cell of the position pass: the occupant of `(x, y)`, if
/// any, proposes a destination against the grid as it currently stands,
/// with `dir` the lateral sign available to it, and on a move the two
/// cells' contents are exchanged — a symmetric swap, so sand sinking into
/// fluid makes the fluid rise.
pub open spec fn spec_pos_step(
    s: Seq<Option<Particle>>,
    w: int,
    h: int,
    x: int,
    y: int,
    dir: int,
) -> Seq<Option<Particle>> {
    let m = GridModel { cells: s, width: w, height: h };
    match m.cell(x, y) {
        Some(p) => match crate::particle::spec_step_pos(p, x, y, m, dir) {
            Some(q) => spec_swap_cells(s, q.x as int * h + q.y as int, x * h + y),
            None => s,
        },
        None => s,
    }
}

/// The cells after the position pass has processed rows `height - 1` down
/// to `y + 1` in full and then the first `i` columns of row `y`, in the
/// column order that `flip` gives; `dirs[s]` is the lateral sign available
/// to the cell handled at scan step `s`, so cells processed later see the
/// moves of cells processed earlier.
pub open spec fn spec_pass_upto(
    m0: GridModel,
    flip: bool,
    y: int,
    i: int,
    dirs: Seq<int>,
) -> Seq<Option<Particle>>
    decreases m0.height - 1 - y, i,
{
    if y < 0 || y > m0.height - 1 || i <= 0 {
        if 0 <= y < m0.height - 1 {
            spec_pass_upto(m0, flip, y + 1, m0.width, dirs)
        } else {
            m0.cells
        }
    } else {
        let prev = spec_pass_upto(m0, flip, y, i - 1, dirs);
        let x = spec_scan_x(m0.width, flip, i - 1);
        spec_pos_step(
            prev,
            m0.width,
            m0.height,
            x,
            y,
            dirs[(m0.height - 1 - y) * m0.width + (i - 1)],
        )
    }
}

/// The whole position pass over the cells of `m0`, rows from the bottom
/// up, columns in the order of `flip`.
pub open spec fn spec_pos_pass(m0: GridModel, flip: bool, dirs: Seq<int>) -> Seq<Option<Particle>> {
    spec_pass_upto(m0, flip, 0, m0.width, dirs)
}

/// A scan step index lies inside the direction sequence.
pub proof fn lemma_scan_pos_bound(y: int, i: int, w: int, h: int)
    requires
        0 <= y < h,
        0 <= i < w,
    ensures
        0 <= (h - 1 - y) * w + i < w * h,
{
    assert(0 <= (h - 1 - y) * w + i < w * h) by (nonlinear_arith)
        requires 0 <= y < h && 0 <= i < w;
}

/// A pass prefix reads only the lateral signs of the scan steps it has
/// already taken: changing a sign at or past the current step leaves it
/// unchanged.
pub proof fn lemma_pass_upto_agree(
    m0: GridModel,
    flip: bool,
    y: int,
    i: int,
    dirs1: Seq<int>,
    dirs2: Seq<int>,
)
    requires
        0 <= m0.width,
        0 <= y <= m0.height - 1,
        0 <= i <= m0.width,
        forall|s: int|
            0 <= s < (m0.height - 1 - y) * m0.width + i ==> #[trigger] dirs1[s] == dirs2[s],
    ensures
        spec_pass_upto(m0, flip, y, i, dirs1) == spec_pass_upto(m0, flip, y, i, dirs2),
    decreases m0.height - 1 - y, i,
{
    assert((m0.height - 1 - y) * m0.width >= 0) by (nonlinear_arith)
        requires 0 <= y <= m0.height - 1 && 0 <= m0.width;
    if i > 0 {
        lemma_pass_upto_agree(m0, flip, y, i - 1, dirs1, dirs2);
    } else if y < m0.height - 1 {
        assert((m0.height - 1 - (y + 1)) * m0.width + m0.width == (m0.height - 1 - y) * m0.width)
            by (nonlinear_arith);
        lemma_pass_upto_agree(m0, flip, y + 1, m0.width, dirs1, dirs2);
    }
}

/// Sand never skips and never rises: a cell that holds a sand grain after
/// the position pass held that very grain before it, or the grain stood
/// exactly one row higher — straight or diagonally — in the pre-pass
/// grid. Together with the per-cell rule of `spec_step_pos` this is the
/// one-cell-per-tick law for sand in any grid.
pub open spec fn spec_sand_provenance(m0: GridModel, c: Option<Particle>, x: int, y: int) -> bool {
    (c matches Some(p) && p.spec_sand()) ==> {
        ||| m0.cell(x, y) == c
        ||| m0.cell(x, y - 1) == c
        ||| m0.cell(x - 1, y - 1) == c
        ||| m0.cell(x + 1, y - 1) == c
    }
}

/// The scan has already handled cell `(a, b)` when the pass stands at
/// column step `i` of row `y`.
pub open spec fn spec_scanned(w: int, flip: bool, y: int, i: int, a: int, b: int) -> bool {
    b > y || (b == y && (if flip {
        a >= w - i
    } else {
        a < i
    }))
}

/// Advancing the scan one step without touching the cells keeps the sand
/// zone facts: the newly covered cell's occupant, if sand, is exactly
/// where the pre-pass grid had it, which is the first provenance
/// disjunct.
proof fn lemma_provenance_nowrite(g0: Grid, g: Grid, y: int, i: int)
    requires
        g.width == g0.width,
        g.height == g0.height,
        0 <= y < g0.height,
        0 <= i < g0.width,
        forall|a: int, b: int|
            g0.spec_in_bounds(a, b) && spec_scanned(g0.width as int, g0.flip, y, i, a, b)
                ==> spec_sand_provenance(g0.model(), #[trigger] g.spec_cell(a, b), a, b),
        forall|a: int, b: int|
            g0.spec_in_bounds(a, b) && !spec_scanned(g0.width as int, g0.flip, y, i, a, b) && ((
            #[trigger] g.spec_cell(a, b)) matches Some(s) && s.spec_sand()) ==> g.spec_cell(a, b)
                == g0.spec_cell(a, b),
    ensures
        forall|a: int, b: int|
            g0.spec_in_bounds(a, b) && spec_scanned(g0.width as int, g0.flip, y, i + 1, a, b)
                ==> spec_sand_provenance(g0.model(), #[trigger] g.spec_cell(a, b), a, b),
        forall|a: int, b: int|
            g0.spec_in_bounds(a, b) && !spec_scanned(g0.width as int, g0.flip, y, i + 1, a, b) && ((
            #[trigger] g.spec_cell(a, b)) matches Some(s) && s.spec_sand()) ==> g.spec_cell(a, b)
                == g0.spec_cell(a, b),
{
    assert forall|a: int, b: int|
        g0.spec_in_bounds(a, b) && spec_scanned(g0.width as int, g0.flip, y, i + 1, a, b)
        implies spec_sand_provenance(g0.model(), #[trigger] g.spec_cell(a, b), a, b) by {
        if !spec_scanned(g0.width as int, g0.flip, y, i, a, b) {
            assert((g.spec_cell(a, b) matches Some(s) && s.spec_sand()) ==> g.spec_cell(a, b)
                == g0.spec_cell(a, b));
        }
    };
}

/// One swap step of the scan keeps the sand zone facts: a moving sand
/// grain lands exactly one row below a cell the scan had not yet touched,
/// no swap ever writes sand anywhere else, and every other cell is left
/// alone.
proof fn lemma_provenance_swap(
    g0: Grid,
    gpre: Grid,
    gpost: Grid,
    y: int,
    i: int,
    p: Particle,
    np: Vec2,
    target: Option<Particle>,
)
    requires
        gpre.width == g0.width,
        gpre.height == g0.height,
        gpost.width == g0.width,
        gpost.height == g0.height,
        gpre.cells@.len() == g0.width * g0.height,
        0 <= y < g0.height,
        0 <= i < g0.width,
        gpre.spec_cell(spec_scan_x(g0.width as int, g0.flip, i), y) == Some(p),
        gpre.spec_in_bounds(np.x as int, np.y as int),
        target == gpre.spec_cell(np.x as int, np.y as int),
        !(target matches Some(s) && s.spec_sand()),
        p.spec_sand() ==> np.y as int == y + 1 && spec_scan_x(g0.width as int, g0.flip, i) - 1
            <= np.x as int <= spec_scan_x(g0.width as int, g0.flip, i) + 1,
        gpost.cells@ == gpre.cells@.update(
            np.x as int * g0.height as int + np.y as int,
            Some(p),
        ).update(spec_scan_x(g0.width as int, g0.flip, i) * g0.height as int + y, target),
        forall|a: int, b: int|
            g0.spec_in_bounds(a, b) && spec_scanned(g0.width as int, g0.flip, y, i, a, b)
                ==> spec_sand_provenance(g0.model(), #[trigger] gpre.spec_cell(a, b), a, b),
        forall|a: int, b: int|
            g0.spec_in_bounds(a, b) && !spec_scanned(g0.width as int, g0.flip, y, i, a, b) && ((
            #[trigger] gpre.spec_cell(a, b)) matches Some(s) && s.spec_sand()) ==> gpre.spec_cell(
                a,
                b,
            ) == g0.spec_cell(a, b),
    ensures
        forall|a: int, b: int|
            g0.spec_in_bounds(a, b) && spec_scanned(g0.width as int, g0.flip, y, i + 1, a, b)
                ==> spec_sand_provenance(g0.model(), #[trigger] gpost.spec_cell(a, b), a, b),
        forall|a: int, b: int|
            g0.spec_in_bounds(a, b) && !spec_scanned(g0.width as int, g0.flip, y, i + 1, a, b) && ((
            #[trigger] gpost.spec_cell(a, b)) matches Some(s) && s.spec_sand())
                ==> gpost.spec_cell(a, b) == g0.spec_cell(a, b),
{
    let w = g0.width as int;
    let h = g0.height as int;
    let x = spec_scan_x(w, g0.flip, i);
    let idx = x * h + y;
    let nidx = np.x as int * h + np.y as int;
    lemma_grid_index_bound(x, y, w, h);
    lemma_grid_index_bound(np.x as int, np.y as int, w, h);
    assert forall|a: int, b: int|
        g0.spec_in_bounds(a, b) && spec_scanned(g0.width as int, g0.flip, y, i + 1, a, b)
        implies spec_sand_provenance(g0.model(), #[trigger] gpost.spec_cell(a, b), a, b) by {
        lemma_grid_index_bound(a, b, w, h);
        let kab = a * h + b;
        if kab == idx {
            lemma_grid_index_inj(a, b, x, y, h);
            assert(gpost.spec_cell(a, b) == target);
        } else if kab == nidx {
            lemma_grid_index_inj(a, b, np.x as int, np.y as int, h);
            assert(gpost.spec_cell(a, b) == Some(p));
            if p.spec_sand() {
                assert(gpre.spec_cell(x, y) == g0.spec_cell(x, y));
            }
        } else {
            assert(gpost.spec_cell(a, b) == gpre.spec_cell(a, b));
        }
    };
    assert forall|a: int, b: int|
        g0.spec_in_bounds(a, b) && !spec_scanned(g0.width as int, g0.flip, y, i + 1, a, b) && ((
        #[trigger] gpost.spec_cell(a, b)) matches Some(s) && s.spec_sand())
        implies gpost.spec_cell(a, b) == g0.spec_cell(a, b) by {
        lemma_grid_index_bound(a, b, w, h);
        let kab = a * h + b;
        if kab == idx {
            lemma_grid_index_inj(a, b, x, y, h);
            assert(false);
        } else if kab == nidx {
            lemma_grid_index_inj(a, b, np.x as int, np.y as int, h);
            assert(gpost.spec_cell(a, b) == Some(p));
            assert(p.spec_sand());
            assert(false);
        } else {
            assert(gpost.spec_cell(a, b) == gpre.spec_cell(a, b));
        }
    };
}

/// One state update of a cell: empty stays empty, an occupant is stepped
/// in place.
pub open spec fn spec_step_cell(c: Option<Particle>, x: int, y: int, g: Grid) -> Option<Particle> {
    match c {
        Some(p) => Some(p.spec_step_state(x, y, g)),
        None => None,
    }
}

/// The state pass leaves a sand grain exactly as it is, so for sand cells
/// the tick-level provenance reads directly on the pre-tick grid: a cell
/// holding sand after a whole tick held that grain, or it stood exactly
/// one row higher, before the tick.
pub proof fn lemma_state_pass_keeps_sand(g: Grid, k: int)
    requires
        g.wf(),
        0 <= k < g.cells@.len(),
        g.cells@[k] matches Some(p) && p.spec_sand(),
    ensures
        spec_state_pass(g)[k] == g.cells@[k],
{
}

/// Once a kinetic particle has settled, its cell holds exactly its base
/// variant and nothing of the wrapper survives: a later state pass treats
/// that cell precisely as the resting rule alone says, and the occupant
/// stays non-kinetic — the transition is irreversible, and every later
/// tick acts on the cell as if the base variant alone had been there.
pub proof fn lemma_settled_cell_steps_as_base(g: Grid, x: int, y: int, r: Resting)
    requires
        g.spec_cell(x, y) == Some(r.spec_embed()),
    ensures
        spec_step_cell(g.spec_cell(x, y), x, y, g) == Some(r.spec_step().spec_embed()),
        !spec_step_cell(g.spec_cell(x, y), x, y, g).unwrap().spec_kinetic(),
{
    crate::particle::lemma_resting_step(r, x, y, g);
}

/// The cells after the whole state pass: each occupant stepped in place
/// against the frozen grid, empty cells untouched.
pub open spec fn spec_state_pass(g: Grid) -> Seq<Option<Particle>> {
    Seq::new(
        g.cells@.len(),
        |k: int|
            spec_step_cell(g.cells@[k], k / (g.height as int), k % (g.height as int), g),
    )
}

/// The mathematical content of a grid: the cell sequence and the
/// dimensions. The neighbor predicates live here so that the functional
/// description of the position pass — which reads the grid as it mutates
/// it — can fold over plain cell sequences.
pub ghost struct GridModel {
    pub cells: Seq<Option<Particle>>,
    pub width: int,
    pub height: int,
}

impl GridModel {
    pub open spec fn in_bounds(self, x: int, y: int) -> bool {
        0 <= x < self.width && 0 <= y < self.height
    }

    /// The occupant at a coordinate; out-of-bounds positions are absent.
    pub open spec fn cell(self, x: int, y: int) -> Option<Particle> {
        if self.in_bounds(x, y) {
            self.cells[x * self.height + y]
        } else {
            None
        }
    }

    /// A void cell is in bounds and empty; out-of-bounds positions are not
    /// void (the boundary blocks movement).
    pub open spec fn void(self, x: int, y: int) -> bool {
        self.in_bounds(x, y) && self.cell(x, y) is None
    }

    pub open spec fn is_fluid(self, x: int, y: int) -> bool {
        self.cell(x, y) matches Some(p) && p.spec_fluid()
    }

    /// All eight neighbors are non-void.
    pub open spec fn surrounded(self, x: int, y: int) -> bool {
        &&& !self.void(x - 1, y)
        &&& !self.void(x - 1, y - 1)
        &&& !self.void(x, y - 1)
        &&& !self.void(x + 1, y - 1)
        &&& !self.void(x + 1, y)
        &&& !self.void(x + 1, y + 1)
        &&& !self.void(x, y + 1)
        &&& !self.void(x - 1, y + 1)
    }
}

/// The grid: one slot per coordinate, column x and row y stored at index
/// `x * height + y`, plus the scan-direction flag that is toggled every
/// tick to avoid a horizontal movement bias.
pub struct Grid {
    pub cells: Vec<Option<Particle>>,
    pub width: usize,
    pub height: usize,
    pub flip: bool,
}

/// A flat index is in range exactly when its coordinates are.
pub proof fn lemma_grid_index_bound(x: int, y: int, w: int, h: int)
    requires
        0 <= x < w,
        0 <= y < h,
    ensures
        0 <= x * h + y < w * h,
{
    assert(0 <= x * h + y < w * h) by (nonlinear_arith)
        requires 0 <= x < w && 0 <= y < h;
}

/// A flat index decomposes into the coordinates it encodes.
pub proof fn lemma_grid_index_decomp(k: int, w: int, h: int)
    requires
        0 < h,
        0 <= k < w * h,
    ensures
        0 <= k / h < w,
        0 <= k % h < h,
        (k / h) * h + (k % h) == k,
{
    vstd::arithmetic::div_mod::lemma_fundamental_div_mod(k, h);
    assert(0 <= k / h < w && (k / h) * h + (k % h) == k) by (nonlinear_arith)
        requires 0 < h && 0 <= k < w * h && k == h * (k / h) + (k % h) && 0 <= k % h < h;
}

/// Distinct coordinates have distinct flat indices.
pub proof fn lemma_grid_index_inj(x1: int, y1: int, x2: int, y2: int, h: int)
    requires
        0 <= x1,
        0 <= y1 < h,
        0 <= x2,
        0 <= y2 < h,
        x1 * h + y1 == x2 * h + y2,
    ensures
        x1 == x2 && y1 == y2,
{
    assert(x1 == x2 && y1 == y2) by (nonlinear_arith)
        requires
            0 <= x1 && 0 <= y1 < h && 0 <= x2 && 0 <= y2 < h && x1 * h + y1 == x2 * h + y2;
}

impl Grid {
    /// Dimensions are positive and small enough for the coordinate
    /// arithmetic, the cell vector holds exactly `width * height` slots,
    /// and every stored particle is well formed.
    pub open spec fn wf(self) -> bool {
        &&& 1 <= self.width <= 30_000
        &&& 1 <= self.height <= 30_000
        &&& self.cells.len() == self.width * self.height
        &&& forall|k: int|
            0 <= k < self.cells.len() ==> ((#[trigger] self.cells[k]) matches Some(p) ==> p.wf())
    }

    /// This grid's mathematical content.
    pub open spec fn model(self) -> GridModel {
        GridModel { cells: self.cells@, width: self.width as int, height: self.height as int }
    }

    pub open spec fn spec_in_bounds(self, x: int, y: int) -> bool {
        self.model().in_bounds(x, y)
    }

    /// The occupant at a coordinate; out-of-bounds positions are absent.
    pub open spec fn spec_cell(self, x: int, y: int) -> Option<Particle> {
        self.model().cell(x, y)
    }

    /// A void cell is in bounds and empty; out-of-bounds positions are not
    /// void (the boundary blocks movement).
    pub open spec fn spec_void(self, x: int, y: int) -> bool {
        self.model().void(x, y)
    }

    pub open spec fn spec_is_fluid(self, x: int, y: int) -> bool {
        self.model().is_fluid(x, y)
    }

    /// All eight neighbors are non-void.
    pub open spec fn spec_surrounded(self, x: int, y: int) -> bool {
        self.model().surrounded(x, y)
    }

    /// The occupant at `position`, copied out; absent when the position is
    /// out of bounds or the cell is empty.
    pub fn get(&self, position: Vec2) -> (r: Option<Particle>)
        requires
            self.wf(),
        ensures
            r == self.spec_cell(position.x as int, position.y as int),
    {
        if position.x >= 0 && (position.x as usize) < self.width && position.y >= 0
            && (position.y as usize) < self.height {
            proof {
                lemma_grid_index_bound(
                    position.x as int,
                    position.y as int,
                    self.width as int,
                    self.height as int,
                );
            }
            let idx = (position.x as usize) * self.height + (position.y as usize);
            self.cells[idx]
        } else {
            None
        }
    }

    /// True exactly when `position` is in bounds and empty.
    pub fn void(&self, position: Vec2) -> (r: bool)
        requires
            self.wf(),
        ensures
            r == self.spec_void(position.x as int, position.y as int),
    {
        if position.x >= 0 && (position.x as usize) < self.width && position.y >= 0
            && (position.y as usize) < self.height {
            proof {
                lemma_grid_index_bound(
                    position.x as int,
                    position.y as int,
                    self.width as int,
                    self.height as int,
                );
            }
            let idx = (position.x as usize) * self.height + (position.y as usize);
            self.cells[idx].is_none()
        } else {
            false
        }
    }

    /// True exactly when `position` is in bounds and holds a fluid.
    pub fn is_fluid(&self, position: Vec2) -> (r: bool)
        requires
            self.wf(),
        ensures
            r == self.spec_is_fluid(position.x as int, position.y as int),
    {
        match self.get(position) {
            Some(p) => p.is_fluid(),
            None => false,
        }
    }

    /// True exactly when all eight neighbors of `position` are non-void;
    /// a neighbor beyond the boundary counts as occupied, so a position
    /// far outside the grid is trivially surrounded.
    pub fn surrounded(&self, position: Vec2) -> (r: bool)
        requires
            self.wf(),
        ensures
            r == self.spec_surrounded(position.x as int, position.y as int),
    {
        let x = position.x;
        let y = position.y;
        if x < -1_000_000 || x > 1_000_000 || y < -1_000_000 || y > 1_000_000 {
            return true;
        }
        !self.void(Vec2::new(x - 1, y)) && !self.void(Vec2::new(x - 1, y - 1)) && !self.void(
            Vec2::new(x, y - 1),
        ) && !self.void(Vec2::new(x + 1, y - 1)) && !self.void(Vec2::new(x + 1, y)) && !self.void(
            Vec2::new(x + 1, y + 1),
        ) && !self.void(Vec2::new(x, y + 1)) && !self.void(Vec2::new(x - 1, y + 1))
    }

    /// Out-of-bounds positions never report void (they block movement) and
    /// never report an occupant; in particular every one-step-beyond
    /// neighbor query at the grid edge is answered without touching
    /// storage.
    pub proof fn lemma_boundary_blocks(self, x: int, y: int)
        requires
            !self.spec_in_bounds(x, y),
        ensures
            !self.spec_void(x, y),
            self.spec_cell(x, y) is None,
    {
    }

    /// Build a grid seeded by the fixed demo scene policy; the scan flag
    /// starts unflipped.
    #[verifier::loop_isolation(false)]
    pub fn empty(width: usize, height: usize, rng: &mut rand::rngs::StdRng) -> (g: Grid)
        requires
            1 <= width <= 30_000,
            1 <= height <= 30_000,
        ensures
            g.wf(),
            g.width == width,
            g.height == height,
            g.flip == false,
            forall|x: int, y: int|
                g.spec_in_bounds(x, y) ==> spec_seeded_cell_ok(#[trigger] g.spec_cell(x, y), x, y),
    {
        let mut cells: Vec<Option<Particle>> = Vec::new();
        let mut x: usize = 0;
        while x < width
            invariant
                x <= width,
                cells@.len() == x * height,
                forall|k: int|
                    0 <= k < cells@.len() ==> spec_seeded_cell_ok(
                        #[trigger] cells@[k],
                        k / (height as int),
                        k % (height as int),
                    ),
                forall|k: int|
                    0 <= k < cells@.len() ==> ((#[trigger] cells@[k]) matches Some(p) ==> p.wf()),
            decreases width - x,
        {
            let mut y: usize = 0;
            while y < height
                invariant
                    y <= height,
                    x < width,
                    cells@.len() == x * height + y,
                    forall|k: int|
                        0 <= k < cells@.len() ==> spec_seeded_cell_ok(
                            #[trigger] cells@[k],
                            k / (height as int),
                            k % (height as int),
                        ),
                    forall|k: int|
                        0 <= k < cells@.len() ==> ((#[trigger] cells@[k]) matches Some(p)
                            ==> p.wf()),
                decreases height - y,
            {
                let c: Option<Particle> = if x > y + 300 {
                    Some(Particle::solid())
                } else if x > 120 && x < 180 && y > 250 {
                    Some(Particle::fluid(rng).particle())
                } else {
                    None
                };
                proof {
                    lemma_grid_index_bound(x as int, y as int, width as int, height as int);
                    vstd::arithmetic::div_mod::lemma_fundamental_div_mod_converse(
                        x as int * height as int + y as int,
                        height as int,
                        x as int,
                        y as int,
                    );
                    assert(spec_seeded_cell_ok(c, x as int, y as int));
                }
                cells.push(c);
                y = y + 1;
            }
            proof {
                assert((x + 1) * (height as int) == x * (height as int) + (height as int))
                    by (nonlinear_arith);
            }
            x = x + 1;
        }
        let g = Grid { cells, width, height, flip: false };
        proof {
            assert forall|xx: int, yy: int| g.spec_in_bounds(xx, yy) implies spec_seeded_cell_ok(
                #[trigger] g.spec_cell(xx, yy),
                xx,
                yy,
            ) by {
                lemma_grid_index_bound(xx, yy, width as int, height as int);
                vstd::arithmetic::div_mod::lemma_fundamental_div_mod_converse(
                    xx * (height as int) + yy,
                    height as int,
                    xx,
                    yy,
                );
            };
        }
        g
    }

    /// The external spawn and removal hook: put `c` (a particle, or
    /// nothing) at the in-bounds coordinate `(x, y)`; every other cell is
    /// untouched.
    pub fn set_cell(&mut self, x: usize, y: usize, c: Option<Particle>)
        requires
            old(self).wf(),
            x < old(self).width,
            y < old(self).height,
            c matches Some(q) ==> q.wf(),
        ensures
            final(self).wf(),
            final(self).width == old(self).width,
            final(self).height == old(self).height,
            final(self).flip == old(self).flip,
            final(self).spec_cell(x as int, y as int) == c,
            forall|i: int, j: int|
                old(self).spec_in_bounds(i, j) && !(i == x && j == y)
                    ==> final(self).spec_cell(i, j) == old(self).spec_cell(i, j),
    {
        proof {
            lemma_grid_index_bound(x as int, y as int, self.width as int, self.height as int);
        }
        let idx = x * self.height + y;
        self.cells[idx] = c;
        proof {
            assert forall|i: int, j: int|
                old(self).spec_in_bounds(i, j) && !(i == x && j == y) implies self.spec_cell(i, j)
                == old(self).spec_cell(i, j) by {
                lemma_grid_index_bound(i, j, self.width as int, self.height as int);
                if i * (self.height as int) + j == x as int * (self.height as int) + y as int {
                    lemma_grid_index_inj(i, j, x as int, y as int, self.height as int);
                }
            };
        }
    }

    /// Update every occupied cell's particle in place for one tick,
    /// reading neighbors from the grid as it stood when the call began: no
    /// particle moves between cells, occupancy is untouched, and the cell
    /// at each coordinate becomes exactly the stepped occupant.
    #[verifier::loop_isolation(false)]
    pub fn update_state(&mut self)
        requires
            old(self).wf(),
        ensures
            final(self).wf(),
            final(self).width == old(self).width,
            final(self).height == old(self).height,
            final(self).flip == old(self).flip,
            forall|x: int, y: int|
                old(self).spec_in_bounds(x, y) ==> final(self).spec_cell(x, y) == spec_step_cell(
                    #[trigger] old(self).spec_cell(x, y),
                    x,
                    y,
                    *old(self),
                ),
    {
        let width = self.width;
        let height = self.height;
        let mut new_cells: Vec<Option<Particle>> = Vec::new();
        let mut x: usize = 0;
        while x < width
            invariant
                *self == *old(self),
                x <= width,
                new_cells@.len() == x * height,
                forall|k: int|
                    0 <= k < new_cells@.len() ==> #[trigger] new_cells@[k] == spec_step_cell(
                        old(self).cells@[k],
                        k / (height as int),
                        k % (height as int),
                        *old(self),
                    ),
                forall|k: int|
                    0 <= k < new_cells@.len() ==> ((#[trigger] new_cells@[k]) matches Some(p)
                        ==> p.wf()),
            decreases width - x,
        {
            let mut y: usize = 0;
            while y < height
                invariant
                    *self == *old(self),
                    y <= height,
                    x < width,
                    new_cells@.len() == x * height + y,
                    forall|k: int|
                        0 <= k < new_cells@.len() ==> #[trigger] new_cells@[k] == spec_step_cell(
                            old(self).cells@[k],
                            k / (height as int),
                            k % (height as int),
                            *old(self),
                        ),
                    forall|k: int|
                        0 <= k < new_cells@.len() ==> ((#[trigger] new_cells@[k]) matches Some(p)
                            ==> p.wf()),
                decreases height - y,
            {
                proof {
                    lemma_grid_index_bound(x as int, y as int, width as int, height as int);
                    vstd::arithmetic::div_mod::lemma_fundamental_div_mod_converse(
                        x as int * height as int + y as int,
                        height as int,
                        x as int,
                        y as int,
                    );
                }
                let idx = x * height + y;
                let cell = self.cells[idx];
                let c: Option<Particle> = match cell {
                    Some(p) => {
                        let mut q = p;
                        q.update_state(Vec2::new(x as i32, y as i32), self);
                        Some(q)
                    },
                    None => None,
                };
                new_cells.push(c);
                y = y + 1;
            }
            proof {
                assert((x + 1) * (height as int) == x * (height as int) + (height as int))
                    by (nonlinear_arith);
            }
            x = x + 1;
        }
        self.cells = new_cells;
        proof {
            assert forall|xx: int, yy: int| old(self).spec_in_bounds(xx, yy) implies self.spec_cell(
                xx,
                yy,
            ) == spec_step_cell(#[trigger] old(self).spec_cell(xx, yy), xx, yy, *old(self)) by {
                lemma_grid_index_bound(xx, yy, width as int, height as int);
                vstd::arithmetic::div_mod::lemma_fundamental_div_mod_converse(
                    xx * (height as int) + yy,
                    height as int,
                    xx,
                    yy,
                );
            };
        }
    }

    /// Ask every occupied cell, scanning rows from the bottom up and
    /// columns in the direction given by the scan flag, for a destination
    /// against the grid as it currently is — so cells processed earlier in
    /// the pass are already moved — and exchange the two cells' contents on
    /// a move; then toggle the scan flag. The result is exactly
    /// `spec_pos_pass` for some sequence of lateral signs (only a fluid's
    /// lateral spread consults the random sign; every other move is the
    /// same under both). Besides that, the multiset of cell contents is a
    /// permutation of the pre-state, the number of occupied cells is
    /// unchanged, every cell that held a solid particle still holds it,
    /// and a lone sand grain falls one row — or rests, on the bottom row.
    #[verifier::loop_isolation(false)]
    #[verifier::rlimit(100)]
    pub fn update_position(&mut self, rng: &mut rand::rngs::StdRng)
        requires
            old(self).wf(),
        ensures
            final(self).wf(),
            final(self).width == old(self).width,
            final(self).height == old(self).height,
            final(self).flip == !old(self).flip,
            spec_occupied_count(final(self).cells@) == spec_occupied_count(old(self).cells@),
            forall|x: int, y: int|
                old(self).spec_in_bounds(x, y) && spec_solid_cell(
                    #[trigger] old(self).spec_cell(x, y),
                ) ==> final(self).spec_cell(x, y) == old(self).spec_cell(x, y),
            forall|sx: int, sy: int|
                (#[trigger] spec_lone_sand(*old(self), sx, sy)) && sy + 1 < old(self).height
                    ==> spec_sand_moved(*old(self), *final(self), sx, sy),
            forall|sx: int, sy: int|
                (#[trigger] spec_lone_sand(*old(self), sx, sy)) && sy + 1 == old(self).height
                    ==> final(self).cells@ == old(self).cells@,
            final(self).cells@.to_multiset() == old(self).cells@.to_multiset(),
            forall|a: int, b: int|
                old(self).spec_in_bounds(a, b) ==> spec_sand_provenance(
                    old(self).model(),
                    #[trigger] final(self).spec_cell(a, b),
                    a,
                    b,
                ),
            exists|dirs: Seq<int>|
                {
                    &&& dirs.len() == old(self).width * old(self).height
                    &&& (forall|s: int|
                        0 <= s < dirs.len() ==> (#[trigger] dirs[s]) == 1 || dirs[s] == -1)
                    &&& final(self).cells@ == spec_pos_pass(old(self).model(), old(self).flip, dirs)
                },
    {
        let ghost m0 = self.model();
        let ghost f0 = self.flip;
        let ghost mut dirs: Seq<int> = Seq::new((self.width * self.height) as nat, |s: int| 1int);
        let mut yy: usize = self.height;
        while yy > 0
            invariant
                yy <= self.height,
                self.wf(),
                self.width == old(self).width,
                self.height == old(self).height,
                self.flip == old(self).flip,
                spec_occupied_count(self.cells@) == spec_occupied_count(old(self).cells@),
                self.cells@.to_multiset() == old(self).cells@.to_multiset(),
                forall|a: int, b: int|
                    old(self).spec_in_bounds(a, b) && b >= yy as int ==> spec_sand_provenance(
                        old(self).model(),
                        #[trigger] self.spec_cell(a, b),
                        a,
                        b,
                    ),
                forall|a: int, b: int|
                    old(self).spec_in_bounds(a, b) && b < yy as int && ((#[trigger] self.spec_cell(
                        a,
                        b,
                    )) matches Some(s) && s.spec_sand()) ==> self.spec_cell(a, b) == old(
                        self,
                    ).spec_cell(a, b),
                dirs.len() == old(self).width * old(self).height,
                forall|s: int| 0 <= s < dirs.len() ==> (#[trigger] dirs[s]) == 1 || dirs[s] == -1,
                yy == self.height ==> self.cells@ == old(self).cells@,
                yy < self.height ==> self.cells@ == spec_pass_upto(
                    m0,
                    f0,
                    yy as int,
                    old(self).width as int,
                    dirs,
                ),
                forall|x: int, y: int|
                    old(self).spec_in_bounds(x, y) && spec_solid_cell(
                        #[trigger] old(self).spec_cell(x, y),
                    ) ==> self.spec_cell(x, y) == old(self).spec_cell(x, y),
                forall|sx: int, sy: int|
                    (#[trigger] spec_lone_sand(*old(self), sx, sy)) && sy + 1 < old(self).height
                        ==> ((yy as int > sy ==> self.cells@ == old(self).cells@) && (yy as int
                            <= sy ==> spec_sand_moved(*old(self), *self, sx, sy))),
                forall|sx: int, sy: int|
                    (#[trigger] spec_lone_sand(*old(self), sx, sy)) && sy + 1 == old(self).height
                        ==> self.cells@ == old(self).cells@,
            decreases yy,
        {
            let y = yy - 1;
            proof {
                assert(self.cells@ == spec_pass_upto(m0, f0, y as int, 0, dirs));
            }
            let mut i: usize = 0;
            while i < self.width
                invariant
                    i <= self.width,
                    y < self.height,
                    self.wf(),
                    self.width == old(self).width,
                    self.height == old(self).height,
                    self.flip == old(self).flip,
                    spec_occupied_count(self.cells@) == spec_occupied_count(old(self).cells@),
                    self.cells@.to_multiset() == old(self).cells@.to_multiset(),
                    forall|a: int, b: int|
                        old(self).spec_in_bounds(a, b) && spec_scanned(
                            old(self).width as int,
                            old(self).flip,
                            y as int,
                            i as int,
                            a,
                            b,
                        ) ==> spec_sand_provenance(
                            old(self).model(),
                            #[trigger] self.spec_cell(a, b),
                            a,
                            b,
                        ),
                    forall|a: int, b: int|
                        old(self).spec_in_bounds(a, b) && !spec_scanned(
                            old(self).width as int,
                            old(self).flip,
                            y as int,
                            i as int,
                            a,
                            b,
                        ) && ((#[trigger] self.spec_cell(a, b)) matches Some(s) && s.spec_sand())
                            ==> self.spec_cell(a, b) == old(self).spec_cell(a, b),
                    dirs.len() == old(self).width * old(self).height,
                    forall|s: int|
                        0 <= s < dirs.len() ==> (#[trigger] dirs[s]) == 1 || dirs[s] == -1,
                    self.cells@ == spec_pass_upto(m0, f0, y as int, i as int, dirs),
                    forall|x: int, y2: int|
                        old(self).spec_in_bounds(x, y2) && spec_solid_cell(
                            #[trigger] old(self).spec_cell(x, y2),
                        ) ==> self.spec_cell(x, y2) == old(self).spec_cell(x, y2),
                    forall|sx: int, sy: int|
                        (#[trigger] spec_lone_sand(*old(self), sx, sy)) && sy + 1 < old(
                            self,
                        ).height ==> spec_lone_track(
                            *old(self),
                            *self,
                            y as int,
                            i as int,
                            sx,
                            sy,
                        ),
                    forall|sx: int, sy: int|
                        (#[trigger] spec_lone_sand(*old(self), sx, sy)) && sy + 1 == old(
                            self,
                        ).height ==> self.cells@ == old(self).cells@,
                decreases self.width - i,
            {
                let x = if self.flip {
                    self.width - 1 - i
                } else {
                    i
                };
                proof {
                    lemma_grid_index_bound(
                        x as int,
                        y as int,
                        self.width as int,
                        self.height as int,
                    );
                }
                let idx = x * self.height + y;
                let cell = self.cells[idx];
                let ghost ghead = *self;
                if let Some(p) = cell {
                    let dest = p.update_position(Vec2::new(x as i32, y as i32), self, rng);
                    if let Some(np) = dest {
                        let ghost gpre = *self;
                        let nx = np.x as usize;
                        let ny = np.y as usize;
                        proof {
                            lemma_grid_index_bound(
                                nx as int,
                                ny as int,
                                self.width as int,
                                self.height as int,
                            );
                        }
                        let nidx = nx * self.height + ny;
                        let target = self.cells[nidx];
                        let ghost s0 = self.cells@;
                        self.cells[nidx] = cell;
                        self.cells[idx] = target;
                        proof {
                            if idx == nidx {
                                // the walk accepted no step: the exchange
                                // writes the cell back to itself
                                assert(target == cell);
                                assert(self.cells@ =~= s0);
                            } else {
                                assert(cell != target);
                                lemma_count_update(s0, nidx as int, cell);
                                lemma_count_update(
                                    s0.update(nidx as int, cell),
                                    idx as int,
                                    target,
                                );
                                lemma_swap_cells_multiset(s0, nidx as int, idx as int);
                            }
                            assert(spec_occupied_count(self.cells@) == spec_occupied_count(s0));
                            assert(self.cells@ == spec_swap_cells(s0, nidx as int, idx as int));
                            lemma_scan_pos_bound(
                                y as int,
                                i as int,
                                old(self).width as int,
                                old(self).height as int,
                            );
                            let s_pos = (old(self).height as int - 1 - y as int) * (old(
                                self,
                            ).width as int) + i as int;
                            let dirs0 = dirs;
                            let d: int = if dest == crate::particle::spec_step_pos(
                                p,
                                x as int,
                                y as int,
                                gpre.model(),
                                1,
                            ) {
                                1
                            } else {
                                -1
                            };
                            dirs = dirs.update(s_pos, d);
                            lemma_pass_upto_agree(m0, f0, y as int, i as int, dirs0, dirs);
                            assert(crate::particle::spec_step_pos(
                                p,
                                x as int,
                                y as int,
                                gpre.model(),
                                d,
                            ) == dest);
                            assert(np.x as int * m0.height + np.y as int == nidx as int);
                            assert(x as int == spec_scan_x(m0.width, f0, i as int));
                            assert(self.cells@ == spec_pass_upto(
                                m0,
                                f0,
                                y as int,
                                i as int + 1,
                                dirs,
                            ));
                            assert forall|a: int, b: int|
                                old(self).spec_in_bounds(a, b) && spec_solid_cell(
                                    #[trigger] old(self).spec_cell(a, b),
                                ) implies self.spec_cell(a, b) == old(self).spec_cell(a, b) by {
                                lemma_grid_index_bound(
                                    a,
                                    b,
                                    self.width as int,
                                    self.height as int,
                                );
                                let kab = a * (self.height as int) + b;
                                if kab == idx as int {
                                    assert(gpre.spec_cell(a, b) == Some(p));
                                } else if kab == nidx as int {
                                    assert(gpre.spec_cell(a, b) == target);
                                    assert(!(np == (Vec2 { x: x as i32, y: y as i32 })));
                                }
                            };
                            assert forall|sx: int, sy: int|
                                (#[trigger] spec_lone_sand(*old(self), sx, sy)) && sy + 1 < old(
                                    self,
                                ).height implies spec_lone_track(
                                *old(self),
                                *self,
                                y as int,
                                i as int + 1,
                                sx,
                                sy,
                            ) by {
                                let g0 = *old(self);
                                let h = g0.height as int;
                                let w = g0.width as int;
                                lemma_grid_index_bound(sx, sy, w, h);
                                lemma_grid_index_bound(sx, sy + 1, w, h);
                                lemma_grid_index_bound(x as int, y as int, w, h);
                                let hit = (g0.flip && sx >= w - i as int) || (!g0.flip && sx < i
                                    as int);
                                if y as int > sy || (y as int == sy && !hit) {
                                    if x as int == sx && y as int == sy {
                                        assert(cell == g0.spec_cell(sx, sy));
                                        assert(g0.spec_cell(sx, sy + 1) is None);
                                        assert(gpre.spec_void(sx, sy + 1));
                                        assert(np == (Vec2 { x: sx as i32, y: (sy + 1) as i32 }));
                                        assert(nidx as int == sx * h + (sy + 1));
                                        assert(target is None);
                                        assert(spec_sand_moved(g0, *self, sx, sy));
                                    } else {
                                        assert(gpre.cells@[x as int * h + y as int]
                                            == g0.spec_cell(x as int, y as int));
                                        assert(false);
                                    }
                                } else {
                                    let kxy = x as int * h + y as int;
                                    if kxy == sx * h + (sy + 1) {
                                        lemma_grid_index_inj(x as int, y as int, sx, sy + 1, h);
                                        assert(false);
                                    } else if kxy == sx * h + sy {
                                        assert(gpre.cells@[kxy] is None);
                                        assert(false);
                                    } else {
                                        assert(g0.spec_cell(x as int, y as int) is None);
                                        assert(false);
                                    }
                                }
                            };
                            assert forall|sx: int, sy: int|
                                (#[trigger] spec_lone_sand(*old(self), sx, sy)) && sy + 1 == old(
                                    self,
                                ).height implies self.cells@ == old(self).cells@ by {
                                let g0 = *old(self);
                                let h = g0.height as int;
                                lemma_grid_index_bound(sx, sy, g0.width as int, h);
                                lemma_grid_index_bound(x as int, y as int, g0.width as int, h);
                                if x as int == sx && y as int == sy {
                                    assert(cell == g0.spec_cell(sx, sy));
                                    assert(dest is None);
                                    assert(false);
                                } else {
                                    assert(gpre.cells@[x as int * h + y as int] == g0.spec_cell(
                                        x as int,
                                        y as int,
                                    ));
                                    assert(false);
                                }
                            };
                            assert(!(target matches Some(s2) && s2.spec_sand())) by {
                                if np.x == x as i32 && np.y == y as i32 {
                                    assert(target == cell);
                                }
                            };
                            if p.spec_sand() {
                                assert(np.y as int == y as int + 1);
                                assert(x as int - 1 <= np.x as int <= x as int + 1);
                            }
                            assert(self.cells@ == gpre.cells@.update(
                                np.x as int * old(self).height as int + np.y as int,
                                Some(p),
                            ).update(
                                x as int * old(self).height as int + y as int,
                                target,
                            ));
                            lemma_provenance_swap(
                                *old(self),
                                gpre,
                                *self,
                                y as int,
                                i as int,
                                p,
                                np,
                                target,
                            );
                        }
                    } else {
                        proof {
                            lemma_scan_pos_bound(
                                y as int,
                                i as int,
                                old(self).width as int,
                                old(self).height as int,
                            );
                            let s_pos = (old(self).height as int - 1 - y as int) * (old(
                                self,
                            ).width as int) + i as int;
                            let dirs0 = dirs;
                            let d: int = if dest == crate::particle::spec_step_pos(
                                p,
                                x as int,
                                y as int,
                                ghead.model(),
                                1,
                            ) {
                                1
                            } else {
                                -1
                            };
                            dirs = dirs.update(s_pos, d);
                            lemma_pass_upto_agree(m0, f0, y as int, i as int, dirs0, dirs);
                            assert(crate::particle::spec_step_pos(
                                p,
                                x as int,
                                y as int,
                                ghead.model(),
                                d,
                            ) == dest);
                            assert(x as int == spec_scan_x(m0.width, f0, i as int));
                            assert(self.cells@ == spec_pass_upto(
                                m0,
                                f0,
                                y as int,
                                i as int + 1,
                                dirs,
                            ));
                            assert forall|sx: int, sy: int|
                                (#[trigger] spec_lone_sand(*old(self), sx, sy)) && sy + 1 < old(
                                    self,
                                ).height implies spec_lone_track(
                                *old(self),
                                *self,
                                y as int,
                                i as int + 1,
                                sx,
                                sy,
                            ) by {
                                let g0 = *old(self);
                                let h = g0.height as int;
                                let w = g0.width as int;
                                lemma_grid_index_bound(sx, sy, w, h);
                                lemma_grid_index_bound(sx, sy + 1, w, h);
                                lemma_grid_index_bound(x as int, y as int, w, h);
                                if y as int == sy && !((g0.flip && sx >= w - i as int) || (
                                !g0.flip && sx < i as int)) && ((g0.flip && sx >= w - (i as int
                                    + 1)) || (!g0.flip && sx < i as int + 1)) {
                                    assert(x as int == sx);
                                    assert(cell == g0.spec_cell(sx, sy));
                                    assert(g0.spec_cell(sx, sy + 1) is None);
                                    assert(ghead.spec_void(sx, sy + 1));
                                    assert(false);
                                }
                            };
                            lemma_provenance_nowrite(*old(self), *self, y as int, i as int);
                        }
                    }
                } else {
                    proof {
                        assert(x as int == spec_scan_x(m0.width, f0, i as int));
                        assert(self.cells@ == spec_pass_upto(m0, f0, y as int, i as int + 1, dirs));
                        lemma_provenance_nowrite(*old(self), *self, y as int, i as int);
                        assert forall|sx: int, sy: int|
                            (#[trigger] spec_lone_sand(*old(self), sx, sy)) && sy + 1 < old(
                                self,
                            ).height implies spec_lone_track(
                            *old(self),
                            *self,
                            y as int,
                            i as int + 1,
                            sx,
                            sy,
                        ) by {
                            let g0 = *old(self);
                            let h = g0.height as int;
                            let w = g0.width as int;
                            lemma_grid_index_bound(sx, sy, w, h);
                            lemma_grid_index_bound(sx, sy + 1, w, h);
                            lemma_grid_index_bound(x as int, y as int, w, h);
                            if y as int == sy && !((g0.flip && sx >= w - i as int) || (!g0.flip
                                && sx < i as int)) && ((g0.flip && sx >= w - (i as int + 1)) || (
                            !g0.flip && sx < i as int + 1)) {
                                assert(x as int == sx);
                                assert(cell == g0.spec_cell(sx, sy));
                                assert(false);
                            }
                        };
                    }
                }
                i = i + 1;
            }
            yy = yy - 1;
        }
        let ghost gdone = *self;
        proof {
            assert(self.cells@ == spec_pos_pass(m0, f0, dirs));
        }
        self.flip = !self.flip;
        proof {
            assert forall|a: int, b: int| old(self).spec_in_bounds(a, b) implies
                spec_sand_provenance(old(self).model(), #[trigger] self.spec_cell(a, b), a, b) by {
                assert(self.spec_cell(a, b) == gdone.spec_cell(a, b));
            };
            let dw = dirs;
            assert(dw.len() == old(self).width * old(self).height && (forall|s: int|
                0 <= s < dw.len() ==> (#[trigger] dw[s]) == 1 || dw[s] == -1) && self.cells@
                == spec_pos_pass(old(self).model(), old(self).flip, dw));
        }
    }

    /// Export the grid as a flat row-major color buffer: four channels per
    /// cell (r, g, b, a, in thousandths of a unit), one cell after another
    /// left to right, one row after another top to bottom; an empty cell
    /// contributes four zeros and an occupied cell its particle's color.
    #[verifier::loop_isolation(false)]
    pub fn to_texture(&self) -> (data: Vec<i32>)
        requires
            self.wf(),
        ensures
            data@.len() == self.width * self.height * 4,
            forall|x: int, y: int|
                self.spec_in_bounds(x, y) ==> #[trigger] spec_texel_ok(data@, *self, x, y),
    {
        let width = self.width;
        let height = self.height;
        let mut data: Vec<i32> = Vec::new();
        let mut y: usize = 0;
        while y < height
            invariant
                y <= height,
                data@.len() == 4 * (y * width),
                forall|a: int, b: int|
                    0 <= a < width && 0 <= b < y ==> #[trigger] spec_texel_ok(data@, *self, a, b),
            decreases height - y,
        {
            let mut x: usize = 0;
            while x < width
                invariant
                    x <= width,
                    y < height,
                    data@.len() == 4 * (y * width + x),
                    forall|a: int, b: int|
                        (0 <= a < width && 0 <= b < y) || (b == y && 0 <= a < x)
                            ==> #[trigger] spec_texel_ok(data@, *self, a, b),
                decreases width - x,
            {
                proof {
                    lemma_grid_index_bound(x as int, y as int, width as int, height as int);
                }
                let idx = x * height + y;
                let col: crate::color::Rgba = match self.cells[idx] {
                    Some(p) => p.color(),
                    None => crate::color::Rgba::new(0, 0, 0, 0),
                };
                let ghost d0 = data@;
                data.push(col.r);
                data.push(col.g);
                data.push(col.b);
                data.push(col.a);
                proof {
                    assert(spec_texel_ok(data@, *self, x as int, y as int));
                    assert forall|a: int, b: int|
                        (0 <= a < width && 0 <= b < y) || (b == y && 0 <= a < x)
                            implies #[trigger] spec_texel_ok(data@, *self, a, b) by {
                        assert(b * width + a + 1 <= y * width + x) by (nonlinear_arith)
                            requires
                                ((0 <= a < width && 0 <= b < y) || (b == y && 0 <= a < x))
                                    && 0 <= x && 0 <= y && 0 < width;
                        assert(spec_texel_ok(d0, *self, a, b));
                    };
                }
                x = x + 1;
            }
            proof {
                assert(4 * ((y + 1) * (width as int)) == 4 * (y * (width as int) + (width as int)))
                    by (nonlinear_arith);
            }
            y = y + 1;
        }
        proof {
            assert(4 * ((height as int) * (width as int)) == (width as int) * (height as int) * 4)
                by (nonlinear_arith);
        }
        data
    }

    /// One tick: the state-update pass against the frozen pre-tick grid,
    /// then the position-update pass over the live grid. The grid keeps
    /// its `width * height` cells, the number of occupied cells is
    /// unchanged, and a cell holding a solid particle holds exactly that
    /// solid particle afterwards — a solid's coordinate is invariant over
    /// any number of ticks.
    pub fn update(&mut self, rng: &mut rand::rngs::StdRng)
        requires
            old(self).wf(),
        ensures
            final(self).wf(),
            final(self).width == old(self).width,
            final(self).height == old(self).height,
            final(self).flip == !old(self).flip,
            final(self).cells@.len() == old(self).cells@.len(),
            spec_occupied_count(final(self).cells@) == spec_occupied_count(old(self).cells@),
            forall|x: int, y: int|
                old(self).spec_in_bounds(x, y) && spec_solid_cell(
                    #[trigger] old(self).spec_cell(x, y),
                ) ==> final(self).spec_cell(x, y) == old(self).spec_cell(x, y),
            forall|sx: int, sy: int|
                (#[trigger] spec_lone_sand(*old(self), sx, sy)) && sy + 1 < old(self).height
                    ==> spec_sand_moved(*old(self), *final(self), sx, sy),
            forall|sx: int, sy: int|
                (#[trigger] spec_lone_sand(*old(self), sx, sy)) && sy + 1 == old(self).height
                    ==> final(self).cells@ == old(self).cells@,
            forall|a: int, b: int|
                old(self).spec_in_bounds(a, b) ==> spec_sand_provenance(
                    GridModel {
                        cells: spec_state_pass(*old(self)),
                        width: old(self).width as int,
                        height: old(self).height as int,
                    },
                    #[trigger] final(self).spec_cell(a, b),
                    a,
                    b,
                ),
            exists|dirs: Seq<int>|
                {
                    &&& dirs.len() == old(self).width * old(self).height
                    &&& (forall|s: int|
                        0 <= s < dirs.len() ==> (#[trigger] dirs[s]) == 1 || dirs[s] == -1)
                    &&& final(self).cells@ == spec_pos_pass(
                        GridModel {
                            cells: spec_state_pass(*old(self)),
                            width: old(self).width as int,
                            height: old(self).height as int,
                        },
                        old(self).flip,
                        dirs,
                    )
                },
    {
        let ghost g0 = *self;
        self.update_state();
        let ghost gmid = *self;
        proof {
            let h = g0.height as int;
            let w = g0.width as int;
            assert forall|k: int| 0 <= k < gmid.cells@.len() implies ((#[trigger] gmid.cells@[k])
                is Some <==> g0.cells@[k] is Some) by {
                lemma_grid_index_decomp(k, w, h);
                assert(gmid.spec_cell(k / h, k % h) == spec_step_cell(
                    g0.spec_cell(k / h, k % h),
                    k / h,
                    k % h,
                    g0,
                ));
            };
            lemma_count_pointwise(gmid.cells@, g0.cells@);
            assert forall|k: int| 0 <= k < gmid.cells@.len() implies #[trigger] gmid.cells@[k]
                == spec_step_cell(g0.cells@[k], k / h, k % h, g0) by {
                lemma_grid_index_decomp(k, w, h);
                assert(gmid.spec_cell(k / h, k % h) == spec_step_cell(
                    g0.spec_cell(k / h, k % h),
                    k / h,
                    k % h,
                    g0,
                ));
            };
            assert(gmid.cells@ =~= spec_state_pass(g0));
            assert forall|x: int, y: int|
                g0.spec_in_bounds(x, y) && spec_solid_cell(#[trigger] g0.spec_cell(x, y))
                implies gmid.spec_cell(x, y) == g0.spec_cell(x, y) by {
                lemma_grid_index_bound(x, y, w, h);
                assert((g0.cells@[x * h + y] matches Some(q) ==> q.wf()));
                let p = g0.spec_cell(x, y).unwrap();
                p.lemma_step_state_wf(x, y, g0);
            };
            assert forall|sx: int, sy: int| (#[trigger] spec_lone_sand(g0, sx, sy)) implies (
            spec_lone_sand(gmid, sx, sy) && gmid.cells@ == g0.cells@) by {
                assert forall|k: int| 0 <= k < gmid.cells@.len() implies #[trigger] gmid.cells@[k]
                    == g0.cells@[k] by {
                    lemma_grid_index_decomp(k, w, h);
                    assert(gmid.spec_cell(k / h, k % h) == spec_step_cell(
                        g0.spec_cell(k / h, k % h),
                        k / h,
                        k % h,
                        g0,
                    ));
                    if !(k / h == sx && k % h == sy) {
                        assert(g0.spec_cell(k / h, k % h) is None);
                    }
                };
                assert(gmid.cells@ =~= g0.cells@);
                assert forall|x: int, y: int|
                    gmid.spec_in_bounds(x, y) && !(x == sx && y == sy) implies (
                #[trigger] gmid.spec_cell(x, y)) is None by {
                    assert(g0.spec_cell(x, y) is None);
                };
            };
        }
        self.update_position(rng);
        proof {
            assert forall|sx: int, sy: int|
                (#[trigger] spec_lone_sand(g0, sx, sy)) && sy + 1 < g0.height implies
                spec_sand_moved(g0, *self, sx, sy) by {
                assert(spec_lone_sand(gmid, sx, sy));
                assert(spec_sand_moved(gmid, *self, sx, sy));
            };
            assert forall|sx: int, sy: int|
                (#[trigger] spec_lone_sand(g0, sx, sy)) && sy + 1 == g0.height implies self.cells@
                == g0.cells@ by {
                assert(spec_lone_sand(gmid, sx, sy));
            };
            let dirs = choose|dirs: Seq<int>|
                {
                    &&& dirs.len() == gmid.width * gmid.height
                    &&& (forall|s: int|
                        0 <= s < dirs.len() ==> (#[trigger] dirs[s]) == 1 || dirs[s] == -1)
                    &&& self.cells@ == spec_pos_pass(gmid.model(), gmid.flip, dirs)
                };
            assert(gmid.model() == (GridModel {
                cells: spec_state_pass(g0),
                width: g0.width as int,
                height: g0.height as int,
            }));
            assert forall|a: int, b: int| g0.spec_in_bounds(a, b) implies spec_sand_provenance(
                GridModel {
                    cells: spec_state_pass(g0),
                    width: g0.width as int,
                    height: g0.height as int,
                },
                #[trigger] self.spec_cell(a, b),
                a,
                b,
            ) by {
                assert(spec_sand_provenance(gmid.model(), self.spec_cell(a, b), a, b));
            };
            assert(dirs.len() == g0.width * g0.height && (forall|s: int|
                0 <= s < dirs.len() ==> (#[trigger] dirs[s]) == 1 || dirs[s] == -1) && self.cells@
                == spec_pos_pass(
                GridModel {
                    cells: spec_state_pass(g0),
                    width: g0.width as int,
                    height: g0.height as int,
                },
                g0.flip,
                dirs,
            ));
        }
    }
}

/// The color a cell contributes to the export buffer: its particle's
/// color, or transparent black when empty.
pub open spec fn spec_cell_color(c: Option<Particle>) -> crate::color::Rgba {
    match c {
        Some(p) => Particle::spec_color(p),
        None => crate::color::Rgba { r: 0, g: 0, b: 0, a: 0 },
    }
}

/// The four channels of cell `(x, y)` stand at offsets `4 * (y * width +
/// x)` through three past it in the export buffer, in r, g, b, a order.
pub open spec fn spec_texel_ok(data: Seq<i32>, g: Grid, x: int, y: int) -> bool {
    let c = spec_cell_color(g.spec_cell(x, y));
    let o = 4 * (y * g.width + x);
    &&& data[o] == c.r
    &&& data[o + 1] == c.g
    &&& data[o + 2] == c.b
    &&& data[o + 3] == c.a
}

/// The position pass's progress over a lone sand grain at `(sx, sy)`:
/// while the scan has not yet reached the grain's cell (rows are processed
/// bottom-up, columns in the order the scan flag gives), the grid is
/// untouched; once it has, the grain has moved exactly one row down.
pub open spec fn spec_lone_track(g0: Grid, cur: Grid, y: int, i: int, sx: int, sy: int) -> bool {
    &&& (y > sy ==> cur.cells@ == g0.cells@)
    &&& (y < sy ==> spec_sand_moved(g0, cur, sx, sy))
    &&& (y == sy ==> (if (g0.flip && sx >= g0.width - i) || (!g0.flip && sx < i) {
        spec_sand_moved(g0, cur, sx, sy)
    } else {
        cur.cells@ == g0.cells@
    }))
}

/// The grid holds exactly one particle: a sand grain at `(sx, sy)`.
pub open spec fn spec_lone_sand(g: Grid, sx: int, sy: int) -> bool {
    &&& g.spec_in_bounds(sx, sy)
    &&& g.spec_cell(sx, sy) matches Some(p) && p.spec_sand()
    &&& forall|x: int, y: int|
        g.spec_in_bounds(x, y) && !(x == sx && y == sy) ==> (#[trigger] g.spec_cell(x, y)) is None
}

/// `g1`'s cells are `g0`'s with the occupant of `(sx, sy)` moved one row
/// down and its old cell emptied.
pub open spec fn spec_sand_moved(g0: Grid, g1: Grid, sx: int, sy: int) -> bool {
    g1.cells@ == g0.cells@.update(sx * g0.height + (sy + 1), g0.spec_cell(sx, sy)).update(
        sx * g0.height + sy,
        None,
    )
}

/// Reading the moved state back as cells: after a lone sand grain with a
/// void cell below it falls, its old cell is empty, the same grain stands
/// exactly one row lower, and it is again the only particle — so a lone
/// grain sinks one row per tick until it reaches the bottom.
pub proof fn lemma_lone_sand_falls(g0: Grid, g1: Grid, sx: int, sy: int)
    requires
        g0.wf(),
        g1.width == g0.width,
        g1.height == g0.height,
        spec_lone_sand(g0, sx, sy),
        sy + 1 < g0.height,
        spec_sand_moved(g0, g1, sx, sy),
    ensures
        g1.spec_cell(sx, sy + 1) == g0.spec_cell(sx, sy),
        g1.spec_cell(sx, sy) is None,
        spec_lone_sand(g1, sx, sy + 1),
{
    let h = g0.height as int;
    let w = g0.width as int;
    lemma_grid_index_bound(sx, sy, w, h);
    lemma_grid_index_bound(sx, sy + 1, w, h);
    assert forall|x: int, y: int|
        g1.spec_in_bounds(x, y) && !(x == sx && y == sy + 1) implies (#[trigger] g1.spec_cell(
        x,
        y,
    )) is None by {
        lemma_grid_index_bound(x, y, w, h);
        let kxy = x * h + y;
        if kxy == sx * h + sy {
            lemma_grid_index_inj(x, y, sx, sy, h);
        } else if kxy == sx * h + (sy + 1) {
            lemma_grid_index_inj(x, y, sx, sy + 1, h);
        } else {
            if !(x == sx && y == sy) {
                assert(g0.spec_cell(x, y) is None);
            }
        }
    };
}

/// The fixed demo scene policy: a diagonal solid wedge.
pub open spec fn spec_seed_solid(x: int, y: int) -> bool {
    x > y + 300
}

/// The fixed demo scene policy: a column of fluid.
pub open spec fn spec_seed_fluid(x: int, y: int) -> bool {
    120 < x < 180 && y > 250
}

/// What the demo scene policy puts at `(x, y)`: the solid wedge, or a
/// fresh fluid wrapped as a kinetic particle at rest, or nothing.
pub open spec fn spec_seeded_cell_ok(c: Option<Particle>, x: int, y: int) -> bool {
    if spec_seed_solid(x, y) {
        c == Some(Particle::spec_solid_particle())
    } else if spec_seed_fluid(x, y) {
        c matches Some(p) && p matches Particle::Particle {
            velocity,
            sub_position,
            to_move,
            base,
        } && velocity == (Vec2 { x: 0, y: 0 }) && sub_position == (Vec2 { x: 0, y: 0 }) && to_move
            == (Vec2 { x: 0, y: 0 }) && Particle::spec_fresh_fluid(base.spec_embed())
    } else {
        c is None
    }
}

} // verus!
