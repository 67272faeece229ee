use vstd::prelude::*;

use crate::color::{blend, spec_blend, Rgba};
use crate::geom::Vec2;
use crate::grid::{Grid, GridModel};
use crate::num::{isqrt, lemma_round_div_bound, mod10, round_div, spec_isqrt, spec_round_div};
use crate::rng::next_u64;

verus! {

/// Velocities and sub-cell displacements are stored in tenths of a cell.
/// This cap on a velocity component (one thousand cells per tick) keeps the
/// integration arithmetic in machine range; gravity saturates at it.
pub const VEL_MAX: i32 = 10000;

/// The fluid animation phase takes values 0 through 39; each tick advances
/// it by one step of a fortieth of the cycle, so its period is 40 ticks.
pub const PHASE_PERIOD: u32 = 40;

/// A resting particle: one governed only by local neighbor-occupancy
/// rules. A kinetic wrapper owns exactly one of these as its base; making
/// this a separate type rules out nested kinetic wrapping by construction.
#[derive(Clone, Copy, PartialEq, Eq, Structural, Debug)]
pub enum Resting {
    Solid { color: Rgba },
    Fluid { color: Rgba, second_color: Rgba, spread: u32, lerp: u32 },
    Sand { color: Rgba },
}

/// A cell's occupant. The `Particle` variant is the kinetic free-flight
/// wrapper: it owns a resting base particle and carries a velocity, the
/// fractional sub-cell remainder of its position (in [0, 1) per axis), and
/// the displacement accumulated for the current tick.
#[derive(Clone, Copy, PartialEq, Eq, Structural, Debug)]
pub enum Particle {
    Solid { color: Rgba },
    Fluid { color: Rgba, second_color: Rgba, spread: u32, lerp: u32 },
    Sand { color: Rgba },
    Particle { velocity: Vec2, sub_position: Vec2, to_move: Vec2, base: Resting },
}

impl Resting {
    /// Colors are in range, the fluid phase lies under its period, and the
    /// fluid spread radius is bounded.
    pub open spec fn wf(self) -> bool {
        match self {
            Resting::Solid { color } => color.wf(),
            Resting::Sand { color } => color.wf(),
            Resting::Fluid { color, second_color, spread, lerp } => {
                &&& color.wf()
                &&& second_color.wf()
                &&& lerp < PHASE_PERIOD
                &&& spread <= 10000
            },
        }
    }

    /// The same particle as a cell occupant.
    pub open spec fn spec_embed(self) -> Particle {
        match self {
            Resting::Solid { color } => Particle::Solid { color },
            Resting::Sand { color } => Particle::Sand { color },
            Resting::Fluid { color, second_color, spread, lerp } => Particle::Fluid {
                color,
                second_color,
                spread,
                lerp,
            },
        }
    }

    pub fn embed(self) -> (r: Particle)
        ensures
            r == self.spec_embed(),
    {
        match self {
            Resting::Solid { color } => Particle::Solid { color },
            Resting::Sand { color } => Particle::Sand { color },
            Resting::Fluid { color, second_color, spread, lerp } => Particle::Fluid {
                color,
                second_color,
                spread,
                lerp,
            },
        }
    }

    /// One state update of a resting particle: a fluid advances its
    /// animation phase by one step, modulo the period; solids and sand are
    /// unchanged.
    pub open spec fn spec_step(self) -> Resting {
        match self {
            Resting::Fluid { color, second_color, spread, lerp } => Resting::Fluid {
                color,
                second_color,
                spread,
                lerp: ((lerp + 1) % (PHASE_PERIOD as int)) as u32,
            },
            _ => self,
        }
    }

    /// The displayed color of a resting particle: fixed for solid and
    /// sand, the animated triangle-wave blend of the two fluid colors for
    /// fluid.
    pub open spec fn spec_color(self) -> Rgba {
        match self {
            Resting::Solid { color } => color,
            Resting::Sand { color } => color,
            Resting::Fluid { color, second_color, spread, lerp } => spec_blend(
                color,
                second_color,
                Particle::spec_phase_blend(lerp as int),
            ),
        }
    }

    pub fn color(&self) -> (r: Rgba)
        requires
            self.wf(),
        ensures
            r == self.spec_color(),
            r.wf(),
    {
        match *self {
            Resting::Solid { color } => color,
            Resting::Sand { color } => color,
            Resting::Fluid { color, second_color, spread, lerp } => {
                let t: i32 = if lerp >= 20 {
                    (50 * lerp - 1000) as i32
                } else {
                    (1000 - 50 * lerp) as i32
                };
                blend(color, second_color, t)
            },
        }
    }

    fn step(self) -> (r: Resting)
        requires
            self.wf(),
        ensures
            r == self.spec_step(),
            r.wf(),
    {
        match self {
            Resting::Fluid { color, second_color, spread, lerp } => Resting::Fluid {
                color,
                second_color,
                spread,
                lerp: (lerp + 1) % PHASE_PERIOD,
            },
            _ => self,
        }
    }
}

impl Particle {
    pub open spec fn spec_kinetic(self) -> bool {
        self matches Particle::Particle { .. }
    }

    pub open spec fn spec_fluid(self) -> bool {
        self matches Particle::Fluid { .. }
    }

    pub open spec fn spec_solid(self) -> bool {
        self matches Particle::Solid { .. }
    }

    pub open spec fn spec_sand(self) -> bool {
        self matches Particle::Sand { .. }
    }

    /// Colors are in range, the fluid phase lies under its period, the
    /// fluid spread radius is bounded, and kinetic components are bounded.
    pub open spec fn wf(self) -> bool {
        match self {
            Particle::Solid { color } => color.wf(),
            Particle::Sand { color } => color.wf(),
            Particle::Fluid { color, second_color, spread, lerp } => {
                &&& color.wf()
                &&& second_color.wf()
                &&& lerp < PHASE_PERIOD
                &&& spread <= 10000
            },
            Particle::Particle { velocity, sub_position, to_move, base } => {
                &&& base.wf()
                &&& -VEL_MAX <= velocity.x <= VEL_MAX
                &&& -VEL_MAX <= velocity.y <= VEL_MAX
                &&& 0 <= sub_position.x <= 9
                &&& 0 <= sub_position.y <= 9
                &&& -VEL_MAX <= to_move.x <= VEL_MAX + 9
                &&& -VEL_MAX <= to_move.y <= VEL_MAX + 9
            },
        }
    }

    /// The fixed solid color: mid grey, fully opaque.
    pub open spec fn spec_solid_particle() -> Particle {
        Particle::Solid { color: Rgba { r: 300, g: 300, b: 300, a: 1000 } }
    }

    pub open spec fn spec_fluid_color() -> Rgba {
        Rgba { r: 0, g: 200, b: 1000, a: 500 }
    }

    pub open spec fn spec_fluid_second_color() -> Rgba {
        Rgba { r: 0, g: 250, b: 850, a: 500 }
    }

    /// A freshly made fluid particle: the two fixed water colors, spread
    /// radius 4, and some phase below the period (it is drawn at random).
    pub open spec fn spec_fresh_fluid(p: Particle) -> bool {
        p matches Particle::Fluid { color, second_color, spread, lerp }
            && color == Self::spec_fluid_color()
            && second_color == Self::spec_fluid_second_color()
            && spread == 4u32
            && lerp < PHASE_PERIOD
    }

    /// A freshly made sand particle: a randomized warm hue, with the red
    /// channel in [700, 800), green in [500, 600), fixed blue and alpha.
    pub open spec fn spec_fresh_sand(p: Particle) -> bool {
        p matches Particle::Sand { color }
            && 700 <= color.r < 800
            && 500 <= color.g < 600
            && color.b == 100
            && color.a == 1000
    }

    /// An immobile solid particle.
    pub fn solid() -> (r: Particle)
        ensures
            r == Self::spec_solid_particle(),
            r.wf(),
    {
        Particle::Solid { color: Rgba::new(300, 300, 300, 1000) }
    }

    /// A fluid particle with the fixed water colors and a random phase.
    pub fn fluid(rng: &mut rand::rngs::StdRng) -> (r: Particle)
        ensures
            Self::spec_fresh_fluid(r),
            r.wf(),
    {
        let draw = next_u64(rng);
        let lerp = (draw % (PHASE_PERIOD as u64)) as u32;
        Particle::Fluid {
            color: Rgba::new(0, 200, 1000, 500),
            second_color: Rgba::new(0, 250, 850, 500),
            spread: 4,
            lerp,
        }
    }

    /// A sand particle with a randomized warm color.
    pub fn sand(rng: &mut rand::rngs::StdRng) -> (r: Particle)
        ensures
            Self::spec_fresh_sand(r),
            r.wf(),
    {
        let d1 = next_u64(rng);
        let d2 = next_u64(rng);
        let jitter_r = (d1 % 100) as i32;
        let jitter_g = (d2 % 100) as i32;
        Particle::Sand { color: Rgba::new(700 + jitter_r, 500 + jitter_g, 100, 1000) }
    }

    /// This particle as a resting base, for wrapping; defined for the
    /// non-kinetic variants.
    pub open spec fn spec_as_resting(self) -> Resting {
        match self {
            Particle::Solid { color } => Resting::Solid { color },
            Particle::Sand { color } => Resting::Sand { color },
            Particle::Fluid { color, second_color, spread, lerp } => Resting::Fluid {
                color,
                second_color,
                spread,
                lerp,
            },
            Particle::Particle { base, .. } => base,
        }
    }

    pub fn as_resting(self) -> (r: Resting)
        requires
            !self.spec_kinetic(),
        ensures
            r == self.spec_as_resting(),
            r.spec_embed() == self,
    {
        match self {
            Particle::Solid { color } => Resting::Solid { color },
            Particle::Sand { color } => Resting::Sand { color },
            Particle::Fluid { color, second_color, spread, lerp } => Resting::Fluid {
                color,
                second_color,
                spread,
                lerp,
            },
            Particle::Particle { base, .. } => base,
        }
    }

    /// Wrap a resting particle as a kinetic one at rest: zero velocity,
    /// zero sub-cell remainder, zero pending displacement.
    pub fn particle(self) -> (r: Particle)
        requires
            !self.spec_kinetic(),
            self.wf(),
        ensures
            r == (Particle::Particle {
                velocity: Vec2 { x: 0, y: 0 },
                sub_position: Vec2 { x: 0, y: 0 },
                to_move: Vec2 { x: 0, y: 0 },
                base: self.spec_as_resting(),
            }),
            r.wf(),
    {
        Particle::Particle {
            velocity: Vec2::new(0, 0),
            sub_position: Vec2::new(0, 0),
            to_move: Vec2::new(0, 0),
            base: self.as_resting(),
        }
    }

    /// Wrap a resting particle as a kinetic one with the given initial
    /// velocity, in tenths of a cell per tick.
    pub fn launched(self, velocity: Vec2) -> (r: Particle)
        requires
            !self.spec_kinetic(),
            self.wf(),
            -VEL_MAX <= velocity.x <= VEL_MAX,
            -VEL_MAX <= velocity.y <= VEL_MAX,
        ensures
            r == (Particle::Particle {
                velocity,
                sub_position: Vec2 { x: 0, y: 0 },
                to_move: Vec2 { x: 0, y: 0 },
                base: self.spec_as_resting(),
            }),
            r.wf(),
    {
        Particle::Particle {
            velocity,
            sub_position: Vec2::new(0, 0),
            to_move: Vec2::new(0, 0),
            base: self.as_resting(),
        }
    }

    pub fn is_fluid(&self) -> (r: bool)
        ensures
            r == self.spec_fluid(),
    {
        match self {
            Particle::Fluid { .. } => true,
            _ => false,
        }
    }

    pub fn is_solid(&self) -> (r: bool)
        ensures
            r == self.spec_solid(),
    {
        match self {
            Particle::Solid { .. } => true,
            _ => false,
        }
    }

    pub fn is_sand(&self) -> (r: bool)
        ensures
            r == self.spec_sand(),
    {
        match self {
            Particle::Sand { .. } => true,
            _ => false,
        }
    }

    pub fn is_kinetic(&self) -> (r: bool)
        ensures
            r == self.spec_kinetic(),
    {
        match self {
            Particle::Particle { .. } => true,
            _ => false,
        }
    }

    /// Gravity pulls toward larger `y` by one tenth of a cell per tick,
    /// saturating at the velocity cap.
    pub open spec fn spec_gravity(vy: int) -> int {
        if vy >= VEL_MAX {
            VEL_MAX as int
        } else {
            vy + 1
        }
    }

    /// The forward collision probe offset: a step of about 1.8 cells along
    /// the velocity direction, each component rounded to the nearest
    /// integer; zero when the velocity is zero.
    pub open spec fn spec_probe_offset(vx: int, vy: int) -> (int, int) {
        let m = spec_isqrt(vx * vx + vy * vy);
        if m == 0 {
            (0, 0)
        } else {
            (spec_round_div(18 * vx, 10 * m), spec_round_div(18 * vy, 10 * m))
        }
    }

    /// The probe hits when the probed cell holds a non-kinetic particle,
    /// or lies out of bounds (the boundary blocks); a kinetic particle at
    /// the probed cell, an empty in-bounds cell, and a zero velocity all
    /// miss.
    pub open spec fn spec_probe_hit(vx: int, vy: int, x: int, y: int, g: Grid) -> bool {
        if vx == 0 && vy == 0 {
            false
        } else {
            let o = Self::spec_probe_offset(vx, vy);
            match g.spec_cell(x + o.0, y + o.1) {
                Some(q) => !q.spec_kinetic(),
                None => !g.spec_in_bounds(x + o.0, y + o.1),
            }
        }
    }

    /// One state update of a particle at `(x, y)` against the frozen grid
    /// `g`: a fluid advances its phase; a kinetic particle applies
    /// gravity, integrates its sub-cell position into this tick's pending
    /// displacement, keeps the fractional remainder, steps its base, and
    /// settles to that base when the forward probe hits; solids and sand
    /// are unchanged. No particle moves between cells here.
    pub open spec fn spec_step_state(self, x: int, y: int, g: Grid) -> Particle {
        match self {
            Particle::Fluid { color, second_color, spread, lerp } => Particle::Fluid {
                color,
                second_color,
                spread,
                lerp: ((lerp + 1) % (PHASE_PERIOD as int)) as u32,
            },
            Particle::Particle { velocity, sub_position, to_move, base } => {
                let vx = velocity.x as int;
                let vy = Self::spec_gravity(velocity.y as int);
                let sx = sub_position.x as int + vx;
                let sy = sub_position.y as int + vy;
                let base2 = base.spec_step();
                if Self::spec_probe_hit(vx, vy, x, y, g) {
                    base2.spec_embed()
                } else {
                    Particle::Particle {
                        velocity: Vec2 { x: velocity.x, y: vy as i32 },
                        sub_position: Vec2 { x: (sx % 10) as i32, y: (sy % 10) as i32 },
                        to_move: Vec2 { x: sx as i32, y: sy as i32 },
                        base: base2,
                    }
                }
            },
            _ => self,
        }
    }

    /// A state update keeps solids and sand exactly as they are, keeps a
    /// fluid a fluid, keeps the result well formed, and never turns a
    /// resting particle kinetic.
    pub proof fn lemma_step_state_wf(self, x: int, y: int, g: Grid)
        requires
            self.wf(),
        ensures
            self.spec_step_state(x, y, g).wf(),
            self.spec_solid() ==> self.spec_step_state(x, y, g) == self,
            self.spec_sand() ==> self.spec_step_state(x, y, g) == self,
            self.spec_fluid() ==> self.spec_step_state(x, y, g).spec_fluid(),
            !self.spec_kinetic() ==> !self.spec_step_state(x, y, g).spec_kinetic(),
    {
        match self {
            Particle::Fluid { color, second_color, spread, lerp } => {
                assert(0 <= (lerp + 1) % (PHASE_PERIOD as int) < 40);
            },
            Particle::Particle { velocity, sub_position, to_move, base } => {},
            _ => {},
        }
    }

    /// The stepped copy of this particle; see `spec_step_state`.
    fn stepped(&self, position: Vec2, g: &Grid) -> (r: Particle)
        requires
            self.wf(),
            g.wf(),
            g.spec_in_bounds(position.x as int, position.y as int),
        ensures
            r == self.spec_step_state(position.x as int, position.y as int, *g),
            r.wf(),
    {
        proof {
            self.lemma_step_state_wf(position.x as int, position.y as int, *g);
        }
        match *self {
            Particle::Fluid { color, second_color, spread, lerp } => {
                let nl = (lerp + 1) % PHASE_PERIOD;
                Particle::Fluid { color, second_color, spread, lerp: nl }
            },
            Particle::Particle { velocity, sub_position, to_move, base } => {
                let vx = velocity.x;
                let vy = if velocity.y >= VEL_MAX {
                    VEL_MAX
                } else {
                    velocity.y + 1
                };
                let sx = sub_position.x + vx;
                let sy = sub_position.y + vy;
                let base2 = base.step();
                let hit: bool;
                if vx == 0 && vy == 0 {
                    hit = false;
                } else {
                    proof {
                        assert(0 <= vx * vx <= 100_000_000) by (nonlinear_arith)
                            requires -10000 <= vx <= 10000;
                        assert(0 <= vy * vy <= 100_000_000) by (nonlinear_arith)
                            requires -10000 <= vy <= 10000;
                        assert(1 <= vx * vx + vy * vy) by (nonlinear_arith)
                            requires !(vx == 0 && vy == 0);
                    }
                    let nsq = (vx * vx + vy * vy) as u64;
                    let m = isqrt(nsq) as i32;
                    proof {
                        assert(m >= 1) by (nonlinear_arith)
                            requires nsq < (m + 1) * (m + 1) && 1 <= nsq && m >= 0;
                        assert(-m <= vx <= m && -m <= vy <= m) by (nonlinear_arith)
                            requires
                                vx * vx + vy * vy <= nsq
                                    && nsq < (m + 1) * (m + 1)
                                    && m >= 0
                                    && 0 <= vx * vx
                                    && 0 <= vy * vy;
                        lemma_round_div_bound(18 * vx as int, 10 * m as int, 2);
                        lemma_round_div_bound(18 * vy as int, 10 * m as int, 2);
                    }
                    let px = round_div(18 * vx, 10 * m);
                    let py = round_div(18 * vy, 10 * m);
                    let probe = Vec2::new(position.x + px, position.y + py);
                    hit = match g.get(probe) {
                        Some(q) => !q.is_kinetic(),
                        None => !g.void(probe),
                    };
                }
                if hit {
                    base2.embed()
                } else {
                    Particle::Particle {
                        velocity: Vec2::new(vx, vy),
                        sub_position: Vec2::new(mod10(sx), mod10(sy)),
                        to_move: Vec2::new(sx, sy),
                        base: base2,
                    }
                }
            },
            _ => *self,
        }
    }

    /// Update this particle's own fields for one tick, reading neighbor
    /// occupancy from the frozen pre-tick grid `g`; this may settle a
    /// kinetic particle onto its base variant but never moves a particle
    /// to another cell.
    pub fn update_state(&mut self, position: Vec2, g: &Grid)
        requires
            old(self).wf(),
            g.wf(),
            g.spec_in_bounds(position.x as int, position.y as int),
        ensures
            *final(self) == old(self).spec_step_state(position.x as int, position.y as int, *g),
            final(self).wf(),
    {
        let r = self.stepped(position, g);
        *self = r;
    }

    /// The velocity of a kinetic particle.
    pub open spec fn spec_velocity(self) -> Vec2
        recommends
            self.spec_kinetic(),
    {
        match self {
            Particle::Particle { velocity, .. } => velocity,
            _ => Vec2 { x: 0, y: 0 },
        }
    }

    /// The base of a kinetic particle.
    pub open spec fn spec_base(self) -> Resting
        recommends
            self.spec_kinetic(),
    {
        match self {
            Particle::Particle { base, .. } => base,
            _ => Resting::Solid { color: Rgba { r: 0, g: 0, b: 0, a: 0 } },
        }
    }

    /// The blend factor (in thousandths) for the fluid phase: a triangle
    /// wave that peaks at the half period and returns to zero at the ends.
    pub open spec fn spec_phase_blend(lerp: int) -> int {
        if lerp >= 20 {
            50 * lerp - 1000
        } else {
            1000 - 50 * lerp
        }
    }

    /// The displayed color: fixed for solid and sand, the animated blend
    /// of the two fluid colors for fluid, and the base's color for a
    /// kinetic particle.
    pub open spec fn spec_color(p: Particle) -> Rgba {
        match p {
            Particle::Solid { color } => color,
            Particle::Sand { color } => color,
            Particle::Fluid { color, second_color, spread, lerp } => spec_blend(
                color,
                second_color,
                Self::spec_phase_blend(lerp as int),
            ),
            Particle::Particle { base, .. } => base.spec_color(),
        }
    }

    pub fn color(&self) -> (r: Rgba)
        requires
            self.wf(),
        ensures
            r == Self::spec_color(*self),
            r.wf(),
    {
        match *self {
            Particle::Solid { color } => color,
            Particle::Sand { color } => color,
            Particle::Fluid { color, second_color, spread, lerp } => {
                let t: i32 = if lerp >= 20 {
                    (50 * lerp - 1000) as i32
                } else {
                    (1000 - 50 * lerp) as i32
                };
                blend(color, second_color, t)
            },
            Particle::Particle { base, .. } => base.color(),
        }
    }
}

/// The fluid lateral scan: candidate offsets at row offset `j` (the row
/// below is scanned first, then the particle's own row) and horizontal
/// magnitude `i` from the spread radius down to 1, testing the side given
/// by `dir` first and then the mirrored side; the first void candidate is
/// the destination, and the raw candidate is returned without walking the
/// path to it.
pub open spec fn spec_fluid_scan(
    m: GridModel,
    x: int,
    y: int,
    dir: int,
    j: int,
    i: int,
    spread: int,
) -> Option<Vec2>
    decreases j, i,
{
    if i >= 1 {
        if m.void(x - i * dir, y + j) {
            Some(Vec2 { x: (x - i * dir) as i32, y: (y + j) as i32 })
        } else if m.void(x + i * dir, y + j) {
            Some(Vec2 { x: (x + i * dir) as i32, y: (y + j) as i32 })
        } else {
            spec_fluid_scan(m, x, y, dir, j, i - 1, spread)
        }
    } else if j >= 1 {
        spec_fluid_scan(m, x, y, dir, j - 1, spread, spread)
    } else {
        None
    }
}

/// The state of the kinetic forward walk after considering the steps 1
/// through `k` along the pending displacement `(tx, ty)` with magnitude
/// `m`: the furthest accepted coordinate, and whether a blocking cell has
/// been reached (after which no further step is taken).
pub open spec fn spec_kin_walk(
    m: GridModel,
    x: int,
    y: int,
    tx: int,
    ty: int,
    mag: int,
    k: int,
) -> (int, int, bool)
    decreases k,
{
    if k <= 0 {
        (x, y, false)
    } else {
        let prev = spec_kin_walk(m, x, y, tx, ty, mag, k - 1);
        if prev.2 {
            prev
        } else {
            let sx = spec_round_div(tx * k, mag);
            let sy = spec_round_div(ty * k, mag);
            if m.void(x + sx, y + sy) {
                (x + sx, y + sy, false)
            } else {
                (prev.0, prev.1, true)
            }
        }
    }
}

/// Once the walk has stopped it stays where it is.
pub proof fn lemma_kin_walk_stopped(
    m: GridModel,
    x: int,
    y: int,
    tx: int,
    ty: int,
    mag: int,
    k: int,
    n: int,
)
    requires
        0 <= k <= n,
        spec_kin_walk(m, x, y, tx, ty, mag, k).2,
    ensures
        spec_kin_walk(m, x, y, tx, ty, mag, n) == spec_kin_walk(m, x, y, tx, ty, mag, k),
    decreases n + 1 - k,
{
    if k < n {
        lemma_kin_walk_stopped(m, x, y, tx, ty, mag, k, n - 1);
    }
}

/// The destination a particle at `(x, y)` proposes against the grid `g`,
/// for the lateral sign `dir` a fluid would draw: solids never move; sand
/// prefers straight down, then down-left, then down-right, each taken when
/// void or fluid; a fluid falls into a void cell below, stays when fully
/// surrounded, and otherwise takes the first void cell of the lateral
/// scan; a kinetic particle walks up to the whole-cell magnitude of its
/// pending displacement and rests at the furthest accepted position
/// before the first blocking cell — its own position, when no step is
/// accepted.
pub open spec fn spec_step_pos(p: Particle, x: int, y: int, m: GridModel, dir: int) -> Option<
    Vec2,
> {
    match p {
        Particle::Solid { .. } => None,
        Particle::Sand { .. } => {
            if m.void(x, y + 1) || m.is_fluid(x, y + 1) {
                Some(Vec2 { x: x as i32, y: (y + 1) as i32 })
            } else if m.void(x - 1, y + 1) || m.is_fluid(x - 1, y + 1) {
                Some(Vec2 { x: (x - 1) as i32, y: (y + 1) as i32 })
            } else if m.void(x + 1, y + 1) || m.is_fluid(x + 1, y + 1) {
                Some(Vec2 { x: (x + 1) as i32, y: (y + 1) as i32 })
            } else {
                None
            }
        },
        Particle::Fluid { spread, .. } => {
            if m.void(x, y + 1) {
                Some(Vec2 { x: x as i32, y: (y + 1) as i32 })
            } else if m.surrounded(x, y) {
                None
            } else {
                spec_fluid_scan(m, x, y, dir, 1, spread as int, spread as int)
            }
        },
        Particle::Particle { to_move, .. } => {
            if to_move.x == 0 && to_move.y == 0 {
                None
            } else {
                let tx = to_move.x as int;
                let ty = to_move.y as int;
                let mag = spec_isqrt(tx * tx + ty * ty);
                let w = spec_kin_walk(m, x, y, tx, ty, mag, mag / 10);
                Some(Vec2 { x: w.0 as i32, y: w.1 as i32 })
            }
        },
    }
}

impl Particle {
    /// Ask this particle, standing at `position`, for its destination this
    /// tick, evaluated against the grid as it currently is. The result is
    /// the rule of `spec_step_pos` for one of the two lateral signs (the
    /// sign is drawn from `rng`, and only a fluid consults it). Any
    /// destination is in bounds and void — or fluid, for sand, which sinks
    /// by swapping, or the particle's own position, for a kinetic particle
    /// whose walk accepted no step (the furthest accepted position is then
    /// where it already stands, and the exchange is a no-op) — so a move
    /// never runs off the grid and never lands on a solid; a solid
    /// particle never moves at all.
    #[verifier::loop_isolation(false)]
    pub fn update_position(
        &self,
        position: Vec2,
        g: &Grid,
        rng: &mut rand::rngs::StdRng,
    ) -> (r: Option<Vec2>)
        requires
            self.wf(),
            g.wf(),
            g.spec_in_bounds(position.x as int, position.y as int),
        ensures
            r == spec_step_pos(*self, position.x as int, position.y as int, g.model(), 1) || r
                == spec_step_pos(*self, position.x as int, position.y as int, g.model(), -1),
            r matches Some(q) ==> g.spec_in_bounds(q.x as int, q.y as int) && (g.spec_void(
                q.x as int,
                q.y as int,
            ) || g.spec_is_fluid(q.x as int, q.y as int) || q == position),
            !self.spec_sand() ==> (r matches Some(q) ==> g.spec_void(q.x as int, q.y as int) || q
                == position),
            self.spec_kinetic() ==> (r matches Some(q) ==> g.spec_void(q.x as int, q.y as int) || q
                == position),
            self.spec_sand() ==> (r matches Some(q) ==> (g.spec_void(q.x as int, q.y as int)
                || g.spec_is_fluid(q.x as int, q.y as int))),
            self.spec_fluid() ==> (r matches Some(q) ==> g.spec_void(q.x as int, q.y as int)),
            self.spec_solid() ==> r is None,
    {
        let x = position.x;
        let y = position.y;
        match *self {
            Particle::Solid { .. } => None,
            Particle::Sand { .. } => {
                let down = Vec2::new(x, y + 1);
                let dl = Vec2::new(x - 1, y + 1);
                let dr = Vec2::new(x + 1, y + 1);
                if g.void(down) || g.is_fluid(down) {
                    Some(down)
                } else if g.void(dl) || g.is_fluid(dl) {
                    Some(dl)
                } else if g.void(dr) || g.is_fluid(dr) {
                    Some(dr)
                } else {
                    None
                }
            },
            Particle::Fluid { spread, .. } => {
                let down = Vec2::new(x, y + 1);
                if g.void(down) {
                    return Some(down);
                }
                if g.surrounded(position) {
                    return None;
                }
                let draw = next_u64(rng);
                let dir: i32 = if draw % 2 == 0 {
                    1
                } else {
                    -1
                };
                let sp = spread as i32;
                let mut j: i32 = 1;
                while j >= 0
                    invariant
                        g.wf(),
                        dir == 1 || dir == -1,
                        -1 <= j <= 1,
                        0 <= sp <= 10000,
                        sp == spread,
                        0 <= x <= 30000,
                        0 <= y <= 30000,
                        spec_fluid_scan(
                            g.model(),
                            x as int,
                            y as int,
                            dir as int,
                            1,
                            sp as int,
                            sp as int,
                        ) == (if j >= 0 {
                            spec_fluid_scan(
                                g.model(),
                                x as int,
                                y as int,
                                dir as int,
                                j as int,
                                sp as int,
                                sp as int,
                            )
                        } else {
                            None::<Vec2>
                        }),
                    decreases j + 1,
                {
                    let mut i: i32 = sp;
                    while i >= 1
                        invariant
                            g.wf(),
                            dir == 1 || dir == -1,
                            0 <= j <= 1,
                            0 <= i <= sp,
                            0 <= sp <= 10000,
                            0 <= x <= 30000,
                            0 <= y <= 30000,
                            spec_fluid_scan(
                                g.model(),
                                x as int,
                                y as int,
                                dir as int,
                                1,
                                sp as int,
                                sp as int,
                            ) == spec_fluid_scan(
                                g.model(),
                                x as int,
                                y as int,
                                dir as int,
                                j as int,
                                i as int,
                                sp as int,
                            ),
                        decreases i,
                    {
                        let c1 = Vec2::new(x - i * dir, y + j);
                        if g.void(c1) {
                            return Some(c1);
                        }
                        let c2 = Vec2::new(x + i * dir, y + j);
                        if g.void(c2) {
                            return Some(c2);
                        }
                        i = i - 1;
                    }
                    j = j - 1;
                }
                None
            },
            Particle::Particle { to_move, .. } => {
                let tx = to_move.x;
                let ty = to_move.y;
                if tx == 0 && ty == 0 {
                    return None;
                }
                proof {
                    assert(0 <= tx * tx <= 100_180_081) by (nonlinear_arith)
                        requires -10009 <= tx <= 10009;
                    assert(0 <= ty * ty <= 100_180_081) by (nonlinear_arith)
                        requires -10009 <= ty <= 10009;
                    assert(1 <= tx * tx + ty * ty) by (nonlinear_arith)
                        requires !(tx == 0 && ty == 0);
                }
                let nsq = (tx * tx + ty * ty) as u64;
                let m = isqrt(nsq) as i32;
                proof {
                    assert(m >= 1) by (nonlinear_arith)
                        requires nsq < (m + 1) * (m + 1) && 1 <= nsq && m >= 0;
                    assert(-m <= tx <= m && -m <= ty <= m) by (nonlinear_arith)
                        requires
                            tx * tx + ty * ty <= nsq
                                && nsq < (m + 1) * (m + 1)
                                && m >= 0
                                && 0 <= tx * tx
                                && 0 <= ty * ty;
                }
                let n = m / 10;
                let mut cx = x;
                let mut cy = y;
                let mut k: i32 = 1;
                while k <= n
                    invariant
                        g.wf(),
                        1 <= k <= n + 1,
                        0 <= n <= 6554,
                        1 <= m <= 65536,
                        n == m / 10,
                        -10009 <= tx <= 10009,
                        -10009 <= ty <= 10009,
                        -m <= tx <= m,
                        -m <= ty <= m,
                        0 <= x <= 30000,
                        0 <= y <= 30000,
                        spec_kin_walk(
                            g.model(),
                            x as int,
                            y as int,
                            tx as int,
                            ty as int,
                            m as int,
                            k - 1,
                        ) == (cx as int, cy as int, false),
                        (cx == x && cy == y) || g.spec_void(cx as int, cy as int),
                    decreases n + 1 - k,
                {
                    proof {
                        assert(-(k * m) <= tx * k <= k * m && -(k * m) <= ty * k <= k * m)
                            by (nonlinear_arith)
                            requires -m <= tx <= m && -m <= ty <= m && 1 <= k;
                        assert(-66_000_000 <= tx * k <= 66_000_000 && -66_000_000 <= ty * k
                            <= 66_000_000) by (nonlinear_arith)
                            requires -10009 <= tx <= 10009 && -10009 <= ty <= 10009 && 1 <= k
                                <= 6554;
                        lemma_round_div_bound(tx as int * k as int, m as int, k as int);
                        lemma_round_div_bound(ty as int * k as int, m as int, k as int);
                    }
                    let sx = round_div(tx * k, m);
                    let sy = round_div(ty * k, m);
                    let q = Vec2::new(x + sx, y + sy);
                    if g.void(q) {
                        cx = q.x;
                        cy = q.y;
                    } else {
                        proof {
                            lemma_kin_walk_stopped(
                                g.model(),
                                x as int,
                                y as int,
                                tx as int,
                                ty as int,
                                m as int,
                                k as int,
                                n as int,
                            );
                        }
                        return Some(Vec2::new(cx, cy));
                    }
                    k = k + 1;
                }
                Some(Vec2::new(cx, cy))
            },
        }
    }
}

/// The fluid phase after `n` state updates, starting from `lerp`.
pub open spec fn spec_phase_iter(lerp: int, n: nat) -> int
    decreases n,
{
    if n == 0 {
        lerp
    } else {
        (spec_phase_iter(lerp, (n - 1) as nat) + 1) % (PHASE_PERIOD as int)
    }
}

/// The phase advances by one each tick, wrapping only at the period: it is
/// continuous except for the modulo wrap from 39 back to 0.
pub proof fn lemma_phase_step(lerp: int)
    requires
        0 <= lerp < 40,
    ensures
        lerp < 39 ==> spec_phase_iter(lerp, 1) == lerp + 1,
        lerp == 39 ==> spec_phase_iter(lerp, 1) == 0,
{
    reveal_with_fuel(spec_phase_iter, 2);
}

/// Closed form of the iterated phase.
proof fn lemma_phase_formula(lerp: int, n: nat)
    requires
        0 <= lerp < 40,
    ensures
        spec_phase_iter(lerp, n) == (lerp + n) % 40,
    decreases n,
{
    reveal_with_fuel(spec_phase_iter, 2);
    if n > 0 {
        lemma_phase_formula(lerp, (n - 1) as nat);
    }
}

/// The fluid animation phase is periodic with period 40 ticks: after any
/// number of ticks, 40 more return it to the same value.
pub proof fn lemma_phase_periodic(lerp: int, n: nat)
    requires
        0 <= lerp < 40,
    ensures
        spec_phase_iter(lerp, n + 40) == spec_phase_iter(lerp, n),
{
    lemma_phase_formula(lerp, n);
    lemma_phase_formula(lerp, n + 40);
}

/// A state update treats a resting occupant exactly as the resting rule
/// alone says: stepping its embedding is embedding its step.
pub proof fn lemma_resting_step(r: Resting, x: int, y: int, g: Grid)
    ensures
        r.spec_embed().spec_step_state(x, y, g) == r.spec_step().spec_embed(),
{
}

/// A kinetic particle whose forward probe hits settles within that very
/// state update: the cell's occupant becomes its stepped base, which is
/// not kinetic; and by `lemma_resting_step` every later tick treats it
/// exactly as the resting variant alone.
pub proof fn lemma_kinetic_settles(p: Particle, x: int, y: int, g: Grid)
    requires
        p.wf(),
        p.spec_kinetic(),
        Particle::spec_probe_hit(
            p.spec_velocity().x as int,
            Particle::spec_gravity(p.spec_velocity().y as int),
            x,
            y,
            g,
        ),
    ensures
        p.spec_step_state(x, y, g) == p.spec_base().spec_step().spec_embed(),
        !p.spec_step_state(x, y, g).spec_kinetic(),
{
}

} // verus!
