use falling_sand::color::Rgba;
use falling_sand::geom::Vec2;
use falling_sand::grid::Grid;
use falling_sand::particle::Particle;
use rand::SeedableRng;

fn rng() -> rand::rngs::StdRng {
    rand::rngs::StdRng::seed_from_u64(7)
}

fn occupied(g: &Grid, w: i32, h: i32) -> usize {
    let mut n = 0;
    for x in 0..w {
        for y in 0..h {
            if g.get(Vec2::new(x, y)).is_some() {
                n += 1;
            }
        }
    }
    n
}

#[test]
fn sand_column_fall() {
    let mut r = rng();
    let mut g = Grid::empty(10, 10, &mut r);
    for x in 0..10 {
        for y in 0..10 {
            assert!(g.get(Vec2::new(x, y)).is_none());
        }
    }
    let sand = Particle::sand(&mut r);
    g.set_cell(5, 0, Some(sand));
    g.update(&mut r);
    assert!(g.get(Vec2::new(5, 1)).unwrap().is_sand());
    assert!(g.get(Vec2::new(5, 0)).is_none());
    for _ in 0..8 {
        g.update(&mut r);
    }
    assert!(g.get(Vec2::new(5, 9)).unwrap().is_sand());
    for _ in 0..5 {
        g.update(&mut r);
    }
    assert!(g.get(Vec2::new(5, 9)).unwrap().is_sand());
    for y in 0..9 {
        assert!(g.get(Vec2::new(5, y)).is_none());
    }
}

#[test]
fn two_sand_one_blocked() {
    let mut r = rng();
    let mut g = Grid::empty(10, 10, &mut r);
    g.set_cell(4, 5, Some(Particle::sand(&mut r)));
    g.set_cell(5, 5, Some(Particle::sand(&mut r)));
    g.set_cell(5, 6, Some(Particle::solid()));
    g.update(&mut r);
    // the grain at (4, 5) falls into the void at (4, 6)
    assert!(g.get(Vec2::new(4, 6)).unwrap().is_sand());
    assert!(g.get(Vec2::new(4, 5)).is_none());
    assert!(g.get(Vec2::new(5, 6)).unwrap().is_solid());
    // the grain at (5, 5) is blocked below by the solid and down-left by
    // the grain that landed earlier in the same pass, so it slides
    // down-right
    assert!(g.get(Vec2::new(5, 5)).is_none());
    assert!(g.get(Vec2::new(6, 6)).unwrap().is_sand());
}

#[test]
fn solid_never_moves() {
    let mut r = rng();
    let mut g = Grid::empty(8, 8, &mut r);
    g.set_cell(3, 3, Some(Particle::solid()));
    g.set_cell(3, 1, Some(Particle::sand(&mut r)));
    for _ in 0..20 {
        g.update(&mut r);
        assert!(g.get(Vec2::new(3, 3)).unwrap().is_solid());
    }
    // the sand fell onto the solid, slid off down-left, and came to rest
    // on the floor
    assert!(g.get(Vec2::new(2, 7)).unwrap().is_sand());
}

#[test]
fn occupancy_conserved_across_ticks() {
    let mut r = rng();
    let mut g = Grid::empty(20, 20, &mut r);
    g.set_cell(2, 2, Some(Particle::sand(&mut r)));
    g.set_cell(3, 3, Some(Particle::solid()));
    g.set_cell(4, 4, Some(Particle::fluid(&mut r)));
    g.set_cell(10, 15, Some(Particle::sand(&mut r).launched(Vec2::new(0, -20))));
    let before = occupied(&g, 20, 20);
    assert_eq!(before, 4);
    for _ in 0..30 {
        g.update(&mut r);
        assert_eq!(occupied(&g, 20, 20), before);
    }
}

#[test]
fn boundary_queries_blocked() {
    let mut r = rng();
    let mut g = Grid::empty(5, 5, &mut r);
    assert!(!g.void(Vec2::new(-1, 0)));
    assert!(!g.void(Vec2::new(0, -1)));
    assert!(!g.void(Vec2::new(5, 0)));
    assert!(!g.void(Vec2::new(0, 5)));
    assert!(!g.void(Vec2::new(-1, -1)));
    assert!(!g.void(Vec2::new(5, 5)));
    assert!(g.get(Vec2::new(-1, 0)).is_none());
    assert!(g.get(Vec2::new(0, -1)).is_none());
    assert!(g.get(Vec2::new(5, 0)).is_none());
    assert!(g.get(Vec2::new(0, 5)).is_none());
    // in-bounds empty cells are void
    assert!(g.void(Vec2::new(0, 0)));
    assert!(g.void(Vec2::new(4, 4)));
    // at the corner, the out-of-bounds neighbors block; the three
    // in-bounds neighbors decide whether it is surrounded
    assert!(!g.surrounded(Vec2::new(0, 0)));
    // a position wholly outside the grid has only blocked neighbors
    assert!(g.surrounded(Vec2::new(-2, -2)));
    assert!(g.surrounded(Vec2::new(i32::MIN, i32::MAX)));
    g.set_cell(1, 0, Some(Particle::solid()));
    g.set_cell(0, 1, Some(Particle::solid()));
    g.set_cell(1, 1, Some(Particle::solid()));
    assert!(g.surrounded(Vec2::new(0, 0)));
}

#[test]
fn fluid_phase_period_forty() {
    let mut r = rng();
    let mut g = Grid::empty(3, 3, &mut r);
    for x in 0..3 {
        for y in 0..3 {
            if !(x == 1 && y == 1) {
                g.set_cell(x, y, Some(Particle::solid()));
            }
        }
    }
    let fluid = Particle::Fluid {
        color: Rgba::new(0, 200, 1000, 500),
        second_color: Rgba::new(0, 250, 850, 500),
        spread: 4,
        lerp: 0,
    };
    g.set_cell(1, 1, Some(fluid));
    let before = g.get(Vec2::new(1, 1)).unwrap().color();
    g.update(&mut r);
    assert!(g.get(Vec2::new(1, 1)).unwrap().is_fluid());
    let after_one = g.get(Vec2::new(1, 1)).unwrap().color();
    assert_ne!(before, after_one);
    for _ in 0..39 {
        g.update(&mut r);
    }
    assert!(g.get(Vec2::new(1, 1)).unwrap().is_fluid());
    let after_period = g.get(Vec2::new(1, 1)).unwrap().color();
    assert_eq!(before, after_period);
}

#[test]
fn fluid_color_blend_exact() {
    // phase 0 peaks the blend: the color is exactly the second color
    let f0 = Particle::Fluid {
        color: Rgba::new(0, 200, 1000, 500),
        second_color: Rgba::new(0, 250, 850, 500),
        spread: 4,
        lerp: 0,
    };
    assert_eq!(f0.color(), Rgba::new(0, 250, 850, 500));
    // phase 20 is the trough: the color is exactly the first color
    let f20 = Particle::Fluid {
        color: Rgba::new(0, 200, 1000, 500),
        second_color: Rgba::new(0, 250, 850, 500),
        spread: 4,
        lerp: 20,
    };
    assert_eq!(f20.color(), Rgba::new(0, 200, 1000, 500));
    // phase 10 blends halfway
    let f10 = Particle::Fluid {
        color: Rgba::new(0, 200, 1000, 500),
        second_color: Rgba::new(0, 250, 850, 500),
        spread: 4,
        lerp: 10,
    };
    assert_eq!(f10.color(), Rgba::new(0, 225, 925, 500));
}

#[test]
fn kinetic_settles_on_solid_floor() {
    let mut r = rng();
    let mut g = Grid::empty(5, 10, &mut r);
    for x in 0..5 {
        g.set_cell(x, 9, Some(Particle::solid()));
    }
    // falling at one cell per tick, two cells above the floor: the forward
    // probe reaches the floor within the first state update
    let grain = Particle::sand(&mut r).launched(Vec2::new(0, 10));
    g.set_cell(2, 7, Some(grain));
    assert!(g.get(Vec2::new(2, 7)).unwrap().is_kinetic());
    g.update(&mut r);
    // it settled to its sand base, and as sand fell one more cell
    assert!(g.get(Vec2::new(2, 8)).unwrap().is_sand());
    assert!(!g.get(Vec2::new(2, 8)).unwrap().is_kinetic());
    // thereafter it behaves exactly as resting sand on a full floor: it
    // stays put
    for _ in 0..10 {
        g.update(&mut r);
        assert!(g.get(Vec2::new(2, 8)).unwrap().is_sand());
    }
}

#[test]
fn kinetic_flies_upward() {
    let mut r = rng();
    let mut g = Grid::empty(5, 10, &mut r);
    let grain = Particle::sand(&mut r).launched(Vec2::new(0, -20));
    g.set_cell(2, 8, Some(grain));
    g.update(&mut r);
    // the position pass scans rows bottom-up, so a riser is reprocessed in
    // every row it enters and cascades to the ceiling within one tick,
    // still kinetic
    assert!(g.get(Vec2::new(2, 0)).unwrap().is_kinetic());
    assert!(g.get(Vec2::new(2, 8)).is_none());
}

#[test]
fn kinetic_walk_without_step_returns_own_position() {
    let mut r = rng();
    let mut g = Grid::empty(5, 5, &mut r);
    g.set_cell(2, 3, Some(Particle::solid()));
    let base = falling_sand::particle::Resting::Sand {
        color: Rgba::new(700, 500, 100, 1000),
    };
    // a downward pending move of one cell, with the very first probed cell
    // blocked: the furthest accepted position is where the grain stands
    let blocked = Particle::Particle {
        velocity: Vec2::new(0, 10),
        sub_position: Vec2::new(0, 0),
        to_move: Vec2::new(0, 10),
        base,
    };
    assert_eq!(
        blocked.update_position(Vec2::new(2, 2), &g, &mut r),
        Some(Vec2::new(2, 2))
    );
    // a pending move under one whole cell: the walk has no step to take
    let creeping = Particle::Particle {
        velocity: Vec2::new(0, 10),
        sub_position: Vec2::new(0, 0),
        to_move: Vec2::new(0, 5),
        base,
    };
    assert_eq!(
        creeping.update_position(Vec2::new(1, 1), &g, &mut r),
        Some(Vec2::new(1, 1))
    );
    // a zero pending move proposes nothing at all
    let resting = Particle::Particle {
        velocity: Vec2::new(0, 10),
        sub_position: Vec2::new(0, 0),
        to_move: Vec2::new(0, 0),
        base,
    };
    assert_eq!(resting.update_position(Vec2::new(1, 1), &g, &mut r), None);
}

#[test]
fn sand_sinks_into_fluid() {
    let mut r = rng();
    let mut g = Grid::empty(5, 5, &mut r);
    for x in 0..5 {
        g.set_cell(x, 4, Some(Particle::solid()));
        if x != 2 {
            g.set_cell(x, 3, Some(Particle::solid()));
        }
    }
    // the fluid is penned in at (2, 3) so it cannot spread away
    g.set_cell(2, 3, Some(Particle::fluid(&mut r)));
    g.set_cell(2, 2, Some(Particle::sand(&mut r)));
    g.update(&mut r);
    // the swap is symmetric: the sand sinks and the fluid rises
    assert!(g.get(Vec2::new(2, 3)).unwrap().is_sand());
    assert!(g.get(Vec2::new(2, 2)).unwrap().is_fluid());
}

#[test]
fn fluid_spreads_laterally() {
    let mut r = rng();
    let mut g = Grid::empty(10, 10, &mut r);
    for x in 0..10 {
        g.set_cell(x, 6, Some(Particle::solid()));
    }
    g.set_cell(6, 5, Some(Particle::fluid(&mut r)));
    g.update(&mut r);
    // the row below is floor; the scan tries the far offsets first, and at
    // radius four one side is off-grid, so whichever lateral sign is
    // drawn, the first void candidate is four cells to the left — a cell
    // the pass has already scanned, so the move stands
    assert!(g.get(Vec2::new(6, 5)).is_none());
    assert!(g.get(Vec2::new(2, 5)).unwrap().is_fluid());
}

#[test]
fn fluid_falls_into_void_below() {
    let mut r = rng();
    let mut g = Grid::empty(6, 6, &mut r);
    g.set_cell(3, 1, Some(Particle::fluid(&mut r)));
    g.update(&mut r);
    assert!(g.get(Vec2::new(3, 2)).unwrap().is_fluid());
    assert!(g.get(Vec2::new(3, 1)).is_none());
}

#[test]
fn texture_export_layout() {
    let mut r = rng();
    let mut g = Grid::empty(2, 2, &mut r);
    g.set_cell(1, 0, Some(Particle::solid()));
    let fluid_peak = Particle::Fluid {
        color: Rgba::new(0, 200, 1000, 500),
        second_color: Rgba::new(0, 250, 850, 500),
        spread: 4,
        lerp: 0,
    };
    g.set_cell(0, 1, Some(fluid_peak));
    let data = g.to_texture();
    assert_eq!(data.len(), 2 * 2 * 4);
    // row-major: (0,0) empty, (1,0) solid, (0,1) fluid, (1,1) empty
    assert_eq!(&data[0..4], &[0, 0, 0, 0]);
    assert_eq!(&data[4..8], &[300, 300, 300, 1000]);
    assert_eq!(&data[8..12], &[0, 250, 850, 500]);
    assert_eq!(&data[12..16], &[0, 0, 0, 0]);
}

#[test]
fn demo_scene_seeding() {
    let mut r = rng();
    let g = Grid::empty(450, 300, &mut r);
    // the solid wedge: x > y + 300
    assert!(g.get(Vec2::new(400, 50)).unwrap().is_solid());
    assert!(g.get(Vec2::new(351, 50)).unwrap().is_solid());
    assert!(g.get(Vec2::new(350, 50)).is_none());
    // the fluid column: 120 < x < 180 and y > 250, wrapped as kinetic
    assert!(g.get(Vec2::new(150, 260)).unwrap().is_kinetic());
    assert!(g.get(Vec2::new(120, 260)).is_none());
    assert!(g.get(Vec2::new(150, 250)).is_none());
    // everything else is empty
    assert!(g.get(Vec2::new(10, 10)).is_none());
    assert_eq!(g.to_texture().len(), 450 * 300 * 4);
}

#[test]
fn sand_color_randomized_in_range() {
    let mut r = rng();
    for _ in 0..50 {
        let s = Particle::sand(&mut r);
        assert!(s.is_sand());
        let c = s.color();
        assert!((700..800).contains(&c.r));
        assert!((500..600).contains(&c.g));
        assert_eq!(c.b, 100);
        assert_eq!(c.a, 1000);
    }
}

#[test]
fn fresh_fluid_fields() {
    let mut r = rng();
    let f = Particle::fluid(&mut r);
    assert!(f.is_fluid());
    assert!(!f.is_sand());
    assert!(!f.is_solid());
    assert!(!f.is_kinetic());
    let solid = Particle::solid();
    assert_eq!(solid.color(), Rgba::new(300, 300, 300, 1000));
}

#[test]
fn set_cell_and_queries() {
    let mut r = rng();
    let mut g = Grid::empty(4, 4, &mut r);
    g.set_cell(1, 2, Some(Particle::fluid(&mut r)));
    assert!(g.is_fluid(Vec2::new(1, 2)));
    assert!(!g.is_fluid(Vec2::new(2, 1)));
    assert!(!g.void(Vec2::new(1, 2)));
    g.set_cell(1, 2, None);
    assert!(g.void(Vec2::new(1, 2)));
    assert!(!g.is_fluid(Vec2::new(1, 2)));
}
