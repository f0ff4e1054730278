use std::sync::Arc;

use pf_engine::materials::{
    fall, flow, shade, try_moves, Sand, Substance, Water, MAX_BRIGHTNESS, MIN_BRIGHTNESS,
};
use pf_engine::playfield::ParticleModel;
use pf_engine::util::{checked_move, checked_move_along};
use pf_engine::{Element, Material, Particle, Playfield, Simulation};

#[derive(Clone, Copy, Debug, PartialEq)]
enum Block {
    Heavy,
    Light,
    Marker,
}

impl Material for Block {
    fn spec_density(&self) -> u32 {
        self.density()
    }

    fn density(&self) -> u32 {
        match self {
            Block::Heavy => 2000,
            Block::Light => 1000,
            Block::Marker => 500,
        }
    }

    fn name(&self) -> &str {
        "block"
    }

    fn is_color(&self, c: [u8; 4]) -> bool {
        c == self.color()
    }

    fn color(&self) -> [u8; 4] {
        match self {
            Block::Heavy => [255, 0, 0, 255],
            Block::Light => [0, 0, 255, 255],
            Block::Marker => [0, 255, 0, 255],
        }
    }
}

impl Element for Block {
    fn step_relation(
        &self,
        _p: ParticleModel<Block>,
        _before: Playfield<Block>,
        _after: Playfield<Block>,
    ) -> bool {
        true
    }

    fn step(&self, particle: &mut Particle<Block>, playfield: &mut Playfield<Block>) {
        if *self == Block::Heavy {
            checked_move(particle, 0, 1, playfield);
        }
    }
}

fn kind_at(f: &Playfield<Block>, x: usize, y: usize) -> Option<Block> {
    f.get(x, y).map(|p| **p.element())
}

fn occupied(f: &Playfield<Block>) -> usize {
    let mut n = 0;
    for y in 0..f.height() as usize {
        for x in 0..f.width() as usize {
            if f.get(x, y).is_some() {
                n += 1;
            }
        }
    }
    n
}

#[test]
fn empty_playfield_step_is_noop_and_exports_background() {
    let mut sim: Simulation<Block> = Simulation::new(3, 5);
    sim.step();
    let f = sim.get_playfield();
    assert_eq!(occupied(f), 0);
    let buf = f.pixels();
    assert_eq!(buf.len(), 3 * 5 * 4);
    assert!(buf.iter().all(|b| *b == 0));
    let img = f.as_image();
    assert_eq!(img.0.width(), 5);
    assert_eq!(img.0.height(), 3);
    assert_eq!(img.0.as_raw().len(), 60);
    assert!(img.0.as_raw().iter().all(|b| *b == 0));
}

#[test]
fn concrete_scenario_denser_above_swaps() {
    let mut sim: Simulation<Block> = Simulation::new(4, 4);
    sim.get_playfield_mut().spawn(Arc::new(Block::Heavy), 1, 0);
    sim.get_playfield_mut().spawn(Arc::new(Block::Light), 1, 1);
    sim.step();
    let f = sim.get_playfield();
    assert_eq!(f.get(1, 0).unwrap().color(), [0, 0, 255, 255]);
    assert_eq!(f.get(1, 1).unwrap().color(), [255, 0, 0, 255]);
    assert_eq!(kind_at(f, 1, 0), Some(Block::Light));
    assert_eq!(kind_at(f, 1, 1), Some(Block::Heavy));
    assert_eq!(occupied(f), 2);
}

#[test]
fn denser_below_stays_below() {
    let mut sim: Simulation<Block> = Simulation::new(2, 3);
    sim.get_playfield_mut().spawn(Arc::new(Block::Light), 1, 0);
    sim.get_playfield_mut().spawn(Arc::new(Block::Heavy), 1, 1);
    sim.step();
    let f = sim.get_playfield();
    assert_eq!(kind_at(f, 1, 0), Some(Block::Light));
    assert_eq!(kind_at(f, 1, 1), Some(Block::Heavy));
}

#[test]
fn particle_on_bottom_row_stays() {
    let mut sim: Simulation<Sand> = Simulation::new(4, 4);
    sim.get_playfield_mut().spawn(Sand::new(), 2, 3);
    for _ in 0..10 {
        sim.step();
    }
    let f = sim.get_playfield();
    assert!(f.get(2, 3).is_some());
    let mut n = 0;
    for y in 0..4 {
        for x in 0..4 {
            if f.get(x, y).is_some() {
                n += 1;
            }
        }
    }
    assert_eq!(n, 1);
}

#[test]
fn blocked_first_point_fails_and_changes_nothing() {
    let mut f: Playfield<Block> = Playfield::new(4, 4);
    f.spawn(Arc::new(Block::Light), 1, 1);
    f.spawn(Arc::new(Block::Heavy), 1, 2);
    let mut p = f.get(1, 1).unwrap().snapshot();
    let id = p.id();
    assert!(!checked_move(&mut p, 0, 1, &mut f));
    assert_eq!(f.get(1, 1).unwrap().id(), id);
    assert_eq!(kind_at(&f, 1, 2), Some(Block::Heavy));
    assert_eq!(occupied(&f), 2);
}

#[test]
fn blocked_by_equal_density_fails() {
    let mut f: Playfield<Block> = Playfield::new(4, 4);
    f.spawn(Arc::new(Block::Light), 1, 1);
    f.spawn(Arc::new(Block::Light), 1, 2);
    let mut p = f.get(1, 1).unwrap().snapshot();
    assert!(!checked_move(&mut p, 0, 1, &mut f));
    assert_eq!(f.get(1, 1).unwrap().id(), p.id());
}

#[test]
fn move_off_the_grid_fails() {
    let mut f: Playfield<Block> = Playfield::new(4, 4);
    f.spawn(Arc::new(Block::Light), 0, 3);
    let mut p = f.get(0, 3).unwrap().snapshot();
    assert!(!checked_move(&mut p, 0, 1, &mut f));
    assert!(!checked_move(&mut p, -1, 1, &mut f));
    assert_eq!(f.get(0, 3).unwrap().id(), p.id());
}

#[test]
fn clear_path_ends_at_last_sampled_point() {
    let mut f: Playfield<Block> = Playfield::new(1, 16);
    f.spawn(Arc::new(Block::Light), 0, 0);
    let mut p = f.get(0, 0).unwrap().snapshot();
    assert!(checked_move(&mut p, 8, 0, &mut f));
    assert_eq!(kind_at(&f, 7, 0), Some(Block::Light));
    assert_eq!(occupied(&f), 1);
    assert!(f.get(0, 0).is_none());
    assert!(f.get(8, 0).is_none());
}

#[test]
fn clear_path_along_given_line() {
    let mut f: Playfield<Block> = Playfield::new(5, 5);
    f.spawn(Arc::new(Block::Light), 0, 0);
    let p = f.get(0, 0).unwrap().snapshot();
    let line = vec![(0, 0), (1, 1), (2, 2), (3, 3), (4, 4)];
    assert!(checked_move_along(&p, &line, &mut f));
    assert_eq!(kind_at(&f, 3, 3), Some(Block::Light));
    assert_eq!(occupied(&f), 1);
}

#[test]
fn stops_before_obstacle_after_progress() {
    let mut f: Playfield<Block> = Playfield::new(1, 16);
    f.spawn(Arc::new(Block::Light), 0, 0);
    f.spawn(Arc::new(Block::Heavy), 5, 0);
    let mut p = f.get(0, 0).unwrap().snapshot();
    assert!(checked_move(&mut p, 8, 0, &mut f));
    assert_eq!(kind_at(&f, 3, 0), Some(Block::Light));
    assert_eq!(kind_at(&f, 5, 0), Some(Block::Heavy));
    assert_eq!(occupied(&f), 2);
}

#[test]
fn lighter_in_path_is_pushed_back() {
    let mut f: Playfield<Block> = Playfield::new(1, 16);
    f.spawn(Arc::new(Block::Heavy), 0, 0);
    f.spawn(Arc::new(Block::Marker), 3, 0);
    let mut p = f.get(0, 0).unwrap().snapshot();
    assert!(checked_move(&mut p, 8, 0, &mut f));
    assert_eq!(kind_at(&f, 1, 0), Some(Block::Marker));
    assert_eq!(kind_at(&f, 7, 0), Some(Block::Heavy));
    assert_eq!(occupied(&f), 2);
}

#[test]
fn pixel_round_trip() {
    let mut f: Playfield<Block> = Playfield::new(3, 4);
    f.spawn(Arc::new(Block::Heavy), 0, 0);
    f.spawn(Arc::new(Block::Light), 3, 1);
    f.spawn(Arc::new(Block::Marker), 2, 2);
    let img = f.as_image();
    let raw = img.0.as_raw();
    assert_eq!(raw.len(), 3 * 4 * 4);
    for y in 0..3usize {
        for x in 0..4usize {
            let i = (y * 4 + x) * 4;
            let px = [raw[i], raw[i + 1], raw[i + 2], raw[i + 3]];
            let want = match (x, y) {
                (0, 0) => [255, 0, 0, 255],
                (3, 1) => [0, 0, 255, 255],
                (2, 2) => [0, 255, 0, 255],
                _ => [0, 0, 0, 0],
            };
            assert_eq!(px, want);
        }
    }
    assert_eq!(f.pixels(), raw.clone());
}

#[test]
fn spawn_reports_previous_occupant() {
    let mut f: Playfield<Block> = Playfield::new(2, 2);
    assert!(!f.spawn(Arc::new(Block::Light), 1, 1));
    assert!(f.spawn(Arc::new(Block::Heavy), 1, 1));
    assert_eq!(kind_at(&f, 1, 1), Some(Block::Heavy));
    f.despawn(1, 1);
    assert!(f.get(1, 1).is_none());
}

#[test]
fn get_outside_is_none() {
    let mut f: Playfield<Block> = Playfield::new(2, 3);
    f.spawn(Arc::new(Block::Light), 2, 1);
    assert!(f.get(3, 0).is_none());
    assert!(f.get(0, 2).is_none());
    assert!(f.get(2, 1).is_some());
    assert_eq!(f.get(2, 1).unwrap().x(), 2);
    assert_eq!(f.get(2, 1).unwrap().y(), 1);
    assert_eq!(f.height(), 2);
    assert_eq!(f.width(), 3);
}

#[test]
fn identities_increase_and_moves_give_fresh_ones() {
    let mut f: Playfield<Block> = Playfield::new(4, 4);
    f.spawn(Arc::new(Block::Light), 0, 0);
    f.spawn(Arc::new(Block::Light), 1, 0);
    assert_eq!(f.get(0, 0).unwrap().id(), 0);
    assert_eq!(f.get(1, 0).unwrap().id(), 1);
    let mut p = f.get(0, 0).unwrap().snapshot();
    assert!(checked_move(&mut p, 0, 1, &mut f));
    assert_eq!(f.get(0, 1).unwrap().id(), 2);
    assert!(f.get(0, 0).is_none());
    assert!(f.get(0, 1).unwrap() != &p);
}

#[test]
fn update_replaces_with_fresh_particle() {
    let mut f: Playfield<Block> = Playfield::new(2, 2);
    f.spawn(Arc::new(Block::Heavy), 1, 0);
    let p = f.get(1, 0).unwrap().snapshot();
    p.update(&mut f);
    let q = f.get(1, 0).unwrap();
    assert_eq!(q.id(), 1);
    assert_eq!(**q.element(), Block::Heavy);
    assert!(q != &p);
}

#[test]
fn particle_new_takes_element_color() {
    let p = Particle::new(Arc::new(Block::Marker), 7, 2, 3);
    assert_eq!(p.id(), 7);
    assert_eq!(p.x(), 2);
    assert_eq!(p.y(), 3);
    assert_eq!(p.color(), [0, 255, 0, 255]);
}

#[test]
fn shade_rounds_to_nearest() {
    assert_eq!(shade([255, 233, 168, 255], 800), [204, 186, 134, 255]);
    assert_eq!(shade([33, 89, 255, 255], 1000), [33, 89, 255, 255]);
    assert_eq!(shade([33, 89, 255, 7], 900), [30, 80, 230, 7]);
    assert_eq!(shade([5, 15, 25, 255], 900), [5, 14, 23, 255]);
}

#[test]
fn material_colors_stay_in_range() {
    for _ in 0..50 {
        let c = Sand.color();
        assert_eq!(c[3], 255);
        assert!(c[0] >= 204 && c[0] <= 255);
        assert!(c[1] >= shade([255, 233, 168, 255], MIN_BRIGHTNESS)[1]);
        let w = Water.color();
        assert_eq!(w[3], 255);
        assert!(w[2] >= 204);
        assert!(w[2] <= shade([33, 89, 255, 255], MAX_BRIGHTNESS - 1)[2]);
    }
}

#[test]
fn material_densities_and_names() {
    assert_eq!(Sand.density(), 1607);
    assert_eq!(Water.density(), 997);
    assert_eq!(Sand.name(), "sand");
    assert_eq!(Water.name(), "water");
    assert_eq!(Substance::Sand.density(), 1607);
    assert_eq!(Substance::Water.name(), "water");
}

#[test]
fn try_moves_stops_at_first_success() {
    let mut f: Playfield<Block> = Playfield::new(3, 3);
    f.spawn(Arc::new(Block::Light), 1, 0);
    f.spawn(Arc::new(Block::Heavy), 1, 1);
    let mut p = f.get(1, 0).unwrap().snapshot();
    assert!(try_moves(&mut p, &vec![(0, 1), (1, 1), (-1, 1)], &mut f));
    assert_eq!(kind_at(&f, 2, 1), Some(Block::Light));
    assert!(f.get(0, 1).is_none());
    assert!(f.get(1, 0).is_none());
    let mut q = f.get(1, 1).unwrap().snapshot();
    f.spawn(Arc::new(Block::Heavy), 1, 2);
    assert!(!try_moves(&mut q, &vec![(0, 1)], &mut f));
}

#[test]
fn sand_falls_and_piles() {
    let mut f: Playfield<Sand> = Playfield::new(3, 3);
    f.spawn(Sand::new(), 1, 0);
    let mut p = f.get(1, 0).unwrap().snapshot();
    assert!(fall(&mut p, &mut f));
    assert!(f.get(1, 0).is_none());
    let below = (0..3).filter(|x| f.get(*x, 1).is_some()).count();
    assert_eq!(below, 1);
}

#[test]
fn sand_sinks_through_water() {
    let mut sim: Simulation<Substance> = Simulation::new(2, 1);
    sim.get_playfield_mut().spawn(Arc::new(Substance::Sand), 0, 0);
    sim.get_playfield_mut().spawn(Arc::new(Substance::Water), 0, 1);
    sim.step();
    let f = sim.get_playfield();
    assert_eq!(**f.get(0, 1).unwrap().element(), Substance::Sand);
    assert_eq!(**f.get(0, 0).unwrap().element(), Substance::Water);
}

#[test]
fn water_spreads_sideways_when_blocked() {
    let mut f: Playfield<Water> = Playfield::new(1, 20);
    f.spawn(Water::new(), 10, 0);
    let mut p = f.get(10, 0).unwrap().snapshot();
    assert!(flow(&mut p, &mut f));
    assert!(f.get(10, 0).is_none());
    let left = f.get(3, 0).is_some();
    let right = f.get(17, 0).is_some();
    assert!(left != right);
}

#[test]
fn swap_with_lighter_below_gives_fresh_identities() {
    let mut f: Playfield<Block> = Playfield::new(3, 3);
    f.spawn(Arc::new(Block::Heavy), 1, 0);
    f.spawn(Arc::new(Block::Light), 1, 1);
    let mut p = f.get(1, 0).unwrap().snapshot();
    assert!(checked_move(&mut p, 0, 1, &mut f));
    assert_eq!(kind_at(&f, 1, 0), Some(Block::Light));
    assert_eq!(f.get(1, 0).unwrap().id(), 2);
    assert_eq!(kind_at(&f, 1, 1), Some(Block::Heavy));
    assert_eq!(f.get(1, 1).unwrap().id(), 3);
    assert_eq!(occupied(&f), 2);
}

#[test]
fn get_mut_reaches_occupant() {
    let mut f: Playfield<Block> = Playfield::new(2, 2);
    f.spawn(Arc::new(Block::Marker), 0, 1);
    assert!(f.get_mut(1, 1).is_none());
    assert!(f.get_mut(0, 2).is_none());
    let q = f.get_mut(0, 1).unwrap();
    assert_eq!(q.x(), 0);
    assert_eq!(q.y(), 1);
}

#[test]
fn particle_moved_into_unvisited_cell_is_not_dispatched_again() {
    for _ in 0..20 {
        let mut sim: Simulation<Water> = Simulation::new(1, 20);
        sim.get_playfield_mut().spawn(Water::new(), 15, 0);
        sim.step();
        let f = sim.get_playfield();
        let at: Vec<usize> = (0..20).filter(|x| f.get(*x, 0).is_some()).collect();
        assert!(at == vec![8] || at == vec![18]);
    }
}

#[test]
fn image_has_grid_dimensions() {
    let mut f: Playfield<Block> = Playfield::new(2, 3);
    f.spawn(Arc::new(Block::Marker), 2, 1);
    let img = f.as_image();
    assert_eq!(img.0.width(), 3);
    assert_eq!(img.0.height(), 2);
    let mut want = vec![0u8; 20];
    want.extend_from_slice(&[0, 255, 0, 255]);
    assert_eq!(img.0.as_raw(), &want);
}
