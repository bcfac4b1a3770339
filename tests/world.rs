use antmachine::field::{decay_each, Pheromone, FULL_POW};
use antmachine::world::{chunk_len, World};

/// A test ant: where it stands, and how many pheromones it saw on its last
/// step, in all and away from its own position.
#[derive(Clone, Copy, Debug, PartialEq)]
struct Probe {
    pos: i64,
    seen: usize,
    seen_elsewhere: usize,
}

fn probe(pos: i64) -> Probe {
    Probe { pos, seen: 0, seen_elsewhere: 0 }
}

fn tick(world: &mut World<Probe, i64>) {
    world.evolve(
        |a: &Probe| a.pos,
        |a: &Probe, field: &[Pheromone<i64>]| Probe {
            pos: a.pos + 1,
            seen: field.len(),
            seen_elsewhere: field.iter().filter(|p| p.pos != a.pos).count(),
        },
    );
}

#[test]
fn pheromone_evolve_drops_one_tenth() {
    let mut p = Pheromone::fresh(7i64);
    assert_eq!(p.pow, FULL_POW);
    assert_eq!(FULL_POW, 10);
    p.evolve();
    assert_eq!(p.pow, 9);
    p.evolve();
    assert_eq!(p.pow, 8);
    assert_eq!(p.pos, 7);
    let mut q = Pheromone::new(3i64, 0);
    q.evolve();
    assert_eq!(q.pow, -1);
}

#[test]
fn single_ant_first_tick() {
    let mut world: World<Probe, i64> = World::new(vec![probe(5)]);
    assert_eq!(world.pheromones.len(), 0);
    tick(&mut world);
    assert_eq!(world.pheromones.len(), 1);
    assert_eq!(world.pheromones[0].pos, 5);
    assert_eq!(world.pheromones[0].pow, FULL_POW);
    assert_eq!(world.ants.len(), 1);
    assert_eq!(world.ants[0].pos, 6);
    assert_eq!(world.ants[0].seen, 1);
    assert_eq!(world.ants[0].seen_elsewhere, 0);
}

#[test]
fn later_ants_see_earlier_deposits() {
    let mut world: World<Probe, i64> = World::new(vec![probe(0), probe(10), probe(20)]);
    tick(&mut world);
    assert_eq!(world.ants[0].seen, 1);
    assert_eq!(world.ants[1].seen, 2);
    assert_eq!(world.ants[2].seen, 3);
    assert_eq!(world.ants[2].seen_elsewhere, 2);
    let positions: Vec<i64> = world.pheromones.iter().map(|p| p.pos).collect();
    assert_eq!(positions, vec![0, 10, 20]);
}

#[test]
fn population_and_pheromone_count_over_ticks() {
    let mut world: World<Probe, i64> = World::new(vec![probe(0), probe(100), probe(200)]);
    for t in 1..=10usize {
        tick(&mut world);
        assert_eq!(world.ants.len(), 3);
        assert_eq!(world.pheromones.len(), 3 * t);
    }
    // The deposits of the first tick have now aged ten times and run out.
    tick(&mut world);
    assert_eq!(world.ants.len(), 3);
    assert_eq!(world.pheromones.len(), 30);
    assert!(world.pheromones.iter().all(|p| p.pow > 0));
    tick(&mut world);
    assert_eq!(world.pheromones.len(), 30);
    let pows: Vec<i32> = world.pheromones.iter().map(|p| p.pow).collect();
    assert_eq!(pows[0], 1);
    assert_eq!(pows[29], FULL_POW);
}

#[test]
fn aging_removes_spent_pheromones_in_order() {
    let mut world: World<Probe, i64> = World::new(Vec::new());
    world.pheromones.push(Pheromone::new(1, 1));
    world.pheromones.push(Pheromone::new(2, 2));
    world.pheromones.push(Pheromone::new(3, 0));
    world.pheromones.push(Pheromone::new(4, 10));
    world.age_pheromones();
    let kept: Vec<(i64, i32)> = world.pheromones.iter().map(|p| (p.pos, p.pow)).collect();
    assert_eq!(kept, vec![(2, 1), (4, 9)]);
}

#[test]
fn prune_keeps_only_live_pheromones() {
    let mut world: World<Probe, i64> = World::new(Vec::new());
    world.pheromones.push(Pheromone::new(1, 0));
    world.pheromones.push(Pheromone::new(2, 3));
    world.pheromones.push(Pheromone::new(3, -2));
    world.pheromones.push(Pheromone::new(4, 1));
    world.prune();
    let kept: Vec<(i64, i32)> = world.pheromones.iter().map(|p| (p.pos, p.pow)).collect();
    assert_eq!(kept, vec![(2, 3), (4, 1)]);
}

#[test]
fn deposit_appends_fresh_pheromone() {
    let mut world: World<Probe, i64> = World::new(vec![probe(1)]);
    world.deposit(42);
    world.deposit(42);
    assert_eq!(world.pheromones.len(), 2);
    assert_eq!(world.pheromones[1].pos, 42);
    assert_eq!(world.pheromones[1].pow, FULL_POW);
    assert_eq!(world.ants.len(), 1);
}

#[test]
fn empty_world_tick() {
    let mut world: World<Probe, i64> = World::new(Vec::new());
    tick(&mut world);
    assert_eq!(world.ants.len(), 0);
    assert_eq!(world.pheromones.len(), 0);
}

#[test]
fn chunk_len_has_at_least_one_item() {
    assert_eq!(chunk_len(256, 16), 16);
    assert_eq!(chunk_len(17, 4), 4);
    assert_eq!(chunk_len(10, 16), 1);
    assert_eq!(chunk_len(0, 4), 1);
    assert_eq!(chunk_len(5, 1), 5);
}

#[test]
fn parallel_aging_matches_sequential() {
    let mut a: World<Probe, i64> = World::new(vec![probe(1)]);
    let mut b: World<Probe, i64> = World::new(vec![probe(1)]);
    for k in 0..40i64 {
        let pow = (k % 12) as i32 - 1;
        a.pheromones.push(Pheromone::new(k, pow));
        b.pheromones.push(Pheromone::new(k, pow));
    }
    a.age_pheromones();
    b.age_pheromones_parallel(16);
    let seq: Vec<(i64, i32)> = a.pheromones.iter().map(|p| (p.pos, p.pow)).collect();
    let par: Vec<(i64, i32)> = b.pheromones.iter().map(|p| (p.pos, p.pow)).collect();
    assert_eq!(seq, par);
    assert!(par.iter().all(|&(_, pow)| pow > 0));
    assert_eq!(par.len(), 28);
    assert_eq!(b.ants.len(), 1);
}

#[test]
fn parallel_aging_with_more_threads_than_pheromones() {
    let mut w: World<Probe, i64> = World::new(Vec::new());
    w.pheromones.push(Pheromone::new(9, 5));
    w.pheromones.push(Pheromone::new(8, 1));
    w.age_pheromones_parallel(64);
    assert_eq!(w.pheromones.len(), 1);
    assert_eq!(w.pheromones[0].pos, 9);
    assert_eq!(w.pheromones[0].pow, 4);
}

#[test]
fn decay_each_lowers_every_pheromone() {
    let mut v = vec![Pheromone::new(1i64, 10), Pheromone::new(2, 1), Pheromone::new(3, -4)];
    decay_each(&mut v);
    let pows: Vec<i32> = v.iter().map(|p| p.pow).collect();
    assert_eq!(pows, vec![9, 0, -5]);
    assert_eq!(v[2].pos, 3);
}
