use boids::boids::{Boid, Boids, Color4};
use boids::fx::{fmul, isqrt};
use boids::index::SpatialIndex;
use boids::settings::Settings;
use boids::vec2::V2;

fn quiet_settings() -> Settings {
    Settings {
        paused: false,
        predator: false,
        population: 1,
        spacing_goal: 40_000,
        separation_weight: 0,
        cohesion_weight: 0,
        alignment_weight: 0,
        target_speed: 0,
        speed_weight: 0,
    }
}

fn boid_at(x: i64, y: i64, vx: i64, vy: i64) -> Boid {
    Boid {
        pos: V2 { x, y },
        vel: V2 { x: vx, y: vy },
        color: Color4 { r: 310, g: 310, b: 310, a: 1000 },
    }
}

#[test]
fn test_isqrt_exact() {
    assert_eq!(isqrt(0), 0);
    assert_eq!(isqrt(1), 1);
    assert_eq!(isqrt(3), 1);
    assert_eq!(isqrt(4), 2);
    assert_eq!(isqrt(99), 9);
    assert_eq!(isqrt(100), 10);
    assert_eq!(isqrt(80_000_000_000), 282_842);
    assert_eq!(isqrt(u64::MAX as u128), 4_294_967_295);
}

#[test]
fn test_fmul_truncates_toward_zero() {
    assert_eq!(fmul(1500, 2000), 3000);
    assert_eq!(fmul(-1500, 2000), -3000);
    assert_eq!(fmul(999, 1), 0);
    assert_eq!(fmul(-999, 1), 0);
    assert_eq!(fmul(0, 123456), 0);
}

#[test]
fn test_norm_or_zero_of_zero_is_zero() {
    let z = V2 { x: 0, y: 0 }.norm_or_zero();
    assert_eq!(z, V2 { x: 0, y: 0 });
}

#[test]
fn test_norm_or_zero_three_four_five() {
    let u = V2 { x: 3000, y: 4000 }.norm_or_zero();
    assert_eq!(u, V2 { x: 600, y: 800 });
}

#[test]
fn test_k_nearest_sorted_and_capped() {
    let pts = vec![
        V2 { x: 0, y: 0 },
        V2 { x: 10_000, y: 0 },
        V2 { x: 5_000, y: 0 },
        V2 { x: 100_000, y: 0 },
    ];
    let idx = SpatialIndex::build(&pts);
    let r = idx.k_nearest(V2 { x: 0, y: 0 }, 2);
    assert_eq!(r, vec![(0, 0), (2, 25_000_000)]);
    let all = idx.k_nearest(V2 { x: 0, y: 0 }, 10);
    assert_eq!(all.len(), 4);
    for w in all.windows(2) {
        assert!(w[0].1 <= w[1].1);
    }
}

#[test]
fn test_k_nearest_empty_population() {
    let idx = SpatialIndex::build(&Vec::new());
    let r = idx.k_nearest(V2 { x: 123, y: -456 }, 6);
    assert!(r.is_empty());
}

#[test]
fn test_k_nearest_tie_prefers_lower_index() {
    let pts = vec![V2 { x: 1000, y: 0 }, V2 { x: -1000, y: 0 }];
    let idx = SpatialIndex::build(&pts);
    let r = idx.k_nearest(V2 { x: 0, y: 0 }, 2);
    assert_eq!(r, vec![(0, 1_000_000), (1, 1_000_000)]);
}

#[test]
fn test_index_is_deterministic() {
    let pts = vec![
        V2 { x: 7_000, y: -3_000 },
        V2 { x: 0, y: 0 },
        V2 { x: -20_000, y: 5_000 },
        V2 { x: 4_000, y: 4_000 },
    ];
    let a = SpatialIndex::build(&pts);
    let b = SpatialIndex::build(&pts);
    for q in [V2 { x: 0, y: 0 }, V2 { x: 5_000, y: 5_000 }, V2 { x: -1, y: 99_999 }] {
        assert_eq!(a.k_nearest(q, 3), b.k_nearest(q, 3));
    }
}

#[test]
fn test_default_settings_population() {
    let s = Settings::default_for(800_000, 600_000);
    assert!(s.paused);
    assert!(s.predator);
    assert_eq!(s.population, 288);
    assert_eq!(s.spacing_goal, 40_000);
}

#[test]
fn test_common_forces_zero_in_interior() {
    let b = boid_at(100_000, 100_000, 0, 0);
    let f = b.calc_common_forces(&quiet_settings(), 800_000, 600_000);
    assert_eq!(f, V2 { x: 0, y: 0 });
}

#[test]
fn test_common_forces_inward_within_margin() {
    let b = boid_at(10_000, 10_000, 0, 0);
    let f = b.calc_common_forces(&quiet_settings(), 800_000, 600_000);
    assert_eq!(f, V2 { x: 200_000, y: 200_000 });
    let c = boid_at(795_000, 595_000, 0, 0);
    let g = c.calc_common_forces(&quiet_settings(), 800_000, 600_000);
    assert!(g.x < 0 && g.y < 0);
}

#[test]
fn test_zero_velocity_no_speed_force() {
    let mut s = quiet_settings();
    s.target_speed = 9_000;
    s.speed_weight = 9_000;
    let b = boid_at(100_000, 100_000, 0, 0);
    let f = b.calc_common_forces(&s, 800_000, 600_000);
    assert_eq!(f, V2 { x: 0, y: 0 });
}

#[test]
fn test_single_prey_interior_stays_put() {
    let me = boid_at(100_000, 100_000, 0, 0);
    let birds = vec![me];
    let predators: Vec<Boid> = Vec::new();
    let tree = SpatialIndex::build(&vec![me.pos]);
    let r = me.update_prey(&birds, &predators, &tree, &quiet_settings(), 100, 800_000, 600_000);
    assert_eq!(r.vel, V2 { x: 0, y: 0 });
    assert_eq!(r.pos, V2 { x: 100_000, y: 100_000 });
}

#[test]
fn test_single_prey_boundary_force_integrates_exactly() {
    let me = boid_at(10_000, 10_000, 0, 0);
    let birds = vec![me];
    let predators: Vec<Boid> = Vec::new();
    let tree = SpatialIndex::build(&vec![me.pos]);
    let r = me.update_prey(&birds, &predators, &tree, &quiet_settings(), 100, 800_000, 600_000);
    // boundary force is (200000, 200000); velocity = force * dt exactly
    assert_eq!(r.vel, V2 { x: 20_000, y: 20_000 });
    assert_eq!(r.pos, V2 { x: 12_000, y: 12_000 });
    // colour: red from force magnitude, green from (zero) speed
    assert_eq!(r.color.r, 2_262);
    assert_eq!(r.color.g, 0);
    assert_eq!(r.color.b, 0);
    assert_eq!(r.color.a, 1000);
}

#[test]
fn test_two_close_prey_separate() {
    let mut s = quiet_settings();
    s.separation_weight = 5_000;
    let a = boid_at(100_000, 100_000, 0, 0);
    let b = boid_at(130_000, 100_000, 0, 0);
    let birds = vec![a, b];
    let predators: Vec<Boid> = Vec::new();
    let tree = SpatialIndex::build(&vec![a.pos, b.pos]);
    let ra = a.update_prey(&birds, &predators, &tree, &s, 100, 800_000, 600_000);
    let rb = b.update_prey(&birds, &predators, &tree, &s, 100, 800_000, 600_000);
    assert_eq!(ra.vel, V2 { x: -20_000, y: 0 });
    assert_eq!(rb.vel, V2 { x: 20_000, y: 0 });
    assert_eq!(ra.pos, V2 { x: 98_000, y: 100_000 });
    assert_eq!(rb.pos, V2 { x: 132_000, y: 100_000 });
    let before = b.pos.x - a.pos.x;
    let after = rb.pos.x - ra.pos.x;
    assert!(after > before);
}

#[test]
fn test_predator_chases_prey() {
    let mut s = quiet_settings();
    s.cohesion_weight = 5_000;
    let p = boid_at(100_000, 100_000, 0, 0);
    let prey = boid_at(130_000, 100_000, 0, 0);
    let birds = vec![prey];
    let others: Vec<Boid> = Vec::new();
    let tree = SpatialIndex::build(&vec![prey.pos]);
    let r = p.update_predator(&birds, &others, &tree, &s, 100, 800_000, 600_000);
    // chase term: offset 30000 scaled by 5.0 then 0.02 -> 3000; times dt
    assert_eq!(r.vel, V2 { x: 300, y: 0 });
    assert_eq!(r.color, Color4 { r: 0, g: 0, b: 0, a: 1000 });
}

#[test]
fn test_spawned_agents_within_viewport() {
    for _ in 0..100 {
        let b = Boid::new(800_000, 600_000);
        assert!(b.pos.x >= 0 && b.pos.x <= 800_000);
        assert!(b.pos.y >= 0 && b.pos.y <= 600_000);
        assert!(b.vel.x >= -50_000 && b.vel.x <= 50_000);
        assert!(b.vel.y >= -50_000 && b.vel.y <= 50_000);
    }
}

#[test]
fn test_pause_keeps_state() {
    let mut flock = Boids::new(3, 800_000, 600_000);
    let before_birds = flock.birds().clone();
    let before_preds = flock.predators().clone();
    let mut s = quiet_settings();
    s.paused = true;
    s.predator = true;
    s.population = 3;
    flock.update(&s, 800_000, 600_000, 100);
    assert_eq!(flock.birds(), &before_birds);
    assert_eq!(flock.predators(), &before_preds);
}

#[test]
fn test_pause_with_resize_keeps_survivors() {
    let mut flock = Boids::new(3, 800_000, 600_000);
    let before = flock.birds().clone();
    let mut s = quiet_settings();
    s.paused = true;
    s.predator = true;
    s.population = 5;
    flock.update(&s, 800_000, 600_000, 100);
    assert_eq!(flock.birds().len(), 5);
    assert_eq!(&flock.birds()[..3], &before[..]);
    for b in &flock.birds()[3..] {
        assert!(b.pos.x >= 0 && b.pos.x <= 800_000);
        assert!(b.pos.y >= 0 && b.pos.y <= 600_000);
    }
}

#[test]
fn test_resize_down_truncates() {
    let mut flock = Boids::new(4, 800_000, 600_000);
    let before = flock.birds().clone();
    let mut s = quiet_settings();
    s.paused = true;
    s.predator = true;
    s.population = 1;
    flock.update(&s, 800_000, 600_000, 100);
    assert_eq!(flock.birds().len(), 1);
    assert_eq!(flock.birds()[0], before[0]);
}

#[test]
fn test_negative_population_clamped_to_zero() {
    let mut flock = Boids::new(2, 800_000, 600_000);
    let mut s = quiet_settings();
    s.paused = true;
    s.predator = true;
    s.population = -7;
    flock.update(&s, 800_000, 600_000, 100);
    assert_eq!(flock.birds().len(), 0);
}

#[test]
fn test_predator_toggle() {
    let mut flock = Boids::new(1, 800_000, 600_000);
    assert_eq!(flock.predators().len(), 1);
    let mut s = quiet_settings();
    s.paused = true;
    s.population = 1;
    s.predator = false;
    flock.update(&s, 800_000, 600_000, 100);
    assert_eq!(flock.predators().len(), 0);
    s.predator = true;
    flock.update(&s, 800_000, 600_000, 100);
    assert_eq!(flock.predators().len(), 1);
}

#[test]
fn test_unpaused_step_keeps_population_size() {
    let mut flock = Boids::new(5, 800_000, 600_000);
    let mut s = quiet_settings();
    s.population = 5;
    s.predator = true;
    s.separation_weight = 5_000;
    s.cohesion_weight = 5_000;
    s.alignment_weight = 5_000;
    s.target_speed = 5_000;
    s.speed_weight = 5_000;
    flock.update(&s, 800_000, 600_000, 16);
    assert_eq!(flock.birds().len(), 5);
    assert_eq!(flock.predators().len(), 1);
}

#[test]
fn test_alignment_exact() {
    let mut s = quiet_settings();
    s.alignment_weight = 5_000;
    s.spacing_goal = 0;
    let a = boid_at(100_000, 100_000, 0, 0);
    let b = boid_at(130_000, 100_000, 10_000, 0);
    let birds = vec![a, b];
    let predators: Vec<Boid> = Vec::new();
    let tree = SpatialIndex::build(&vec![a.pos, b.pos]);
    let ra = a.update_prey(&birds, &predators, &tree, &s, 100, 800_000, 600_000);
    // (10 - 0) * 5.0 * 0.15 = 7.5 averaged over 2 neighbours, times dt
    assert_eq!(ra.vel, V2 { x: 375, y: 0 });
}

#[test]
fn test_cohesion_exact() {
    let mut s = quiet_settings();
    s.cohesion_weight = 5_000;
    s.spacing_goal = 0;
    let a = boid_at(100_000, 100_000, 0, 0);
    let b = boid_at(130_000, 100_000, 0, 0);
    let birds = vec![a, b];
    let predators: Vec<Boid> = Vec::new();
    let tree = SpatialIndex::build(&vec![a.pos, b.pos]);
    let ra = a.update_prey(&birds, &predators, &tree, &s, 100, 800_000, 600_000);
    let rb = b.update_prey(&birds, &predators, &tree, &s, 100, 800_000, 600_000);
    // 30 * 5.0 * 0.4 = 60 averaged over 2 neighbours, times dt
    assert_eq!(ra.vel, V2 { x: 3_000, y: 0 });
    assert_eq!(rb.vel, V2 { x: -3_000, y: 0 });
}

#[test]
fn test_speed_matching_exact() {
    let mut s = quiet_settings();
    s.target_speed = 2_000;
    s.speed_weight = 5_000;
    let me = boid_at(100_000, 100_000, 30_000, 40_000);
    let birds = vec![me];
    let predators: Vec<Boid> = Vec::new();
    let tree = SpatialIndex::build(&vec![me.pos]);
    let r = me.update_prey(&birds, &predators, &tree, &s, 100, 800_000, 600_000);
    // speed 50, target 2 * 15 = 30: gap -20, * 5.0 * 0.4 = -40 along (0.6, 0.8)
    assert_eq!(r.vel, V2 { x: 27_600, y: 36_800 });
    assert_eq!(r.pos, V2 { x: 102_760, y: 103_680 });
    assert_eq!(r.color.r, 320);
    assert_eq!(r.color.g, 500);
}

#[test]
fn test_predator_avoidance_exact() {
    let s = quiet_settings();
    let me = boid_at(100_000, 100_000, 0, 0);
    let predator = boid_at(160_000, 100_000, 0, 10_000);
    let birds = vec![me];
    let predators = vec![predator];
    let tree = SpatialIndex::build(&vec![me.pos]);
    let r = me.update_prey(&birds, &predators, &tree, &s, 100, 800_000, 600_000);
    // 60 units away (within 120): (60 - 120) * 0.05 = -3 along the
    // predator's rotated velocity signed toward the prey
    assert_eq!(r.vel, V2 { x: -3_000, y: 0 });
}

#[test]
fn test_far_predator_no_force() {
    let s = quiet_settings();
    let me = boid_at(100_000, 100_000, 0, 0);
    let predator = boid_at(300_000, 100_000, 0, 10_000);
    let birds = vec![me];
    let predators = vec![predator];
    let tree = SpatialIndex::build(&vec![me.pos]);
    let r = me.update_prey(&birds, &predators, &tree, &s, 100, 800_000, 600_000);
    assert_eq!(r.vel, V2 { x: 0, y: 0 });
}
