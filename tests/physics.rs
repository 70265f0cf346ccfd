use grid_collide::arith::{floor_div, isqrt};
use grid_collide::body::{Body, COORD_LIMIT};
use grid_collide::broad::find_candidate_pairs;
use grid_collide::config::Config;
use grid_collide::contact::{narrow_phase, resolve_contact, Contact};
use grid_collide::grid::{build_grid, cell_coord_exec};
use grid_collide::layout::lattice_positions;
use grid_collide::motion::{apply_friction, contain, integrate, steer_controlled};
use grid_collide::pipeline::{detect_contacts, resolve_contacts, step};
use grid_collide::query::{cell_boundaries, circles, input_velocity};

fn body(x: i64, z: i64, radius: i64) -> Body {
    Body { x, z, vx: 0, vz: 0, radius, mass: 1, controlled: false }
}

fn moving(x: i64, z: i64, vx: i64, vz: i64, radius: i64) -> Body {
    Body { x, z, vx, vz, radius, mass: 1, controlled: false }
}

fn resolve_pair(bodies: &mut Vec<Body>) -> bool {
    let c = narrow_phase(bodies, 0, 1).expect("the bodies overlap");
    resolve_contact(bodies, &c)
}

fn dist_sq(a: &Body, b: &Body) -> i128 {
    let dx = (b.x - a.x) as i128;
    let dz = (b.z - a.z) as i128;
    dx * dx + dz * dz
}

#[test]
fn overlapping_pair_separates_to_sum_of_radii() {
    // radius 2 at (0, 0) and (3, 0), in thousandths
    let mut bodies = vec![body(0, 0, 2000), body(3000, 0, 2000)];
    assert!(resolve_pair(&mut bodies));
    assert_eq!((bodies[0].x, bodies[0].z), (-500, 0));
    assert_eq!((bodies[1].x, bodies[1].z), (3500, 0));
    assert_eq!(bodies[1].x - bodies[0].x, 4000);
    assert_eq!((bodies[0].vx, bodies[0].vz, bodies[1].vx, bodies[1].vz), (0, 0, 0, 0));
}

#[test]
fn containment_clamps_and_stops_outward_motion() {
    // x = -199.5, radius 2, half-extent 200, velocity -1, in tenths
    let mut bodies = vec![moving(-1995, 0, -10, 0, 20)];
    contain(&mut bodies, 2000);
    assert_eq!(bodies[0].x, -1980);
    assert_eq!(bodies[0].vx, 0);
}

#[test]
fn coincident_bodies_separate_along_x() {
    let mut bodies = vec![body(5, 5, 3), body(5, 5, 3)];
    let c = narrow_phase(&bodies, 0, 1).unwrap();
    assert_eq!((c.nx, c.nz), (1, 0));
    assert_eq!((c.push_x, c.push_z), (6, 0));
    assert!(resolve_contact(&mut bodies, &c));
    assert_eq!((bodies[0].x, bodies[0].z), (2, 5));
    assert_eq!((bodies[1].x, bodies[1].z), (8, 5));
}

#[test]
fn diagonal_overlap_leaves_no_penetration() {
    let mut bodies = vec![body(0, 0, 2), body(1, 1, 2)];
    assert!(resolve_pair(&mut bodies));
    assert_eq!((bodies[0].x, bodies[0].z), (-1, -1));
    assert_eq!((bodies[1].x, bodies[1].z), (2, 2));
    assert!(dist_sq(&bodies[0], &bodies[1]) >= 16);
    assert!(dist_sq(&bodies[0], &bodies[1]) < 36);
}

#[test]
fn close_centres_separate_by_about_the_penetration() {
    // exact result: a at about (-70.2, -70.2), b at about (71.2, 71.2)
    let mut bodies = vec![body(0, 0, 100), body(1, 1, 100)];
    let c = narrow_phase(&bodies, 0, 1).unwrap();
    assert_eq!((c.push_x, c.push_z), (141, 141));
    assert!(resolve_contact(&mut bodies, &c));
    assert_eq!((bodies[0].x, bodies[0].z), (-70, -70));
    assert_eq!((bodies[1].x, bodies[1].z), (72, 72));
    assert!(dist_sq(&bodies[0], &bodies[1]) >= 200 * 200);
    assert!(dist_sq(&bodies[0], &bodies[1]) < 202 * 202);
}

#[test]
fn separated_pair_has_no_contact() {
    let bodies = vec![body(0, 0, 2), body(4, 0, 2)];
    assert!(narrow_phase(&bodies, 0, 1).is_none());
}

#[test]
fn head_on_merge_keeps_momentum() {
    let mut bodies = vec![moving(0, 0, 10, 0, 2), moving(3, 0, -10, 0, 2)];
    assert!(resolve_pair(&mut bodies));
    assert_eq!((bodies[0].vx, bodies[1].vx), (0, 0));
    assert_eq!(bodies[0].vx + bodies[1].vx, 0);
}

#[test]
fn unequal_masses_merge_to_centre_of_mass_velocity() {
    let mut a = moving(0, 0, 30, 0, 2);
    a.mass = 2;
    let b = moving(3, 0, 0, 0, 2);
    let mut bodies = vec![a, b];
    assert!(resolve_pair(&mut bodies));
    assert_eq!(bodies[0].vx, 20);
    assert_eq!(bodies[1].vx, 20);
    assert_eq!(2 * bodies[0].vx + bodies[1].vx, 60);
    // separation split in inverse proportion to mass: push 1 goes to b
    assert_eq!((bodies[0].x, bodies[1].x), (0, 4));
}

#[test]
fn tangential_velocity_is_kept() {
    let mut bodies = vec![moving(0, 0, 10, 7, 2), moving(3, 0, 0, -4, 2)];
    assert!(resolve_pair(&mut bodies));
    assert_eq!((bodies[0].vx, bodies[0].vz), (5, 7));
    assert_eq!((bodies[1].vx, bodies[1].vz), (5, -4));
}

#[test]
fn containment_twice_is_containment_once() {
    let mut once = vec![moving(-1995, 1990, -10, 4, 20), moving(300, -2500, 3, -7, 50)];
    contain(&mut once, 2000);
    let mut twice = once.clone();
    contain(&mut twice, 2000);
    assert_eq!(once, twice);
    assert_eq!((once[1].z, once[1].vz), (-1950, 0));
    assert_eq!((once[0].z, once[0].vz), (1980, 0));
}

#[test]
fn stale_contact_is_skipped() {
    let mut bodies = vec![body(0, 0, 2)];
    let c = Contact { a: 0, b: 5, nx: 1, nz: 0, push_x: 1, push_z: 0 };
    assert!(!resolve_contact(&mut bodies, &c));
    assert_eq!(bodies, vec![body(0, 0, 2)]);
}

#[test]
fn grid_puts_each_body_in_its_cell() {
    let cfg = Config::new(100, 4, 1, 1).unwrap();
    let bodies = vec![body(-100, -100, 1), body(99, 99, 1), body(0, 0, 1), body(-51, 49, 1), body(500, -500, 1)];
    let g = build_grid(&bodies, &cfg);
    assert_eq!(g.cells.len(), 16);
    assert_eq!(g.cells[0], vec![0]);
    assert_eq!(g.cells[15], vec![1]);
    assert_eq!(g.cells[2 + 2 * 4], vec![2]);
    assert_eq!(g.cells[0 + 2 * 4], vec![3]);
    assert_eq!(g.cells[3], vec![4]);
    let total: usize = g.cells.iter().map(|c| c.len()).sum();
    assert_eq!(total, bodies.len());
    assert_eq!(cell_coord_exec(-51, &cfg), 0);
    assert_eq!(cell_coord_exec(-50, &cfg), 1);
}

#[test]
fn broad_phase_finds_neighbours_once() {
    let cfg = Config::new(100, 4, 1, 1).unwrap();
    // 0 and 1 share a cell, 2 is in the next cell, 3 is far away
    let bodies = vec![body(-60, -60, 5), body(-55, -60, 5), body(-47, -60, 5), body(90, 90, 5)];
    let g = build_grid(&bodies, &cfg);
    let pairs = find_candidate_pairs(&g);
    let mut sorted = pairs.clone();
    sorted.sort();
    sorted.dedup();
    assert_eq!(sorted.len(), pairs.len());
    assert_eq!(sorted, vec![(0, 1), (0, 2), (1, 2)]);
    assert_eq!(pairs, vec![(0, 1), (0, 2), (1, 2)]);
    let contacts = detect_contacts(&bodies, &pairs);
    assert_eq!(contacts.len(), 2);
    assert_eq!((contacts[0].a, contacts[0].b), (0, 1));
    assert_eq!((contacts[1].a, contacts[1].b), (1, 2));
}

#[test]
fn contacts_resolve_in_discovery_order() {
    let mut bodies = vec![body(0, 0, 2), body(3, 0, 2), body(6, 0, 2)];
    let pairs = vec![(0, 1), (1, 2)];
    let contacts = detect_contacts(&bodies, &pairs);
    resolve_contacts(&mut bodies, &contacts);
    // an odd correction goes whole to the second body of the pair
    assert_eq!((bodies[0].x, bodies[1].x, bodies[2].x), (0, 4, 7));
}

#[test]
fn integrate_advances_and_saturates() {
    let mut bodies = vec![moving(10, -10, 3, -4, 1), moving(COORD_LIMIT - 1, 0, 5, 0, 1)];
    integrate(&mut bodies, 2);
    assert_eq!((bodies[0].x, bodies[0].z), (16, -18));
    assert_eq!(bodies[1].x, COORD_LIMIT);
}

#[test]
fn friction_scales_toward_zero() {
    let mut bodies = vec![moving(0, 0, 7, -7, 1)];
    apply_friction(&mut bodies, 1, 2);
    assert_eq!((bodies[0].vx, bodies[0].vz), (3, -3));
    apply_friction(&mut bodies, 1, 1);
    assert_eq!((bodies[0].vx, bodies[0].vz), (3, -3));
}

#[test]
fn steering_overwrites_only_controlled_bodies() {
    let mut avatar = moving(0, 0, 1, 1, 20);
    avatar.controlled = true;
    let mut bodies = vec![avatar, moving(50, 0, 2, 2, 2)];
    steer_controlled(&mut bodies, -4, 9);
    assert_eq!((bodies[0].vx, bodies[0].vz), (-4, 9));
    assert_eq!((bodies[1].vx, bodies[1].vz), (2, 2));
}

#[test]
fn step_runs_the_pipeline() {
    let cfg = Config::new(100, 10, 1, 1).unwrap();
    let mut bodies = vec![moving(0, 0, 1, 0, 2), moving(4, 0, 0, 0, 2), moving(-99, 50, -3, 0, 2)];
    step(&mut bodies, &cfg, None, 1);
    // the first two touch after integration (distance 3 < 4) and separate
    assert!(dist_sq(&bodies[0], &bodies[1]) >= 16);
    assert_eq!((bodies[2].x, bodies[2].vx), (-98, 0));
}

#[test]
fn step_applies_override() {
    let cfg = Config::new(100, 10, 1, 1).unwrap();
    let mut avatar = body(0, 0, 2);
    avatar.controlled = true;
    let mut bodies = vec![avatar];
    step(&mut bodies, &cfg, Some((5, -5)), 2);
    assert_eq!((bodies[0].x, bodies[0].z), (10, -10));
}

#[test]
fn config_rejects_bad_parameters() {
    assert!(Config::new(100, 0, 1, 1).is_none());
    assert!(Config::new(0, 10, 1, 1).is_none());
    assert!(Config::new(100, 10, 2, 1).is_none());
    assert!(Config::new(100, 10, 1, 1).is_some());
}

#[test]
fn body_rejects_bad_values() {
    assert!(Body::new(0, 0, 0, 1).is_none());
    assert!(Body::new(0, 0, 1, 0).is_none());
    assert!(Body::new(COORD_LIMIT + 1, 0, 1, 1).is_none());
    assert_eq!(Body::new(3, 4, 5, 6), Some(Body { x: 3, z: 4, vx: 0, vz: 0, radius: 5, mass: 6, controlled: false }));
}

#[test]
fn integer_helpers() {
    assert_eq!(isqrt(0), 0);
    assert_eq!(isqrt(15), 3);
    assert_eq!(isqrt(16), 4);
    assert_eq!(floor_div(-7, 2), -4);
    assert_eq!(floor_div(7, 2), 3);
}

#[test]
fn queries_for_drawing() {
    let cfg = Config::new(100, 4, 1, 1).unwrap();
    assert_eq!(cell_boundaries(&cfg), vec![-100, -50, 0, 50, 100]);
    let bodies = vec![body(1, 2, 3)];
    assert_eq!(circles(&bodies), vec![(1, 2, 3)]);
}

#[test]
fn input_velocity_normalises_diagonals() {
    assert_eq!(input_velocity(true, false, false, false, 200), (0, -200));
    assert_eq!(input_velocity(false, false, true, true, 200), (0, 0));
    assert_eq!(input_velocity(false, true, false, true, 200), (141, 141));
}

#[test]
fn lattice_fills_rows_around_the_origin() {
    assert_eq!(lattice_positions(5, 2), Some(vec![(-2, -2), (0, -2), (2, -2), (-2, 0), (0, 0)]));
    assert_eq!(lattice_positions(4, 5), Some(vec![(-2, -2), (3, -2), (-2, 3), (3, 3)]));
    let big = lattice_positions(10000, 5).unwrap();
    assert_eq!(big.len(), 10000);
    assert_eq!(big[0], (-247, -247));
    assert_eq!(big[9999], (248, 248));
    assert_eq!(lattice_positions(0, 5), Some(vec![]));
    assert_eq!(lattice_positions(4, COORD_LIMIT + 1), None);
}
