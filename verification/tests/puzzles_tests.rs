use solvekit::puzzles::{
    choose_restaurant, place_beacon, solve_bounded_pair, solve_button_presses, solve_rock_throw,
    solve_system_of_equations, Hailstone, Nanobot, PersonInfo, RestaurantInfo,
};

/// x + y = 10 and x - y = 2 has the unique solution (6, 4).
#[test]
fn system_of_equations() {
    assert_eq!(solve_system_of_equations(10, 2), Some((6, 4)));
}

/// An infeasible system (parity mismatch) reports no solution.
#[test]
fn system_of_equations_infeasible() {
    assert_eq!(solve_system_of_equations(10, 3), None);
}

/// x > 10, y > 10, x + y = 25 is satisfiable; any answer obeys all
/// three constraints.
#[test]
fn bounded_pair() {
    let (x, y) = solve_bounded_pair(10, 25).unwrap();
    assert!(x > 10 && y > 10);
    assert_eq!(x + y, 25);
}

/// x > 10, y > 10, x + y = 20 is infeasible.
#[test]
fn bounded_pair_infeasible() {
    assert_eq!(solve_bounded_pair(10, 20), None);
}

/// The five-hailstone instance of the rock-throw puzzle: the unique
/// trajectory starts at (24, 13, 10), so the coordinate sum is 47.
#[test]
fn rock_throw() {
    let stones = vec![
        Hailstone { px: 19, py: 13, pz: 30, vx: -2, vy: 1, vz: -2 },
        Hailstone { px: 18, py: 19, pz: 22, vx: -1, vy: -1, vz: -2 },
        Hailstone { px: 20, py: 25, pz: 34, vx: -2, vy: -2, vz: -4 },
        Hailstone { px: 12, py: 31, pz: 28, vx: -1, vy: -2, vz: -1 },
        Hailstone { px: 20, py: 19, pz: 15, vx: 1, vy: -5, vz: -3 },
    ];
    let rock = solve_rock_throw(&stones).unwrap();
    assert_eq!(rock.px + rock.py + rock.pz, 47);
    assert_eq!(rock.times.len(), 5);
    for (i, s) in stones.iter().enumerate() {
        let t = rock.times[i];
        assert!(t >= 0);
        assert_eq!(rock.px + rock.vx * t, s.px + s.vx * t);
        assert_eq!(rock.py + rock.vy * t, s.py + s.vy * t);
        assert_eq!(rock.pz + rock.vz * t, s.pz + s.vz * t);
    }
}

/// The first machine of the button puzzle needs exactly ten presses.
#[test]
fn button_presses_machine() {
    let targets = vec![3, 5, 4, 7];
    let buttons = vec![
        vec![3],
        vec![1, 3],
        vec![2],
        vec![2, 3],
        vec![0, 2],
        vec![0, 1],
    ];
    let plan = solve_button_presses(&targets, &buttons).unwrap();
    assert_eq!(plan.total, 10);
    assert_eq!(plan.presses.len(), 6);
    // Each counter hits its target exactly.
    for (c, target) in targets.iter().enumerate() {
        let mut sum = 0i64;
        for (b, affected) in buttons.iter().enumerate() {
            if affected.contains(&c) {
                sum += plan.presses[b];
            }
        }
        assert_eq!(sum, *target);
    }
}

/// A machine whose targets cannot be met reports no plan.
#[test]
fn button_presses_infeasible() {
    // One button feeding both counters can never make them differ.
    let targets = vec![1, 2];
    let buttons = vec![vec![0, 1]];
    assert!(solve_button_presses(&targets, &buttons).is_none());
}

/// Restaurant selection: the vegan-friendly option makes the group
/// happier and fits the budget.
#[test]
fn restaurant_choice() {
    let restaurants = vec![
        RestaurantInfo { cost: 20, vegan: false },
        RestaurantInfo { cost: 10, vegan: true },
    ];
    let people = vec![
        PersonInfo { is_vegan: false, ratings: vec![5, 3] },
        PersonInfo { is_vegan: true, ratings: vec![9, 4] },
    ];
    let choice = choose_restaurant(100, &restaurants, &people).unwrap();
    // Option 0 yields 5 + 0 = 5; option 1 yields 3 + 4 = 7.
    assert_eq!(choice.index, 1);
    assert_eq!(choice.happiness, 7);
}

/// A budget nobody fits leaves the group hungry.
#[test]
fn restaurant_over_budget() {
    let restaurants = vec![RestaurantInfo { cost: 50, vegan: true }];
    let people = vec![
        PersonInfo { is_vegan: false, ratings: vec![5] },
        PersonInfo { is_vegan: false, ratings: vec![5] },
    ];
    assert!(choose_restaurant(99, &restaurants, &people).is_none());
}

/// The nanobot beacon placement reaches the known optimum of the
/// worked example: five bots in range at distance 36 from the origin.
#[test]
fn beacon_placement() {
    let bots = vec![
        Nanobot { x: 10, y: 12, z: 12, r: 2 },
        Nanobot { x: 12, y: 14, z: 12, r: 2 },
        Nanobot { x: 16, y: 12, z: 12, r: 4 },
        Nanobot { x: 14, y: 14, z: 14, r: 6 },
        Nanobot { x: 50, y: 50, z: 50, r: 200 },
        Nanobot { x: 10, y: 10, z: 10, r: 5 },
    ];
    let p = place_beacon(&bots).unwrap();
    assert_eq!(p.in_range, 5);
    assert_eq!(p.x.abs() + p.y.abs() + p.z.abs(), 36);
}
