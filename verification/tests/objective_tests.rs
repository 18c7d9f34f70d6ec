use solvekit::puzzles::{
    solve_knapsack, solve_meeting_schedule, solve_optimization, KnapsackItem, MeetingPreference,
};

/// Weighted preference scenario: pinning a shared variable to 9
/// (weight 10) against 10 (weight 50) under hard bounds [9, 11] must
/// yield 10 — the higher weight wins.
#[test]
fn higher_weight_preference_wins() {
    let prefs = vec![
        MeetingPreference { time: 9, weight: 10 },
        MeetingPreference { time: 10, weight: 50 },
    ];
    assert_eq!(solve_meeting_schedule(&prefs), Some(10));
}

/// Equal weights: the engine picks arbitrarily among the tied optima,
/// so the test asserts membership, not a specific one.
#[test]
fn equal_weights_pick_one_of_the_tied() {
    let prefs = vec![
        MeetingPreference { time: 9, weight: 10 },
        MeetingPreference { time: 10, weight: 10 },
    ];
    let t = solve_meeting_schedule(&prefs).unwrap();
    assert!(t == 9 || t == 10);
}

/// Grouped penalties sum: one heavy vote joining one of three light
/// votes makes that time the unique optimum.
#[test]
fn grouped_penalties_sum() {
    let prefs = vec![
        MeetingPreference { time: 9, weight: 10 },
        MeetingPreference { time: 10, weight: 10 },
        MeetingPreference { time: 11, weight: 10 },
        MeetingPreference { time: 10, weight: 50 },
    ];
    assert_eq!(solve_meeting_schedule(&prefs), Some(10));
}

/// No preferences at all: any time in the hard window is fine.
#[test]
fn no_preferences_still_in_window() {
    let t = solve_meeting_schedule(&Vec::new()).unwrap();
    assert!(9 <= t && t <= 11);
}

/// A preference outside the window is violated at every candidate
/// time; all three are tied optima.
#[test]
fn unreachable_preference_ties_the_window() {
    let prefs = vec![MeetingPreference { time: 12, weight: 5 }];
    let t = solve_meeting_schedule(&prefs).unwrap();
    assert!(9 <= t && t <= 11);
}

/// The knapsack maximization finds the known optimum of the worked
/// example: items with (value, weight) of A(4,12), B(2,2), C(2,1),
/// D(1,1), E(10,4) under limit 15 give value 15.
#[test]
fn knapsack_optimum() {
    let items = vec![
        KnapsackItem { value: 4, weight: 12 },
        KnapsackItem { value: 2, weight: 2 },
        KnapsackItem { value: 2, weight: 1 },
        KnapsackItem { value: 1, weight: 1 },
        KnapsackItem { value: 10, weight: 4 },
    ];
    let choice = solve_knapsack(&items, 15).unwrap();
    assert_eq!(choice.total_value, 15);
    // B, C, D and E are in; A is out.
    assert_eq!(choice.taken, vec![false, true, true, true, true]);
}

/// Minimizing x + y under x > 0, y > 0, 2x + y >= 10 reaches sum 6.
#[test]
fn linear_minimum() {
    let (x, y) = solve_optimization().unwrap();
    assert!(x > 0 && y > 0 && 2 * x + y >= 10);
    assert_eq!(x + y, 6);
}
