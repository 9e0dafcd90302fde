use roshambo::combatant::{Combatant, CombatantType};
use roshambo::sim::{check_unanimous, generate_population, reset, step, Bounds};
use roshambo::targeting::nearest_target;

fn kinds_of(pop: &[Combatant]) -> Vec<CombatantType> {
    pop.iter().map(|c| c.kind).collect()
}

#[test]
fn generate_population_count_ids_bounds() {
    let bounds = Bounds {
        width: 800_000,
        height: 600_000,
    };
    let pop = generate_population(50, bounds, 42);
    assert_eq!(pop.len(), 50);
    for (i, c) in pop.iter().enumerate() {
        assert_eq!(c.id, i);
        assert!(0 <= c.x && c.x < 800_000);
        assert!(0 <= c.y && c.y < 600_000);
        assert!(500 <= c.speed && c.speed <= 2000);
        assert_eq!(c.scale, 500);
        assert!(matches!(
            c.kind,
            CombatantType::Rock | CombatantType::Paper | CombatantType::Scissors
        ));
    }
    // Ids are unique.
    for i in 0..pop.len() {
        for j in i + 1..pop.len() {
            assert_ne!(pop[i].id, pop[j].id);
        }
    }
}

#[test]
fn generate_population_same_seed_is_reproducible() {
    let bounds = Bounds {
        width: 800_000,
        height: 600_000,
    };
    let a = generate_population(20, bounds, 7);
    let b = generate_population(20, bounds, 7);
    assert_eq!(a, b);
}

#[test]
fn generate_population_degenerate_bounds_collapse_to_point() {
    let bounds = Bounds {
        width: 0,
        height: 0,
    };
    let pop = generate_population(5, bounds, 3);
    for c in &pop {
        assert_eq!((c.x, c.y), (0, 0));
    }
}

#[test]
fn targeting_skips_own_type_and_self() {
    // The snapshot contains the actor itself and a nearer same-type entry;
    // the far Scissors must still be the choice.
    let actor = Combatant::new(0, 0, 500, CombatantType::Rock, 0);
    let snapshot = vec![
        actor,
        Combatant::new(1, 0, 500, CombatantType::Rock, 1),
        Combatant::new(100_000, 0, 500, CombatantType::Scissors, 2),
    ];
    let t = nearest_target(&actor, &snapshot);
    assert_eq!(t, Some(2));
    assert_ne!(snapshot[t.unwrap()].kind, actor.kind);
}

#[test]
fn targeting_none_when_no_defeatable_type() {
    let actor = Combatant::new(0, 0, 500, CombatantType::Rock, 0);
    let snapshot = vec![
        actor,
        Combatant::new(10, 0, 500, CombatantType::Paper, 1),
        Combatant::new(20, 0, 500, CombatantType::Rock, 2),
    ];
    assert_eq!(nearest_target(&actor, &snapshot), None);
}

#[test]
fn targeting_tie_break_prefers_first_in_order() {
    let actor = Combatant::new(0, 0, 500, CombatantType::Rock, 0);
    let snapshot = vec![
        actor,
        Combatant::new(10, 0, 500, CombatantType::Scissors, 1),
        Combatant::new(0, 10, 500, CombatantType::Scissors, 2),
    ];
    // Both candidates sit at squared distance 100; repeated runs with the
    // same ordering always pick the first.
    for _ in 0..5 {
        assert_eq!(nearest_target(&actor, &snapshot), Some(1));
    }
}

#[test]
fn step_overlapping_rock_beats_scissors() {
    let mut store = vec![
        Combatant::new(0, 0, 500, CombatantType::Rock, 0),
        Combatant::new(0, 0, 500, CombatantType::Scissors, 1),
    ];
    let removed = step(&mut store);
    assert_eq!(removed, vec![1]);
    assert_eq!(store.len(), 1);
    assert_eq!(store[0].id, 0);
    assert_eq!(store[0].kind, CombatantType::Rock);
    assert_eq!(check_unanimous(&store), Some(CombatantType::Rock));
}

#[test]
fn step_winner_takes_escalation_reward() {
    let mut store = vec![
        Combatant::new(0, 0, 500, CombatantType::Rock, 0),
        Combatant::new(0, 0, 500, CombatantType::Scissors, 1),
    ];
    step(&mut store);
    // Speed drops and scale grows by the fixed escalation amounts.
    assert_eq!(store[0].speed, 450);
    assert_eq!(store[0].scale, 550);
}

#[test]
fn step_escalation_speed_stops_at_zero() {
    let mut store = vec![
        Combatant::new(0, 0, 20, CombatantType::Rock, 0),
        Combatant::new(0, 0, 500, CombatantType::Scissors, 1),
    ];
    step(&mut store);
    assert_eq!(store[0].speed, 0);
}

#[test]
fn step_distant_trio_moves_without_elimination() {
    let mut store = vec![
        Combatant::new(0, 0, 500, CombatantType::Rock, 0),
        Combatant::new(100_000, 0, 500, CombatantType::Paper, 1),
        Combatant::new(0, 100_000, 500, CombatantType::Scissors, 2),
    ];
    let removed = step(&mut store);
    assert!(removed.is_empty());
    assert_eq!(store.len(), 3);
    // Rock chases the Scissors straight up.
    assert_eq!((store[0].x, store[0].y), (0, 500));
    // Paper chases the Rock straight left.
    assert_eq!((store[1].x, store[1].y), (99_500, 0));
    // Scissors chases the Paper along the diagonal.
    assert_eq!((store[2].x, store[2].y), (353, 99_647));
    assert_eq!(check_unanimous(&store), None);
}

#[test]
fn step_defeated_combatant_no_longer_acts_as_mover() {
    // All three overlap.  The Rock defeats the Scissors first; the defeated
    // Scissors must sit out instead of defeating the Paper, and the Paper
    // then defeats the Rock.
    let mut store = vec![
        Combatant::new(0, 0, 500, CombatantType::Rock, 0),
        Combatant::new(0, 0, 500, CombatantType::Scissors, 1),
        Combatant::new(0, 0, 500, CombatantType::Paper, 2),
    ];
    let removed = step(&mut store);
    assert_eq!(removed, vec![1, 0]);
    assert_eq!(kinds_of(&store), vec![CombatantType::Paper]);
    assert_eq!(store[0].id, 2);
}

#[test]
fn step_defeated_target_still_credits_second_winner() {
    // Both Rocks hit the same Scissors in one tick; the id is removed once
    // and both winners take the reward.
    let mut store = vec![
        Combatant::new(0, 0, 500, CombatantType::Rock, 0),
        Combatant::new(0, 0, 500, CombatantType::Rock, 1),
        Combatant::new(0, 0, 500, CombatantType::Scissors, 2),
    ];
    let removed = step(&mut store);
    assert_eq!(removed, vec![2]);
    assert_eq!(store.len(), 2);
    assert_eq!(store[0].speed, 450);
    assert_eq!(store[1].speed, 450);
}

#[test]
fn check_unanimous_uniform_population_without_ticks() {
    let store = vec![
        Combatant::new(0, 0, 500, CombatantType::Paper, 0),
        Combatant::new(900, 40, 700, CombatantType::Paper, 1),
        Combatant::new(-20, 66, 900, CombatantType::Paper, 2),
    ];
    assert_eq!(check_unanimous(&store), Some(CombatantType::Paper));
}

#[test]
fn check_unanimous_empty_population_is_no_decision() {
    let store: Vec<Combatant> = Vec::new();
    assert_eq!(check_unanimous(&store), None);
}

#[test]
fn check_unanimous_mixed_population_is_no_decision() {
    let store = vec![
        Combatant::new(0, 0, 500, CombatantType::Paper, 0),
        Combatant::new(900, 40, 700, CombatantType::Rock, 1),
    ];
    assert_eq!(check_unanimous(&store), None);
}

#[test]
fn step_converged_population_is_stable() {
    let mut store = vec![
        Combatant::new(0, 0, 500, CombatantType::Rock, 0),
        Combatant::new(5_000, 0, 600, CombatantType::Rock, 1),
        Combatant::new(0, 5_000, 700, CombatantType::Rock, 2),
    ];
    let before = store.clone();
    for _ in 0..10 {
        let removed = step(&mut store);
        assert!(removed.is_empty());
        assert_eq!(store.len(), 3);
    }
    // With no eligible target nobody even moves.
    assert_eq!(store, before);
    assert_eq!(check_unanimous(&store), Some(CombatantType::Rock));
}

#[test]
fn step_empty_population_is_harmless() {
    let mut store: Vec<Combatant> = Vec::new();
    let removed = step(&mut store);
    assert!(removed.is_empty());
    assert!(store.is_empty());
}

#[test]
fn reset_replaces_population_wholesale() {
    let mut store = vec![
        Combatant::new(0, 0, 500, CombatantType::Rock, 0),
        Combatant::new(0, 0, 500, CombatantType::Scissors, 1),
    ];
    let bounds = Bounds {
        width: 800_000,
        height: 600_000,
    };
    reset(&mut store, 7, bounds, 99);
    assert_eq!(store.len(), 7);
    for (i, c) in store.iter().enumerate() {
        assert_eq!(c.id, i);
    }
}

#[test]
fn run_to_convergence_with_player_free_population() {
    // A small battle run to the end: step until one type remains.
    let bounds = Bounds {
        width: 50_000,
        height: 50_000,
    };
    let mut store = generate_population(30, bounds, 12345);
    let mut ticks = 0;
    while check_unanimous(&store).is_none() && !store.is_empty() && ticks < 20_000 {
        step(&mut store);
        ticks += 1;
    }
    if let Some(winner) = check_unanimous(&store) {
        assert!(!store.is_empty());
        for c in &store {
            assert_eq!(c.kind, winner);
        }
    }
}
