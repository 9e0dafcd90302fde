use roshambo::combatant::{win_rules, Combatant, CombatantType};
use roshambo::math::isqrt;
use roshambo::motion::collision_detection;
use roshambo::rng::seed_from_digits;

#[test]
fn test_win_rules() {
    assert_eq!(win_rules(CombatantType::Rock, CombatantType::Scissors), true);
    assert_eq!(win_rules(CombatantType::Paper, CombatantType::Rock), true);
    assert_eq!(
        win_rules(CombatantType::Scissors, CombatantType::Paper),
        true
    );
    assert_eq!(win_rules(CombatantType::Rock, CombatantType::Paper), false);
    assert_eq!(
        win_rules(CombatantType::Paper, CombatantType::Scissors),
        false
    );
    assert_eq!(win_rules(CombatantType::Scissors, CombatantType::Rock), false);
}

#[test]
fn win_rules_no_type_beats_itself() {
    assert_eq!(win_rules(CombatantType::Rock, CombatantType::Rock), false);
    assert_eq!(win_rules(CombatantType::Paper, CombatantType::Paper), false);
    assert_eq!(
        win_rules(CombatantType::Scissors, CombatantType::Scissors),
        false
    );
}

#[test]
fn win_rules_exactly_one_direction_wins() {
    let kinds = [
        CombatantType::Rock,
        CombatantType::Paper,
        CombatantType::Scissors,
    ];
    for a in kinds {
        for b in kinds {
            if a != b {
                assert_ne!(win_rules(a, b), win_rules(b, a));
            }
        }
    }
}

#[test]
fn isqrt_exact_values() {
    assert_eq!(isqrt(0), 0);
    assert_eq!(isqrt(1), 1);
    assert_eq!(isqrt(2), 1);
    assert_eq!(isqrt(3), 1);
    assert_eq!(isqrt(4), 2);
    assert_eq!(isqrt(99), 9);
    assert_eq!(isqrt(100), 10);
    assert_eq!(isqrt(10_000_000_000), 100_000);
    assert_eq!(isqrt(20_000_000_000), 141_421);
}

#[test]
fn collision_overlapping_boxes() {
    // Spawn-scale combatants have 16000-thousandth-wide hitboxes.
    let a = Combatant::new(0, 0, 500, CombatantType::Rock, 0);
    let b = Combatant::new(15_999, 0, 500, CombatantType::Scissors, 1);
    assert!(collision_detection(&a, &b));
    assert!(collision_detection(&b, &a));
    let c = Combatant::new(0, 0, 500, CombatantType::Rock, 2);
    assert!(collision_detection(&a, &c));
}

#[test]
fn collision_touching_edges_do_not_overlap() {
    let a = Combatant::new(0, 0, 500, CombatantType::Rock, 0);
    let b = Combatant::new(16_000, 0, 500, CombatantType::Scissors, 1);
    assert!(!collision_detection(&a, &b));
    let below = Combatant::new(0, 16_000, 500, CombatantType::Scissors, 2);
    assert!(!collision_detection(&a, &below));
}

#[test]
fn collision_distant_boxes_do_not_overlap() {
    let a = Combatant::new(0, 0, 500, CombatantType::Rock, 0);
    let b = Combatant::new(100_000, 100_000, 500, CombatantType::Scissors, 1);
    assert!(!collision_detection(&a, &b));
}

#[test]
fn move_toward_partial_step_is_truncated() {
    let mut c = Combatant::new(0, 0, 100, CombatantType::Rock, 0);
    c.move_toward(300, 400);
    // Distance 500, speed 100: three-four-five triangle scaled by a fifth.
    assert_eq!(c.position(), (60, 80));
}

#[test]
fn move_toward_reaches_near_target_exactly() {
    let mut c = Combatant::new(0, 0, 500, CombatantType::Rock, 0);
    c.move_toward(300, 400);
    assert_eq!(c.position(), (300, 400));
}

#[test]
fn move_toward_coincident_target_is_no_movement() {
    let mut c = Combatant::new(7, -3, 500, CombatantType::Rock, 0);
    c.move_toward(7, -3);
    assert_eq!(c.position(), (7, -3));
}

#[test]
fn move_toward_keeps_speed_scale_type_id() {
    let mut c = Combatant::new(0, 0, 750, CombatantType::Paper, 9);
    c.move_toward(-1000, 0);
    assert_eq!(c.position(), (-750, 0));
    assert_eq!(c.speed, 750);
    assert_eq!(c.visual_scale(), 500);
    assert_eq!(c.combatant_type(), CombatantType::Paper);
    assert_eq!(c.id, 9);
}

#[test]
fn seed_from_digits_sums_clock_digits() {
    let text: Vec<u8> = b"123.456".to_vec();
    assert_eq!(seed_from_digits(&text), 21);
}

#[test]
fn seed_from_digits_empty_is_zero() {
    let text: Vec<u8> = Vec::new();
    assert_eq!(seed_from_digits(&text), 0);
}
