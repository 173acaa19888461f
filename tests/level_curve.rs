use gompei::level::{get_level_cost, get_level_number};

#[test]
fn zero_xp() {
    assert_eq!(get_level_number(0), 0)
}

#[test]
fn level_3() {
    assert_eq!(get_level_number(2757), 3)
}

#[test]
fn level_14() {
    assert_eq!(get_level_number(149818), 14)
}

#[test]
fn cost_level_3() {
    assert_eq!(get_level_cost(3), 1350)
}

#[test]
fn cost_level_14() {
    assert_eq!(get_level_cost(14), 137200)
}

#[test]
fn level_of_exact_cost_is_that_level() {
    for level in 0u64..=440 {
        let cost = get_level_cost(level);
        assert_eq!(get_level_number(cost as u32), level as u32);
    }
}

#[test]
fn one_short_of_a_cost_is_the_level_below() {
    assert_eq!(get_level_number(49), 0);
    assert_eq!(get_level_number(50), 1);
    assert_eq!(get_level_number(399), 1);
    assert_eq!(get_level_number(400), 2);
    assert_eq!(get_level_number(1349), 2);
    assert_eq!(get_level_number(1350), 3);
}

#[test]
fn level_never_drops_as_experience_grows() {
    let mut previous = 0;
    for xp in (0u32..200_000).step_by(7) {
        let level = get_level_number(xp);
        assert!(level >= previous);
        previous = level;
    }
}

#[test]
fn level_at_largest_experience() {
    assert_eq!(get_level_number(u32::MAX), 441);
    assert_eq!(get_level_cost(441), 4_288_306_050);
}
