use tagars::economy::{spawn_count, FoodAction, FoodPass, FOOD_BATCH, MAX_FOODS};

/// Drives a pass to its end, answering each test by `covers`, and returns
/// the pairs in the order asked.
fn drive(
    dead: Vec<bool>,
    foods: usize,
    mut covers: impl FnMut(usize, usize) -> bool,
) -> (Vec<(usize, usize)>, FoodPass) {
    let mut pass = FoodPass::begin(dead, foods);
    let mut asked = Vec::new();
    let mut action = pass.awaiting();
    while let FoodAction::Test { ball, food } = action {
        asked.push((ball, food));
        action = pass.advance(covers(ball, food));
    }
    (asked, pass)
}

#[test]
fn food_constants() {
    assert_eq!(MAX_FOODS, 1000);
    assert_eq!(FOOD_BATCH, 100);
}

#[test]
fn no_food_is_spawned_at_the_cap() {
    assert_eq!(spawn_count(1000), 0);
}

#[test]
fn no_food_is_spawned_above_the_cap() {
    assert_eq!(spawn_count(1001), 0);
    assert_eq!(spawn_count(1099), 0);
    assert_eq!(spawn_count(u64::MAX), 0);
}

#[test]
fn a_full_batch_is_spawned_below_the_cap() {
    assert_eq!(spawn_count(0), 100);
    assert_eq!(spawn_count(500), 100);
    assert_eq!(spawn_count(999), 100);
}

#[test]
fn pass_without_balls_or_food_is_finished_at_once() {
    assert_eq!(FoodPass::begin(Vec::new(), 0).awaiting(), FoodAction::Finished);
    assert_eq!(FoodPass::begin(Vec::new(), 5).awaiting(), FoodAction::Finished);
    assert_eq!(FoodPass::begin(vec![false, false], 0).awaiting(), FoodAction::Finished);
    assert_eq!(FoodPass::begin(vec![true, true], 3).awaiting(), FoodAction::Finished);
}

#[test]
fn every_live_ball_is_tested_against_every_food() {
    let (asked, pass) = drive(vec![false, false], 3, |_, _| false);
    assert_eq!(asked, vec![(0, 0), (0, 1), (0, 2), (1, 0), (1, 1), (1, 2)]);
    for food in 0..3 {
        assert!(!pass.is_eaten(food));
    }
}

#[test]
fn dead_balls_take_no_food() {
    let (asked, _) = drive(vec![true, false, true, false], 2, |_, _| false);
    assert_eq!(asked, vec![(1, 0), (1, 1), (3, 0), (3, 1)]);
}

#[test]
fn first_ball_to_cover_a_food_claims_it() {
    let (asked, pass) = drive(vec![false, false, false], 3, |ball, food| {
        (ball == 0 && food == 1) || (ball == 1 && food != 0)
    });
    assert_eq!(asked, vec![(0, 0), (0, 1), (0, 2), (1, 0), (1, 2), (2, 0)]);
    assert!(!pass.is_eaten(0));
    assert!(pass.is_eaten(1));
    assert!(pass.is_eaten(2));
    assert!(!pass.is_eaten(3));
}

#[test]
fn pass_ends_early_once_all_food_is_claimed() {
    let (asked, pass) = drive(vec![false, false, false], 2, |_, _| true);
    assert_eq!(asked, vec![(0, 0), (0, 1)]);
    assert!(pass.is_eaten(0));
    assert!(pass.is_eaten(1));
}

#[test]
fn finished_pass_ignores_further_answers() {
    let mut pass = FoodPass::begin(vec![false], 1);
    assert_eq!(pass.awaiting(), FoodAction::Test { ball: 0, food: 0 });
    assert_eq!(pass.advance(false), FoodAction::Finished);
    assert_eq!(pass.advance(true), FoodAction::Finished);
    assert!(!pass.is_eaten(0));
    assert_eq!(pass.awaiting(), FoodAction::Finished);
}
