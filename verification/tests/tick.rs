use tagars::collision::Contact;
use tagars::grid::Aabb;
use tagars::scheduler::Identity;
use tagars::tick::{Tick, TickAction, TickEvent};

const SYSTEM: Identity = Identity { hi: 0, lo: 1 };
const PLAYER: Identity = Identity { hi: 3, lo: 4 };
const NOW: i64 = 1_700_000_000_000_000;

fn around(x: i64, y: i64, radius: i64) -> Aabb {
    Aabb { min_x: x - radius, min_y: y - radius, max_x: x + radius, max_y: y + radius }
}

/// Runs a tick to its end over the given boxes and number of food items,
/// and returns every request in order, with the tick as it ends.
fn run(
    boxes: Vec<Aabb>,
    foods: usize,
    mut resolve: impl FnMut(usize, usize) -> Contact,
    mut covers: impl FnMut(usize, usize) -> bool,
) -> (Vec<TickAction>, Tick) {
    let mut tick = Tick::begin(SYSTEM, SYSTEM, NOW).unwrap();
    let mut action = tick.action();
    let mut asked = Vec::new();
    loop {
        asked.push(action);
        let event = match action {
            TickAction::Integrate => TickEvent::Integrated { boxes: boxes.clone(), foods },
            TickAction::Locate(index) => TickEvent::Located(boxes[index]),
            TickAction::Resolve(first, second) => TickEvent::Resolved(resolve(first, second)),
            TickAction::ScheduleRespawn { .. } => TickEvent::Scheduled,
            TickAction::TestFood { ball, food } => TickEvent::Tested(covers(ball, food)),
            TickAction::Commit => break,
        };
        (tick, action) = tick.advance(event);
    }
    (asked, tick)
}

fn phase(action: &TickAction) -> u8 {
    match action {
        TickAction::Integrate => 0,
        TickAction::Locate(_) | TickAction::Resolve(_, _) => 1,
        TickAction::ScheduleRespawn { .. } => 1,
        TickAction::TestFood { .. } => 2,
        TickAction::Commit => 3,
    }
}

#[test]
fn only_the_system_runs_a_tick() {
    assert!(Tick::begin(SYSTEM, SYSTEM, NOW).is_some());
    assert!(Tick::begin(PLAYER, SYSTEM, NOW).is_none());
    assert!(Tick::begin(SYSTEM, PLAYER, NOW).is_none());
}

#[test]
fn a_tick_begins_with_the_integration() {
    let tick = Tick::begin(SYSTEM, SYSTEM, NOW).unwrap();
    assert_eq!(tick.action(), TickAction::Integrate);
    assert!(!tick.is_dead(0));
    assert!(!tick.is_eaten(0));
}

#[test]
fn an_empty_world_goes_straight_to_the_commit() {
    let (asked, _) = run(Vec::new(), 0, |_, _| Contact::Apart, |_, _| false);
    assert_eq!(asked, vec![TickAction::Integrate, TickAction::Commit]);
    let (asked, tick) = run(Vec::new(), 7, |_, _| Contact::Apart, |_, _| true);
    assert_eq!(asked, vec![TickAction::Integrate, TickAction::Commit]);
    assert!(!tick.is_eaten(0));
}

#[test]
fn a_lone_ball_is_located_and_then_fed() {
    let (asked, tick) = run(vec![around(0, 0, 4)], 2, |_, _| Contact::Apart, |_, food| food == 1);
    assert_eq!(
        asked,
        vec![
            TickAction::Integrate,
            TickAction::Locate(0),
            TickAction::TestFood { ball: 0, food: 0 },
            TickAction::TestFood { ball: 0, food: 1 },
            TickAction::Commit,
        ]
    );
    assert!(!tick.is_eaten(0));
    assert!(tick.is_eaten(1));
    assert!(!tick.is_dead(0));
}

#[test]
fn the_phases_run_in_order() {
    let boxes = vec![around(0, 0, 4), around(3, 0, 4), around(6, 0, 4), around(100, 100, 4)];
    let (asked, _) = run(boxes, 3, |_, _| Contact::Bounced, |ball, food| ball == food);
    assert_eq!(asked.first(), Some(&TickAction::Integrate));
    assert_eq!(asked.last(), Some(&TickAction::Commit));
    for pair in asked.windows(2) {
        assert!(phase(&pair[0]) <= phase(&pair[1]), "{pair:?}");
    }
    assert_eq!(asked.iter().filter(|a| phase(a) == 0).count(), 1);
    assert_eq!(asked.iter().filter(|a| phase(a) == 3).count(), 1);
}

#[test]
fn a_ball_eaten_in_the_collisions_takes_no_food() {
    // Radii 4 and 10: the second eats the first, which then is dead for
    // the rest of the tick.
    let boxes = vec![around(0, 0, 4), around(8, 0, 10)];
    let (asked, tick) = run(
        boxes,
        2,
        |_, _| Contact::classify(true, true, true),
        |_, _| false,
    );
    assert_eq!(
        asked,
        vec![
            TickAction::Integrate,
            TickAction::Locate(0),
            TickAction::Resolve(0, 1),
            TickAction::ScheduleRespawn { ball: 0, fire_at: NOW + 2_000_000 },
            TickAction::Locate(1),
            TickAction::TestFood { ball: 1, food: 0 },
            TickAction::TestFood { ball: 1, food: 1 },
            TickAction::Commit,
        ]
    );
    assert!(tick.is_dead(0));
    assert!(!tick.is_dead(1));
}

#[test]
fn two_equal_balls_bounce_and_both_are_fed() {
    // Radii 4 and 4: the pair bounces, nobody dies.
    let boxes = vec![around(0, 0, 4), around(6, 0, 4)];
    let (asked, tick) = run(
        boxes,
        1,
        |_, _| Contact::classify(true, false, false),
        |ball, _| ball == 1,
    );
    assert_eq!(
        asked,
        vec![
            TickAction::Integrate,
            TickAction::Locate(0),
            TickAction::Resolve(0, 1),
            TickAction::Locate(1),
            TickAction::Resolve(0, 1),
            TickAction::TestFood { ball: 0, food: 0 },
            TickAction::TestFood { ball: 1, food: 0 },
            TickAction::Commit,
        ]
    );
    assert!(!tick.is_dead(0));
    assert!(!tick.is_dead(1));
    assert!(tick.is_eaten(0));
}

#[test]
fn an_event_out_of_turn_changes_nothing() {
    let tick = Tick::begin(SYSTEM, SYSTEM, NOW).unwrap();
    let (tick, action) = tick.advance(TickEvent::Tested(true));
    assert_eq!(action, TickAction::Integrate);
    let (tick, action) = tick.advance(TickEvent::Resolved(Contact::FirstEaten));
    assert_eq!(action, TickAction::Integrate);
    let (tick, action) =
        tick.advance(TickEvent::Integrated { boxes: vec![around(0, 0, 4)], foods: 1 });
    assert_eq!(action, TickAction::Locate(0));
    let (tick, action) = tick.advance(TickEvent::Tested(true));
    assert_eq!(action, TickAction::Locate(0));
    let (tick, action) =
        tick.advance(TickEvent::Integrated { boxes: vec![around(0, 0, 4); 3], foods: 1 });
    assert_eq!(action, TickAction::Locate(0));
    assert!(!tick.is_dead(2));
    let (tick, action) = tick.advance(TickEvent::Located(around(0, 0, 4)));
    assert_eq!(action, TickAction::TestFood { ball: 0, food: 0 });
    let (tick, action) = tick.advance(TickEvent::Located(around(0, 0, 4)));
    assert_eq!(action, TickAction::TestFood { ball: 0, food: 0 });
    let (tick, action) = tick.advance(TickEvent::Tested(false));
    assert_eq!(action, TickAction::Commit);
    let (tick, action) = tick.advance(TickEvent::Tested(true));
    assert_eq!(action, TickAction::Commit);
    assert!(!tick.is_eaten(0));
}

#[test]
fn the_respawn_of_an_eaten_ball_is_asked_for_until_it_is_reported() {
    let boxes = vec![around(0, 0, 10), around(8, 0, 4)];
    let tick = Tick::begin(SYSTEM, SYSTEM, 5).unwrap();
    let (tick, _) = tick.advance(TickEvent::Integrated { boxes: boxes.clone(), foods: 0 });
    let (tick, action) = tick.advance(TickEvent::Located(boxes[0]));
    assert_eq!(action, TickAction::Resolve(0, 1));
    let (tick, action) = tick.advance(TickEvent::Resolved(Contact::SecondEaten));
    let respawn = TickAction::ScheduleRespawn { ball: 1, fire_at: 2_000_005 };
    assert_eq!(action, respawn);
    assert!(tick.is_dead(1));
    let (tick, action) = tick.advance(TickEvent::Resolved(Contact::FirstEaten));
    assert_eq!(action, respawn);
    let (tick, action) = tick.advance(TickEvent::Located(boxes[0]));
    assert_eq!(action, respawn);
    let (tick, action) = tick.advance(TickEvent::Tested(true));
    assert_eq!(action, respawn);
    assert!(!tick.is_dead(0));
    let (tick, action) = tick.advance(TickEvent::Scheduled);
    assert_eq!(action, TickAction::Commit);
    let (tick, action) = tick.advance(TickEvent::Scheduled);
    assert_eq!(action, TickAction::Commit);
    assert!(!tick.is_dead(0));
    assert!(tick.is_dead(1));
}

#[test]
fn a_respawn_report_out_of_turn_changes_nothing() {
    let boxes = vec![around(0, 0, 4), around(6, 0, 4)];
    let tick = Tick::begin(SYSTEM, SYSTEM, NOW).unwrap();
    let (tick, action) = tick.advance(TickEvent::Scheduled);
    assert_eq!(action, TickAction::Integrate);
    let (tick, action) = tick.advance(TickEvent::Integrated { boxes: boxes.clone(), foods: 1 });
    assert_eq!(action, TickAction::Locate(0));
    let (tick, action) = tick.advance(TickEvent::Scheduled);
    assert_eq!(action, TickAction::Locate(0));
    let (tick, action) = tick.advance(TickEvent::Located(boxes[0]));
    assert_eq!(action, TickAction::Resolve(0, 1));
    let (tick, action) = tick.advance(TickEvent::Scheduled);
    assert_eq!(action, TickAction::Resolve(0, 1));
    let (_, action) = tick.advance(TickEvent::Resolved(Contact::Bounced));
    assert_eq!(action, TickAction::Locate(1));
}

#[test]
fn every_death_in_a_crowd_is_followed_by_its_respawn_request() {
    let boxes: Vec<Aabb> = (0..6).map(|i| around(i * 3, 0, 4)).collect();
    let (asked, tick) = run(
        boxes,
        0,
        |first, second| if (first + second) % 2 == 1 { Contact::FirstEaten } else { Contact::Apart },
        |_, _| false,
    );
    let mut died = Vec::new();
    for pair in asked.windows(2) {
        if let TickAction::ScheduleRespawn { ball, fire_at } = pair[1] {
            assert_eq!(fire_at, NOW + 2_000_000);
            let TickAction::Resolve(first, second) = pair[0] else { panic!("{pair:?}") };
            assert!(ball == first || ball == second);
            assert!(!died.contains(&ball));
            died.push(ball);
        }
        if let TickAction::Resolve(first, second) = pair[1] {
            assert!(!died.contains(&first) && !died.contains(&second));
        }
    }
    assert!(!died.is_empty());
    for ball in 0..6 {
        assert_eq!(tick.is_dead(ball), died.contains(&ball));
    }
}
