use tagars::collision::{CollisionPass, Contact, PassAction, PassEvent};
use tagars::grid::Aabb;
use tagars::scheduler::{
    is_system_call, respawn_time, Conflict, Firing, Identity, ScheduledTask, Scheduler, TaskKind,
    FOOD_SPAWN_PERIOD_MICROS, RESPAWN_MICROS, TICK_PERIOD_MICROS,
};

const SYSTEM: Identity = Identity { hi: 0, lo: 1 };
const ALICE: Identity = Identity { hi: 7, lo: 7 };
const BOB: Identity = Identity { hi: 7, lo: 8 };

fn pending(scheduler: &Scheduler) -> Vec<ScheduledTask> {
    (0..scheduler.len()).map(|i| scheduler.task_at(i).unwrap()).collect()
}

#[test]
fn periods_and_delay() {
    assert_eq!(TICK_PERIOD_MICROS, 16_666);
    assert_eq!(FOOD_SPAWN_PERIOD_MICROS, 200_000);
    assert_eq!(RESPAWN_MICROS, 2_000_000);
}

#[test]
fn only_the_system_is_authorized() {
    assert!(is_system_call(SYSTEM, SYSTEM));
    assert!(!is_system_call(ALICE, SYSTEM));
    assert!(!is_system_call(Identity { hi: 1, lo: 1 }, SYSTEM));
    assert!(!is_system_call(Identity { hi: 0, lo: 0 }, SYSTEM));
}

#[test]
fn init_schedules_one_tick_and_one_food_spawn() {
    let scheduler = Scheduler::init(1_000);
    assert_eq!(
        pending(&scheduler),
        vec![
            ScheduledTask { id: 1, fire_at: 17_666, kind: TaskKind::Tick },
            ScheduledTask { id: 2, fire_at: 201_000, kind: TaskKind::FoodSpawn },
        ]
    );
    assert_eq!(scheduler.task_at(2), None);
}

#[test]
fn respawn_is_due_one_delay_after_the_death() {
    let mut scheduler = Scheduler::init(0);
    assert_eq!(scheduler.schedule_respawn(ALICE, 5_000_000), Ok(3));
    assert_eq!(
        scheduler.task_at(2),
        Some(ScheduledTask { id: 3, fire_at: 7_000_000, kind: TaskKind::Respawn(ALICE) })
    );
    assert_eq!(scheduler.schedule_respawn(BOB, 5_000_001), Ok(4));
    assert_eq!(scheduler.len(), 4);
}

#[test]
fn second_respawn_of_one_identity_conflicts() {
    let mut scheduler = Scheduler::init(0);
    assert_eq!(scheduler.schedule_respawn(ALICE, 10), Ok(3));
    let before = pending(&scheduler);
    assert_eq!(scheduler.schedule_respawn(ALICE, 20), Err(Conflict));
    assert_eq!(pending(&scheduler), before);
    assert_eq!(scheduler.schedule_respawn(BOB, 20), Ok(4));
}

#[test]
fn second_recurring_task_conflicts() {
    let mut scheduler = Scheduler::init(0);
    assert_eq!(scheduler.schedule(TaskKind::Tick, 5), Err(Conflict));
    assert_eq!(scheduler.schedule(TaskKind::FoodSpawn, 5), Err(Conflict));
    assert_eq!(scheduler.len(), 2);
    assert_eq!(scheduler.schedule(TaskKind::Respawn(ALICE), 5), Ok(3));
}

#[test]
fn nothing_is_due_before_the_first_period() {
    let scheduler = Scheduler::init(0);
    assert_eq!(scheduler.next_due(0), None);
    assert_eq!(scheduler.next_due(16_665), None);
    assert_eq!(scheduler.next_due(i64::MIN), None);
}

#[test]
fn the_earliest_due_task_is_next() {
    let mut scheduler = Scheduler::init(0);
    scheduler.schedule(TaskKind::Respawn(ALICE), 100).unwrap();
    scheduler.schedule(TaskKind::Respawn(BOB), 100).unwrap();
    assert_eq!(scheduler.next_due(99), None);
    assert_eq!(scheduler.next_due(100).unwrap().id, 3);
    assert_eq!(scheduler.next_due(16_666).unwrap().id, 3);
    assert_eq!(scheduler.fire(3, 100, SYSTEM, SYSTEM), Firing::Respawn(ALICE));
    assert_eq!(scheduler.next_due(100).unwrap().id, 4);
    assert_eq!(scheduler.fire(4, 100, SYSTEM, SYSTEM), Firing::Respawn(BOB));
    assert_eq!(scheduler.next_due(100), None);
    assert_eq!(scheduler.next_due(16_666).unwrap().kind, TaskKind::Tick);
    assert_eq!(scheduler.next_due(i64::MAX).unwrap().kind, TaskKind::Tick);
}

#[test]
fn firing_the_tick_schedules_it_one_period_on() {
    let mut scheduler = Scheduler::init(0);
    assert_eq!(scheduler.fire(1, 20_000, SYSTEM, SYSTEM), Firing::Tick);
    assert_eq!(
        pending(&scheduler),
        vec![
            ScheduledTask { id: 1, fire_at: 36_666, kind: TaskKind::Tick },
            ScheduledTask { id: 2, fire_at: 200_000, kind: TaskKind::FoodSpawn },
        ]
    );
}

#[test]
fn firing_the_food_spawn_schedules_it_one_period_on() {
    let mut scheduler = Scheduler::init(0);
    assert_eq!(scheduler.fire(2, 200_000, SYSTEM, SYSTEM), Firing::FoodSpawn);
    assert_eq!(
        pending(&scheduler),
        vec![
            ScheduledTask { id: 1, fire_at: 16_666, kind: TaskKind::Tick },
            ScheduledTask { id: 2, fire_at: 400_000, kind: TaskKind::FoodSpawn },
        ]
    );
}

#[test]
fn firing_a_respawn_removes_it() {
    let mut scheduler = Scheduler::init(0);
    scheduler.schedule_respawn(ALICE, 0).unwrap();
    scheduler.schedule_respawn(BOB, 0).unwrap();
    assert_eq!(scheduler.fire(3, 2_000_000, SYSTEM, SYSTEM), Firing::Respawn(ALICE));
    assert_eq!(scheduler.len(), 3);
    assert_eq!(scheduler.task_at(2).unwrap().kind, TaskKind::Respawn(BOB));
    assert_eq!(scheduler.fire(3, 2_000_000, SYSTEM, SYSTEM), Firing::NotDue);
    assert_eq!(scheduler.schedule_respawn(ALICE, 2_000_000), Ok(5));
}

#[test]
fn a_task_that_is_not_due_does_not_fire() {
    let mut scheduler = Scheduler::init(0);
    scheduler.schedule_respawn(ALICE, 0).unwrap();
    let before = pending(&scheduler);
    assert_eq!(scheduler.fire(1, 16_665, SYSTEM, SYSTEM), Firing::NotDue);
    assert_eq!(scheduler.fire(3, 1_999_999, SYSTEM, SYSTEM), Firing::NotDue);
    assert_eq!(scheduler.fire(99, 5_000_000, SYSTEM, SYSTEM), Firing::NotDue);
    assert_eq!(pending(&scheduler), before);
}

#[test]
fn a_caller_other_than_the_system_fires_nothing() {
    let mut scheduler = Scheduler::init(0);
    scheduler.schedule_respawn(ALICE, 0).unwrap();
    let before = pending(&scheduler);
    assert_eq!(scheduler.fire(1, 5_000_000, ALICE, SYSTEM), Firing::Unauthorized);
    assert_eq!(scheduler.fire(2, 5_000_000, ALICE, SYSTEM), Firing::Unauthorized);
    assert_eq!(scheduler.fire(3, 5_000_000, ALICE, SYSTEM), Firing::Unauthorized);
    assert_eq!(scheduler.fire(99, 5_000_000, BOB, SYSTEM), Firing::Unauthorized);
    assert_eq!(pending(&scheduler), before);
}

#[test]
fn exactly_one_of_each_recurring_kind_stays_pending() {
    let mut scheduler = Scheduler::init(0);
    let mut now = 0;
    for round in 0..200u128 {
        now += 7_919;
        if round % 17 == 0 {
            let _ = scheduler.schedule_respawn(Identity { hi: 0, lo: round % 5 }, now);
        }
        while let Some(task) = scheduler.next_due(now) {
            assert_ne!(scheduler.fire(task.id, now, SYSTEM, SYSTEM), Firing::NotDue);
        }
        let tasks = pending(&scheduler);
        assert_eq!(tasks.iter().filter(|t| t.kind == TaskKind::Tick).count(), 1);
        assert_eq!(tasks.iter().filter(|t| t.kind == TaskKind::FoodSpawn).count(), 1);
        assert!(tasks.iter().all(|t| t.fire_at > now));
    }
}

#[test]
fn an_eaten_ball_respawns_one_delay_after_its_death() {
    // Radii 4 and 10, overlapping: the radii differ by more than the
    // eating threshold and the second ball is the heavier.
    let owners = [ALICE, BOB];
    let boxes = vec![
        Aabb { min_x: -4, min_y: -4, max_x: 4, max_y: 4 },
        Aabb { min_x: -2, min_y: -10, max_x: 18, max_y: 10 },
    ];
    let now = 1_700_000_000_000_000;
    let mut scheduler = Scheduler::init(now);
    let mut pass = CollisionPass::begin(&boxes);
    let mut action = pass.advance(PassEvent::Located(boxes[0]));
    let mut scheduled = Vec::new();
    while action != PassAction::Finished {
        action = match action {
            PassAction::Locate(index) => pass.advance(PassEvent::Located(boxes[index])),
            PassAction::Resolve(first, second) => {
                let contact = Contact::classify(true, true, true);
                let loser = if contact == Contact::FirstEaten { first } else { second };
                scheduled.push(scheduler.schedule_respawn(owners[loser], now));
                pass.advance(PassEvent::Resolved(contact))
            }
            PassAction::Finished => unreachable!(),
        };
    }
    assert_eq!(scheduled, vec![Ok(3)]);
    assert_eq!(pass.into_dead(), vec![true, false]);
    assert_eq!(
        scheduler.task_at(2),
        Some(ScheduledTask {
            id: 3,
            fire_at: now + 2_000_000,
            kind: TaskKind::Respawn(ALICE),
        })
    );
    assert_eq!(scheduler.fire(3, now + 1_999_999, SYSTEM, SYSTEM), Firing::NotDue);
    assert_eq!(scheduler.fire(3, now + 2_000_000, SYSTEM, SYSTEM), Firing::Respawn(ALICE));
}

#[test]
fn respawn_time_adds_the_delay() {
    assert_eq!(respawn_time(0), 2_000_000);
    assert_eq!(respawn_time(-2_000_000), 0);
    assert_eq!(respawn_time(i64::MAX - 2_000_000), i64::MAX);
    assert_eq!(respawn_time(i64::MIN), i64::MIN + 2_000_000);
}
