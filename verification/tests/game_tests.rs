use expl::game::{
    fight_round,
    closest_in_view, enemy_move, enemy_step, make_camp, LocationIssue,
    combat_round, combat_target, follow_up, group_action_points, next_initiative, ActionPoints, Attack, Combat, CombatEvent,
    ExplError, GameAction, GameActionQueue, GameActionStatus, GameActionType, Health,
};
use expl::hexgrid::HexCoord;

#[test]
fn action_points_consume_and_reset() {
    let mut points = ActionPoints::new(2);
    assert_eq!(points.consume(), Ok(()));
    assert_eq!(points.consume(), Ok(()));
    assert_eq!(points.current, 0);
    assert_eq!(points.consume(), Err(ExplError::MoveWithoutMovementPoints));
    assert_eq!(points.current, 0);
    points.reset();
    assert_eq!(points, ActionPoints { current: 2, reset: 2 });
}

#[test]
fn group_points_are_the_fewest_of_the_members() {
    let members = vec![
        ActionPoints { current: 3, reset: 5 },
        ActionPoints { current: 1, reset: 6 },
        ActionPoints { current: 4, reset: 4 },
    ];
    assert_eq!(
        group_action_points(&members),
        ActionPoints { current: 1, reset: 4 }
    );
    assert_eq!(
        group_action_points(&Vec::new()),
        ActionPoints { current: 0, reset: 0 }
    );
}

#[test]
fn health_heals_up_to_the_most() {
    let mut health = Health(3, 10);
    assert_eq!(health.heal(4), 4);
    assert_eq!(health, Health(7, 10));
    assert_eq!(health.heal(9), 3);
    assert_eq!(health, Health(10, 10));
    assert_eq!(health.take_damage(4), 4);
    assert_eq!(health.take_damage(40), 6);
    assert_eq!(health, Health(0, 10));
}

#[test]
fn attack_range() {
    assert_eq!(Attack { low: 2, high: 5 }.range(), 2..5);
}

#[test]
fn action_queue_moves_on() {
    let mut queue = GameActionQueue::new();
    assert!(queue.is_empty());
    queue.add(GameAction::new_move(1, 2));
    queue.add(GameAction::new_make_camp(1));
    assert_eq!(queue.current().unwrap().action_type, GameActionType::Move);
    assert_eq!(queue.current().unwrap().target(), Ok(2));
    assert_eq!(queue.apply_result(Ok(GameActionStatus::Waiting)), Ok(false));
    assert!(queue.is_waiting());
    queue.resolve();
    assert!(queue.is_resolved());
    assert_eq!(queue.apply_result(Ok(GameActionStatus::Resolved)), Ok(true));
    queue.finish(Some(GameAction::new_break_camp(1)));
    assert_eq!(queue.current().unwrap().action_type, GameActionType::MakeCamp);
    assert_eq!(queue.current().unwrap().target(), Err(ExplError::InvalidTarget));
    assert_eq!(
        queue.apply_result(Err(ExplError::InvalidLocation(LocationIssue::BadTerrain))),
        Err(ExplError::InvalidLocation(LocationIssue::BadTerrain))
    );
    assert_eq!(queue.current().unwrap().action_type, GameActionType::BreakCamp);
    queue.ready();
    assert!(queue.is_empty());
    queue.ready();
    assert!(queue.is_empty());
}

#[test]
fn action_constructors() {
    let split = GameAction::new_split_party(7, vec![8, 9]);
    assert_eq!(split.action_type, GameActionType::SplitParty);
    assert_eq!(split.targets, vec![8, 9]);
    assert_eq!(GameAction::new_merge_party(7, vec![3]).targets, vec![3]);
    assert_eq!(
        GameAction::new_create_party_from_camp(4, vec![5]).action_type,
        GameActionType::CreatePartyFromCamp
    );
    assert_eq!(GameAction::new_enter_camp(4, 6).targets, vec![6]);
    assert_eq!(
        GameAction::new_collect_crystals(4).action_type,
        GameActionType::CollectCrystals
    );
    assert_eq!(GameAction::new_open_portal(4).action_type, GameActionType::OpenPortal);
    assert_eq!(GameAction::new_enter_portal(4).action_type, GameActionType::EnterPortal);
}

#[test]
fn follow_up_continues_along_the_path() {
    let action = GameAction::new_move(1, 2);
    let next = follow_up(&action, false, 2, Some(3)).unwrap();
    assert_eq!(next.action_type, GameActionType::Move);
    assert_eq!(next.source, 1);
    assert_eq!(next.targets, vec![3]);
    assert!(follow_up(&action, true, 2, Some(3)).is_none());
    assert!(follow_up(&action, false, 0, Some(3)).is_none());
    assert!(follow_up(&action, false, 2, None).is_none());
}

#[test]
fn combat_turns_and_targets() {
    let mut combat = Combat::new(HexCoord::new(1, 1), vec![10, 11, 12]);
    assert_eq!(combat.next_attacker(), 10);
    assert_eq!(combat.next_attacker(), 11);
    assert_eq!(combat.next_attacker(), 12);
    assert_eq!(combat.next_attacker(), 10);
    assert_eq!(next_initiative(2, 3), 0);

    let participants = vec![(5, false), (0, true), (3, true), (4, true)];
    assert_eq!(combat_target(&participants, false), Some(2));
    assert_eq!(combat_target(&participants, true), Some(0));
    assert_eq!(combat_target(&vec![(0, true), (2, false)], false), None);
}

#[test]
fn combat_round_hits_first_living_foe() {
    let mut combat = Combat::new(HexCoord::new(1, 2), vec![10, 11, 12]);
    let mut participants = vec![
        (Health(5, 5), false),
        (Health(0, 5), true),
        (Health(3, 6), true),
    ];
    let event = combat_round(
        &mut combat,
        7,
        Some((Attack { low: 1, high: 6 }, false)),
        &mut participants,
        4,
    );
    assert_eq!(combat.initiative, 1);
    assert_eq!(event, Some(CombatEvent::EnemyDamage(7, 3)));
    assert_eq!(participants[2].0, Health(0, 6));
    assert_eq!(participants[0].0, Health(5, 5));

    let event = combat_round(
        &mut combat,
        7,
        Some((Attack { low: 1, high: 6 }, true)),
        &mut participants,
        2,
    );
    assert_eq!(combat.initiative, 2);
    assert_eq!(event, Some(CombatEvent::FriendDamage(7, 2)));
    assert_eq!(participants[0].0, Health(3, 5));

    let event = combat_round(&mut combat, 7, None, &mut participants, 0);
    assert_eq!(combat.initiative, 0);
    assert_eq!(event, None);

    let event = combat_round(
        &mut combat,
        7,
        Some((Attack { low: 1, high: 6 }, false)),
        &mut participants,
        5,
    );
    assert_eq!(event, None);
    assert_eq!(participants[0].0, Health(3, 5));
}

#[test]
fn making_camp_takes_one_supply() {
    assert_eq!(make_camp(true, false, 3), Ok(2));
    assert_eq!(make_camp(false, false, 3), Err(ExplError::InvalidLocation(LocationIssue::BadTerrain)));
    assert_eq!(make_camp(true, true, 3), Err(ExplError::InvalidLocation(LocationIssue::ExistingCamp)));
    assert_eq!(make_camp(true, false, 0), Err(ExplError::ResourceMissing));
}

#[test]
fn enemy_goes_for_closest_party_in_view() {
    let enemy = HexCoord::new(0, 0);
    let parties = vec![HexCoord::new(3, 0), HexCoord::new(0, 2), HexCoord::new(-2, 0), HexCoord::new(9, 0)];
    assert_eq!(closest_in_view(enemy, &parties, 4), Some(1));
    assert_eq!(closest_in_view(enemy, &parties, 1), None);
    assert_eq!(closest_in_view(enemy, &vec![HexCoord::new(9, 0)], 10), Some(0));
}

#[test]
fn enemy_steps() {
    let position = HexCoord::new(0, 0);
    let occupied = vec![HexCoord::new(1, 0)];
    let walkable = vec![HexCoord::new(1, 0), HexCoord::new(0, 1)];
    assert_eq!(enemy_step(position, true, Some(HexCoord::new(1, 0)), &occupied, &walkable, &vec![]), None);
    assert_eq!(
        enemy_step(position, true, Some(HexCoord::new(0, 1)), &occupied, &walkable, &vec![]),
        Some(HexCoord::new(0, 1))
    );
    assert_eq!(enemy_step(position, true, None, &occupied, &walkable, &vec![]), None);
    let offsets: Vec<HexCoord> = (0..6).map(HexCoord::neighbour_offset).collect();
    assert_eq!(
        enemy_step(position, false, None, &occupied, &walkable, &offsets),
        Some(HexCoord::new(0, 1))
    );
    assert_eq!(enemy_move(position, false, None, &occupied, &walkable), Some(HexCoord::new(0, 1)));
    assert_eq!(enemy_move(position, false, None, &occupied, &vec![]), None);
}

#[test]
fn fight_round_rolls_within_the_attack() {
    let mut combat = Combat::new(HexCoord::new(0, 0), vec![1, 2]);
    let mut participants = vec![(Health(5, 5), false), (Health(9, 9), true)];
    let event = fight_round(&mut combat, 3, Some((Attack { low: 2, high: 4 }, false)), &mut participants);
    assert_eq!(combat.initiative, 1);
    match event {
        Some(CombatEvent::EnemyDamage(3, d)) => {
            assert!((2..4).contains(&d));
            assert_eq!(participants[1].0, Health(9 - d, 9));
        }
        other => panic!("unexpected event {:?}", other),
    }
    assert_eq!(participants[0].0, Health(5, 5));
    let mut friendless = vec![(Health(0, 5), false)];
    let event = fight_round(&mut combat, 3, Some((Attack { low: 0, high: 0 }, true)), &mut friendless);
    assert_eq!(event, None);
    assert_eq!(combat.initiative, 0);
}
