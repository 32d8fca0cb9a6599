use autochess::state::entities::{Controller, Entity, EntityState};
use autochess::state::game::{Game, WinCondition};
use autochess::state::units::{Card, Rarity, UnitType, get_unit_map};
use autochess::state::utils::Location;

fn wolf_card() -> Card {
    let map = get_unit_map();
    Card {
        unit_type: UnitType::Wolf,
        stats: map[0].1.clone(),
        rarity: Rarity::Common,
        special_trait: None,
    }
}

fn bear_card() -> Card {
    let map = get_unit_map();
    Card {
        unit_type: UnitType::Bear,
        stats: map[2].1.clone(),
        rarity: Rarity::Common,
        special_trait: None,
    }
}

fn wolf_versus_bear() -> Game {
    let mut game = Game::new_client();
    game.reveal_1 = Some([0u8; 32]);
    game.reveal_2 = Some([0u8; 32]);
    // Wolf at (50, 50) for the initializer, Bear at (750, 750) for the
    // opponent
    assert_eq!(game.place_piece(Controller::Initializer, 0, 0, wolf_card()), Some(0));
    assert_eq!(game.place_piece(Controller::Opponent, 7, 7, bear_card()), Some(1));
    game
}

#[test]
fn wolf_and_bear_first_tick_both_move() {
    let mut game = wolf_versus_bear();
    let start_distance = game.entities.all[0]
        .position
        .distance(&game.entities.all[1].position);
    assert!(start_distance > 125, "the pieces start out of attack range");
    game.step();
    assert!(matches!(game.entities.all[0].state, EntityState::Moving { .. }));
    assert!(matches!(game.entities.all[1].state, EntityState::Moving { .. }));
    // the wolf moves 40 per tick, the bear 15; the moved coordinates are
    // truncated, so the bear's south-west step rounds to 739, not 740
    assert_eq!(game.entities.all[0].position, Location { x: 78, y: 78 });
    assert_eq!(game.entities.all[1].position, Location { x: 739, y: 739 });
}

#[test]
fn wolf_closes_in_and_lands_a_crit() {
    let mut game = wolf_versus_bear();
    // run until the wolf starts an attack
    let mut started = false;
    for _ in 0..100 {
        game.step();
        if matches!(game.entities.all[0].state, EntityState::Attack { .. }) {
            started = true;
            break;
        }
    }
    assert!(started, "the wolf must close the distance and attack");
    let d = game.entities.all[0]
        .position
        .distance(&game.entities.all[1].position);
    assert!(d <= 125, "an attack only starts in range");
    match game.entities.all[0].state {
        EntityState::Attack { progress, attack_on, target_id } => {
            assert_eq!(progress, 0);
            assert_eq!(attack_on, 4);
            assert_eq!(target_id, 1);
        }
        _ => unreachable!(),
    }
    // after `attack_on` further ticks the damage fires; every random byte of
    // the zero seed is zero, below the crit chance, so the base damage of 15
    // is doubled
    let health_before = game.entities.all[1].health;
    assert_eq!(health_before, 250);
    for _ in 0..4 {
        game.step();
    }
    assert_eq!(game.entities.all[1].health, 220);
}

#[test]
fn advance_ticks_is_deterministic() {
    let game = wolf_versus_bear();
    let mut run1 = game.clone();
    let mut run2 = game.clone();
    run1.crank_game(40);
    run2.crank_game(40);
    assert_eq!(run1.entities.all, run2.entities.all);
    assert_eq!(run1.entities.counter, run2.entities.counter);
    assert_eq!(run1.reveal_2, run2.reveal_2);
    assert_eq!(run1.random_calls, run2.random_calls);
    assert_eq!(run1.tick, run2.tick);
    assert_eq!(run1.win_condition, run2.win_condition);
}

#[test]
fn health_is_monotonic_while_alive() {
    let mut game = wolf_versus_bear();
    let mut previous: Vec<u16> = game.entities.all.iter().map(|e| e.health).collect();
    for _ in 0..200 {
        game.step();
        for (i, e) in game.entities.all.iter().enumerate() {
            assert!(e.health <= previous[i], "health never increases");
            if e.state == EntityState::Dead {
                assert_eq!(e.health, 0, "a dead entity has exactly zero health");
            }
            previous[i] = e.health;
        }
    }
}

#[test]
fn death_is_terminal() {
    let mut game = wolf_versus_bear();
    // the bear out-lasts the wolf eventually, or the other way round; run
    // until someone dies
    let mut dead_index = None;
    for _ in 0..400 {
        game.step();
        for (i, e) in game.entities.all.iter().enumerate() {
            if e.state == EntityState::Dead {
                dead_index = Some(i);
                break;
            }
        }
        if dead_index.is_some() {
            break;
        }
    }
    let i = dead_index.expect("one side must fall");
    let corpse = game.entities.all[i].clone();
    assert_eq!(corpse.owner, Controller::Graveyard);
    assert_eq!(corpse.health, 0);
    for _ in 0..20 {
        game.step();
        let e = &game.entities.all[i];
        assert_eq!(e.position, corpse.position);
        assert_eq!(e.health, corpse.health);
        assert_eq!(e.state, corpse.state);
        assert_eq!(e.owner, corpse.owner);
    }
}

#[test]
fn match_runs_to_a_verdict() {
    let mut game = wolf_versus_bear();
    game.crank_game(400);
    assert_ne!(game.win_condition, WinCondition::InProgress);
}

fn corpse_at(id: u16, x: u16, y: u16) -> Entity {
    Entity {
        id,
        owner: Controller::Graveyard,
        target: None,
        speed_multiplier: 100,
        position: Location { x, y },
        health: 0,
        unit_type: UnitType::Wolf,
        state: EntityState::Dead,
        stats: None,
        rarity: None,
        special_trait: None,
    }
}

#[test]
fn evaluate_all_initializer_dead_means_opponent_wins() {
    let mut game = Game::new_client();
    game.entities.all.push(corpse_at(0, 100, 100));
    let mut survivor = corpse_at(1, 700, 700);
    survivor.owner = Controller::Opponent;
    survivor.state = EntityState::Idle;
    survivor.health = 50;
    game.entities.all.push(survivor);
    game.entities.counter = 2;
    game.update_win_condition();
    assert_eq!(game.win_condition, WinCondition::Opponent);
}

#[test]
fn evaluate_everyone_dead_means_tie() {
    let mut game = Game::new_client();
    game.entities.all.push(corpse_at(0, 100, 100));
    game.entities.all.push(corpse_at(1, 700, 700));
    game.entities.counter = 2;
    game.update_win_condition();
    assert_eq!(game.win_condition, WinCondition::Tie);
}

#[test]
fn evaluate_both_sides_alive_means_in_progress() {
    let mut game = wolf_versus_bear();
    game.update_win_condition();
    assert_eq!(game.win_condition, WinCondition::InProgress);
}

#[test]
fn evaluate_twice_returns_the_same_condition() {
    let mut game = wolf_versus_bear();
    game.crank_game(60);
    game.update_win_condition();
    let first = game.win_condition;
    game.update_win_condition();
    assert_eq!(game.win_condition, first);
}

#[test]
fn random_stream_rehashes_after_thirty_two_draws() {
    // an attack that completes draws one byte; with the draw counter already
    // at 32 the stored randomness is rehashed first and the byte comes from
    // the new digest
    let mut game = Game::new_client();
    assert_eq!(game.place_piece(Controller::Initializer, 0, 0, wolf_card()), Some(0));
    game.entities.all[0].state = EntityState::Attack { progress: 2, attack_on: 3, target_id: 1 };
    let mut dummy = game.entities.all[0].clone();
    dummy.id = 1;
    dummy.owner = Controller::Contract;
    dummy.state = EntityState::Idle;
    game.entities.all.push(dummy);
    game.entities.counter = 2;
    game.reveal_2 = Some([0u8; 32]);
    game.random_calls = 32;
    game.step();
    // sha256 of 32 zero bytes starts with 0x66 = 102, which is at or above
    // the wolf's crit chance of 50: no crit, base damage 15
    assert_eq!(game.entities.all[1].health, 85);
    assert_eq!(game.random_calls, 1);
    let rehashed = game.reveal_2.unwrap();
    assert_eq!(rehashed[0], 0x66);
    assert_ne!(rehashed, [0u8; 32]);
}

#[test]
fn piece_cap_and_stacking_rejected() {
    let mut game = Game::new_client();
    // stacking on the same grid cell is rejected for the same owner
    assert_eq!(game.place_piece(Controller::Initializer, 2, 2, wolf_card()), Some(0));
    assert_eq!(game.place_piece(Controller::Initializer, 2, 2, wolf_card()), None);
    // a fourth piece is rejected: the cap is three per player
    assert_eq!(game.place_piece(Controller::Initializer, 0, 0, wolf_card()), Some(1));
    assert_eq!(game.place_piece(Controller::Initializer, 4, 0, wolf_card()), Some(2));
    assert_eq!(game.place_piece(Controller::Initializer, 6, 0, wolf_card()), None);
    // the opponent is not blocked by the initializer's pieces or cap
    assert_eq!(game.place_piece(Controller::Opponent, 2, 5, bear_card()), Some(3));
}

#[test]
fn placement_side_rules() {
    let mut game = Game::new_client();
    // the initializer owns the lower half, the opponent the upper half
    assert_eq!(game.place_piece(Controller::Initializer, 0, 5, wolf_card()), None);
    assert_eq!(game.place_piece(Controller::Opponent, 0, 2, bear_card()), None);
    // neutral controllers cannot place at all
    assert_eq!(game.place_piece(Controller::Contract, 0, 0, wolf_card()), None);
    assert_eq!(game.place_piece(Controller::Graveyard, 0, 0, wolf_card()), None);
    // out of the grid is out of bounds
    assert_eq!(game.place_piece(Controller::Initializer, 8, 0, wolf_card()), None);
}
