use autochess::state::actions::{Action, Actions};
use autochess::state::entities::{Controller, Entities, EntityState};
use autochess::state::game::Game;
use autochess::state::projectiles::{Explosion, Projectile, Projectiles, RangedAttack};
use autochess::state::units::{
    get_baseline_unit_stats, get_unit_map, Card, Rarity, UnitStats, UnitType,
};
use autochess::state::utils::Location;

fn card(unit_type: UnitType, rarity: Rarity) -> Card {
    Card {
        unit_type,
        stats: get_baseline_unit_stats(unit_type, rarity).unwrap(),
        rarity,
        special_trait: None,
    }
}

#[test]
fn create_assigns_monotonic_ids() {
    let mut store = Entities { all: Vec::new(), counter: 0 };
    let a = store.create(Controller::Initializer, 100, 100, card(UnitType::Wolf, Rarity::Common));
    let b = store.create(Controller::Opponent, 600, 600, card(UnitType::Bear, Rarity::Rare));
    assert_eq!((a, b), (0, 1));
    assert_eq!(store.counter, 2);
    assert_eq!(store.all[0].health, 100);
    assert_eq!(store.all[1].health, 270);
    assert_eq!(store.all[0].state, EntityState::Idle);
    assert_eq!(store.all[0].target, None);
}

#[test]
fn get_by_id_finds_the_entity() {
    let mut store = Entities { all: Vec::new(), counter: 0 };
    store.create(Controller::Initializer, 100, 100, card(UnitType::Wolf, Rarity::Common));
    store.create(Controller::Opponent, 600, 600, card(UnitType::Bull, Rarity::Common));
    assert_eq!(store.get_by_id(1).unwrap().unit_type, UnitType::Bull);
    assert!(store.get_by_id(7).is_none());
    assert_eq!(store.get_index_by_id(1), Some(1));
    assert_eq!(store.get_index_by_id(9), None);
}

#[test]
fn get_by_id_mut_writes_land_in_the_store() {
    let mut store = Entities { all: Vec::new(), counter: 0 };
    store.create(Controller::Initializer, 100, 100, card(UnitType::Wolf, Rarity::Common));
    store.create(Controller::Opponent, 600, 600, card(UnitType::Bear, Rarity::Common));
    {
        let entity = store.get_by_id_mut(1).unwrap();
        entity.health = 42;
    }
    assert_eq!(store.all[1].health, 42);
    assert!(store.get_by_id_mut(9).is_none());
}

#[test]
fn remove_by_id_keeps_the_rest_in_order() {
    let mut store = Entities { all: Vec::new(), counter: 0 };
    store.create(Controller::Initializer, 100, 100, card(UnitType::Wolf, Rarity::Common));
    store.create(Controller::Initializer, 300, 100, card(UnitType::Bear, Rarity::Common));
    store.create(Controller::Initializer, 500, 100, card(UnitType::Bull, Rarity::Common));
    store.remove_by_id(1);
    assert_eq!(store.all.len(), 2);
    assert_eq!(store.all[0].id, 0);
    assert_eq!(store.all[1].id, 2);
    assert_eq!(store.counter, 3, "ids are never reassigned");
}

#[test]
fn count_for_controller_counts_only_that_owner() {
    let mut store = Entities { all: Vec::new(), counter: 0 };
    store.create(Controller::Initializer, 100, 100, card(UnitType::Wolf, Rarity::Common));
    store.create(Controller::Initializer, 300, 100, card(UnitType::Wolf, Rarity::Common));
    store.create(Controller::Opponent, 500, 700, card(UnitType::Bear, Rarity::Common));
    assert_eq!(store.count_for_controller(Controller::Initializer), 2);
    assert_eq!(store.count_for_controller(Controller::Opponent), 1);
    assert_eq!(store.count_for_controller(Controller::Graveyard), 0);
}

#[test]
fn find_closest_prefers_distance_then_insertion_order() {
    let mut store = Entities { all: Vec::new(), counter: 0 };
    store.create(Controller::Opponent, 500, 500, card(UnitType::Wolf, Rarity::Common));
    store.create(Controller::Opponent, 200, 100, card(UnitType::Bear, Rarity::Common));
    // equally distant as the one above from the query point
    store.create(Controller::Opponent, 100, 200, card(UnitType::Bull, Rarity::Common));
    let from = Location { x: 100, y: 100 };
    let hit = store.find_closest_entity(&from, Controller::Opponent).unwrap();
    assert_eq!(hit.distance, 100);
    assert_eq!(hit.entity.id, 1, "distance ties go to the first-placed entity");
    // a range cap excludes everyone
    assert!(store
        .find_closest_entity_in_range(&from, 99, Controller::Opponent)
        .is_none());
    // owner scoping excludes everyone
    assert!(store.find_closest_entity(&from, Controller::Initializer).is_none());
}

#[test]
fn find_all_entities_filters_by_owner_and_range() {
    let mut store = Entities { all: Vec::new(), counter: 0 };
    store.create(Controller::Opponent, 200, 100, card(UnitType::Wolf, Rarity::Common));
    store.create(Controller::Opponent, 300, 100, card(UnitType::Bear, Rarity::Common));
    store.create(Controller::Opponent, 790, 790, card(UnitType::Bull, Rarity::Common));
    store.create(Controller::Initializer, 210, 100, card(UnitType::Wolf, Rarity::Common));
    let from = Location { x: 100, y: 100 };
    let found = store.find_all_entities(&from, 250, Controller::Opponent);
    assert_eq!(found.len(), 2);
    assert_eq!(found[0].id, 0);
    assert_eq!(found[1].id, 1);
}

#[test]
fn reveal_fills_in_the_drawn_hand() {
    let mut game = Game::new_client();
    let mut r1 = [0u8; 32];
    r1[0] = 200;  // hand slot 0 draws a bull
    r1[1] = 100;  // hand slot 1 draws a bear
    game.reveal_1 = Some(r1);
    assert_eq!(game.place_piece_hidden(Controller::Initializer, 0, 0, 0), Some(0));
    assert_eq!(game.place_piece_hidden(Controller::Initializer, 4, 0, 1), Some(1));
    assert_eq!(game.entities.all[0].health, 0, "hidden pieces have no health");
    game.reveal_hidden_pieces(Controller::Initializer, &[0u8; 32]);
    assert_eq!(game.entities.all[0].unit_type, UnitType::Bull);
    assert_eq!(game.entities.all[0].health, 150);
    assert_eq!(game.entities.all[1].unit_type, UnitType::Bear);
    assert_eq!(game.entities.all[1].health, 250);
    let map = get_unit_map();
    assert_eq!(game.entities.all[0].stats.as_ref().unwrap(), &map[1].1);
}

#[test]
fn actions_are_grouped_by_id_in_enqueue_order() {
    let mut actions = Actions::new();
    actions.add(2, Action::Damage { amount: 5 });
    actions.add(1, Action::Move { to: Location { x: 1, y: 2 } });
    actions.add(2, Action::Damage { amount: 7 });
    let for_two = actions.get_actions_by_id(&2).unwrap();
    assert_eq!(
        for_two,
        vec![Action::Damage { amount: 5 }, Action::Damage { amount: 7 }]
    );
    let for_one = actions.get_actions_by_id(&1).unwrap();
    assert_eq!(for_one.len(), 1);
    assert!(actions.get_actions_by_id(&3).is_none());
}

#[test]
fn baseline_stats_table_spot_checks() {
    assert_eq!(
        get_baseline_unit_stats(UnitType::Wolf, Rarity::Mythic),
        Some(UnitStats {
            movement_speed: 60,
            attack_duration: 3,
            attack_range: 125,
            attack_damage: 21,
            starting_health: 125,
            crit_chance: 42,
        })
    );
    assert_eq!(
        get_baseline_unit_stats(UnitType::Bear, Rarity::Common),
        Some(UnitStats {
            movement_speed: 15,
            attack_duration: 6,
            attack_range: 150,
            attack_damage: 8,
            starting_health: 230,
            crit_chance: 15,
        })
    );
    assert_eq!(
        get_baseline_unit_stats(UnitType::Bull, Rarity::Legendary),
        Some(UnitStats {
            movement_speed: 25,
            attack_duration: 7,
            attack_range: 155,
            attack_damage: 29,
            starting_health: 170,
            crit_chance: 17,
        })
    );
    assert_eq!(
        get_baseline_unit_stats(UnitType::Hidden { hand_position: 0 }, Rarity::Common),
        None
    );
}

#[test]
fn unit_map_lists_the_three_deck_units() {
    let map = get_unit_map();
    assert_eq!(map.len(), 3);
    assert_eq!(map[0].0, UnitType::Wolf);
    assert_eq!(map[1].0, UnitType::Bull);
    assert_eq!(map[2].0, UnitType::Bear);
    assert_eq!(map[0].1.movement_speed, 40);
    assert_eq!(map[0].1.attack_range, 125);
    assert_eq!(map[1].1.attack_damage, 25);
    assert_eq!(map[2].1.starting_health, 250);
}

#[test]
fn assassin_hop_queues_a_jump_to_the_back_row() {
    let mut store = Entities { all: Vec::new(), counter: 0 };
    store.create(Controller::Initializer, 400, 100, card(UnitType::Wolf, Rarity::Common));
    store.create(Controller::Opponent, 400, 700, card(UnitType::Wolf, Rarity::Common));
    let mut actions = Actions::new();
    store.all[0].assassin_hop(&mut actions);
    store.all[1].assassin_hop(&mut actions);
    let jump_i = Location { x: 400, y: 800 };
    let jump_o = Location { x: 400, y: 0 };
    assert_eq!(
        actions.all,
        vec![
            (0, Action::Move { to: jump_i }),
            (0, Action::EntityStateChange { state: EntityState::Moving { to: jump_i } }),
            (1, Action::Move { to: jump_o }),
            (1, Action::EntityStateChange { state: EntityState::Moving { to: jump_o } }),
        ]
    );
}

#[test]
fn default_values_match_the_initial_game_state() {
    assert_eq!(UnitType::default(), UnitType::Wolf);
    assert_eq!(Controller::default(), Controller::Contract);
    assert_eq!(EntityState::default(), EntityState::Idle);
    assert_eq!(Projectile::default(), Projectile::Inert);
    assert_eq!(
        autochess::state::game::WinCondition::default(),
        autochess::state::game::WinCondition::InProgress
    );
}

#[test]
fn projectiles_advance_each_step() {
    let mut projectiles = Projectiles {
        all: vec![
            Projectile::RangedAttack(RangedAttack {
                position: Location { x: 5, y: 0 },
                target_id: 1,
            }),
            Projectile::Explosion(Explosion {
                position: Location { x: 10, y: 0 },
                target_id: 2,
            }),
            Projectile::Inert,
        ],
    };
    projectiles.get();
    match &projectiles.all[0] {
        Projectile::RangedAttack(p) => assert_eq!(p.position.x, 6),
        _ => unreachable!(),
    }
    match &projectiles.all[1] {
        Projectile::Explosion(p) => assert_eq!(p.position.x, 31),
        _ => unreachable!(),
    }
    assert_eq!(projectiles.all[2], Projectile::Inert);
}
