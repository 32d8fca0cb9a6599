//! The entity store: the authoritative, insertion-ordered collection of
//! combat entities of one match, with creation, id lookup, owner-scoped
//! counts, and the nearest-enemy scan that targeting is built on.

use vstd::prelude::*;

verus! {

use vstd::pervasive::VecAdditionalExecFns;
use crate::state::utils::{Location, spec_distance, spec_move_towards};
use crate::state::units::{UnitType, UnitStats, Card, Rarity, SpecialTrait};
use crate::state::actions::{Action, Actions};

/// Who controls an entity. `Contract` is the neutral system owner; an entity
/// whose owner is `Graveyard` is dead and excluded from targeting.
#[derive(Debug, Clone, Copy, PartialEq, Eq, Structural)]
pub enum Controller {
    Opponent,
    Initializer,
    Contract,
    Graveyard,
}

impl Default for Controller {
    fn default() -> (r: Controller)
        ensures
            r == Controller::Contract,
    {
        Controller::Contract
    }
}

/// The combat state of an entity. An `Attack` completes when its progress
/// counter reaches `attack_on`; a well-formed store only holds attacks whose
/// progress is still below that bound.
#[derive(Debug, Clone, Copy, PartialEq, Eq, Structural)]
pub enum EntityState {
    Idle,
    Moving { to: Location },
    Dead,
    Attack { progress: u16, attack_on: u16, target_id: u16 },
    Ability { progress: u16, cast_on: u16, release_on: u16 },
    Ult { progress: u16, cast_on: u16, release_on: u16 },
}

impl Default for EntityState {
    fn default() -> (r: EntityState)
        ensures
            r == EntityState::Idle,
    {
        EntityState::Idle
    }
}

/// One combat unit. Ids are unique within a store and never reused; a hidden
/// (not yet revealed) entity carries no stats and zero health.
#[derive(Debug, Clone, Copy, PartialEq, Eq, Structural)]
pub struct Entity {
    pub id: u16,
    /// owner of the piece
    pub owner: Controller,
    /// id of the focused target
    pub target: Option<u16>,
    /// Speed multiplier where 100 = 1x
    pub speed_multiplier: u16,
    pub position: Location,
    pub health: u16,
    /// Type of unit this is
    pub unit_type: UnitType,
    pub state: EntityState,
    pub stats: Option<UnitStats>,
    pub rarity: Option<Rarity>,
    pub special_trait: Option<SpecialTrait>,
}

/// A hit from the nearest-entity scan: the entity found and its distance
/// from the queried point.
#[derive(Debug, Clone, Copy, PartialEq, Eq, Structural)]
pub struct EntityResult {
    pub entity: Entity,
    pub distance: u16,
}

/// The entity store. `all` is in insertion order and is never reordered;
/// `counter` is the next id to assign.
#[derive(Debug, Clone, PartialEq)]
pub struct Entities {
    pub all: Vec<Entity>,
    pub counter: u16,
}

/// No two entities share an id.
pub open spec fn unique_ids(s: Seq<Entity>) -> bool {
    forall|i: int, j: int| 0 <= i < j < s.len() ==> s[i].id != s[j].id
}

/// Some entity carries this id.
pub open spec fn has_id(s: Seq<Entity>, id: u16) -> bool {
    exists|i: int| 0 <= i < s.len() && s[i].id == id
}

/// The index of the first entity with this id (meaningful when `has_id`).
pub open spec fn first_index_of_id(s: Seq<Entity>, id: u16) -> int
    decreases s.len(),
{
    if s.len() == 0 {
        0
    } else if s[0].id == id {
        0
    } else {
        1 + first_index_of_id(s.drop_first(), id)
    }
}

/// When `has_id(s, id)`, `first_index_of_id` is in range, carries the id,
/// and no earlier entity does.
pub proof fn lemma_first_index_of_id(s: Seq<Entity>, id: u16)
    requires
        has_id(s, id),
    ensures
        0 <= first_index_of_id(s, id) < s.len(),
        s[first_index_of_id(s, id)].id == id,
        forall|j: int| 0 <= j < first_index_of_id(s, id) ==> s[j].id != id,
    decreases s.len(),
{
    if s.len() > 0 && s[0].id != id {
        let rest = s.drop_first();
        assert(has_id(rest, id)) by {
            let w = choose|i: int| 0 <= i < s.len() && s[i].id == id;
            assert(rest[w - 1].id == id);
        }
        lemma_first_index_of_id(rest, id);
        let k = first_index_of_id(rest, id);
        assert(forall|j: int| 1 <= j < 1 + k ==> s[j].id == rest[j - 1].id && s[j].id != id);
    }
}

/// The entity lookup by id, as a value: the first entity with the id.
pub open spec fn spec_get_by_id(s: Seq<Entity>, id: u16) -> Option<Entity> {
    if has_id(s, id) {
        Some(s[first_index_of_id(s, id)])
    } else {
        None
    }
}

/// How many entities an owner controls.
pub open spec fn spec_count_for(s: Seq<Entity>, controller: Controller) -> int
    decreases s.len(),
{
    if s.len() == 0 {
        0int
    } else {
        spec_count_for(s.drop_last(), controller) + if s.last().owner == controller {
            1int
        } else {
            0int
        }
    }
}

/// Per-entity well-formedness: an attack in progress has not yet reached its
/// completion tick and belongs to a unit with stats; stats always demand at
/// least one tick per attack; dead, graveyard-owned and zero-health coincide.
pub open spec fn entity_wf(e: Entity) -> bool {
    &&& (e.state matches EntityState::Attack { progress, attack_on, .. } ==> progress < attack_on
        && e.stats is Some)
    &&& (e.stats matches Some(stats) ==> stats.attack_duration >= 1)
    &&& (e.owner == Controller::Graveyard <==> e.state == EntityState::Dead)
    &&& (e.state == EntityState::Dead ==> e.health == 0)
}

/// Store-wide well-formedness of the entity sequence.
pub open spec fn entities_seq_wf(s: Seq<Entity>) -> bool {
    &&& unique_ids(s)
    &&& forall|i: int| 0 <= i < s.len() ==> entity_wf(#[trigger] s[i])
}

/// Well-formedness of the store: the sequence is well formed, ids stay below
/// the assignment counter, and the store cannot hold more entities than ids
/// were assigned.
pub open spec fn entities_wf(ents: Entities) -> bool {
    &&& entities_seq_wf(ents.all@)
    &&& forall|i: int| 0 <= i < ents.all@.len() ==> (#[trigger] ents.all@[i]).id < ents.counter
    &&& ents.all@.len() <= ents.counter
}

/// The entity a freshly placed card becomes.
pub open spec fn spec_new_entity(id: u16, player: Controller, x: u16, y: u16, card: Card) -> Entity {
    Entity {
        id,
        owner: player,
        target: None,
        speed_multiplier: 100,
        position: Location { x, y },
        health: card.stats.starting_health,
        unit_type: card.unit_type,
        state: EntityState::Idle,
        stats: Some(card.stats),
        rarity: Some(card.rarity),
        special_trait: card.special_trait,
    }
}

/// The entity a hidden placement becomes: no stats, no health, only the hand
/// slot recorded.
pub open spec fn spec_new_hidden_entity(id: u16, player: Controller, x: u16, y: u16,
    hand_position: u8) -> Entity {
    Entity {
        id,
        owner: player,
        target: None,
        speed_multiplier: 100,
        position: Location { x, y },
        health: 0,
        unit_type: UnitType::Hidden { hand_position },
        state: EntityState::Idle,
        stats: None,
        rarity: None,
        special_trait: None,
    }
}

/// Whether entity `j` can be returned by a scan for `owner`-controlled
/// entities within `range` of `pos`: the owner matches, the distance is
/// within range, and the distance is below the scan's starting minimum.
pub open spec fn eligible_target(s: Seq<Entity>, j: int, pos: Location, range: u16,
    owner: Controller) -> bool {
    &&& 0 <= j < s.len()
    &&& s[j].owner == owner
    &&& spec_distance(pos, s[j].position) <= range
    &&& spec_distance(pos, s[j].position) < 65535
}

/// The nearest-entity scan as a fold over the store in insertion order:
/// index and distance of the closest `owner`-controlled entity within
/// `range` of `pos`, ties broken by the earliest index.
pub open spec fn spec_find_closest(s: Seq<Entity>, pos: Location, range: u16,
    owner: Controller) -> Option<(int, u16)>
    decreases s.len(),
{
    if s.len() == 0 {
        None
    } else {
        let prev = spec_find_closest(s.drop_last(), pos, range, owner);
        let j = s.len() - 1;
        let d = spec_distance(pos, s[j].position);
        let best = match prev {
            None => 65535u16,
            Some(p) => p.1,
        };
        if s[j].owner == owner && d <= range && d < best {
            Some((j, d))
        } else {
            prev
        }
    }
}

/// What the nearest-entity scan returns: nothing exactly when no entity is
/// eligible; otherwise the eligible entity of least distance, and of the
/// least distance the one encountered first in storage order.
pub proof fn lemma_find_closest_props(s: Seq<Entity>, pos: Location, range: u16,
    owner: Controller)
    ensures
        spec_find_closest(s, pos, range, owner) is None ==> forall|j: int|
            !eligible_target(s, j, pos, range, owner),
        spec_find_closest(s, pos, range, owner) matches Some(p) ==> {
            &&& eligible_target(s, p.0, pos, range, owner)
            &&& p.1 == spec_distance(pos, s[p.0].position)
            &&& forall|j: int| #[trigger]
                eligible_target(s, j, pos, range, owner) ==> spec_distance(pos, s[j].position)
                    >= p.1
            &&& forall|j: int| 0 <= j < p.0 && #[trigger] eligible_target(s, j, pos, range, owner)
                ==> spec_distance(pos, s[j].position) > p.1
        },
    decreases s.len(),
{
    if s.len() > 0 {
        let prefix = s.drop_last();
        lemma_find_closest_props(prefix, pos, range, owner);
        assert(forall|j: int| 0 <= j < prefix.len() ==> s[j] == prefix[j]);
        assert(forall|j: int| #[trigger]
            eligible_target(s, j, pos, range, owner) && j < s.len() - 1 ==> eligible_target(
                prefix,
                j,
                pos,
                range,
                owner,
            ));
        assert(forall|j: int| #[trigger]
            eligible_target(prefix, j, pos, range, owner) ==> eligible_target(
                s,
                j,
                pos,
                range,
                owner,
            ));
    }
}

/// The entities an `owner`-scoped range query returns, in storage order.
pub open spec fn spec_find_all(s: Seq<Entity>, pos: Location, range: u16,
    owner: Controller) -> Seq<Entity>
    decreases s.len(),
{
    if s.len() == 0 {
        Seq::empty()
    } else {
        let prev = spec_find_all(s.drop_last(), pos, range, owner);
        let e = s.last();
        if e.owner == owner && spec_distance(pos, e.position) <= range {
            prev.push(e)
        } else {
            prev
        }
    }
}

/// What revealing a hand does to one entity: a hidden entity of the
/// revealing player takes the unit type and stats of the card in its hand
/// slot and starts at that card's full health; everything else is untouched.
pub open spec fn spec_reveal_entity(e: Entity, player: Controller, hand: Seq<Card>) -> Entity {
    if e.owner == player {
        match e.unit_type {
            UnitType::Hidden { hand_position } => {
                let card = hand[hand_position as int];
                Entity {
                    unit_type: card.unit_type,
                    health: card.stats.starting_health,
                    stats: Some(card.stats),
                    rarity: Some(card.rarity),
                    special_trait: card.special_trait,
                    ..e
                }
            },
            _ => e,
        }
    } else {
        e
    }
}

/// The player an entity fights against.
pub open spec fn spec_enemy_of(owner: Controller) -> Controller {
    if owner == Controller::Initializer {
        Controller::Opponent
    } else {
        Controller::Initializer
    }
}

/// The nearest enemy entity with its distance, if any enemy is on the board.
pub open spec fn spec_found_enemy(all: Seq<Entity>, pos: Location, enemy: Controller) -> Option<
    (Entity, u16),
> {
    match spec_find_closest(all, pos, 65535u16, enemy) {
        None => None,
        Some(p) => Some((all[p.0], p.1)),
    }
}

/// Target resolution of an idle or moving entity: the actions queued while
/// resolving, the target fought this tick with its distance, and whether
/// that target was newly acquired. A stored target that has died is cleared
/// and the nearest live enemy is sought in its place.
pub open spec fn spec_resolve_target(e: Entity, all: Seq<Entity>) -> (Seq<(u16, Action)>, Option<
    (Entity, u16),
>, bool) {
    let enemy = spec_enemy_of(e.owner);
    match e.target {
        Some(t) => {
            let te = spec_get_by_id(all, t).unwrap();
            if te.state == EntityState::Dead {
                (
                    seq![(e.id, Action::Target { target_id: None })],
                    spec_found_enemy(all, e.position, enemy),
                    true,
                )
            } else {
                (
                    Seq::empty(),
                    Some((te, spec_distance(e.position, te.position))),
                    false,
                )
            }
        },
        None => (Seq::empty(), spec_found_enemy(all, e.position, enemy), true),
    }
}

/// Everything an idle or moving entity queues in the decision pass: attack
/// the target once in range, otherwise step toward it; record a newly
/// acquired target; idle when no enemy exists.
pub open spec fn spec_walk_actions(e: Entity, all: Seq<Entity>) -> Seq<(u16, Action)> {
    let resolved = spec_resolve_target(e, all);
    let pre = resolved.0;
    let newly = resolved.2;
    match resolved.1 {
        None => pre.push((e.id, Action::EntityStateChange { state: EntityState::Idle })),
        Some(found) => {
            let te = found.0;
            let d = found.1;
            let stats = e.stats.unwrap();
            let core: Seq<(u16, Action)> = if d <= stats.attack_range {
                seq![
                    (
                        e.id,
                        Action::EntityStateChange {
                            state: EntityState::Attack {
                                progress: 0,
                                attack_on: stats.attack_duration,
                                target_id: te.id,
                            },
                        },
                    ),
                ]
            } else {
                let mv = spec_move_towards(
                    e.position,
                    te.position,
                    d as int,
                    stats.movement_speed as int,
                );
                seq![
                    (e.id, Action::EntityStateChange { state: EntityState::Moving { to: mv } }),
                    (e.id, Action::Move { to: mv }),
                ]
            };
            pre + core + if newly {
                seq![(e.id, Action::Target { target_id: Some(te.id) })]
            } else {
                Seq::empty()
            }
        },
    }
}

/// Where an assassin hop lands: the back row of the opposing side.
pub open spec fn spec_hop_target(e: Entity) -> Location {
    if e.owner == Controller::Initializer {
        Location { x: e.position.x, y: 800 }
    } else {
        Location { x: e.position.x, y: 0 }
    }
}

impl Entity {
    /// The decision step of an idle or moving entity: resolve its target and
    /// queue an attack, a move toward the target, or idleness. An entity
    /// without stats, or with a stored target id absent from the store,
    /// is a caller error.
    pub fn walk_or_aa(&self, actions: &mut Actions, all_entities: &Entities)
        requires
            self.stats is Some,
            self.target matches Some(t) ==> spec_get_by_id(all_entities.all@, t) is Some,
        ensures
            final(actions).all@ == old(actions).all@ + spec_walk_actions(
                *self,
                all_entities.all@,
            ),
    {
        let enemy = if self.owner == Controller::Initializer {
            Controller::Opponent
        } else {
            Controller::Initializer
        };
        proof {
            lemma_find_closest_props(all_entities.all@, self.position, 65535u16, enemy);
        }
        let mut newly = true;
        let target_entity: Option<EntityResult> = match self.target {
            Some(id) => {
                let entity = all_entities.get_by_id(id).unwrap();
                if entity.state == EntityState::Dead {
                    actions.add(self.id, Action::Target { target_id: None });
                    all_entities.find_closest_entity(&self.position, enemy)
                } else {
                    newly = false;
                    Some(
                        EntityResult {
                            entity,
                            distance: self.position.distance(&entity.position),
                        },
                    )
                }
            },
            None => all_entities.find_closest_entity(&self.position, enemy),
        };
        match target_entity {
            Some(result) => {
                let stats = self.stats.unwrap();
                if result.distance <= stats.attack_range {
                    actions.add(
                        self.id,
                        Action::EntityStateChange {
                            state: EntityState::Attack {
                                progress: 0,
                                attack_on: stats.attack_duration,
                                target_id: result.entity.id,
                            },
                        },
                    );
                } else {
                    let move_to = self.position.move_towards(
                        &result.entity.position,
                        result.distance,
                        stats.movement_speed,
                    );
                    actions.add(
                        self.id,
                        Action::EntityStateChange { state: EntityState::Moving { to: move_to } },
                    );
                    actions.add(self.id, Action::Move { to: move_to });
                }
                if newly {
                    actions.add(self.id, Action::Target { target_id: Some(result.entity.id) });
                }
            },
            None => {
                actions.add(self.id, Action::EntityStateChange { state: EntityState::Idle });
            },
        }
        proof {
            assert(final(actions).all@ =~= old(actions).all@ + spec_walk_actions(
                *self,
                all_entities.all@,
            ));
        }
    }

    /// Queue a hop to the back row of the board, the assassin opening move.
    pub fn assassin_hop(&self, actions: &mut Actions)
        ensures
            final(actions).all@ == old(actions).all@ + seq![
                (self.id, Action::Move { to: spec_hop_target(*self) }),
                (
                    self.id,
                    Action::EntityStateChange {
                        state: EntityState::Moving { to: spec_hop_target(*self) },
                    },
                ),
            ],
    {
        let move_to = if self.owner == Controller::Initializer {
            let to = Location { x: self.position.x, y: 800 };
            actions.add(self.id, Action::Move { to });
            to
        } else {
            let to = Location { x: self.position.x, y: 0 };
            actions.add(self.id, Action::Move { to });
            to
        };
        actions.add(self.id, Action::EntityStateChange { state: EntityState::Moving { to: move_to } });
        proof {
            assert(final(actions).all@ =~= old(actions).all@ + seq![
                (self.id, Action::Move { to: spec_hop_target(*self) }),
                (
                    self.id,
                    Action::EntityStateChange {
                        state: EntityState::Moving { to: spec_hop_target(*self) },
                    },
                ),
            ]);
        }
    }
}

impl Entities {
    /// Index of the first entity with this id, if any.
    pub fn get_index_by_id(&self, id: u16) -> (r: Option<usize>)
        ensures
            r is Some <==> has_id(self.all@, id),
            r is Some ==> r.unwrap() == first_index_of_id(self.all@, id) && r.unwrap()
                < self.all@.len(),
    {
        let mut i: usize = 0;
        while i < self.all.len()
            invariant
                i <= self.all.len(),
                forall|j: int| 0 <= j < i ==> self.all@[j].id != id,
            decreases self.all.len() - i,
        {
            if self.all[i].id == id {
                proof {
                    lemma_first_index_of_id(self.all@, id);
                    let f = first_index_of_id(self.all@, id);
                    assert(f <= i);
                    assert(i <= f);
                }
                return Some(i);
            }
            i = i + 1;
        }
        None
    }

    /// The first entity with this id, if any.
    pub fn get_by_id(&self, id: u16) -> (r: Option<Entity>)
        ensures
            r == spec_get_by_id(self.all@, id),
    {
        match self.get_index_by_id(id) {
            Some(i) => Some(self.all[i]),
            None => None,
        }
    }

    /// Mutable access to the first entity with this id, if any. The caller's
    /// writes through the reference land at that entity's index.
    pub fn get_by_id_mut(&mut self, id: u16) -> (r: Option<&mut Entity>)
        ensures
            r is Some <==> has_id(old(self).all@, id),
            r matches Some(e) ==> {
                &&& *e == old(self).all@[first_index_of_id(old(self).all@, id)]
                &&& final(self).all@ == old(self).all@.update(
                    first_index_of_id(old(self).all@, id),
                    *final(e),
                )
                &&& final(self).counter == old(self).counter
            },
            r is None ==> *final(self) == *old(self),
    {
        let index = match self.get_index_by_id(id) {
            Some(index) => index,
            None => {
                return None;
            },
        };
        Some(&mut self.all[index])
    }

    /// How many entities this controller owns.
    pub fn count_for_controller(&self, controller: Controller) -> (r: u16)
        requires
            self.all@.len() <= u16::MAX,
        ensures
            r == spec_count_for(self.all@, controller),
    {
        let mut count: u16 = 0;
        let mut i: usize = 0;
        while i < self.all.len()
            invariant
                i <= self.all.len(),
                self.all@.len() <= u16::MAX,
                count == spec_count_for(self.all@.take(i as int), controller),
                count <= i,
            decreases self.all.len() - i,
        {
            proof {
                assert(self.all@.take(i + 1 as int).drop_last() =~= self.all@.take(i as int));
                assert(self.all@.take(i + 1 as int).last() == self.all@[i as int]);
            }
            if self.all[i].owner == controller {
                count = count + 1;
            }
            i = i + 1;
        }
        proof {
            assert(self.all@.take(self.all@.len() as int) =~= self.all@);
        }
        count
    }

    /// Create a revealed piece from a card, assigning the next id.
    pub fn create(&mut self, player: Controller, x: u16, y: u16, card: Card) -> (r: u16)
        requires
            old(self).counter < u16::MAX,
            player != Controller::Graveyard,
            card.stats.attack_duration >= 1,
        ensures
            r == old(self).counter,
            final(self).counter == old(self).counter + 1,
            final(self).all@ == old(self).all@.push(
                spec_new_entity(old(self).counter, player, x, y, card),
            ),
            entities_wf(*old(self)) ==> entities_wf(*final(self)),
    {
        let id = self.counter;
        self.all.push(
            Entity {
                id,
                owner: player,
                target: None,
                speed_multiplier: 100,
                position: Location { x, y },
                health: card.stats.starting_health,
                unit_type: card.unit_type,
                state: EntityState::Idle,
                stats: Some(card.stats),
                rarity: Some(card.rarity),
                special_trait: card.special_trait,
            },
        );
        self.counter = self.counter + 1;
        id
    }

    /// Create a revealed piece under a caller-chosen id, used when mirroring
    /// a store whose ids were assigned elsewhere. Ids must arrive in
    /// ascending order so that they are never reused.
    pub fn create_with_id(&mut self, id: u16, player: Controller, x: u16, y: u16, card: Card) -> (r:
        u16)
        requires
            id >= old(self).counter,
            id < u16::MAX,
            player != Controller::Graveyard,
            card.stats.attack_duration >= 1,
        ensures
            r == id,
            final(self).counter == id + 1,
            final(self).all@ == old(self).all@.push(spec_new_entity(id, player, x, y, card)),
            entities_wf(*old(self)) ==> entities_wf(*final(self)),
    {
        self.all.push(
            Entity {
                id,
                owner: player,
                target: None,
                speed_multiplier: 100,
                position: Location { x, y },
                health: card.stats.starting_health,
                unit_type: card.unit_type,
                state: EntityState::Idle,
                stats: Some(card.stats),
                rarity: Some(card.rarity),
                special_trait: card.special_trait,
            },
        );
        self.counter = id + 1;
        id
    }

    /// Place a hidden piece; `reveal_all_hidden` later substitutes its real
    /// identity.
    pub fn create_hidden(&mut self, player: Controller, x: u16, y: u16, hand_position: u8) -> (r:
        u16)
        requires
            old(self).counter < u16::MAX,
            player != Controller::Graveyard,
        ensures
            r == old(self).counter,
            final(self).counter == old(self).counter + 1,
            final(self).all@ == old(self).all@.push(
                spec_new_hidden_entity(old(self).counter, player, x, y, hand_position),
            ),
            entities_wf(*old(self)) ==> entities_wf(*final(self)),
    {
        let id = self.counter;
        self.all.push(
            Entity {
                id,
                owner: player,
                target: None,
                speed_multiplier: 100,
                position: Location { x, y },
                health: 0,
                unit_type: UnitType::Hidden { hand_position },
                state: EntityState::Idle,
                stats: None,
                rarity: None,
                special_trait: None,
            },
        );
        self.counter = self.counter + 1;
        id
    }

    /// Remove the entity with this id. Removing an id that is not in the
    /// store is a caller error.
    pub fn remove_by_id(&mut self, id: u16)
        requires
            has_id(old(self).all@, id),
        ensures
            final(self).all@ == old(self).all@.remove(first_index_of_id(old(self).all@, id)),
            final(self).counter == old(self).counter,
            entities_wf(*old(self)) ==> entities_wf(*final(self)),
    {
        proof {
            lemma_first_index_of_id(self.all@, id);
        }
        let index = self.get_index_by_id(id).unwrap();
        self.all.remove(index);
        proof {
            if entities_wf(*old(self)) {
                let old_s = old(self).all@;
                let f = first_index_of_id(old_s, id);
                let new_s = self.all@;
                assert forall|i: int, j: int| 0 <= i < j < new_s.len() implies new_s[i].id
                    != new_s[j].id by {
                    let oi = if i < f {
                        i
                    } else {
                        i + 1
                    };
                    let oj = if j < f {
                        j
                    } else {
                        j + 1
                    };
                    assert(new_s[i] == old_s[oi] && new_s[j] == old_s[oj]);
                    assert(old_s[oi].id != old_s[oj].id);
                }
                assert forall|i: int| 0 <= i < new_s.len() implies entity_wf(#[trigger] new_s[i])
                    && new_s[i].id < self.counter by {
                    let oi = if i < f {
                        i
                    } else {
                        i + 1
                    };
                    assert(new_s[i] == old_s[oi]);
                    assert(entity_wf(old_s[oi]));
                }
            }
        }
    }

    /// The closest `owner`-controlled entity within `range` of a point, with
    /// its distance; ties go to the entity placed first.
    pub fn find_closest_entity_in_range(&self, position: &Location, range: u16,
        owner: Controller) -> (r: Option<EntityResult>)
        ensures
            spec_find_closest(self.all@, *position, range, owner) is None ==> r is None,
            spec_find_closest(self.all@, *position, range, owner) matches Some(p) ==> r matches Some(
                res,
            ) && res.entity == self.all@[p.0] && res.distance == p.1,
    {
        let mut best: Option<(usize, u16)> = None;
        let mut i: usize = 0;
        while i < self.all.len()
            invariant
                i <= self.all.len(),
                (match best {
                    None => spec_find_closest(self.all@.take(i as int), *position, range, owner)
                        is None,
                    Some(b) => spec_find_closest(self.all@.take(i as int), *position, range, owner)
                        == Some((b.0 as int, b.1)) && b.0 < i,
                }),
            decreases self.all.len() - i,
        {
            let e = self.all[i];
            let d = position.distance(&e.position);
            let cur_min: u16 = match best {
                None => u16::MAX,
                Some(b) => b.1,
            };
            proof {
                assert(self.all@.take(i + 1 as int).drop_last() =~= self.all@.take(i as int));
                assert(self.all@.take(i + 1 as int).last() == self.all@[i as int]);
            }
            if e.owner == owner && d <= range && d < cur_min {
                best = Some((i, d));
            }
            i = i + 1;
        }
        proof {
            assert(self.all@.take(self.all@.len() as int) =~= self.all@);
        }
        match best {
            None => None,
            Some(b) => Some(EntityResult { entity: self.all[b.0], distance: b.1 }),
        }
    }

    /// The closest `owner`-controlled entity anywhere on the board.
    pub fn find_closest_entity(&self, position: &Location, owner: Controller) -> (r: Option<
        EntityResult,
    >)
        ensures
            spec_find_closest(self.all@, *position, 65535u16, owner) is None ==> r is None,
            spec_find_closest(self.all@, *position, 65535u16, owner) matches Some(p) ==> r matches Some(
                res,
            ) && res.entity == self.all@[p.0] && res.distance == p.1,
    {
        self.find_closest_entity_in_range(position, u16::MAX, owner)
    }

    /// All `owner`-controlled entities within `range` of a point, in storage
    /// order.
    pub fn find_all_entities(&self, position: &Location, range: u16, owner: Controller) -> (r: Vec<
        Entity,
    >)
        ensures
            r@ == spec_find_all(self.all@, *position, range, owner),
    {
        let mut entities: Vec<Entity> = Vec::new();
        let mut i: usize = 0;
        while i < self.all.len()
            invariant
                i <= self.all.len(),
                entities@ == spec_find_all(self.all@.take(i as int), *position, range, owner),
            decreases self.all.len() - i,
        {
            let e = self.all[i];
            proof {
                assert(self.all@.take(i + 1 as int).drop_last() =~= self.all@.take(i as int));
                assert(self.all@.take(i + 1 as int).last() == self.all@[i as int]);
            }
            let d = position.distance(&e.position);
            if e.owner == owner && d <= range {
                entities.push(e);
            }
            i = i + 1;
        }
        proof {
            assert(self.all@.take(self.all@.len() as int) =~= self.all@);
        }
        entities
    }

    /// Given the revealed hand, fill in the identity of every hidden piece
    /// the player owns. Calling this while the player owns a non-hidden
    /// entity, or with a hand shorter than a recorded hand slot, is a caller
    /// error.
    pub fn reveal_all_hidden(&mut self, player: Controller, hand: &Vec<Card>)
        requires
            player != Controller::Graveyard,
            forall|i: int| 0 <= i < old(self).all@.len() && (#[trigger] old(self).all@[i]).owner
                == player ==> (old(self).all@[i].unit_type matches UnitType::Hidden {
                hand_position,
            } && hand_position < hand@.len()),
            forall|k: int| 0 <= k < hand@.len() ==> (#[trigger] hand@[k]).stats.attack_duration
                >= 1,
        ensures
            final(self).all@.len() == old(self).all@.len(),
            forall|i: int| 0 <= i < old(self).all@.len() ==> final(self).all@[i]
                == spec_reveal_entity(#[trigger] old(self).all@[i], player, hand@),
            final(self).counter == old(self).counter,
            entities_wf(*old(self)) ==> entities_wf(*final(self)),
    {
        let mut i: usize = 0;
        while i < self.all.len()
            invariant
                i <= self.all.len(),
                self.all@.len() == old(self).all@.len(),
                self.counter == old(self).counter,
                forall|j: int| 0 <= j < old(self).all@.len() && (#[trigger] old(
                    self,
                ).all@[j]).owner == player ==> (old(self).all@[j].unit_type
                    matches UnitType::Hidden { hand_position } && hand_position < hand@.len()),
                forall|j: int| i <= j < old(self).all@.len() ==> self.all@[j] == old(self).all@[j],
                forall|j: int| 0 <= j < i ==> self.all@[j] == spec_reveal_entity(
                    #[trigger] old(self).all@[j],
                    player,
                    hand@,
                ),
            decreases self.all.len() - i,
        {
            let e = self.all[i];
            if e.owner == player {
                match e.unit_type {
                    UnitType::Hidden { hand_position } => {
                        let card = hand[hand_position as usize];
                        self.all.set(
                            i,
                            Entity {
                                unit_type: card.unit_type,
                                health: card.stats.starting_health,
                                stats: Some(card.stats),
                                rarity: Some(card.rarity),
                                special_trait: card.special_trait,
                                ..e
                            },
                        );
                    },
                    _ => {
                        // unreachable: the precondition makes every entity
                        // the player still owns a hidden one
                        proof {
                            assert(false);
                        }
                    },
                }
            }
            i = i + 1;
        }
        proof {
            if entities_wf(*old(self)) {
                let old_s = old(self).all@;
                let new_s = self.all@;
                assert forall|i: int, j: int| 0 <= i < j < new_s.len() implies new_s[i].id
                    != new_s[j].id by {
                    assert(new_s[i].id == old_s[i].id && new_s[j].id == old_s[j].id);
                }
                assert forall|i: int| 0 <= i < new_s.len() implies entity_wf(#[trigger] new_s[i])
                    && new_s[i].id < self.counter by {
                    assert(entity_wf(old_s[i]));
                    assert(new_s[i] == spec_reveal_entity(old_s[i], player, hand@));
                    if old_s[i].owner == player {
                        match old_s[i].unit_type {
                            UnitType::Hidden { hand_position } => {
                                assert(hand@[hand_position as int].stats.attack_duration >= 1);
                            },
                            _ => {},
                        }
                    }
                }
            }
        }
    }
}

} // verus!
