//! The laws of the tick engine: what the decision pass may queue, what the
//! apply pass preserves, and the global guarantees built on them —
//! determinism, health monotonicity, terminal death, and consistent win
//! evaluation.

use vstd::prelude::*;

verus! {

use crate::state::actions::{Action, actions_for};
use crate::state::entities::{
    Entity, EntityState, Controller, entity_wf, entities_seq_wf, unique_ids, has_id,
    spec_walk_actions, spec_resolve_target, spec_find_closest, lemma_find_closest_props,
    lemma_first_index_of_id,
};
use crate::state::game::{
    Game, spec_decide_entity, spec_decision_pass, spec_apply_actions, spec_apply_pass,
    spec_step_sim, spec_crank_sim, targets_ok, spec_draw_hand, spec_evaluate, spec_rng_seq,
    spec_rng_calls, spec_rng_byte, spec_attack_damage,
};

/// What a queued action may look like, given the snapshot it was decided
/// against: a state change never writes death, an attack state it writes is
/// still in progress and its carrier has stats, and a target that is set
/// refers to an entity of the store.
pub open spec fn action_ok(s: Seq<Entity>, id: u16, a: Action) -> bool {
    match a {
        Action::EntityStateChange { state } => {
            &&& state != EntityState::Dead
            &&& (state matches EntityState::Attack { progress, attack_on, .. } ==> progress
                < attack_on)
            &&& (state is Attack ==> forall|i: int| 0 <= i < s.len() && (#[trigger] s[i]).id == id
                ==> s[i].stats is Some)
        },
        Action::Target { target_id } => target_id matches Some(t) ==> has_id(s, t),
        _ => true,
    }
}

/// Every action but damage is queued under the id of a live, player-owned
/// entity of the snapshot.
pub open spec fn action_from_live(s: Seq<Entity>, id: u16, a: Action) -> bool {
    !(a is Damage) ==> exists|i: int| 0 <= i < s.len() && (#[trigger] s[i]).id == id && s[i].state
        != EntityState::Dead
}

/// A well-formed action log against its snapshot.
pub open spec fn log_wf(s: Seq<Entity>, log: Seq<(u16, Action)>) -> bool {
    forall|k: int| 0 <= k < log.len() ==> action_ok(s, (#[trigger] log[k]).0, log[k].1)
        && action_from_live(s, log[k].0, log[k].1)
}

/// Everything an idle or moving entity queues is well formed and queued
/// under its own id.
pub proof fn lemma_walk_actions_wf(e: Entity, s: Seq<Entity>, idx: int)
    requires
        entities_seq_wf(s),
        0 <= idx < s.len(),
        s[idx] == e,
        e.stats is Some,
        e.state == EntityState::Idle || e.state is Moving,
        e.owner == Controller::Initializer || e.owner == Controller::Opponent,
    ensures
        forall|k: int| 0 <= k < spec_walk_actions(e, s).len() ==> (#[trigger] spec_walk_actions(
            e,
            s,
        )[k]).0 == e.id && action_ok(s, e.id, spec_walk_actions(e, s)[k].1) && action_from_live(
            s,
            e.id,
            spec_walk_actions(e, s)[k].1,
        ),
{
    let acts = spec_walk_actions(e, s);
    let enemy = crate::state::entities::spec_enemy_of(e.owner);
    lemma_find_closest_props(s, e.position, 65535u16, enemy);
    assert(e.state != EntityState::Dead);
    assert forall|k: int| 0 <= k < acts.len() implies (#[trigger] acts[k]).0 == e.id && action_ok(
        s,
        e.id,
        acts[k].1,
    ) && action_from_live(s, e.id, acts[k].1) by {
        assert(entity_wf(s[idx]));
        assert(e.stats.unwrap().attack_duration >= 1);
        match spec_find_closest(s, e.position, 65535u16, enemy) {
            Some(p) => {
                assert(has_id(s, s[p.0].id));
            },
            None => {},
        }
        if e.target is Some && has_id(s, e.target.unwrap()) {
            lemma_first_index_of_id(s, e.target.unwrap());
        }
        assert forall|i: int| 0 <= i < s.len() && (#[trigger] s[i]).id == e.id implies s[i].stats
            is Some by {
            if i != idx {
                assert(s[i].id != s[idx].id);
            }
        }
        assert(s[idx].id == e.id && s[idx].state != EntityState::Dead);
    }
}

/// One entity's decision extends a well-formed log into a well-formed log.
pub proof fn lemma_decide_entity_wf(e: Entity, s: Seq<Entity>, idx: int, acts: Seq<(u16, Action)>,
    rng: Seq<u8>, calls: u16)
    requires
        entities_seq_wf(s),
        0 <= idx < s.len(),
        s[idx] == e,
        log_wf(s, acts),
    ensures
        log_wf(s, spec_decide_entity(e, s, acts, rng, calls).0),
{
    let out = spec_decide_entity(e, s, acts, rng, calls).0;
    if e.owner == Controller::Initializer || e.owner == Controller::Opponent {
        match e.state {
            EntityState::Idle | EntityState::Moving { .. } => {
                if e.stats is Some {
                    lemma_walk_actions_wf(e, s, idx);
                    let walk = spec_walk_actions(e, s);
                    assert forall|k: int| 0 <= k < out.len() implies action_ok(
                        s,
                        (#[trigger] out[k]).0,
                        out[k].1,
                    ) && action_from_live(s, out[k].0, out[k].1) by {
                        if k < acts.len() {
                            assert(out[k] == acts[k]);
                        } else {
                            assert(out[k] == walk[k - acts.len()]);
                        }
                    }
                }
            },
            EntityState::Attack { progress, attack_on, target_id } => {
                assert(entity_wf(s[idx]));
                assert forall|i: int| 0 <= i < s.len() && (#[trigger] s[i]).id == e.id implies
                    s[i].stats is Some by {
                    if i != idx {
                        assert(s[i].id != s[idx].id);
                    }
                }
                assert(s[idx].id == e.id && s[idx].state != EntityState::Dead);
            },
            _ => {},
        }
    }
}

/// The whole decision pass produces a well-formed log.
pub proof fn lemma_decision_pass_wf(s: Seq<Entity>, n: int, rng: Seq<u8>, calls: u16)
    requires
        entities_seq_wf(s),
        n <= s.len(),
    ensures
        log_wf(s, spec_decision_pass(s, n, rng, calls).0),
    decreases n,
{
    if n > 0 {
        lemma_decision_pass_wf(s, n - 1, rng, calls);
        let prev = spec_decision_pass(s, n - 1, rng, calls);
        lemma_decide_entity_wf(s[n - 1], s, n - 1, prev.0, prev.1, prev.2);
    }
}

/// Every action selected for an id comes from a pair of the log.
pub proof fn lemma_actions_for_member(log: Seq<(u16, Action)>, id: u16, m: int)
    requires
        0 <= m < actions_for(log, id).len(),
    ensures
        exists|k: int| 0 <= k < log.len() && #[trigger] log[k] == (id, actions_for(log, id)[m]),
    decreases log.len(),
{
    let af = actions_for(log, id);
    let rest = actions_for(log.drop_last(), id);
    if log.last().0 == id && m == rest.len() {
        assert(log[log.len() - 1] == (id, af[m]));
    } else {
        lemma_actions_for_member(log.drop_last(), id, m);
        let k = choose|k: int| 0 <= k < log.drop_last().len() && #[trigger] log.drop_last()[k] == (
            id,
            actions_for(log.drop_last(), id)[m],
        );
        assert(log[k] == (id, af[m]));
    }
}

/// Applying actions never touches an entity's identity, stats, unit type, or
/// the other immutable fields, and never increases health.
pub proof fn lemma_apply_actions_frame(e: Entity, acts: Seq<Action>)
    ensures
        spec_apply_actions(e, acts).id == e.id,
        spec_apply_actions(e, acts).stats == e.stats,
        spec_apply_actions(e, acts).unit_type == e.unit_type,
        spec_apply_actions(e, acts).speed_multiplier == e.speed_multiplier,
        spec_apply_actions(e, acts).rarity == e.rarity,
        spec_apply_actions(e, acts).special_trait == e.special_trait,
        spec_apply_actions(e, acts).health <= e.health,
    decreases acts.len(),
{
    if acts.len() > 0 {
        lemma_apply_actions_frame(e, acts.drop_last());
    }
}

/// The per-entity shape of a well-formed log's actions: state changes never
/// write death, and any attack state they write is in progress and backed by
/// the entity's stats.
pub open spec fn apply_act_ok(e: Entity, a: Action) -> bool {
    match a {
        Action::EntityStateChange { state } => {
            &&& state != EntityState::Dead
            &&& (state matches EntityState::Attack { progress, attack_on, .. } ==> progress
                < attack_on && e.stats is Some)
        },
        _ => true,
    }
}

/// Applying well-shaped actions preserves per-entity well-formedness.
pub proof fn lemma_apply_actions_wf(e: Entity, acts: Seq<Action>)
    requires
        entity_wf(e),
        forall|k: int| 0 <= k < acts.len() ==> apply_act_ok(e, #[trigger] acts[k]),
    ensures
        entity_wf(spec_apply_actions(e, acts)),
    decreases acts.len(),
{
    if acts.len() > 0 {
        assert(forall|k: int| 0 <= k < acts.drop_last().len() ==> apply_act_ok(
            e,
            #[trigger] acts.drop_last()[k],
        ));
        lemma_apply_actions_wf(e, acts.drop_last());
        lemma_apply_actions_frame(e, acts.drop_last());
        assert(apply_act_ok(e, acts.last()));
    }
}

/// A dead entity to which only damage is queued does not change at all.
pub proof fn lemma_apply_actions_dead(e: Entity, acts: Seq<Action>)
    requires
        entity_wf(e),
        e.state == EntityState::Dead,
        forall|k: int| 0 <= k < acts.len() ==> (#[trigger] acts[k]) is Damage,
    ensures
        spec_apply_actions(e, acts) == e,
    decreases acts.len(),
{
    if acts.len() > 0 {
        lemma_apply_actions_dead(e, acts.drop_last());
    }
}

/// Applying actions whose targets are ids of the store leaves the entity
/// with a target id of the store (or none).
pub proof fn lemma_apply_actions_target(e: Entity, acts: Seq<Action>, s: Seq<Entity>)
    requires
        e.target matches Some(t) ==> has_id(s, t),
        forall|k: int| 0 <= k < acts.len() ==> ((#[trigger] acts[k]) matches Action::Target {
            target_id: Some(t),
        } ==> has_id(s, t)),
    ensures
        spec_apply_actions(e, acts).target matches Some(t) ==> has_id(s, t),
    decreases acts.len(),
{
    if acts.len() > 0 {
        lemma_apply_actions_target(e, acts.drop_last(), s);
    }
}

/// One tick preserves the shape of the store: the length and the ids stay,
/// well-formedness and target validity are kept.
pub proof fn lemma_step_sim_preserves(t: (Seq<Entity>, Seq<u8>, u16))
    requires
        entities_seq_wf(t.0),
        targets_ok(t.0),
    ensures
        spec_step_sim(t).0.len() == t.0.len(),
        forall|i: int| 0 <= i < t.0.len() ==> (#[trigger] spec_step_sim(t).0[i]).id == t.0[i].id,
        entities_seq_wf(spec_step_sim(t).0),
        targets_ok(spec_step_sim(t).0),
{
    let s = t.0;
    let log = spec_decision_pass(s, s.len() as int, t.1, t.2).0;
    let r = spec_step_sim(t).0;
    lemma_decision_pass_wf(s, s.len() as int, t.1, t.2);
    assert(r =~= spec_apply_pass(s, log));
    // frame: ids and lengths
    assert forall|i: int| 0 <= i < s.len() implies (#[trigger] r[i]).id == s[i].id by {
        lemma_apply_actions_frame(s[i], actions_for(log, s[i].id));
    }
    // per-entity well-formedness
    assert forall|i: int| 0 <= i < s.len() implies entity_wf(#[trigger] r[i]) by {
        let e = s[i];
        let acts = actions_for(log, e.id);
        assert forall|k: int| 0 <= k < acts.len() implies apply_act_ok(e, #[trigger] acts[k]) by {
            lemma_actions_for_member(log, e.id, k);
            let m = choose|m: int| 0 <= m < log.len() && #[trigger] log[m] == (e.id, acts[k]);
            assert(action_ok(s, e.id, acts[k]));
        }
        assert(entity_wf(e));
        lemma_apply_actions_wf(e, acts);
    }
    // unique ids carry over index-wise
    assert forall|i: int, j: int| 0 <= i < j < r.len() implies r[i].id != r[j].id by {
        assert(s[i].id != s[j].id);
    }
    // target validity: has_id transfers because the ids are unchanged
    assert forall|i: int| 0 <= i < r.len() implies ((#[trigger] r[i]).target matches Some(tg)
        ==> has_id(r, tg)) by {
        let e = s[i];
        let acts = actions_for(log, e.id);
        assert forall|k: int| 0 <= k < acts.len() implies ((#[trigger] acts[k])
            matches Action::Target { target_id: Some(tg) } ==> has_id(s, tg)) by {
            lemma_actions_for_member(log, e.id, k);
            let m = choose|m: int| 0 <= m < log.len() && #[trigger] log[m] == (e.id, acts[k]);
            assert(action_ok(s, e.id, acts[k]));
        }
        lemma_apply_actions_target(e, acts, s);
        if r[i].target is Some {
            let tg = r[i].target.unwrap();
            assert(has_id(s, tg));
            let w = choose|w: int| 0 <= w < s.len() && s[w].id == tg;
            assert(r[w].id == tg);
        }
    }
}

/// Determinism: advancing the simulation any number of ticks is a pure
/// function of the simulation state — two runs from equal states produce
/// bit-identical entity stores, randomness, and draw counters.
pub proof fn lemma_advance_deterministic(t1: (Seq<Entity>, Seq<u8>, u16), t2: (Seq<Entity>, Seq<
    u8,
>, u16), n: int)
    requires
        t1.0 == t2.0,
        t1.1 == t2.1,
        t1.2 == t2.2,
    ensures
        spec_crank_sim(t1, n) == spec_crank_sim(t2, n),
{
    assert(t1 == t2);
}

/// Health monotonicity: over a tick, a `u16` health never increases, and an
/// entity that is dead after the tick has exactly zero health.
pub proof fn lemma_step_health_monotonic(t: (Seq<Entity>, Seq<u8>, u16), i: int)
    requires
        entities_seq_wf(t.0),
        targets_ok(t.0),
        0 <= i < t.0.len(),
    ensures
        spec_step_sim(t).0[i].health <= t.0[i].health,
        spec_step_sim(t).0[i].state == EntityState::Dead ==> spec_step_sim(t).0[i].health == 0,
{
    let s = t.0;
    let log = spec_decision_pass(s, s.len() as int, t.1, t.2).0;
    let r = spec_step_sim(t).0;
    assert(r =~= spec_apply_pass(s, log));
    lemma_apply_actions_frame(s[i], actions_for(log, s[i].id));
    lemma_step_sim_preserves(t);
    assert(entity_wf(r[i]));
}

/// Death is terminal: an entity that is dead going into a tick comes out of
/// the tick unchanged — same position, health, state, owner, and target.
pub proof fn lemma_step_death_terminal(t: (Seq<Entity>, Seq<u8>, u16), i: int)
    requires
        entities_seq_wf(t.0),
        targets_ok(t.0),
        0 <= i < t.0.len(),
        t.0[i].state == EntityState::Dead,
    ensures
        spec_step_sim(t).0[i] == t.0[i],
{
    let s = t.0;
    let log = spec_decision_pass(s, s.len() as int, t.1, t.2).0;
    let r = spec_step_sim(t).0;
    lemma_decision_pass_wf(s, s.len() as int, t.1, t.2);
    assert(r =~= spec_apply_pass(s, log));
    let e = s[i];
    let acts = actions_for(log, e.id);
    assert forall|k: int| 0 <= k < acts.len() implies (#[trigger] acts[k]) is Damage by {
        lemma_actions_for_member(log, e.id, k);
        let m = choose|m: int| 0 <= m < log.len() && #[trigger] log[m] == (e.id, acts[k]);
        assert(action_from_live(s, e.id, acts[k]));
        if !(acts[k] is Damage) {
            let w = choose|w: int|
                0 <= w < s.len() && (#[trigger] s[w]).id == e.id && s[w].state
                    != EntityState::Dead;
            if w != i {
                assert(s[w].id != s[i].id);
            }
        }
    }
    assert(entity_wf(e));
    lemma_apply_actions_dead(e, acts);
}

/// Win-condition consistency: evaluating the win condition only refreshes
/// the cached value from the store, so evaluating twice in succession, with
/// no tick in between, is the same as evaluating once.
pub proof fn lemma_evaluate_idempotent(g: Game)
    ensures
        spec_evaluate(spec_evaluate(g)) == spec_evaluate(g),
{
}

/// Hand-draw reproducibility and symmetry: the drawn hand is a pure function
/// of the two seeds, and because they are combined by xor, exchanging the
/// seeds draws the same hand.
pub proof fn lemma_draw_hand_commutes(a: Seq<u8>, b: Seq<u8>)
    ensures
        spec_draw_hand(a, b) == spec_draw_hand(b, a),
{
    assert(forall|x: u8, y: u8| #[trigger] (x ^ y) == (y ^ x)) by (bit_vector);
    assert(spec_draw_hand(a, b) =~= spec_draw_hand(b, a));
}

/// Only damage actions, as a queue against one entity looks between its own
/// decisions.
pub open spec fn all_damage(acts: Seq<Action>) -> bool {
    forall|k: int| 0 <= k < acts.len() ==> (#[trigger] acts[k]) is Damage
}

/// The batch of actions one entity's decision appends, starting from an
/// empty log.
pub open spec fn spec_decide_batch(e: Entity, all: Seq<Entity>, rng: Seq<u8>,
    calls: u16) -> Seq<(u16, Action)> {
    spec_decide_entity(e, all, Seq::empty(), rng, calls).0
}

/// A decision only appends: its output log is the input log followed by the
/// batch it would produce from an empty log, and the random stream moves the
/// same way regardless of the log.
pub proof fn lemma_decide_appends(e: Entity, all: Seq<Entity>, acts: Seq<(u16, Action)>,
    rng: Seq<u8>, calls: u16)
    ensures
        spec_decide_entity(e, all, acts, rng, calls).0 == acts + spec_decide_batch(
            e,
            all,
            rng,
            calls,
        ),
        spec_decide_entity(e, all, acts, rng, calls).1 == spec_decide_entity(
            e,
            all,
            Seq::empty(),
            rng,
            calls,
        ).1,
        spec_decide_entity(e, all, acts, rng, calls).2 == spec_decide_entity(
            e,
            all,
            Seq::empty(),
            rng,
            calls,
        ).2,
{
    assert(spec_decide_entity(e, all, acts, rng, calls).0 =~= acts + spec_decide_batch(
        e,
        all,
        rng,
        calls,
    ));
}

/// Selecting one id's actions distributes over log concatenation.
pub proof fn lemma_actions_for_concat(l1: Seq<(u16, Action)>, l2: Seq<(u16, Action)>, id: u16)
    ensures
        actions_for(l1 + l2, id) == actions_for(l1, id) + actions_for(l2, id),
    decreases l2.len(),
{
    if l2.len() == 0 {
        assert(l1 + l2 =~= l1);
        assert(actions_for(l1, id) + actions_for(l2, id) =~= actions_for(l1, id));
    } else {
        lemma_actions_for_concat(l1, l2.drop_last(), id);
        assert((l1 + l2).drop_last() =~= l1 + l2.drop_last());
        assert((l1 + l2).last() == l2.last());
        if l2.last().0 == id {
            assert(actions_for(l1, id) + actions_for(l2, id) =~= (actions_for(l1, id)
                + actions_for(l2.drop_last(), id)).push(l2.last().1));
        }
    }
}

/// A log that queues nothing but damage against an id selects to nothing but
/// damage.
pub proof fn lemma_actions_for_damage_only(log: Seq<(u16, Action)>, id: u16)
    requires
        forall|k: int| 0 <= k < log.len() ==> (#[trigger] log[k]).0 != id || log[k].1 is Damage,
    ensures
        all_damage(actions_for(log, id)),
    decreases log.len(),
{
    if log.len() > 0 {
        assert(forall|k: int| 0 <= k < log.drop_last().len() ==> (#[trigger] log.drop_last()[k])
            == log[k]);
        lemma_actions_for_damage_only(log.drop_last(), id);
    }
}

/// Selecting the id that every pair of a log carries returns every action in
/// order.
pub proof fn lemma_actions_for_all_mine(log: Seq<(u16, Action)>, id: u16)
    requires
        forall|k: int| 0 <= k < log.len() ==> (#[trigger] log[k]).0 == id,
    ensures
        actions_for(log, id).len() == log.len(),
        forall|k: int| 0 <= k < log.len() ==> actions_for(log, id)[k] == (#[trigger] log[k]).1,
    decreases log.len(),
{
    if log.len() > 0 {
        assert(forall|k: int| 0 <= k < log.drop_last().len() ==> (#[trigger] log.drop_last()[k])
            == log[k]);
        lemma_actions_for_all_mine(log.drop_last(), id);
        let rest = actions_for(log.drop_last(), id);
        assert(log.last().0 == id);
        assert(actions_for(log, id) == rest.push(log.last().1));
        assert forall|k: int| 0 <= k < log.len() implies actions_for(log, id)[k] == (
        #[trigger] log[k]).1 by {
            if k < log.len() - 1 {
                assert(rest.push(log.last().1)[k] == rest[k]);
                assert(log.drop_last()[k] == log[k]);
            }
        }
    }
}

/// Every pair an idle or moving entity queues carries its own id.
pub proof fn lemma_walk_actions_ids(e: Entity, s: Seq<Entity>)
    ensures
        forall|k: int| 0 <= k < spec_walk_actions(e, s).len() ==> (#[trigger] spec_walk_actions(
            e,
            s,
        )[k]).0 == e.id,
{
    let acts = spec_walk_actions(e, s);
    let resolved = crate::state::entities::spec_resolve_target(e, s);
    assert forall|k: int| 0 <= k < acts.len() implies (#[trigger] acts[k]).0 == e.id by {
        match resolved.1 {
            None => {},
            Some(found) => {},
        }
    }
}

/// Every pair one decision queues either carries the actor's id or is a
/// damage action (against the actor's target).
pub proof fn lemma_batch_ids(e: Entity, all: Seq<Entity>, rng: Seq<u8>, calls: u16)
    ensures
        forall|k: int| 0 <= k < spec_decide_batch(e, all, rng, calls).len() ==> ((
        #[trigger] spec_decide_batch(e, all, rng, calls)[k]).0 == e.id || spec_decide_batch(
            e,
            all,
            rng,
            calls,
        )[k].1 is Damage),
{
    let batch = spec_decide_batch(e, all, rng, calls);
    if e.owner == Controller::Initializer || e.owner == Controller::Opponent {
        match e.state {
            EntityState::Idle | EntityState::Moving { .. } => {
                if e.stats is Some {
                    lemma_walk_actions_ids(e, all);
                    assert(batch =~= spec_walk_actions(e, all));
                }
            },
            _ => {},
        }
    }
}

/// The actions an id selects from a log split as damage from other actors,
/// then the id's own contiguous decision block, then damage again.
pub open spec fn splits_as(acts: Seq<Action>, own: Seq<Action>) -> bool {
    exists|j: int|
        0 <= j && j + own.len() <= acts.len() && #[trigger] acts.subrange(j, j + own.len()) == own
            && all_damage(acts.subrange(0, j)) && all_damage(
            acts.subrange(j + own.len(), acts.len() as int),
        )
}

/// What entity `i`'s own decision queues under its own id, given the random
/// stream state its turn sees.
pub open spec fn spec_own_actions(s: Seq<Entity>, i: int, rng: Seq<u8>, calls: u16) -> Seq<
    Action,
> {
    let prev = spec_decision_pass(s, i, rng, calls);
    actions_for(spec_decide_batch(s[i], s, prev.1, prev.2), s[i].id)
}

/// Over the decision pass, everything queued against an entity's id is
/// damage from the other actors, except for the entity's own decision block,
/// which arrives contiguously in order.
pub proof fn lemma_pass_actions_split(s: Seq<Entity>, n: int, rng: Seq<u8>, calls: u16, i: int)
    requires
        unique_ids(s),
        0 <= i < s.len(),
        0 <= n <= s.len(),
    ensures
        n <= i ==> all_damage(actions_for(spec_decision_pass(s, n, rng, calls).0, s[i].id)),
        n > i ==> splits_as(
            actions_for(spec_decision_pass(s, n, rng, calls).0, s[i].id),
            spec_own_actions(s, i, rng, calls),
        ),
    decreases n,
{
    let id = s[i].id;
    let own = spec_own_actions(s, i, rng, calls);
    if n > 0 {
        lemma_pass_actions_split(s, n - 1, rng, calls, i);
        let prev = spec_decision_pass(s, n - 1, rng, calls);
        let e = s[n - 1];
        lemma_decide_appends(e, s, prev.0, prev.1, prev.2);
        let batch = spec_decide_batch(e, s, prev.1, prev.2);
        assert(spec_decision_pass(s, n, rng, calls).0 == prev.0 + batch);
        lemma_actions_for_concat(prev.0, batch, id);
        let af_prev = actions_for(prev.0, id);
        let af_batch = actions_for(batch, id);
        let acts = af_prev + af_batch;
        lemma_batch_ids(e, s, prev.1, prev.2);
        if n - 1 < i {
            assert(e.id != id);
            lemma_actions_for_damage_only(batch, id);
            assert forall|k: int| 0 <= k < acts.len() implies (#[trigger] acts[k]) is Damage by {
                if k < af_prev.len() {
                    assert(acts[k] == af_prev[k]);
                } else {
                    assert(acts[k] == af_batch[k - af_prev.len()]);
                }
            }
        } else if n - 1 == i {
            let j = af_prev.len() as int;
            assert(af_batch == own);
            assert(acts.subrange(j, j + own.len()) =~= own);
            assert(all_damage(acts.subrange(0, j))) by {
                assert(acts.subrange(0, j) =~= af_prev);
            }
            assert(all_damage(acts.subrange(j + own.len(), acts.len() as int))) by {
                assert(acts.subrange(j + own.len(), acts.len() as int) =~= Seq::<Action>::empty());
            }
            assert(splits_as(acts, own));
        } else {
            assert(e.id != id);
            lemma_actions_for_damage_only(batch, id);
            let j = choose|j: int|
                0 <= j && j + own.len() <= af_prev.len() && #[trigger] af_prev.subrange(
                    j,
                    j + own.len(),
                ) == own && all_damage(af_prev.subrange(0, j)) && all_damage(
                    af_prev.subrange(j + own.len(), af_prev.len() as int),
                );
            assert(acts.subrange(j, j + own.len()) =~= af_prev.subrange(j, j + own.len()));
            assert(acts.subrange(0, j) =~= af_prev.subrange(0, j));
            assert(all_damage(acts.subrange(j + own.len(), acts.len() as int))) by {
                let tail = acts.subrange(j + own.len(), acts.len() as int);
                let old_tail = af_prev.subrange(j + own.len(), af_prev.len() as int);
                assert forall|k: int| 0 <= k < tail.len() implies (#[trigger] tail[k])
                    is Damage by {
                    if k < old_tail.len() {
                        assert(tail[k] == old_tail[k]);
                    } else {
                        assert(tail[k] == af_batch[k - old_tail.len()]);
                    }
                }
            }
            assert(splits_as(acts, own));
        }
    }
}

/// Applying a mix of damage, target updates, and one repeated state change
/// never moves the entity; its state ends dead, as written, or untouched.
proof fn lemma_apply_actions_no_move(e: Entity, acts: Seq<Action>, st: EntityState)
    requires
        st != EntityState::Dead,
        forall|k: int| 0 <= k < acts.len() ==> ((#[trigger] acts[k]) is Damage || acts[k] is Target
            || acts[k] == (Action::EntityStateChange { state: st })),
    ensures
        spec_apply_actions(e, acts).position == e.position,
        spec_apply_actions(e, acts).state == EntityState::Dead || spec_apply_actions(e, acts).state
            == st || spec_apply_actions(e, acts).state == e.state,
    decreases acts.len(),
{
    if acts.len() > 0 {
        assert(forall|k: int| 0 <= k < acts.drop_last().len() ==> (#[trigger] acts.drop_last()[k])
            == acts[k]);
        lemma_apply_actions_no_move(e, acts.drop_last(), st);
        assert(acts.last() == acts[acts.len() - 1]);
    }
}

/// When such a list carries the state change at least once, the entity ends
/// the tick in the written state, unless a damage of the same list killed it
/// — and it has not moved either way.
pub proof fn lemma_apply_actions_outcome(e: Entity, acts: Seq<Action>, st: EntityState)
    requires
        st != EntityState::Dead,
        forall|k: int| 0 <= k < acts.len() ==> ((#[trigger] acts[k]) is Damage || acts[k] is Target
            || acts[k] == (Action::EntityStateChange { state: st })),
        exists|k: int| 0 <= k < acts.len() && (#[trigger] acts[k]) == (Action::EntityStateChange {
            state: st,
        }),
    ensures
        spec_apply_actions(e, acts).position == e.position,
        spec_apply_actions(e, acts).state == EntityState::Dead || spec_apply_actions(e, acts).state
            == st,
    decreases acts.len(),
{
    assert(forall|k: int| 0 <= k < acts.drop_last().len() ==> (#[trigger] acts.drop_last()[k])
        == acts[k]);
    if acts.last() == (Action::EntityStateChange { state: st }) {
        lemma_apply_actions_no_move(e, acts.drop_last(), st);
    } else {
        let w = choose|k: int|
            0 <= k < acts.len() && (#[trigger] acts[k]) == (Action::EntityStateChange {
                state: st,
            });
        assert(w < acts.len() - 1);
        assert(acts.drop_last()[w] == acts[w]);
        lemma_apply_actions_outcome(e, acts.drop_last(), st);
        assert(acts.last() == acts[acts.len() - 1]);
    }
}

/// An idle or moving entity whose resolved target stands within attack range
/// starts an attack this tick: after the step it stands where it stood, in
/// an attack on that target from progress zero over its attack duration —
/// unless damage of the same tick killed it first.
pub proof fn lemma_step_attack_starts(t: (Seq<Entity>, Seq<u8>, u16), i: int)
    requires
        entities_seq_wf(t.0),
        targets_ok(t.0),
        0 <= i < t.0.len(),
        t.0[i].owner == Controller::Initializer || t.0[i].owner == Controller::Opponent,
        t.0[i].state == EntityState::Idle || t.0[i].state is Moving,
        t.0[i].stats is Some,
        spec_resolve_target(t.0[i], t.0).1 matches Some(found) && found.1
            <= t.0[i].stats.unwrap().attack_range,
    ensures
        spec_step_sim(t).0[i].position == t.0[i].position,
        spec_step_sim(t).0[i].state == EntityState::Dead || spec_step_sim(t).0[i].state
            == (EntityState::Attack {
            progress: 0,
            attack_on: t.0[i].stats.unwrap().attack_duration,
            target_id: spec_resolve_target(t.0[i], t.0).1.unwrap().0.id,
        }),
{
    let s = t.0;
    let e = s[i];
    let resolved = spec_resolve_target(e, s);
    let st = EntityState::Attack {
        progress: 0,
        attack_on: e.stats.unwrap().attack_duration,
        target_id: resolved.1.unwrap().0.id,
    };
    let log = spec_decision_pass(s, s.len() as int, t.1, t.2).0;
    let r = spec_step_sim(t).0;
    assert(r =~= spec_apply_pass(s, log));
    assert(r[i] == spec_apply_actions(e, actions_for(log, e.id)));
    lemma_pass_actions_split(s, s.len() as int, t.1, t.2, i);
    let prev = spec_decision_pass(s, i, t.1, t.2);
    let own = spec_own_actions(s, i, t.1, t.2);
    let batch = spec_decide_batch(e, s, prev.1, prev.2);
    let walk = spec_walk_actions(e, s);
    assert(batch =~= walk);
    lemma_walk_actions_ids(e, s);
    lemma_actions_for_all_mine(batch, e.id);
    // in the in-range case the walk queues its one state change, possibly
    // between a target clear and a target set
    let sc_at = resolved.0.len() as int;
    assert(walk[sc_at] == (e.id, Action::EntityStateChange { state: st }));
    assert(forall|k: int| 0 <= k < walk.len() ==> ((#[trigger] walk[k]).1 is Target || walk[k].1
        == (Action::EntityStateChange { state: st })));
    assert(own.len() == batch.len());
    assert(own[sc_at] == (Action::EntityStateChange { state: st })) by {
        assert(batch[sc_at] == walk[sc_at]);
    }
    assert forall|k: int| 0 <= k < own.len() implies ((#[trigger] own[k]) is Target || own[k]
        == (Action::EntityStateChange { state: st })) by {
        assert(own[k] == batch[k].1);
        assert(batch[k] == walk[k]);
    }
    // assemble the shape of everything queued against this entity
    let acts = actions_for(log, e.id);
    let j = choose|j: int|
        0 <= j && j + own.len() <= acts.len() && #[trigger] acts.subrange(j, j + own.len()) == own
            && all_damage(acts.subrange(0, j)) && all_damage(
            acts.subrange(j + own.len(), acts.len() as int),
        );
    assert forall|k: int| 0 <= k < acts.len() implies ((#[trigger] acts[k]) is Damage || acts[k]
        is Target || acts[k] == (Action::EntityStateChange { state: st })) by {
        if k < j {
            assert(acts.subrange(0, j)[k] == acts[k]);
        } else if k < j + own.len() {
            assert(acts.subrange(j, j + own.len())[k - j] == acts[k]);
        } else {
            assert(acts.subrange(j + own.len(), acts.len() as int)[k - j - own.len()] == acts[k]);
        }
    }
    assert(acts.subrange(j, j + own.len())[sc_at] == acts[j + sc_at]);
    assert(acts[j + sc_at] == (Action::EntityStateChange { state: st }));
    lemma_apply_actions_outcome(e, acts, st);
}

/// A player-owned entity whose attack reaches its completion tick draws
/// exactly one byte for the crit check and queues the resulting damage
/// against its target followed by its own return to idle; after the step it
/// stands where it stood, idle — unless damage of the same tick killed it.
pub proof fn lemma_step_attack_completes(t: (Seq<Entity>, Seq<u8>, u16), i: int, tid: u16)
    requires
        entities_seq_wf(t.0),
        0 <= i < t.0.len(),
        t.0[i].owner == Controller::Initializer || t.0[i].owner == Controller::Opponent,
        t.0[i].state matches EntityState::Attack { progress, attack_on, target_id } && progress + 1
            == attack_on && target_id == tid,
    ensures
        ({
            let prev = spec_decision_pass(t.0, i, t.1, t.2);
            let next = spec_decision_pass(t.0, i + 1, t.1, t.2);
            // exactly one byte is drawn for the crit check ...
            &&& next.1 == spec_rng_seq(prev.1, prev.2)
            &&& next.2 == spec_rng_calls(prev.2)
            // ... and decides the one damage queued against the target
            &&& next.0 == prev.0 + seq![
                (
                    tid,
                    Action::Damage {
                        amount: spec_attack_damage(
                            t.0[i].stats.unwrap(),
                            spec_rng_byte(prev.1, prev.2),
                        ),
                    },
                ),
                (t.0[i].id, Action::EntityStateChange { state: EntityState::Idle }),
            ]
        }),
        spec_step_sim(t).0[i].position == t.0[i].position,
        spec_step_sim(t).0[i].state == EntityState::Dead || spec_step_sim(t).0[i].state
            == EntityState::Idle,
{
    let s = t.0;
    let e = s[i];
    assert(entity_wf(s[i]));
    let prev = spec_decision_pass(s, i, t.1, t.2);
    let dmg = Action::Damage {
        amount: spec_attack_damage(e.stats.unwrap(), spec_rng_byte(prev.1, prev.2)),
    };
    let idle = Action::EntityStateChange { state: EntityState::Idle };
    assert(spec_decision_pass(s, i + 1, t.1, t.2).0 =~= prev.0 + seq![
        (tid, dmg),
        (e.id, idle),
    ]);
    // the entity's own block holds its return to idle, and its damage when
    // it targets itself; everything else against it is damage from others
    let log = spec_decision_pass(s, s.len() as int, t.1, t.2).0;
    let r = spec_step_sim(t).0;
    assert(r =~= spec_apply_pass(s, log));
    assert(r[i] == spec_apply_actions(e, actions_for(log, e.id)));
    lemma_pass_actions_split(s, s.len() as int, t.1, t.2, i);
    let own = spec_own_actions(s, i, t.1, t.2);
    let batch = spec_decide_batch(e, s, prev.1, prev.2);
    assert(batch =~= seq![(tid, dmg), (e.id, idle)]);
    let last_own = own.len() as int - 1;
    assert(own.last() == idle && (forall|k: int| 0 <= k < own.len() ==> ((#[trigger] own[k])
        is Damage || own[k] == idle))) by {
        reveal_with_fuel(actions_for, 4);
        let empty_log = Seq::<(u16, Action)>::empty();
        let one = seq![(tid, dmg)];
        assert(batch.drop_last() =~= one);
        assert(one.drop_last() =~= empty_log);
        assert(actions_for(empty_log, e.id) =~= Seq::<Action>::empty());
        if tid == e.id {
            assert(actions_for(one, e.id) =~= seq![dmg]);
            assert(own =~= seq![dmg, idle]);
        } else {
            assert(actions_for(one, e.id) =~= Seq::<Action>::empty());
            assert(own =~= seq![idle]);
        }
    }
    let acts = actions_for(log, e.id);
    let j = choose|j: int|
        0 <= j && j + own.len() <= acts.len() && #[trigger] acts.subrange(j, j + own.len()) == own
            && all_damage(acts.subrange(0, j)) && all_damage(
            acts.subrange(j + own.len(), acts.len() as int),
        );
    assert forall|k: int| 0 <= k < acts.len() implies ((#[trigger] acts[k]) is Damage || acts[k]
        is Target || acts[k] == idle) by {
        if k < j {
            assert(acts.subrange(0, j)[k] == acts[k]);
        } else if k < j + own.len() {
            assert(acts.subrange(j, j + own.len())[k - j] == acts[k]);
        } else {
            assert(acts.subrange(j + own.len(), acts.len() as int)[k - j - own.len()] == acts[k]);
        }
    }
    assert(acts.subrange(j, j + own.len())[last_own] == acts[j + last_own]);
    assert(acts[j + last_own] == idle);
    lemma_apply_actions_outcome(e, acts, EntityState::Idle);
}

} // verus!
