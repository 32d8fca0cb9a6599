//! The match state and the tick engine: placement of pieces, the
//! deterministic random byte stream drawn from the revealed seed, per-tick
//! combat resolution, and the win-condition evaluator.

use vstd::prelude::*;

verus! {

use vstd::pervasive::VecAdditionalExecFns;
use crate::ErrorCode;
use crate::state::entities::{
    Entities, Entity, EntityState, Controller, entities_wf, entity_wf, has_id,
    first_index_of_id, lemma_first_index_of_id, spec_count_for, spec_find_closest,
    spec_new_entity, spec_new_hidden_entity, spec_reveal_entity,
};
use crate::state::actions::{Action, Actions, actions_for};
use crate::state::entities::{spec_walk_actions, entities_seq_wf};
use crate::state::units::{UnitType, UnitStats, Card, Rarity, spec_unit_stats, lookup_unit_stats};
use crate::state::utils::Location;

/// The outcome classification of a match.
#[derive(Debug, Clone, Copy, PartialEq, Eq, Structural)]
pub enum WinCondition {
    Initializer,
    Opponent,
    Tie,
    InProgress,
}

impl Default for WinCondition {
    fn default() -> (r: Self)
        ensures
            r == WinCondition::InProgress,
    {
        WinCondition::InProgress
    }
}

/// One match: the two players' commitments and reveals, the placement phase
/// flags and timers, the entity store, and the tick counter. Wallet keys are
/// held as plain 32-byte values.
#[derive(Debug, Clone, PartialEq)]
pub struct Game {
    /// Game state:
    /// 0 - initialized, waiting for the opponent to join.
    /// 1 - opponent joined, waiting for the first reveal.
    /// 2 - first commitments revealed, pieces are being placed.
    /// 3 - second commitments revealed; the game is in progress.
    pub state: u8,
    pub wager: u64,
    pub win_condition: WinCondition,
    pub initializer: [u8; 32],
    pub opponent: [u8; 32],
    pub i_burner: [u8; 32],
    pub o_burner: [u8; 32],
    pub i_commitment_1: Option<[u8; 32]>,
    pub i_commitment_2: Option<[u8; 32]>,
    pub o_commitment_1: Option<[u8; 32]>,
    pub o_commitment_2: Option<[u8; 32]>,
    pub i_has_revealed: bool,
    pub o_has_revealed: bool,
    pub reveal_1: Option<[u8; 32]>,
    pub reveal_2: Option<[u8; 32]>,
    /// During the placement phase, whether the player locked in early.
    pub i_locked_in: bool,
    pub o_locked_in: bool,
    /// Whether placing new pieces is disabled.
    pub placing_disabled: bool,
    /// Timestamp at which placing new pieces is disabled.
    pub piece_timer: Option<i64>,
    /// Timestamp at which the initializer counts as inactive.
    pub i_inactivity_timer: Option<i64>,
    /// Timestamp at which the opponent counts as inactive.
    pub o_inactivity_timer: Option<i64>,
    pub entities: Entities,
    pub tick: u32,
    pub random_calls: u16,
}

/// The SHA-256 digest of a byte sequence, as a pure function. The trusted
/// wrapper below ties it to the executable hash.
pub uninterp spec fn sha256_of(data: Seq<u8>) -> Seq<u8>;

/// Relies on sha2::Sha256 through the `Digest` trait: the SHA-256 digest is
/// a 32-byte value determined by the input bytes alone.
#[verifier::external_body]
fn sha256_bytes(data: &Vec<u8>) -> (r: [u8; 32])
    ensures
        r@ == sha256_of(data@),
{
    let out = <sha2::Sha256 as sha2::Digest>::digest(data.as_slice());
    out.0
}

/// Rehash a 32-byte randomness seed to refill the random byte stream.
pub fn generate_new_randomness(stored_hash: &[u8; 32]) -> (r: [u8; 32])
    ensures
        r@ == sha256_of(stored_hash@),
{
    let mut v: Vec<u8> = Vec::new();
    let mut i: usize = 0;
    while i < 32
        invariant
            i <= 32,
            v@ =~= stored_hash@.take(i as int),
        decreases 32 - i,
    {
        v.push(stored_hash[i]);
        i = i + 1;
    }
    proof {
        assert(v@ =~= stored_hash@);
    }
    sha256_bytes(&v)
}

/// Check a commitment: the stored hash must equal the hash of the revealed
/// value extended with the secret.
pub fn validate_reveal(stored_hash: &[u8; 32], reveal: &[u8; 32], secret: &[u8; 32]) -> (r: bool)
    ensures
        r <==> stored_hash@ == sha256_of(reveal@ + secret@),
{
    let mut v: Vec<u8> = Vec::new();
    let mut i: usize = 0;
    while i < 32
        invariant
            i <= 32,
            v@ =~= reveal@.take(i as int),
        decreases 32 - i,
    {
        v.push(reveal[i]);
        i = i + 1;
    }
    let mut j: usize = 0;
    while j < 32
        invariant
            j <= 32,
            v@ =~= reveal@ + secret@.take(j as int),
        decreases 32 - j,
    {
        v.push(secret[j]);
        j = j + 1;
    }
    proof {
        assert(v@ =~= reveal@ + secret@);
    }
    let hash = sha256_bytes(&v);
    let mut k: usize = 0;
    while k < 32
        invariant
            k <= 32,
            hash@ == sha256_of(reveal@ + secret@),
            forall|m: int| 0 <= m < k ==> stored_hash@[m] == hash@[m],
        decreases 32 - k,
    {
        if stored_hash[k] != hash[k] {
            proof {
                assert(stored_hash@[k as int] != sha256_of(reveal@ + secret@)[k as int]);
            }
            return false;
        }
        k = k + 1;
    }
    proof {
        assert(stored_hash@ =~= hash@);
    }
    true
}

/// The card drawn for one random byte: the byte is mapped to an index into
/// the three-card deck Wolf, Bear, Bull.
pub open spec fn spec_hand_card(b: u8) -> UnitType {
    if b * 3 / 256 == 0 {
        UnitType::Wolf
    } else if b * 3 / 256 == 1 {
        UnitType::Bear
    } else {
        UnitType::Bull
    }
}

/// The five-card hand drawn from the two revealed seeds: the seeds are
/// combined byte-for-byte by xor, and each of the first five bytes picks a
/// deck card.
pub open spec fn spec_draw_hand(r1: Seq<u8>, r2: Seq<u8>) -> Seq<UnitType> {
    Seq::new(5, |i: int| spec_hand_card((r1[i] ^ r2[i]) as u8))
}

/// Draw the hand determined by the two revealed seeds.
pub fn draw_hand(randomness1: &[u8; 32], randomness2: &[u8; 32]) -> (r: Vec<UnitType>)
    ensures
        r@ == spec_draw_hand(randomness1@, randomness2@),
{
    let mut result: Vec<UnitType> = Vec::new();
    let mut i: usize = 0;
    while i < 5
        invariant
            i <= 5,
            result@.len() == i,
            forall|j: int| 0 <= j < i ==> result@[j] == spec_hand_card(
                (randomness1@[j] ^ randomness2@[j]) as u8,
            ),
        decreases 5 - i,
    {
        let random: u8 = randomness1[i] ^ randomness2[i];
        let index: u16 = random as u16 * 3 / 256;
        let card = if index == 0 {
            UnitType::Wolf
        } else if index == 1 {
            UnitType::Bear
        } else {
            UnitType::Bull
        };
        result.push(card);
        i = i + 1;
    }
    proof {
        assert(result@ =~= spec_draw_hand(randomness1@, randomness2@));
    }
    result
}

/// How many live (non-dead) entities an owner controls.
pub open spec fn spec_alive_count(s: Seq<Entity>, owner: Controller) -> int
    decreases s.len(),
{
    if s.len() == 0 {
        0int
    } else {
        spec_alive_count(s.drop_last(), owner) + if s.last().owner == owner && s.last().state
            != EntityState::Dead {
            1int
        } else {
            0int
        }
    }
}

/// The win classification of a store: a side with no live entities has lost;
/// both sides empty is a tie; otherwise the match is still in progress.
pub open spec fn spec_win_condition(s: Seq<Entity>) -> WinCondition {
    let i_alive = spec_alive_count(s, Controller::Initializer);
    let o_alive = spec_alive_count(s, Controller::Opponent);
    if i_alive == 0 && o_alive == 0 {
        WinCondition::Tie
    } else if i_alive == 0 {
        WinCondition::Opponent
    } else if o_alive == 0 {
        WinCondition::Initializer
    } else {
        WinCondition::InProgress
    }
}

/// Whether a piece may be placed (or, with `n == 0`, moved) at `(x, y)` by
/// `player`: on the board, on the player's own side, within the three-piece
/// cap counting `n` new pieces, and not on top of a piece of the same player
/// (closer than the minimum separation of 25).
pub open spec fn spec_can_place(s: Seq<Entity>, player: Controller, x: int, y: int,
    n: int) -> bool {
    &&& x <= 800 && y <= 800
    &&& (player == Controller::Initializer || player == Controller::Opponent)
    &&& (player == Controller::Initializer ==> y <= 400)
    &&& (player == Controller::Opponent ==> y >= 400)
    &&& spec_count_for(s, player) + n <= 3
    &&& (match spec_find_closest(s, Location { x: x as u16, y: y as u16 }, 65535u16, player) {
        Some(p) => p.1 >= 25,
        None => true,
    })
}

/// Whether `player` already has a hidden piece recorded for this hand slot.
pub open spec fn spec_hand_slot_taken(s: Seq<Entity>, player: Controller, hp: u8) -> bool {
    exists|i: int| 0 <= i < s.len() && (s[i].owner == player && s[i].unit_type
        == (UnitType::Hidden { hand_position: hp }))
}

/// The index of the first hidden piece of `player` in hand slot `hp`
/// (meaningful when `spec_hand_slot_taken`).
pub open spec fn first_slot_index(s: Seq<Entity>, player: Controller, hp: u8) -> int
    decreases s.len(),
{
    if s.len() == 0 {
        0
    } else if s[0].owner == player && s[0].unit_type == (UnitType::Hidden { hand_position: hp }) {
        0
    } else {
        1 + first_slot_index(s.drop_first(), player, hp)
    }
}

/// When the slot is taken, `first_slot_index` is in range, matches, and no
/// earlier entity matches.
pub proof fn lemma_first_slot_index(s: Seq<Entity>, player: Controller, hp: u8)
    requires
        spec_hand_slot_taken(s, player, hp),
    ensures
        0 <= first_slot_index(s, player, hp) < s.len(),
        s[first_slot_index(s, player, hp)].owner == player,
        s[first_slot_index(s, player, hp)].unit_type == (UnitType::Hidden { hand_position: hp }),
        forall|j: int| 0 <= j < first_slot_index(s, player, hp) ==> !(s[j].owner == player
            && s[j].unit_type == (UnitType::Hidden { hand_position: hp })),
    decreases s.len(),
{
    if s.len() > 0 && !(s[0].owner == player && s[0].unit_type == (UnitType::Hidden {
        hand_position: hp,
    })) {
        let rest = s.drop_first();
        assert(spec_hand_slot_taken(rest, player, hp)) by {
            let w = choose|i: int| 0 <= i < s.len() && (s[i].owner == player && s[i].unit_type
                == (UnitType::Hidden { hand_position: hp }));
            assert(rest[w - 1] == s[w]);
        }
        lemma_first_slot_index(rest, player, hp);
        let k = first_slot_index(rest, player, hp);
        assert(forall|j: int| 1 <= j < 1 + k ==> s[j] == rest[j - 1]);
    }
}

/// The card a drawn unit type stands for: the basic catalog stats at the
/// common tier, with no special trait.
pub open spec fn spec_card_of_type(t: UnitType) -> Card {
    Card {
        unit_type: t,
        stats: spec_unit_stats(t).unwrap(),
        rarity: Rarity::Common,
        special_trait: None,
    }
}

/// The cards a drawn hand stands for.
pub open spec fn spec_hand_cards(types: Seq<UnitType>) -> Seq<Card> {
    Seq::new(types.len(), |i: int| spec_card_of_type(types[i]))
}

/// Compare two 32-byte values.
fn bytes32_equal(a: &[u8; 32], b: &[u8; 32]) -> (r: bool)
    ensures
        r <==> a@ == b@,
{
    let mut i: usize = 0;
    while i < 32
        invariant
            i <= 32,
            forall|j: int| 0 <= j < i ==> a@[j] == b@[j],
        decreases 32 - i,
    {
        if a[i] != b[i] {
            return false;
        }
        i = i + 1;
    }
    proof {
        assert(a@ =~= b@);
    }
    true
}

impl Game {
    /// A fresh client-side game in its initial state.
    pub fn new_client() -> (game: Game)
        ensures
            game.state == 0,
            game.wager == 0,
            game.win_condition == WinCondition::InProgress,
            game.i_commitment_1 is None && game.i_commitment_2 is None,
            game.o_commitment_1 is None && game.o_commitment_2 is None,
            !game.i_has_revealed && !game.o_has_revealed,
            game.reveal_1 is None && game.reveal_2 is None,
            !game.i_locked_in && !game.o_locked_in,
            !game.placing_disabled,
            forall|i: int| 0 <= i < 32 ==> game.initializer@[i] == 0 && game.opponent@[i] == 0
                && game.i_burner@[i] == 0 && game.o_burner@[i] == 0,
            game.piece_timer is None,
            game.i_inactivity_timer is None && game.o_inactivity_timer is None,
            game.entities.all@ =~= Seq::<Entity>::empty(),
            game.entities.counter == 0,
            game.tick == 0,
            game.random_calls == 0,
            entities_wf(game.entities),
    {
        Game {
            state: 0,
            wager: 0,
            win_condition: WinCondition::InProgress,
            initializer: [0u8; 32],
            opponent: [0u8; 32],
            i_burner: [0u8; 32],
            o_burner: [0u8; 32],
            i_commitment_1: None,
            i_commitment_2: None,
            o_commitment_1: None,
            o_commitment_2: None,
            i_has_revealed: false,
            o_has_revealed: false,
            reveal_1: None,
            reveal_2: None,
            i_locked_in: false,
            o_locked_in: false,
            placing_disabled: false,
            piece_timer: None,
            i_inactivity_timer: None,
            o_inactivity_timer: None,
            entities: Entities { all: Vec::new(), counter: 0 },
            tick: 0,
            random_calls: 0,
        }
    }

    /// Reset the fields that every new game starts from.
    pub fn initialize_default(&mut self)
        ensures
            *final(self) == (Game {
                i_has_revealed: false,
                o_has_revealed: false,
                i_locked_in: false,
                o_locked_in: false,
                placing_disabled: false,
                state: 0,
                tick: 0,
                random_calls: 0,
                entities: final(self).entities,
                win_condition: WinCondition::InProgress,
                ..*old(self)
            }),
            final(self).entities.all@ =~= Seq::<Entity>::empty(),
            final(self).entities.counter == 0,
            entities_wf(final(self).entities),
    {
        self.i_has_revealed = false;
        self.o_has_revealed = false;
        self.i_locked_in = false;
        self.o_locked_in = false;
        self.placing_disabled = false;
        self.state = 0;
        self.tick = 0;
        self.random_calls = 0;
        self.entities = Entities { all: Vec::new(), counter: 0 };
        self.win_condition = WinCondition::InProgress;
    }

    /// Re-derive the cached win condition from the entity store; the store
    /// itself is untouched, so back-to-back evaluations agree.
    pub fn update_win_condition(&mut self)
        ensures
            *final(self) == (Game { win_condition: final(self).win_condition, ..*old(self) }),
            final(self).win_condition == spec_win_condition(old(self).entities.all@),
            *final(self) == spec_evaluate(*old(self)),
    {
        let mut i_alive: usize = 0;
        let mut o_alive: usize = 0;
        let mut i: usize = 0;
        while i < self.entities.all.len()
            invariant
                i <= self.entities.all@.len(),
                i_alive == spec_alive_count(
                    self.entities.all@.take(i as int),
                    Controller::Initializer,
                ),
                o_alive == spec_alive_count(self.entities.all@.take(i as int), Controller::Opponent),
                i_alive <= i && o_alive <= i,
            decreases self.entities.all.len() - i,
        {
            proof {
                assert(self.entities.all@.take(i + 1 as int).drop_last() =~= self.entities.all@.take(
                    i as int,
                ));
                assert(self.entities.all@.take(i + 1 as int).last() == self.entities.all@[i as int]);
            }
            let entity = self.entities.all[i];
            if entity.state != EntityState::Dead {
                match entity.owner {
                    Controller::Initializer => {
                        i_alive = i_alive + 1;
                    },
                    Controller::Opponent => {
                        o_alive = o_alive + 1;
                    },
                    _ => {},
                }
            }
            i = i + 1;
        }
        proof {
            assert(self.entities.all@.take(self.entities.all@.len() as int) =~= self.entities.all@);
        }
        if i_alive == 0 && o_alive == 0 {
            self.win_condition = WinCondition::Tie;
        } else if i_alive == 0 {
            self.win_condition = WinCondition::Opponent;
        } else if o_alive == 0 {
            self.win_condition = WinCondition::Initializer;
        } else {
            self.win_condition = WinCondition::InProgress;
        }
    }

    /// Which player a burner wallet belongs to; any unknown wallet is
    /// treated as the opponent.
    pub fn get_player_type(&self, burner_wallet: [u8; 32]) -> (r: Controller)
        ensures
            r == (if self.i_burner@ == burner_wallet@ {
                Controller::Initializer
            } else {
                Controller::Opponent
            }),
    {
        if bytes32_equal(&self.i_burner, &burner_wallet) {
            Controller::Initializer
        } else {
            Controller::Opponent
        }
    }

    /// Record that a player locked in their placement early. Only the two
    /// players can lock in.
    pub fn lock_in_player(&mut self, player_type: Controller) -> (r: Result<(), ErrorCode>)
        ensures
            player_type == Controller::Initializer ==> r is Ok && *final(self) == (Game {
                i_locked_in: true,
                ..*old(self)
            }),
            player_type == Controller::Opponent ==> r is Ok && *final(self) == (Game {
                o_locked_in: true,
                ..*old(self)
            }),
            player_type != Controller::Initializer && player_type != Controller::Opponent ==> r
                == Result::<(), ErrorCode>::Err(ErrorCode::InvalidArgument) && *final(self) == *old(self),
    {
        match player_type {
            Controller::Initializer => {
                self.i_locked_in = true;
                Ok(())
            },
            Controller::Opponent => {
                self.o_locked_in = true;
                Ok(())
            },
            _ => Err(ErrorCode::InvalidArgument),
        }
    }

    /// Whether both players have locked in.
    pub fn both_players_locked(&self) -> (r: bool)
        ensures
            r == (self.i_locked_in && self.o_locked_in),
    {
        self.i_locked_in && self.o_locked_in
    }

    /// The placement rules of `spec_can_place`, executably.
    fn can_place(&self, player: Controller, x: u16, y: u16, n: u16) -> (r: bool)
        requires
            self.entities.all@.len() <= u16::MAX,
        ensures
            r == spec_can_place(self.entities.all@, player, x as int, y as int, n as int),
    {
        if x > 800 || y > 800 {
            return false;
        }
        match player {
            Controller::Initializer => {
                if y > 400 {
                    return false;
                }
            },
            Controller::Opponent => {
                if y < 400 {
                    return false;
                }
            },
            _ => {
                return false;
            },
        }
        if self.entities.count_for_controller(player) as u32 + n as u32 > 3 {
            return false;
        }
        match self.entities.find_closest_entity(&Location { x, y }, player) {
            Some(result) => {
                if result.distance < 25 {
                    return false;
                }
            },
            None => {},
        }
        true
    }

    /// Place a piece from a card in a grid cell, where `(0, 0)` is the
    /// bottom left cell from the initializer's point of view. Returns the new
    /// entity's id, or `None` when the placement rules reject the cell.
    pub fn place_piece(&mut self, player: Controller, grid_x: u16, grid_y: u16, card: Card) -> (r:
        Option<u16>)
        requires
            entities_wf(old(self).entities),
            old(self).entities.counter < u16::MAX,
            card.stats.attack_duration >= 1,
        ensures
            *final(self) == (Game { entities: final(self).entities, ..*old(self) }),
            entities_wf(final(self).entities),
            spec_can_place(
                old(self).entities.all@,
                player,
                grid_x * 100 + 50,
                grid_y * 100 + 50,
                1,
            ) ==> {
                &&& r == Some(old(self).entities.counter)
                &&& final(self).entities.all@ == old(self).entities.all@.push(
                    spec_new_entity(
                        old(self).entities.counter,
                        player,
                        (grid_x * 100 + 50) as u16,
                        (grid_y * 100 + 50) as u16,
                        card,
                    ),
                )
                &&& final(self).entities.counter == old(self).entities.counter + 1
            },
            !spec_can_place(
                old(self).entities.all@,
                player,
                grid_x * 100 + 50,
                grid_y * 100 + 50,
                1,
            ) ==> r is None && final(self).entities == old(self).entities,
    {
        let x32: u32 = grid_x as u32 * 100 + 50;
        let y32: u32 = grid_y as u32 * 100 + 50;
        if x32 > 800 || y32 > 800 {
            return None;
        }
        let x = x32 as u16;
        let y = y32 as u16;
        if self.can_place(player, x, y, 1) {
            let id = self.entities.create(player, x, y, card);
            Some(id)
        } else {
            None
        }
    }

    /// Place a piece under a caller-chosen id at raw board coordinates,
    /// without the placement rules; used when mirroring a store whose ids
    /// were assigned elsewhere. Ids must arrive in ascending order.
    pub fn place_piece_with_id(&mut self, id: u16, player: Controller, board_x: u16, board_y: u16,
        card: Card) -> (r: Option<u16>)
        requires
            entities_wf(old(self).entities),
            id >= old(self).entities.counter,
            id < u16::MAX,
            player != Controller::Graveyard,
            card.stats.attack_duration >= 1,
        ensures
            *final(self) == (Game { entities: final(self).entities, ..*old(self) }),
            entities_wf(final(self).entities),
            r == Some(id),
            final(self).entities.all@ == old(self).entities.all@.push(
                spec_new_entity(id, player, board_x, board_y, card),
            ),
            final(self).entities.counter == id + 1,
    {
        let id = self.entities.create_with_id(id, player, board_x, board_y, card);
        Some(id)
    }

    /// Place a hidden piece in a grid cell, revealing only its slot in the
    /// owner's hand. Rejected when the placement rules reject the cell, the
    /// controller is not a player, the hand slot is out of bounds, or the
    /// hand slot is already placed.
    pub fn place_piece_hidden(&mut self, player: Controller, grid_x: u16, grid_y: u16,
        hand_position: u8) -> (r: Option<u16>)
        requires
            entities_wf(old(self).entities),
            old(self).entities.counter < u16::MAX,
        ensures
            *final(self) == (Game { entities: final(self).entities, ..*old(self) }),
            entities_wf(final(self).entities),
            ({
                let ok = {
                    &&& spec_can_place(
                        old(self).entities.all@,
                        player,
                        grid_x * 100 + 50,
                        grid_y * 100 + 50,
                        1,
                    )
                    &&& hand_position < 5
                    &&& !spec_hand_slot_taken(old(self).entities.all@, player, hand_position)
                };
                &&& (ok ==> {
                    &&& r == Some(old(self).entities.counter)
                    &&& final(self).entities.all@ == old(self).entities.all@.push(
                        spec_new_hidden_entity(
                            old(self).entities.counter,
                            player,
                            (grid_x * 100 + 50) as u16,
                            (grid_y * 100 + 50) as u16,
                            hand_position,
                        ),
                    )
                    &&& final(self).entities.counter == old(self).entities.counter + 1
                })
                &&& (!ok ==> r is None && final(self).entities == old(self).entities)
            }),
    {
        let x32: u32 = grid_x as u32 * 100 + 50;
        let y32: u32 = grid_y as u32 * 100 + 50;
        if x32 > 800 || y32 > 800 {
            return None;
        }
        let x = x32 as u16;
        let y = y32 as u16;
        if self.can_place(player, x, y, 1) {
            // only a player can place a hidden piece
            match player {
                Controller::Initializer => {},
                Controller::Opponent => {},
                _ => {
                    return None;
                },
            }
            // the hand slot must be in bounds
            if hand_position >= 5 {
                return None;
            }
            // the hand slot must not be placed already
            let mut i: usize = 0;
            while i < self.entities.all.len()
                invariant
                    *self == *old(self),
                    entities_wf(self.entities),
                    i <= self.entities.all@.len(),
                    forall|j: int| 0 <= j < i ==> !(self.entities.all@[j].owner == player
                        && self.entities.all@[j].unit_type == (UnitType::Hidden {
                        hand_position,
                    })),
                decreases self.entities.all@.len() - i,
            {
                let entity = self.entities.all[i];
                if entity.owner == player {
                    match entity.unit_type {
                        UnitType::Hidden { hand_position: hand_position_compare } => {
                            if hand_position_compare == hand_position {
                                return None;
                            }
                        },
                        _ => {},
                    }
                }
                i = i + 1;
            }
            // place the piece
            let id = self.entities.create_hidden(player, x, y, hand_position);
            Some(id)
        } else {
            None
        }
    }

    /// Move an already placed hidden piece to another grid cell. Rejected
    /// when the placement rules reject the cell, the controller is not a
    /// player, the hand slot is out of bounds, or no piece sits in the slot.
    pub fn move_piece_hidden(&mut self, player: Controller, grid_x: u16, grid_y: u16,
        hand_position: u8) -> (r: Option<u16>)
        requires
            entities_wf(old(self).entities),
        ensures
            *final(self) == (Game { entities: final(self).entities, ..*old(self) }),
            entities_wf(final(self).entities),
            final(self).entities.counter == old(self).entities.counter,
            ({
                let s = old(self).entities.all@;
                let ok = {
                    &&& spec_can_place(s, player, grid_x * 100 + 50, grid_y * 100 + 50, 0)
                    &&& hand_position < 5
                };
                let idx = first_slot_index(s, player, hand_position);
                &&& (ok && spec_hand_slot_taken(s, player, hand_position) ==> {
                    &&& r == Some(s[idx].id)
                    &&& final(self).entities.all@ == s.update(
                        idx,
                        Entity {
                            position: Location {
                                x: (grid_x * 100 + 50) as u16,
                                y: (grid_y * 100 + 50) as u16,
                            },
                            ..s[idx]
                        },
                    )
                })
                &&& (!(ok && spec_hand_slot_taken(s, player, hand_position)) ==> r is None && final(self).entities == old(self).entities)
            }),
    {
        let x32: u32 = grid_x as u32 * 100 + 50;
        let y32: u32 = grid_y as u32 * 100 + 50;
        if x32 > 800 || y32 > 800 {
            return None;
        }
        let x = x32 as u16;
        let y = y32 as u16;
        if self.can_place(player, x, y, 0) {
            match player {
                Controller::Initializer => {},
                Controller::Opponent => {},
                _ => {
                    return None;
                },
            }
            if hand_position >= 5 {
                return None;
            }
            // move the piece in the matching slot, if there is one
            let mut i: usize = 0;
            while i < self.entities.all.len()
                invariant
                    *self == *old(self),
                    entities_wf(self.entities),
                    i <= self.entities.all@.len(),
                    spec_can_place(
                        old(self).entities.all@,
                        player,
                        grid_x * 100 + 50,
                        grid_y * 100 + 50,
                        0,
                    ),
                    hand_position < 5,
                    x == (grid_x * 100 + 50) as u16,
                    y == (grid_y * 100 + 50) as u16,
                    forall|j: int| 0 <= j < i ==> !(self.entities.all@[j].owner == player
                        && self.entities.all@[j].unit_type == (UnitType::Hidden {
                        hand_position,
                    })),
                decreases self.entities.all@.len() - i,
            {
                let entity = self.entities.all[i];
                if entity.owner == player {
                    match entity.unit_type {
                        UnitType::Hidden { hand_position: hand_position_compare } => {
                            if hand_position_compare == hand_position {
                                proof {
                                    lemma_first_slot_index(self.entities.all@, player,
                                        hand_position);
                                }
                                self.entities.all.set(
                                    i,
                                    Entity { position: Location { x, y }, ..entity },
                                );
                                proof {
                                    let old_s = old(self).entities.all@;
                                    let new_s = self.entities.all@;
                                    assert forall|a: int, b: int| 0 <= a < b < new_s.len() implies
                                        new_s[a].id != new_s[b].id by {
                                        assert(new_s[a].id == old_s[a].id && new_s[b].id
                                            == old_s[b].id);
                                    }
                                    assert forall|a: int| 0 <= a < new_s.len() implies entity_wf(
                                        #[trigger] new_s[a],
                                    ) && new_s[a].id < self.entities.counter by {
                                        assert(entity_wf(old_s[a]));
                                    }
                                }
                                return Some(entity.id);
                            }
                        },
                        _ => {},
                    }
                }
                i = i + 1;
            }
            None
        } else {
            None
        }
    }

    /// Remove an already placed hidden piece. Rejected when the controller
    /// is not a player, the hand slot is out of bounds, or no piece sits in
    /// the slot.
    pub fn remove_piece_hidden(&mut self, player: Controller, hand_position: u8) -> (r: Option<
        u16,
    >)
        requires
            entities_wf(old(self).entities),
        ensures
            *final(self) == (Game { entities: final(self).entities, ..*old(self) }),
            entities_wf(final(self).entities),
            final(self).entities.counter == old(self).entities.counter,
            ({
                let s = old(self).entities.all@;
                let ok = {
                    &&& (player == Controller::Initializer || player == Controller::Opponent)
                    &&& hand_position < 5
                };
                let idx = first_slot_index(s, player, hand_position);
                &&& (ok && spec_hand_slot_taken(s, player, hand_position) ==> r == Some(s[idx].id)
                    && final(self).entities.all@ == s.remove(idx))
                &&& (!(ok && spec_hand_slot_taken(s, player, hand_position)) ==> r is None && final(self).entities == old(self).entities)
            }),
    {
        match player {
            Controller::Initializer => {},
            Controller::Opponent => {},
            _ => {
                return None;
            },
        }
        if hand_position >= 5 {
            return None;
        }
        // remove the piece in the matching slot, if there is one
        let mut i: usize = 0;
        while i < self.entities.all.len()
            invariant
                *self == *old(self),
                entities_wf(self.entities),
                i <= self.entities.all@.len(),
                player == Controller::Initializer || player == Controller::Opponent,
                hand_position < 5,
                forall|j: int| 0 <= j < i ==> !(self.entities.all@[j].owner == player
                    && self.entities.all@[j].unit_type == (UnitType::Hidden { hand_position })),
            decreases self.entities.all@.len() - i,
        {
            let entity = self.entities.all[i];
            if entity.owner == player {
                match entity.unit_type {
                    UnitType::Hidden { hand_position: hand_position_compare } => {
                        if hand_position_compare == hand_position {
                            proof {
                                let s = self.entities.all@;
                                lemma_first_slot_index(s, player, hand_position);
                                assert(first_slot_index(s, player, hand_position) == i);
                                lemma_first_index_of_id(s, entity.id);
                                let f = first_index_of_id(s, entity.id);
                                if f < i {
                                    assert(s[f].id == s[i as int].id);
                                }
                                assert(f == i);
                            }
                            self.entities.remove_by_id(entity.id);
                            return Some(entity.id);
                        }
                    },
                    _ => {},
                }
            }
            i = i + 1;
        }
        None
    }

    /// Using the second reveal, derive the player's hand and fill in the
    /// identity of every hidden piece the player placed. Calling this before
    /// the first reveal is stored, for a controller that is not a player, or
    /// while the player owns a non-hidden or out-of-slot piece, is a caller
    /// error.
    pub fn reveal_hidden_pieces(&mut self, player: Controller, reveal_2: &[u8; 32])
        requires
            old(self).reveal_1 is Some,
            player == Controller::Initializer || player == Controller::Opponent,
            forall|i: int| 0 <= i < old(self).entities.all@.len() && (#[trigger] old(
                self,
            ).entities.all@[i]).owner == player ==> (old(self).entities.all@[i].unit_type
                matches UnitType::Hidden { hand_position } && hand_position < 5),
        ensures
            *final(self) == (Game { entities: final(self).entities, ..*old(self) }),
            final(self).entities.counter == old(self).entities.counter,
            final(self).entities.all@.len() == old(self).entities.all@.len(),
            forall|i: int| 0 <= i < old(self).entities.all@.len() ==> final(self).entities.all@[i]
                == spec_reveal_entity(
                #[trigger] old(self).entities.all@[i],
                player,
                spec_hand_cards(spec_draw_hand(old(self).reveal_1.unwrap()@, reveal_2@)),
            ),
            entities_wf(old(self).entities) ==> entities_wf(final(self).entities),
    {
        let reveal_1 = self.reveal_1.unwrap();
        let hand_types = draw_hand(&reveal_1, reveal_2);
        let ghost cards_spec = spec_hand_cards(
            spec_draw_hand(old(self).reveal_1.unwrap()@, reveal_2@),
        );
        let mut cards: Vec<Card> = Vec::new();
        let mut i: usize = 0;
        while i < hand_types.len()
            invariant
                i <= hand_types@.len(),
                hand_types@.len() == 5,
                hand_types@ == spec_draw_hand(old(self).reveal_1.unwrap()@, reveal_2@),
                cards_spec == spec_hand_cards(hand_types@),
                cards@ =~= cards_spec.take(i as int),
                forall|k: int| 0 <= k < i ==> (#[trigger] cards@[k]).stats.attack_duration >= 1,
            decreases hand_types@.len() - i,
        {
            let t = hand_types[i];
            proof {
                assert(cards_spec.len() == 5);
                assert(cards_spec[i as int] == spec_card_of_type(hand_types@[i as int]));
                assert(hand_types@[i as int] == spec_hand_card(
                    (old(self).reveal_1.unwrap()@[i as int] ^ reveal_2@[i as int]) as u8,
                ));
            }
            match lookup_unit_stats(t) {
                Some(stats) => {
                    cards.push(
                        Card { unit_type: t, stats, rarity: Rarity::Common, special_trait: None },
                    );
                    proof {
                        assert(cards_spec.take(i + 1 as int).drop_last() =~= cards_spec.take(
                            i as int,
                        ));
                    }
                },
                None => {
                    // unreachable: a drawn hand holds only catalog unit types
                    proof {
                        assert(false);
                    }
                },
            }
            i = i + 1;
        }
        proof {
            assert(cards@ =~= cards_spec);
        }
        self.entities.reveal_all_hidden(player, &cards);
    }

    /// Draw one byte from the deterministic random stream: the next byte of
    /// the stored randomness, which is rehashed once all 32 bytes are spent.
    fn get_random_u8(&mut self) -> (r: u8)
        requires
            old(self).reveal_2 is Some,
        ensures
            *final(self) == (Game {
                reveal_2: final(self).reveal_2,
                random_calls: final(self).random_calls,
                ..*old(self)
            }),
            final(self).reveal_2 matches Some(arr) && arr@ == spec_rng_seq(
                old(self).reveal_2.unwrap()@,
                old(self).random_calls,
            ),
            final(self).random_calls == spec_rng_calls(old(self).random_calls),
            r == spec_rng_byte(old(self).reveal_2.unwrap()@, old(self).random_calls),
    {
        if self.random_calls >= 32 {
            let current = self.reveal_2.unwrap();
            self.reveal_2 = Some(generate_new_randomness(&current));
            self.random_calls = 0;
        }
        let randomness = self.reveal_2.unwrap();
        let index = self.random_calls as usize;
        let byte = randomness[index];
        self.random_calls = self.random_calls + 1;
        byte
    }

    /// Run one game step: every player-owned entity decides against the
    /// snapshot at tick start (idle, chase, or attack, completed attacks
    /// rolling the crit die), and all queued actions are then applied in
    /// enqueue order, so that no decision observes a mutation of the same
    /// tick.
    pub fn step(&mut self)
        requires
            old(self).reveal_2 is Some,
            old(self).tick < u32::MAX,
            entities_seq_wf(old(self).entities.all@),
            targets_ok(old(self).entities.all@),
        ensures
            ({
                let t = spec_step_sim(sim_of(*old(self)));
                &&& final(self).entities.all@ == t.0
                &&& final(self).reveal_2 matches Some(arr) && arr@ == t.1
                &&& final(self).random_calls == t.2
            }),
            final(self).tick == old(self).tick + 1,
            final(self).entities.counter == old(self).entities.counter,
            *final(self) == (Game {
                entities: final(self).entities,
                reveal_2: final(self).reveal_2,
                random_calls: final(self).random_calls,
                tick: final(self).tick,
                ..*old(self)
            }),
            entities_seq_wf(final(self).entities.all@),
            targets_ok(final(self).entities.all@),
    {
        let ghost all0 = old(self).entities.all@;
        let ghost rng0 = old(self).reveal_2.unwrap()@;
        let ghost calls0 = old(self).random_calls;

        // decision pass over a consistent snapshot: entities are not touched
        let mut actions = Actions::new();
        let mut i: usize = 0;
        while i < self.entities.all.len()
            invariant
                i <= all0.len(),
                self.entities == old(self).entities,
                self.entities.all@ == all0,
                *self == (Game {
                    reveal_2: self.reveal_2,
                    random_calls: self.random_calls,
                    ..*old(self)
                }),
                self.reveal_2 is Some,
                entities_seq_wf(all0),
                targets_ok(all0),
                ({
                    let d = spec_decision_pass(all0, i as int, rng0, calls0);
                    &&& actions.all@ == d.0
                    &&& self.reveal_2.unwrap()@ == d.1
                    &&& self.random_calls == d.2
                }),
            decreases all0.len() - i,
        {
            let entity = self.entities.all[i];
            proof {
                assert(entity == all0[i as int]);
                assert(entity_wf(all0[i as int]));
                assert((all0[i as int]).target matches Some(t) ==> has_id(all0, t));
            }
            if entity.owner == Controller::Initializer || entity.owner == Controller::Opponent {
                match entity.state {
                    EntityState::Idle => {
                        if entity.stats.is_some() {
                            entity.walk_or_aa(&mut actions, &self.entities);
                        }
                    },
                    EntityState::Moving { to: _ } => {
                        if entity.stats.is_some() {
                            entity.walk_or_aa(&mut actions, &self.entities);
                        }
                    },
                    EntityState::Attack { progress, attack_on, target_id } => {
                        let new_progress = progress + 1;
                        if new_progress == attack_on {
                            let stats = entity.stats.unwrap();
                            let mut attack_damage = stats.attack_damage;
                            // the crit check draws one byte from the stream
                            let random = self.get_random_u8();
                            if random < stats.crit_chance {
                                attack_damage = if attack_damage > 32767 {
                                    65535
                                } else {
                                    attack_damage * 2
                                };
                            }
                            actions.add(target_id, Action::Damage { amount: attack_damage });
                            actions.add(
                                entity.id,
                                Action::EntityStateChange { state: EntityState::Idle },
                            );
                        } else {
                            actions.add(
                                entity.id,
                                Action::EntityStateChange {
                                    state: EntityState::Attack {
                                        progress: new_progress,
                                        attack_on,
                                        target_id,
                                    },
                                },
                            );
                        }
                    },
                    _ => {},
                }
            }
            i = i + 1;
        }
        let ghost dfinal = spec_decision_pass(all0, all0.len() as int, rng0, calls0);
        let ghost log = dfinal.0;

        // apply pass: every entity takes its queued actions in enqueue order
        let mut j: usize = 0;
        while j < self.entities.all.len()
            invariant
                j <= all0.len(),
                self.entities.all@.len() == all0.len(),
                self.entities.counter == old(self).entities.counter,
                actions.all@ == log,
                log == dfinal.0,
                dfinal == spec_decision_pass(all0, all0.len() as int, rng0, calls0),
                *self == (Game {
                    entities: self.entities,
                    reveal_2: self.reveal_2,
                    random_calls: self.random_calls,
                    ..*old(self)
                }),
                self.reveal_2 is Some,
                self.reveal_2.unwrap()@ == dfinal.1,
                self.random_calls == dfinal.2,
                forall|k: int| j <= k < all0.len() ==> self.entities.all@[k] == all0[k],
                forall|k: int| 0 <= k < j ==> self.entities.all@[k] == spec_apply_actions(
                    all0[k],
                    actions_for(log, all0[k].id),
                ),
            decreases all0.len() - j,
        {
            let entity = self.entities.all[j];
            proof {
                assert(entity == all0[j as int]);
            }
            match actions.get_actions_by_id(&entity.id) {
                Some(list) => {
                    let mut updated = entity;
                    let mut k: usize = 0;
                    while k < list.len()
                        invariant
                            k <= list@.len(),
                            list@ == actions_for(log, entity.id),
                            updated == spec_apply_actions(entity, list@.take(k as int)),
                        decreases list@.len() - k,
                    {
                        let action = list[k];
                        proof {
                            assert(list@.take(k + 1 as int).drop_last() =~= list@.take(k as int));
                            assert(list@.take(k + 1 as int).last() == list@[k as int]);
                        }
                        match action {
                            Action::Damage { amount } => {
                                match updated.health.checked_sub(amount) {
                                    Some(new_health) => {
                                        if new_health == 0 {
                                            updated.health = 0;
                                            updated.state = EntityState::Dead;
                                            updated.owner = Controller::Graveyard;
                                        } else {
                                            updated.health = new_health;
                                        }
                                    },
                                    None => {
                                        updated.health = 0;
                                        updated.state = EntityState::Dead;
                                        updated.owner = Controller::Graveyard;
                                    },
                                }
                            },
                            Action::EntityStateChange { state } => {
                                if updated.state != EntityState::Dead {
                                    updated.state = state;
                                }
                            },
                            Action::Move { to } => {
                                updated.position = to;
                            },
                            Action::Target { target_id } => {
                                if updated.state != EntityState::Dead {
                                    updated.target = target_id;
                                }
                            },
                        }
                        k = k + 1;
                    }
                    proof {
                        assert(list@.take(list@.len() as int) =~= list@);
                    }
                    self.entities.all.set(j, updated);
                },
                None => {
                    proof {
                        assert(actions_for(log, entity.id) =~= Seq::<Action>::empty());
                        assert(spec_apply_actions(all0[j as int], actions_for(log, all0[j as int].id))
                            == all0[j as int]);
                    }
                },
            }
            j = j + 1;
        }
        self.tick = self.tick + 1;
        proof {
            assert(self.entities.all@ =~= spec_apply_pass(all0, log));
            crate::state::laws::lemma_step_sim_preserves((all0, rng0, calls0));
        }
    }

    /// Advance the match by the given number of ticks, then refresh the
    /// cached win condition.
    pub fn crank_game(&mut self, steps: u32)
        requires
            old(self).reveal_2 is Some,
            entities_seq_wf(old(self).entities.all@),
            targets_ok(old(self).entities.all@),
            old(self).tick + steps <= u32::MAX,
        ensures
            ({
                let t = spec_crank_sim(sim_of(*old(self)), steps as int);
                &&& final(self).entities.all@ == t.0
                &&& final(self).reveal_2 matches Some(arr) && arr@ == t.1
                &&& final(self).random_calls == t.2
            }),
            final(self).tick == old(self).tick + steps,
            final(self).entities.counter == old(self).entities.counter,
            final(self).win_condition == spec_win_condition(final(self).entities.all@),
            entities_seq_wf(final(self).entities.all@),
            targets_ok(final(self).entities.all@),
            *final(self) == (Game {
                entities: final(self).entities,
                reveal_2: final(self).reveal_2,
                random_calls: final(self).random_calls,
                tick: final(self).tick,
                win_condition: final(self).win_condition,
                ..*old(self)
            }),
    {
        let ghost t0 = sim_of(*old(self));
        let mut k: u32 = 0;
        while k < steps
            invariant
                k <= steps,
                old(self).tick + steps <= u32::MAX,
                self.reveal_2 is Some,
                entities_seq_wf(self.entities.all@),
                targets_ok(self.entities.all@),
                self.tick == old(self).tick + k,
                self.entities.counter == old(self).entities.counter,
                t0 == sim_of(*old(self)),
                ({
                    let t = spec_crank_sim(t0, k as int);
                    &&& self.entities.all@ == t.0
                    &&& self.reveal_2 matches Some(arr) && arr@ == t.1
                    &&& self.random_calls == t.2
                }),
                *self == (Game {
                    entities: self.entities,
                    reveal_2: self.reveal_2,
                    random_calls: self.random_calls,
                    tick: self.tick,
                    ..*old(self)
                }),
            decreases steps - k,
        {
            proof {
                assert(sim_of(*self) == spec_crank_sim(t0, k as int));
            }
            self.step();
            k = k + 1;
        }
        self.update_win_condition();
    }
}

/// The byte one draw returns, given the stored randomness and how many bytes
/// were already drawn: byte `calls` of the stream, or byte 0 of the rehashed
/// stream once all 32 are spent.
pub open spec fn spec_rng_byte(randomness: Seq<u8>, calls: u16) -> u8 {
    if calls >= 32 {
        sha256_of(randomness)[0]
    } else {
        randomness[calls as int]
    }
}

/// The stored randomness after one draw.
pub open spec fn spec_rng_seq(randomness: Seq<u8>, calls: u16) -> Seq<u8> {
    if calls >= 32 {
        sha256_of(randomness)
    } else {
        randomness
    }
}

/// The draw counter after one draw.
pub open spec fn spec_rng_calls(calls: u16) -> u16 {
    if calls >= 32 {
        1u16
    } else {
        (calls + 1) as u16
    }
}

/// The damage dealt when an attack completes: the base attack damage,
/// doubled (saturating) when the random byte draws a crit.
pub open spec fn spec_attack_damage(stats: UnitStats, b: u8) -> u16 {
    if b < stats.crit_chance {
        if stats.attack_damage * 2 > 65535 {
            65535u16
        } else {
            (stats.attack_damage * 2) as u16
        }
    } else {
        stats.attack_damage
    }
}

/// The decision of an idle or moving entity, skipped while it has no stats
/// (a hidden piece takes no part in combat).
pub open spec fn spec_decide_walk(e: Entity, all: Seq<Entity>, acts: Seq<(u16, Action)>,
    rng: Seq<u8>, calls: u16) -> (Seq<(u16, Action)>, Seq<u8>, u16) {
    if e.stats is Some {
        (acts + spec_walk_actions(e, all), rng, calls)
    } else {
        (acts, rng, calls)
    }
}

/// What one entity contributes to the decision pass: the extended action
/// log, and the random stream state after its decision (an attack that
/// completes draws one byte for the crit check).
pub open spec fn spec_decide_entity(e: Entity, all: Seq<Entity>, acts: Seq<(u16, Action)>,
    rng: Seq<u8>, calls: u16) -> (Seq<(u16, Action)>, Seq<u8>, u16) {
    if e.owner == Controller::Initializer || e.owner == Controller::Opponent {
        match e.state {
            EntityState::Idle => spec_decide_walk(e, all, acts, rng, calls),
            EntityState::Moving { .. } => spec_decide_walk(e, all, acts, rng, calls),
            EntityState::Attack { progress, attack_on, target_id } => {
                let new_progress = (progress + 1) as u16;
                if new_progress == attack_on {
                    let dmg = spec_attack_damage(e.stats.unwrap(), spec_rng_byte(rng, calls));
                    (
                        acts.push((target_id, Action::Damage { amount: dmg })).push(
                            (e.id, Action::EntityStateChange { state: EntityState::Idle }),
                        ),
                        spec_rng_seq(rng, calls),
                        spec_rng_calls(calls),
                    )
                } else {
                    (
                        acts.push(
                            (
                                e.id,
                                Action::EntityStateChange {
                                    state: EntityState::Attack {
                                        progress: new_progress,
                                        attack_on,
                                        target_id,
                                    },
                                },
                            ),
                        ),
                        rng,
                        calls,
                    )
                }
            },
            _ => (acts, rng, calls),
        }
    } else {
        (acts, rng, calls)
    }
}

/// The decision pass over the first `n` entities of the snapshot, threading
/// the action log and the random stream through in storage order.
pub open spec fn spec_decision_pass(all: Seq<Entity>, n: int, rng: Seq<u8>, calls: u16) -> (Seq<
    (u16, Action),
>, Seq<u8>, u16)
    decreases n,
{
    if n <= 0 {
        (Seq::empty(), rng, calls)
    } else {
        let prev = spec_decision_pass(all, n - 1, rng, calls);
        spec_decide_entity(all[n - 1], all, prev.0, prev.1, prev.2)
    }
}

/// Applying one queued action to an entity. Damage saturates at zero: a hit
/// that would take health to or below zero kills the entity, which moves it
/// to the graveyard; state changes and target updates never apply to an
/// entity that is already dead.
pub open spec fn spec_apply_action(e: Entity, a: Action) -> Entity {
    match a {
        Action::Damage { amount } => {
            if e.health > amount {
                Entity { health: (e.health - amount) as u16, ..e }
            } else {
                Entity { health: 0, state: EntityState::Dead, owner: Controller::Graveyard, ..e }
            }
        },
        Action::EntityStateChange { state } => {
            if e.state != EntityState::Dead {
                Entity { state, ..e }
            } else {
                e
            }
        },
        Action::Move { to } => Entity { position: to, ..e },
        Action::Target { target_id } => {
            if e.state != EntityState::Dead {
                Entity { target: target_id, ..e }
            } else {
                e
            }
        },
    }
}

/// An entity after its queued actions are applied in enqueue order.
pub open spec fn spec_apply_actions(e: Entity, acts: Seq<Action>) -> Entity
    decreases acts.len(),
{
    if acts.len() == 0 {
        e
    } else {
        spec_apply_action(spec_apply_actions(e, acts.drop_last()), acts.last())
    }
}

/// The apply pass: every entity takes the actions queued under its id.
pub open spec fn spec_apply_pass(all: Seq<Entity>, log: Seq<(u16, Action)>) -> Seq<Entity> {
    Seq::new(all.len(), |i: int| spec_apply_actions(all[i], actions_for(log, all[i].id)))
}

/// One full tick on the simulation triple of entity sequence, stored
/// randomness, and draw counter: decide over a consistent snapshot, then
/// apply every queued action.
pub open spec fn spec_step_sim(t: (Seq<Entity>, Seq<u8>, u16)) -> (Seq<Entity>, Seq<u8>, u16) {
    let d = spec_decision_pass(t.0, t.0.len() as int, t.1, t.2);
    (spec_apply_pass(t.0, d.0), d.1, d.2)
}

/// `n` ticks on the simulation triple.
pub open spec fn spec_crank_sim(t: (Seq<Entity>, Seq<u8>, u16), n: int) -> (Seq<Entity>, Seq<u8>,
    u16)
    decreases n,
{
    if n <= 0 {
        t
    } else {
        spec_step_sim(spec_crank_sim(t, n - 1))
    }
}

/// Every stored target id refers to an entity in the store.
pub open spec fn targets_ok(s: Seq<Entity>) -> bool {
    forall|i: int| 0 <= i < s.len() ==> ((#[trigger] s[i]).target matches Some(t) ==> has_id(s, t))
}

/// The simulation-relevant view of a game: its entities, stored randomness,
/// and draw counter.
pub open spec fn sim_of(g: Game) -> (Seq<Entity>, Seq<u8>, u16) {
    (g.entities.all@, g.reveal_2.unwrap()@, g.random_calls)
}

/// What evaluating the win condition does to a game: only the cached
/// condition is refreshed from the entity store.
pub open spec fn spec_evaluate(g: Game) -> Game {
    Game { win_condition: spec_win_condition(g.entities.all@), ..g }
}

} // verus!
