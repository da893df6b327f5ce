//! The rules of the game that do not depend on the engine: action points, health and attacks,
//! the queue of actions and how an action's outcome moves it on, and the choices of a combat
//! round. Entities are named by their `u64` identifiers.
use crate::hexgrid::coord::{hex, hex_distance, in_i32, neighbour_offset, HexCoord};
use rand::seq::SliceRandom;
use rand::Rng;
use vstd::math::abs;
use std::collections::VecDeque;
use vstd::prelude::*;

verus! {

/// Why a location does not allow an action.
#[derive(Debug, Clone, Copy, PartialEq, Eq, Structural)]
pub enum LocationIssue {
    BadTerrain,
    ExistingCamp,
    NoCamp,
    CampNotEmpty,
    NoPortal,
    PortalNotActive,
}

/// The errors of the game's rules.
#[derive(Debug, Clone, Copy, PartialEq, Eq, Structural)]
pub enum ExplError {
    MoveWithoutMovementPoints,
    InvalidTarget,
    InvalidLocation(LocationIssue),
    InvalidPartySplit,
    OutOfBounds,
    ResourceMissing,
    MissingCodex,
}

/// The actions a group can take per turn: what is left, and what it gets back each turn.
#[derive(Debug, Clone, Copy, PartialEq, Eq, Structural)]
pub struct ActionPoints {
    pub current: u16,
    pub reset: u16,
}

impl ActionPoints {
    /// `value` points, and `value` points each turn.
    pub fn new(value: u16) -> (points: Self)
        ensures
            points == (ActionPoints { current: value, reset: value }),
    {
        ActionPoints { current: value, reset: value }
    }

    /// Back to the points of a turn.
    pub fn reset(&mut self)
        ensures
            *final(self) == (ActionPoints { current: old(self).reset, reset: old(self).reset }),
    {
        self.current = self.reset;
    }

    /// Uses up a point, or fails without one.
    pub fn consume(&mut self) -> (res: Result<(), ExplError>)
        ensures
            old(self).current == 0 ==> res == Err::<(), ExplError>(ExplError::MoveWithoutMovementPoints)
                && *final(self) == *old(self),
            old(self).current > 0 ==> res is Ok && *final(self) == (ActionPoints {
                current: (old(self).current - 1) as u16,
                reset: old(self).reset,
            }),
    {
        if self.current == 0 {
            Err(ExplError::MoveWithoutMovementPoints)
        } else {
            self.current = self.current - 1;
            Ok(())
        }
    }
}

/// The smallest of the values, or 0 if there are none.
pub open spec fn min_or_zero(values: Seq<u16>) -> u16
    decreases values.len(),
{
    if values.len() == 0 {
        0
    } else if values.len() == 1 {
        values[0]
    } else {
        let rest = min_or_zero(values.drop_last());
        if values.last() < rest { values.last() } else { rest }
    }
}

/// The points of a group: the fewest left of any member, and the fewest that any member gets
/// back each turn; none for a group without members.
pub fn group_action_points(members: &Vec<ActionPoints>) -> (points: ActionPoints)
    ensures
        points.current == min_or_zero(members@.map_values(|m: ActionPoints| m.current)),
        points.reset == min_or_zero(members@.map_values(|m: ActionPoints| m.reset)),
{
    let ghost currents = members@.map_values(|m: ActionPoints| m.current);
    let ghost resets = members@.map_values(|m: ActionPoints| m.reset);
    let mut current: u16 = 0;
    let mut reset: u16 = 0;
    let mut i: usize = 0;
    while i < members.len()
        invariant
            currents == members@.map_values(|m: ActionPoints| m.current),
            resets == members@.map_values(|m: ActionPoints| m.reset),
            i <= members@.len(),
            current == min_or_zero(currents.subrange(0, i as int)),
            reset == min_or_zero(resets.subrange(0, i as int)),
        decreases members@.len() - i,
    {
        let m = members[i];
        proof {
            assert(currents.subrange(0, i + 1).drop_last() =~= currents.subrange(0, i as int));
            assert(resets.subrange(0, i + 1).drop_last() =~= resets.subrange(0, i as int));
        }
        if i == 0 || m.current < current {
            current = m.current;
        }
        if i == 0 || m.reset < reset {
            reset = m.reset;
        }
        i = i + 1;
    }
    assert(currents.subrange(0, members@.len() as int) =~= currents);
    assert(resets.subrange(0, members@.len() as int) =~= resets);
    ActionPoints { current, reset }
}

/// The health of a character: what it has, and the most it can have.
#[derive(Debug, Clone, Copy, PartialEq, Eq, Structural)]
pub struct Health(pub u16, pub u16);

impl Health {
    /// Heals by at most `amount`, up to the most the character can have; the amount healed.
    pub fn heal(&mut self, amount: u16) -> (healed: u16)
        requires
            old(self).0 <= old(self).1,
        ensures
            healed == (if old(self).1 - old(self).0 < amount { old(self).1 - old(self).0 } else { amount as int }),
            *final(self) == Health((old(self).0 + healed) as u16, old(self).1),
    {
        let room = self.1 - self.0;
        let healed = if room < amount { room } else { amount };
        self.0 = self.0 + healed;
        healed
    }

    /// Takes a blow of `roll`, but never more than what is left; the damage taken.
    pub fn take_damage(&mut self, roll: u16) -> (damage: u16)
        ensures
            damage == (if roll < old(self).0 { roll } else { old(self).0 }),
            *final(self) == Health((old(self).0 - damage) as u16, old(self).1),
    {
        let damage = if roll < self.0 { roll } else { self.0 };
        self.0 = self.0 - damage;
        damage
    }
}

/// The damage of an attack: from `low` up to, but not including, `high`.
#[derive(Debug, Clone, Copy, PartialEq, Eq, Structural)]
pub struct Attack {
    pub low: u16,
    pub high: u16,
}

impl Attack {
    /// The range of damage rolls.
    pub fn range(&self) -> (range: std::ops::Range<u16>)
        ensures
            range.start == self.low,
            range.end == self.high,
    {
        self.low..self.high
    }
}

/// The kinds of actions.
#[derive(Clone, Copy, Debug, PartialEq, Eq, Structural)]
pub enum GameActionType {
    Move,
    MakeCamp,
    BreakCamp,
    EnterCamp,
    SplitParty,
    MergeParty,
    CreatePartyFromCamp,
    CollectCrystals,
    OpenPortal,
    EnterPortal,
}

/// Where the current action stands.
#[derive(Debug, Clone, Copy, PartialEq, Eq, Structural)]
pub enum GameActionStatus {
    Ready,
    Waiting,
    Resolved,
}

/// An action of an entity on some targets.
#[derive(Clone, Debug)]
pub struct GameAction {
    pub action_type: GameActionType,
    pub source: u64,
    pub targets: Vec<u64>,
}

impl GameAction {
    /// The first target, or an error if there is none.
    pub fn target(&self) -> (target: Result<u64, ExplError>)
        ensures
            self.targets@.len() > 0 ==> target == Ok::<u64, ExplError>(self.targets@[0]),
            self.targets@.len() == 0 ==> target == Err::<u64, ExplError>(ExplError::InvalidTarget),
    {
        if self.targets.len() > 0 {
            Ok(self.targets[0])
        } else {
            Err(ExplError::InvalidTarget)
        }
    }

    /// `source` moves to `dest`.
    pub fn new_move(source: u64, dest: u64) -> (a: Self)
        ensures
            a.action_type == GameActionType::Move,
            a.source == source,
            a.targets@ == seq![dest],
    {
        GameAction { action_type: GameActionType::Move, source, targets: vec![dest] }
    }

    /// `source` makes camp.
    pub fn new_make_camp(source: u64) -> (a: Self)
        ensures
            a.action_type == GameActionType::MakeCamp,
            a.source == source,
            a.targets@.len() == 0,
    {
        GameAction { action_type: GameActionType::MakeCamp, source, targets: Vec::new() }
    }

    /// `source` breaks camp.
    pub fn new_break_camp(source: u64) -> (a: Self)
        ensures
            a.action_type == GameActionType::BreakCamp,
            a.source == source,
            a.targets@.len() == 0,
    {
        GameAction { action_type: GameActionType::BreakCamp, source, targets: Vec::new() }
    }

    /// `source` enters `camp`.
    pub fn new_enter_camp(source: u64, camp: u64) -> (a: Self)
        ensures
            a.action_type == GameActionType::EnterCamp,
            a.source == source,
            a.targets@ == seq![camp],
    {
        GameAction { action_type: GameActionType::EnterCamp, source, targets: vec![camp] }
    }

    /// `characters` split off from party `source`.
    pub fn new_split_party(source: u64, characters: Vec<u64>) -> (a: Self)
        ensures
            a.action_type == GameActionType::SplitParty,
            a.source == source,
            a.targets@ == characters@,
    {
        GameAction { action_type: GameActionType::SplitParty, source, targets: characters }
    }

    /// `parties` merge into party `source`.
    pub fn new_merge_party(source: u64, parties: Vec<u64>) -> (a: Self)
        ensures
            a.action_type == GameActionType::MergeParty,
            a.source == source,
            a.targets@ == parties@,
    {
        GameAction { action_type: GameActionType::MergeParty, source, targets: parties }
    }

    /// `characters` leave camp `source` as a new party.
    pub fn new_create_party_from_camp(source: u64, characters: Vec<u64>) -> (a: Self)
        ensures
            a.action_type == GameActionType::CreatePartyFromCamp,
            a.source == source,
            a.targets@ == characters@,
    {
        GameAction { action_type: GameActionType::CreatePartyFromCamp, source, targets: characters }
    }

    /// `source` collects crystals.
    pub fn new_collect_crystals(source: u64) -> (a: Self)
        ensures
            a.action_type == GameActionType::CollectCrystals,
            a.source == source,
            a.targets@.len() == 0,
    {
        GameAction { action_type: GameActionType::CollectCrystals, source, targets: Vec::new() }
    }

    /// `source` opens a portal.
    pub fn new_open_portal(source: u64) -> (a: Self)
        ensures
            a.action_type == GameActionType::OpenPortal,
            a.source == source,
            a.targets@.len() == 0,
    {
        GameAction { action_type: GameActionType::OpenPortal, source, targets: Vec::new() }
    }

    /// `source` enters a portal.
    pub fn new_enter_portal(source: u64) -> (a: Self)
        ensures
            a.action_type == GameActionType::EnterPortal,
            a.source == source,
            a.targets@.len() == 0,
    {
        GameAction { action_type: GameActionType::EnterPortal, source, targets: Vec::new() }
    }
}

/// The actions to take, in order, and where the first of them stands.
pub struct GameActionQueue {
    pub deque: VecDeque<GameAction>,
    pub status: GameActionStatus,
}

impl GameActionQueue {
    /// No actions, ready for the next.
    pub fn new() -> (queue: Self)
        ensures
            queue.deque@.len() == 0,
            queue.status == GameActionStatus::Ready,
    {
        GameActionQueue { deque: VecDeque::new(), status: GameActionStatus::Ready }
    }

    /// Queues `action` after the others.
    pub fn add(&mut self, action: GameAction)
        ensures
            final(self).deque@ == old(self).deque@.push(action),
            final(self).status == old(self).status,
    {
        self.deque.push_back(action);
    }

    /// The current action waits for something to finish.
    pub fn is_waiting(&self) -> (b: bool)
        ensures
            b == (self.status == GameActionStatus::Waiting),
    {
        self.status == GameActionStatus::Waiting
    }

    /// The current action is done and its follow-up is due.
    pub fn is_resolved(&self) -> (b: bool)
        ensures
            b == (self.status == GameActionStatus::Resolved),
    {
        self.status == GameActionStatus::Resolved
    }

    /// The current action waits.
    pub fn wait(&mut self)
        ensures
            final(self).deque@ == old(self).deque@,
            final(self).status == GameActionStatus::Waiting,
    {
        self.status = GameActionStatus::Waiting;
    }

    /// The current action is done.
    pub fn resolve(&mut self)
        ensures
            final(self).deque@ == old(self).deque@,
            final(self).status == GameActionStatus::Resolved,
    {
        self.status = GameActionStatus::Resolved;
    }

    /// The current action leaves the queue, and the next one is ready.
    pub fn ready(&mut self)
        ensures
            final(self).status == GameActionStatus::Ready,
            final(self).deque@ == if old(self).deque@.len() > 0 {
                old(self).deque@.drop_first()
            } else {
                old(self).deque@
            },
    {
        self.status = GameActionStatus::Ready;
        self.deque.pop_front();
    }

    /// The current action, if any.
    pub fn current(&self) -> (action: Option<&GameAction>)
        ensures
            self.deque@.len() > 0 ==> action == Some(&self.deque@[0]),
            self.deque@.len() == 0 ==> action is None,
    {
        if self.deque.len() > 0 {
            Some(&self.deque[0])
        } else {
            None
        }
    }

    /// No actions are queued.
    pub fn is_empty(&self) -> (b: bool)
        ensures
            b == (self.deque@.len() == 0),
    {
        self.deque.len() == 0
    }

    /// Moves the queue on after the current action ran with `result`: a waiting action makes
    /// the queue wait; a failed one leaves the queue, which is ready again, and the error is
    /// returned; a resolved one asks for its follow-up, which `finish` then handles.
    pub fn apply_result(&mut self, result: Result<GameActionStatus, ExplError>) -> (step: Result<bool, ExplError>)
        requires
            result != Ok::<GameActionStatus, ExplError>(GameActionStatus::Ready),
        ensures
            match result {
                Ok(GameActionStatus::Waiting) => step == Ok::<bool, ExplError>(false) && final(self).deque@
                    == old(self).deque@ && final(self).status == GameActionStatus::Waiting,
                Ok(_) => step == Ok::<bool, ExplError>(true) && final(self).deque@ == old(self).deque@
                    && final(self).status == old(self).status,
                Err(e) => step == Err::<bool, ExplError>(e) && final(self).status == GameActionStatus::Ready
                    && final(self).deque@ == if old(self).deque@.len() > 0 {
                    old(self).deque@.drop_first()
                } else {
                    old(self).deque@
                },
            },
    {
        match result {
            Ok(GameActionStatus::Waiting) => {
                self.wait();
                Ok(false)
            },
            Ok(_) => Ok(true),
            Err(e) => {
                self.ready();
                Err(e)
            },
        }
    }

    /// Finishes the current action: its follow-up, if any, joins the end of the queue, then the
    /// current action leaves it.
    pub fn finish(&mut self, follow_up: Option<GameAction>)
        ensures
            final(self).status == GameActionStatus::Ready,
            ({
                let added = match follow_up {
                    Some(a) => old(self).deque@.push(a),
                    None => old(self).deque@,
                };
                final(self).deque@ == if added.len() > 0 { added.drop_first() } else { added }
            }),
    {
        if let Some(action) = follow_up {
            self.add(action);
        }
        self.ready();
    }
}

/// The follow-up of an action along a path: the next move, if no combat broke out, the group
/// has points left and the path has a next step.
pub fn follow_up(action: &GameAction, had_combat: bool, points_left: u16, next_step: Option<u64>) -> (next: Option<
    GameAction,
>)
    ensures
        match next {
            Some(a) => !had_combat && points_left > 0 && next_step is Some && a.action_type == GameActionType::Move
                && a.source == action.source && a.targets@ == seq![next_step->0],
            None => had_combat || points_left == 0 || next_step is None,
        },
{
    if had_combat {
        return None;
    }
    if points_left > 0 {
        if let Some(step) = next_step {
            return Some(GameAction::new_move(action.source, step));
        }
    }
    None
}

/// The first of the participants that is alive and on the other side from the attacker.
pub open spec fn is_first_target(participants: Seq<(u16, bool)>, attacker_is_enemy: bool, t: int) -> bool {
    &&& 0 <= t < participants.len()
    &&& participants[t].0 != 0 && participants[t].1 != attacker_is_enemy
    &&& forall|k: int| 0 <= k < t ==> (#[trigger] participants[k]).0 == 0 || participants[k].1 == attacker_is_enemy
}

/// The participant, given by its health and whether it is an enemy, that an attacker attacks:
/// the first one that is alive and on the other side.
pub fn combat_target(participants: &Vec<(u16, bool)>, attacker_is_enemy: bool) -> (target: Option<usize>)
    ensures
        match target {
            Some(t) => is_first_target(participants@, attacker_is_enemy, t as int),
            None => forall|k: int| 0 <= k < participants@.len() ==> (#[trigger] participants@[k]).0 == 0
                || participants@[k].1 == attacker_is_enemy,
        },
{
    let mut i: usize = 0;
    while i < participants.len()
        invariant
            i <= participants@.len(),
            forall|k: int| 0 <= k < i ==> (#[trigger] participants@[k]).0 == 0 || participants@[k].1 == attacker_is_enemy,
        decreases participants@.len() - i,
    {
        let (health, is_enemy) = participants[i];
        if health != 0 && is_enemy != attacker_is_enemy {
            return Some(i);
        }
        i = i + 1;
    }
    None
}

/// The participant whose turn is next after `initiative`, in a combat of `count` participants.
pub fn next_initiative(initiative: usize, count: usize) -> (next: usize)
    requires
        count > 0,
        initiative < count,
    ensures
        next == (initiative + 1) % (count as int),
        next < count,
{
    (initiative + 1) % count
}

/// A combat at a position: the participants in the order of their turns, and whose turn it is.
pub struct Combat {
    pub position: HexCoord,
    pub initiative_order: Vec<u64>,
    pub initiative: usize,
}

impl Combat {
    /// A combat at `position` where the first of `initiative_order` acts first.
    pub fn new(position: HexCoord, initiative_order: Vec<u64>) -> (combat: Self)
        ensures
            combat.position == position,
            combat.initiative_order@ == initiative_order@,
            combat.initiative == 0,
    {
        Combat { position, initiative_order, initiative: 0 }
    }

    /// The participant whose turn it is; the turn passes to the next participant.
    pub fn next_attacker(&mut self) -> (attacker: u64)
        requires
            old(self).initiative < old(self).initiative_order@.len(),
        ensures
            attacker == old(self).initiative_order@[old(self).initiative as int],
            final(self).initiative == (old(self).initiative + 1) % (old(self).initiative_order@.len() as int),
            final(self).initiative < final(self).initiative_order@.len(),
            final(self).initiative_order@ == old(self).initiative_order@,
            final(self).position == old(self).position,
    {
        let attacker = self.initiative_order[self.initiative];
        self.initiative = next_initiative(self.initiative, self.initiative_order.len());
        attacker
    }
}

/// What happens in a combat, for the combat with the given id: it starts, or a friend or an
/// enemy takes damage.
#[derive(Debug, Clone, Copy, PartialEq, Eq, Structural)]
pub enum CombatEvent {
    Initiate(u64),
    FriendDamage(u64, u16),
    EnemyDamage(u64, u16),
}

/// The health and side of each participant, as `combat_target` reads them.
pub open spec fn health_sides(participants: Seq<(Health, bool)>) -> Seq<(u16, bool)> {
    participants.map_values(|p: (Health, bool)| (p.0.0, p.1))
}

/// Some participant is alive and on the other side from the attacker.
pub open spec fn has_target(sides: Seq<(u16, bool)>, attacker_is_enemy: bool) -> bool {
    exists|k: int| 0 <= k < sides.len() && (#[trigger] sides[k]).0 != 0 && sides[k].1 != attacker_is_enemy
}

/// What a round of the combat with id `combat_id` does to the participants, `before` and
/// `after`, and reports, when `attacker` attacks with `roll`: nothing without an attack or a
/// participant to hit; otherwise the first participant that is alive and on the other side loses
/// `roll`, but no more than its health, and the damage is reported as done to an enemy or to a
/// friend.
pub open spec fn round_outcome(
    combat_id: u64,
    attacker: Option<(Attack, bool)>,
    roll: u16,
    before: Seq<(Health, bool)>,
    after: Seq<(Health, bool)>,
    event: Option<CombatEvent>,
) -> bool {
    match attacker {
        None => event is None && after == before,
        Some((attack, attacker_is_enemy)) => {
            let sides = health_sides(before);
            if !has_target(sides, attacker_is_enemy) {
                event is None && after == before
            } else {
                exists|t: int| {
                    let (health, is_enemy) = before[t];
                    let d: u16 = if roll < health.0 { roll } else { health.0 };
                    &&& #[trigger] is_first_target(sides, attacker_is_enemy, t)
                    &&& d <= health.0 && d < attack.high
                    &&& after == before.update(t, (Health((health.0 - d) as u16, health.1), is_enemy))
                    &&& event == Some(
                        if is_enemy { CombatEvent::EnemyDamage(combat_id, d) } else { CombatEvent::FriendDamage(combat_id, d) },
                    )
                }
            }
        },
    }
}

/// `Rng::gen_range` over `low..high` with the thread's generator: a roll in the range. It
/// panics on an empty range.
#[verifier::external_body]
fn roll_in_range(low: u16, high: u16) -> (roll: u16)
    requires
        low < high,
    ensures
        low <= roll < high,
{
    rand::thread_rng().gen_range(low..high)
}

/// One round of a combat with id `combat_id`. The turn passes to the next participant. The
/// participant whose turn it was attacks with `attacker`, its attack and whether it is an enemy,
/// unless it has no attack (`None`): the first participant, in the order of turns, that is alive
/// and on the other side loses `roll`, but no more than its health, and the damage is reported as
/// done to an enemy or to a friend. `participants` are the health and side of the participants
/// that have health, in the order of turns; `roll` is the roll of the attack.
pub fn combat_round(
    combat: &mut Combat,
    combat_id: u64,
    attacker: Option<(Attack, bool)>,
    participants: &mut Vec<(Health, bool)>,
    roll: u16,
) -> (event: Option<CombatEvent>)
    requires
        old(combat).initiative < old(combat).initiative_order@.len(),
        attacker matches Some((attack, _)) ==> attack.low <= roll < attack.high,
    ensures
        final(combat).initiative == (old(combat).initiative + 1) % (old(combat).initiative_order@.len() as int),
        final(combat).initiative_order@ == old(combat).initiative_order@,
        final(combat).position == old(combat).position,
        final(participants)@.len() == old(participants)@.len(),
        round_outcome(combat_id, attacker, roll, old(participants)@, final(participants)@, event),
{
    combat.next_attacker();
    let (attack, attacker_is_enemy) = match attacker {
        Some(a) => a,
        None => {
            return None;
        },
    };
    let mut sides: Vec<(u16, bool)> = Vec::new();
    let mut i: usize = 0;
    while i < participants.len()
        invariant
            i <= participants@.len(),
            sides@ == health_sides(participants@).take(i as int),
        decreases participants@.len() - i,
    {
        sides.push((participants[i].0.0, participants[i].1));
        proof {
            assert(health_sides(participants@).take(i + 1) =~= health_sides(participants@).take(i as int).push(
                (participants@[i as int].0.0, participants@[i as int].1),
            ));
        }
        i = i + 1;
    }
    proof {
        assert(sides@ =~= health_sides(participants@));
    }
    match combat_target(&sides, attacker_is_enemy) {
        None => None,
        Some(t) => {
            let (mut health, is_enemy) = participants[t];
            let ghost before = participants@;
            let damage = health.take_damage(roll);
            participants.set(t, (health, is_enemy));
            let event = if is_enemy {
                CombatEvent::EnemyDamage(combat_id, damage)
            } else {
                CombatEvent::FriendDamage(combat_id, damage)
            };
            proof {
                assert(is_first_target(sides@, attacker_is_enemy, t as int));
                assert(participants@ == before.update(
                    t as int,
                    (Health((before[t as int].0.0 - damage) as u16, before[t as int].0.1), is_enemy),
                ));
            }
            Some(event)
        },
    }
}

/// One round of a combat with id `combat_id`, the attack's roll drawn at random from its range:
/// as `combat_round` with some roll in the attack's range, whenever there is a participant to
/// hit. An attack with an empty range cannot be rolled, so it needs no participant to hit.
pub fn fight_round(
    combat: &mut Combat,
    combat_id: u64,
    attacker: Option<(Attack, bool)>,
    participants: &mut Vec<(Health, bool)>,
) -> (event: Option<CombatEvent>)
    requires
        old(combat).initiative < old(combat).initiative_order@.len(),
        attacker is Some && attacker.unwrap().0.high <= attacker.unwrap().0.low ==> !has_target(
            health_sides(old(participants)@),
            attacker.unwrap().1,
        ),
    ensures
        final(combat).initiative == (old(combat).initiative + 1) % (old(combat).initiative_order@.len() as int),
        final(combat).initiative_order@ == old(combat).initiative_order@,
        final(combat).position == old(combat).position,
        final(participants)@.len() == old(participants)@.len(),
        exists|roll: u16| {
            &&& #[trigger] round_outcome(combat_id, attacker, roll, old(participants)@, final(participants)@, event)
            &&& (attacker is Some && has_target(health_sides(old(participants)@), attacker.unwrap().1))
                ==> attacker.unwrap().0.low <= roll < attacker.unwrap().0.high
        },
{
    let ghost before = participants@;
    match attacker {
        Some((attack, _)) => {
            if attack.low < attack.high {
                let roll = roll_in_range(attack.low, attack.high);
                let event = combat_round(combat, combat_id, attacker, participants, roll);
                assert(round_outcome(combat_id, attacker, roll, before, participants@, event));
                event
            } else {
                let event = combat_round(combat, combat_id, None, participants, 0);
                assert(round_outcome(combat_id, attacker, 0, before, participants@, event));
                event
            }
        },
        None => {
            let event = combat_round(combat, combat_id, None, participants, 0);
            assert(round_outcome(combat_id, attacker, 0, before, participants@, event));
            event
        },
    }
}

/// Whether a party can make a camp where it stands, and the supplies it has left if it does: the
/// terrain must allow structures, no camp may stand there yet, and a camp takes one supply.
pub fn make_camp(allow_structure: bool, camp_present: bool, supplies: u32) -> (res: Result<u32, ExplError>)
    ensures
        !allow_structure ==> res == Err::<u32, ExplError>(ExplError::InvalidLocation(LocationIssue::BadTerrain)),
        allow_structure && camp_present ==> res == Err::<u32, ExplError>(
            ExplError::InvalidLocation(LocationIssue::ExistingCamp),
        ),
        allow_structure && !camp_present && supplies == 0 ==> res == Err::<u32, ExplError>(ExplError::ResourceMissing),
        allow_structure && !camp_present && supplies > 0 ==> res == Ok::<u32, ExplError>((supplies - 1) as u32),
{
    if !allow_structure {
        return Err(ExplError::InvalidLocation(LocationIssue::BadTerrain));
    }
    if camp_present {
        return Err(ExplError::InvalidLocation(LocationIssue::ExistingCamp));
    }
    if supplies == 0 {
        return Err(ExplError::ResourceMissing);
    }
    Ok(supplies - 1)
}

/// The distance between two positions can be computed without overflow.
pub open spec fn distance_ok(a: HexCoord, b: HexCoord) -> bool {
    &&& in_i32(a.q - b.q)
    &&& in_i32(a.r - b.r)
    &&& in_i32(a.q - b.q + a.r - b.r)
    &&& abs(a.q - b.q) + abs(a.q - b.q + a.r - b.r) + abs(a.r - b.r) <= u32::MAX
}

/// Party `i` is the one an enemy at `enemy` with view `view` goes for: within view, no party in
/// view is closer, and no party before it is as close.
pub open spec fn is_closest_in_view(enemy: HexCoord, parties: Seq<HexCoord>, view: u32, i: int) -> bool {
    &&& 0 <= i < parties.len()
    &&& hex_distance(enemy, parties[i]) <= view
    &&& forall|k: int| 0 <= k < parties.len() && hex_distance(enemy, #[trigger] parties[k]) <= view ==> hex_distance(
        enemy,
        parties[i],
    ) <= hex_distance(enemy, parties[k])
    &&& forall|k: int| 0 <= k < i && hex_distance(enemy, #[trigger] parties[k]) <= view ==> hex_distance(
        enemy,
        parties[i],
    ) < hex_distance(enemy, parties[k])
}

/// The party, by its position, that an enemy at `enemy` seeing `view` steps far goes for: the
/// closest within view, the first of the closest; `None` when no party is in view.
pub fn closest_in_view(enemy: HexCoord, parties: &Vec<HexCoord>, view: u32) -> (r: Option<usize>)
    requires
        forall|k: int| 0 <= k < parties@.len() ==> distance_ok(enemy, #[trigger] parties@[k]),
    ensures
        match r {
            Some(i) => is_closest_in_view(enemy, parties@, view, i as int),
            None => forall|k: int| 0 <= k < parties@.len() ==> hex_distance(enemy, #[trigger] parties@[k]) > view,
        },
{
    let mut best: Option<(usize, u32)> = None;
    let mut i: usize = 0;
    while i < parties.len()
        invariant
            i <= parties@.len(),
            forall|k: int| 0 <= k < parties@.len() ==> distance_ok(enemy, #[trigger] parties@[k]),
            match best {
                Some((b, d)) => {
                    &&& b < i
                    &&& d == hex_distance(enemy, parties@[b as int])
                    &&& d <= view
                    &&& forall|k: int| 0 <= k < i && hex_distance(enemy, #[trigger] parties@[k]) <= view ==> d <= hex_distance(
                        enemy,
                        parties@[k],
                    )
                    &&& forall|k: int| 0 <= k < b && hex_distance(enemy, #[trigger] parties@[k]) <= view ==> d < hex_distance(
                        enemy,
                        parties@[k],
                    )
                },
                None => forall|k: int| 0 <= k < i ==> hex_distance(enemy, #[trigger] parties@[k]) > view,
            },
        decreases parties@.len() - i,
    {
        assert(distance_ok(enemy, parties@[i as int]));
        let d = enemy.distance(parties[i]);
        if d <= view {
            match best {
                Some((_, bd)) => {
                    if d < bd {
                        best = Some((i, d));
                    }
                },
                None => {
                    best = Some((i, d));
                },
            }
        }
        i = i + 1;
    }
    match best {
        Some((b, _)) => Some(b),
        None => None,
    }
}

/// Position `p` can be entered: its terrain is walkable and no enemy stands there.
pub open spec fn free_position(p: HexCoord, occupied: Seq<HexCoord>, walkable: Seq<HexCoord>) -> bool {
    walkable.contains(p) && !occupied.contains(p)
}

/// `p` is among `positions`.
fn holds_position(positions: &Vec<HexCoord>, p: HexCoord) -> (b: bool)
    ensures
        b == positions@.contains(p),
{
    let mut i: usize = 0;
    while i < positions.len()
        invariant
            i <= positions@.len(),
            forall|k: int| 0 <= k < i ==> positions@[k] != p,
        decreases positions@.len() - i,
    {
        if positions[i] == p {
            return true;
        }
        i = i + 1;
    }
    false
}

/// A position can hold a step in every direction.
pub open spec fn can_step(p: HexCoord) -> bool {
    i32::MIN < p.q < i32::MAX && i32::MIN < p.r < i32::MAX
}

/// The directions are steps to neighbours.
pub open spec fn are_steps(offsets: Seq<HexCoord>) -> bool {
    forall|k: int| 0 <= k < offsets.len() ==> exists|d: int| 0 <= d < 6 && #[trigger] offsets[k] == neighbour_offset(d)
}

/// Where an enemy at `position` moves. When it chases a party, it takes the next step of its
/// path, `path_next`, unless an enemy stands there, and stays without a path. Otherwise it
/// takes the first of the directions `offsets` whose position is walkable and free of enemies;
/// `occupied` are the positions of enemies and `walkable` those whose terrain can be walked.
pub fn enemy_step(
    position: HexCoord,
    chasing: bool,
    path_next: Option<HexCoord>,
    occupied: &Vec<HexCoord>,
    walkable: &Vec<HexCoord>,
    offsets: &Vec<HexCoord>,
) -> (step: Option<HexCoord>)
    requires
        can_step(position),
        are_steps(offsets@),
    ensures
        chasing ==> step == match path_next {
            Some(n) => if occupied@.contains(n) { None } else { Some(n) },
            None => None,
        },
        !chasing ==> match step {
            Some(s) => exists|k: int| {
                &&& 0 <= k < offsets@.len()
                &&& s == hex(position.q + offsets@[k].q, position.r + offsets@[k].r)
                &&& #[trigger] free_position(s, occupied@, walkable@)
                &&& forall|j: int| 0 <= j < k ==> !free_position(
                    hex(position.q + (#[trigger] offsets@[j]).q, position.r + offsets@[j].r),
                    occupied@,
                    walkable@,
                )
            },
            None => forall|j: int| 0 <= j < offsets@.len() ==> !free_position(
                hex(position.q + (#[trigger] offsets@[j]).q, position.r + offsets@[j].r),
                occupied@,
                walkable@,
            ),
        },
{
    if chasing {
        return match path_next {
            Some(n) => if holds_position(occupied, n) { None } else { Some(n) },
            None => None,
        };
    }
    let mut k: usize = 0;
    while k < offsets.len()
        invariant
            !chasing,
            can_step(position),
            are_steps(offsets@),
            k <= offsets@.len(),
            forall|j: int| 0 <= j < k ==> !free_position(
                hex(position.q + (#[trigger] offsets@[j]).q, position.r + offsets@[j].r),
                occupied@,
                walkable@,
            ),
        decreases offsets@.len() - k,
    {
        let offset = offsets[k];
        proof {
            assert(exists|d: int| 0 <= d < 6 && offsets@[k as int] == neighbour_offset(d));
            let d = choose|d: int| 0 <= d < 6 && offsets@[k as int] == neighbour_offset(d);
            assert(d == 0 || d == 1 || d == 2 || d == 3 || d == 4 || d == 5);
        }
        let next = position.plus(offset);
        if holds_position(walkable, next) && !holds_position(occupied, next) {
            assert(free_position(next, occupied@, walkable@));
            return Some(next);
        }
        k = k + 1;
    }
    None
}

/// `SliceRandom::shuffle`: the same directions, in a random order.
#[verifier::external_body]
fn shuffle_directions(offsets: &mut Vec<HexCoord>)
    ensures
        final(offsets)@.to_multiset() == old(offsets)@.to_multiset(),
{
    offsets.shuffle(&mut rand::thread_rng())
}

/// Where an enemy at `position` moves, its wandering directions shuffled at random. A chasing
/// enemy moves as `enemy_step` says; a wandering one moves to a walkable neighbour free of enemies
/// if there is one, and stays otherwise.
pub fn enemy_move(
    position: HexCoord,
    chasing: bool,
    path_next: Option<HexCoord>,
    occupied: &Vec<HexCoord>,
    walkable: &Vec<HexCoord>,
) -> (step: Option<HexCoord>)
    requires
        can_step(position),
    ensures
        chasing ==> step == match path_next {
            Some(n) => if occupied@.contains(n) { None } else { Some(n) },
            None => None,
        },
        !chasing ==> match step {
            Some(s) => free_position(s, occupied@, walkable@) && exists|d: int| 0 <= d < 6 && s == hex(
                position.q + neighbour_offset(d).q,
                position.r + neighbour_offset(d).r,
            ),
            None => forall|d: int| 0 <= d < 6 ==> !free_position(
                hex(position.q + #[trigger] neighbour_offset(d).q, position.r + neighbour_offset(d).r),
                occupied@,
                walkable@,
            ),
        },
{
    let mut offsets: Vec<HexCoord> = Vec::new();
    let mut d: usize = 0;
    while d < 6
        invariant
            d <= 6,
            offsets@ == Seq::new(d as nat, |i: int| neighbour_offset(i)),
        decreases 6 - d,
    {
        offsets.push(HexCoord::neighbour_offset(d));
        proof {
            assert(offsets@ =~= Seq::new((d + 1) as nat, |i: int| neighbour_offset(i)));
        }
        d = d + 1;
    }
    let ghost ordered = offsets@;
    shuffle_directions(&mut offsets);
    let ghost six = seq![
        neighbour_offset(0),
        neighbour_offset(1),
        neighbour_offset(2),
        neighbour_offset(3),
        neighbour_offset(4),
        neighbour_offset(5),
    ];
    proof {
        broadcast use vstd::seq_lib::group_to_multiset_ensures;
        assert(ordered =~= six);
        assert forall|k: int| 0 <= k < offsets@.len() implies exists|d: int| 0 <= d < 6 && #[trigger] offsets@[k]
            == neighbour_offset(d) by {
            assert(offsets@.to_multiset().count(offsets@[k]) > 0);
            assert(six.to_multiset().count(offsets@[k]) > 0);
            assert(six.contains(offsets@[k]));
            let d = choose|d: int| 0 <= d < six.len() && six[d] == offsets@[k];
            assert(offsets@[k] == neighbour_offset(d));
        }
    }
    let step = enemy_step(position, chasing, path_next, occupied, walkable, &offsets);
    proof {
        broadcast use vstd::seq_lib::group_to_multiset_ensures;
        if !chasing {
            match step {
                Some(s) => {
                    let k = choose|k: int| {
                        &&& 0 <= k < offsets@.len()
                        &&& s == hex(position.q + offsets@[k].q, position.r + offsets@[k].r)
                        &&& #[trigger] free_position(s, occupied@, walkable@)
                        &&& forall|j: int| 0 <= j < k ==> !free_position(
                            hex(position.q + (#[trigger] offsets@[j]).q, position.r + offsets@[j].r),
                            occupied@,
                            walkable@,
                        )
                    };
                    let d = choose|d: int| 0 <= d < 6 && #[trigger] offsets@[k] == neighbour_offset(d);
                    assert(s == hex(position.q + neighbour_offset(d).q, position.r + neighbour_offset(d).r));
                },
                None => {
                    assert forall|d: int| 0 <= d < 6 implies !free_position(
                        hex(position.q + #[trigger] neighbour_offset(d).q, position.r + neighbour_offset(d).r),
                        occupied@,
                        walkable@,
                    ) by {
                        assert(six[d] == neighbour_offset(d));
                        assert(six.to_multiset().count(six[d]) > 0);
                        assert(offsets@.to_multiset().count(six[d]) > 0);
                        assert(offsets@.contains(six[d]));
                        let k = choose|k: int| 0 <= k < offsets@.len() && offsets@[k] == six[d];
                        assert(!free_position(
                            hex(position.q + offsets@[k].q, position.r + offsets@[k].r),
                            occupied@,
                            walkable@,
                        ));
                    }
                },
            }
        }
    }
    step
}

} // verus!
