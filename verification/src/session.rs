//! The replicated combat session and its phase controller: an explicit value
//! holding the owner, the phase, the participants and the phase-scoped
//! countdown, mutated only by the handlers in this module. Phase changes
//! follow a strict graph; the readiness consensus and the countdown fallback
//! are evaluated by the session owner alone, so at most one peer ever
//! originates a phase-advancing broadcast.

use rand::seq::SliceRandom;
use vstd::prelude::*;

use crate::chunk::{Chunk, SIZE_X, SIZE_Z};
use crate::player::Info;
use crate::protocol::{Message, PeerId, UpdatePlayerPosition};
use crate::tile::{
    spec_world_in_tile_range, spec_world_tile_x, AbsoluteSpace, LocalSpace, Tile, TileCoordinate,
    WorldPos,
};
use crate::timer::CombatTimer;

verus! {

/// Length of the preparation countdown, in time units.
pub const PREPARATION_DURATION: u64 = 90;

/// Length of one turn's countdown, in time units.
pub const TURN_DURATION: u64 = 30;

/// Top-level combat state, a strict directed graph of phases.
#[derive(Debug, Clone, Copy, PartialEq, Eq, Structural)]
pub enum Phase {
    NotInCombat,
    Preparation,
    NextTurn,
    YourTurn,
    OthersTurn,
    End,
}

/// Sub-state of the local player's own turn; meaningful only while the
/// phase is `YourTurn`.
#[derive(Debug, Clone, Copy, PartialEq, Eq, Structural)]
pub enum TurnAction {
    NotInTurn,
    WaitingNextAction,
    Move,
    UseSpell,
    EndTurn,
}

/// One peer taking part in the combat.
#[derive(Debug, Clone, PartialEq, Eq)]
pub struct Participant {
    pub id: PeerId,
    pub position: TileCoordinate<AbsoluteSpace>,
    pub stats_snapshot: Info,
    pub ready: bool,
    pub movement_points_remaining: u8,
    pub action_points_remaining: u8,
}

/// The whole session state replicated among the peers of one combat.
#[derive(Debug)]
pub struct CombatSession {
    /// The single peer authorized to originate phase-advancing broadcasts;
    /// fixed for the session's lifetime.
    pub owner: PeerId,
    /// The local peer's own identity.
    pub local_id: PeerId,
    pub phase: Phase,
    pub participants: Vec<Participant>,
    /// Countdown scoped to the active phase: present exactly while the
    /// phase is `Preparation` or `YourTurn`.
    pub timer: Option<CombatTimer>,
    pub turn_action: TurnAction,
}

/// The edges of the phase graph. Anything else is not a legal transition.
pub open spec fn spec_can_transition(from: Phase, to: Phase) -> bool {
    ||| (from == Phase::NotInCombat && to == Phase::Preparation)
    ||| (from == Phase::Preparation && to == Phase::NextTurn)
    ||| (from == Phase::NextTurn && (to == Phase::YourTurn || to == Phase::OthersTurn || to
        == Phase::End))
    ||| (from == Phase::YourTurn && (to == Phase::NextTurn || to == Phase::End))
    ||| (from == Phase::OthersTurn && (to == Phase::NextTurn || to == Phase::End))
    ||| (from == Phase::End && to == Phase::NotInCombat)
}

/// Whether a phase owns a countdown, and of which duration.
pub open spec fn spec_phase_duration(p: Phase) -> Option<u64> {
    match p {
        Phase::Preparation => Some(PREPARATION_DURATION),
        Phase::YourTurn => Some(TURN_DURATION),
        _ => None,
    }
}

/// First index of the participant with the given id, or -1 if absent.
pub open spec fn spec_find(s: Seq<Participant>, id: PeerId) -> int
    decreases s.len(),
{
    if s.len() == 0 {
        -1
    } else if s[0].id == id {
        0
    } else {
        let r = spec_find(s.drop_first(), id);
        if r == -1 {
            -1
        } else {
            r + 1
        }
    }
}

/// The found index really carries the id looked for, and -1 really means
/// the id is absent.
pub proof fn lemma_find_properties(s: Seq<Participant>, id: PeerId)
    ensures
        spec_find(s, id) == -1 ==> forall|i: int| 0 <= i < s.len() ==> (#[trigger] s[i]).id != id,
        spec_find(s, id) != -1 ==> 0 <= spec_find(s, id) < s.len() && s[spec_find(s, id)].id == id,
    decreases s.len(),
{
    if s.len() > 0 {
        if s[0].id == id {
        } else {
            lemma_find_properties(s.drop_first(), id);
            let rest = s.drop_first();
            assert forall|i: int| 0 <= i < s.len() && spec_find(s, id) == -1 implies (
            #[trigger] s[i]).id != id by {
                if i > 0 {
                    assert(s[i] == rest[i - 1]);
                }
            }
        }
    }
}

/// All participants have signalled readiness.
pub open spec fn spec_all_ready(s: Seq<Participant>) -> bool {
    forall|i: int| 0 <= i < s.len() ==> (#[trigger] s[i]).ready
}

/// How many participants have signalled readiness.
pub open spec fn spec_ready_count(s: Seq<Participant>) -> nat
    decreases s.len(),
{
    if s.len() == 0 {
        0
    } else {
        spec_ready_count(s.drop_first()) + if s[0].ready {
            1nat
        } else {
            0nat
        }
    }
}

/// The readiness count reaches the participant count exactly when every
/// participant is ready: the consensus test the owner evaluates.
pub proof fn lemma_ready_count_full(s: Seq<Participant>)
    ensures
        spec_ready_count(s) <= s.len(),
        (spec_ready_count(s) == s.len()) <==> spec_all_ready(s),
    decreases s.len(),
{
    if s.len() > 0 {
        let rest = s.drop_first();
        lemma_ready_count_full(rest);
        assert forall|i: int| 0 <= i < s.len() && spec_ready_count(s) == s.len() implies (
        #[trigger] s[i]).ready by {
            if i > 0 {
                assert(s[i] == rest[i - 1]);
            }
        }
        if spec_all_ready(s) {
            assert forall|i: int| 0 <= i < rest.len() implies (#[trigger] rest[i]).ready by {
                assert(rest[i] == s[i + 1]);
            }
        }
    }
}

impl CombatSession {
    /// No two participants share an id.
    pub open spec fn ids_distinct(self) -> bool {
        forall|i: int, j: int|
            0 <= i < j < self.participants@.len() ==> (#[trigger] self.participants@[i]).id != (
            #[trigger] self.participants@[j]).id
    }

    /// Session invariant: distinct participants; the countdown exists
    /// exactly in the phases that own one, with that phase's duration; the
    /// turn sub-state is reset outside the local player's own turn.
    pub open spec fn wf(self) -> bool {
        &&& self.ids_distinct()
        &&& match spec_phase_duration(self.phase) {
            Some(d) => self.timer matches Some(t) && t.wf() && t.duration == d,
            None => self.timer is None,
        }
        &&& self.phase != Phase::YourTurn ==> self.turn_action == TurnAction::NotInTurn
    }

    /// Whether the local peer is the session owner, the peer that alone
    /// may originate phase-advancing broadcasts.
    pub open spec fn spec_is_owner(self) -> bool {
        self.local_id == self.owner
    }

    /// Whether the local peer is the session owner.
    pub fn is_owner(&self) -> (r: bool)
        ensures
            r == self.spec_is_owner(),
    {
        self.local_id == self.owner
    }

    /// A fresh session: the given owner, the local participant alone, no
    /// combat running yet. The owner is the duel's initiator on both ends:
    /// the accepting peer names the demander, the demander names itself.
    pub fn new(
        owner: PeerId,
        local_id: PeerId,
        local_stats: Info,
        position: TileCoordinate<AbsoluteSpace>,
    ) -> (s: Self)
        ensures
            s.wf(),
            s.owner == owner,
            s.local_id == local_id,
            s.phase == Phase::NotInCombat,
            s.turn_action == TurnAction::NotInTurn,
            s.participants@.len() == 1,
            s.participants@[0].id == local_id,
            s.participants@[0].ready == false,
            s.participants@[0].position == position,
            s.participants@[0].stats_snapshot == local_stats,
            s.participants@[0].movement_points_remaining == local_stats.movement_points,
            s.participants@[0].action_points_remaining == local_stats.action_points,
    {
        let movement_points = local_stats.movement_points;
        let action_points = local_stats.action_points;
        let me = Participant {
            id: local_id,
            position,
            stats_snapshot: local_stats,
            ready: false,
            movement_points_remaining: movement_points,
            action_points_remaining: action_points,
        };
        let mut participants: Vec<Participant> = Vec::new();
        participants.push(me);
        CombatSession {
            owner,
            local_id,
            phase: Phase::NotInCombat,
            participants,
            timer: None,
            turn_action: TurnAction::NotInTurn,
        }
    }

    /// Session begun by accepting a peer's duel demand: the demander, as
    /// the duel's initiator, becomes the owner.
    pub fn accept_duel(
        demander: PeerId,
        local_id: PeerId,
        local_stats: Info,
        position: TileCoordinate<AbsoluteSpace>,
    ) -> (s: Self)
        ensures
            s.wf(),
            s.owner == demander,
            s.local_id == local_id,
            s.phase == Phase::NotInCombat,
            s.participants@.len() == 1,
            s.participants@[0].id == local_id,
    {
        Self::new(demander, local_id, local_stats, position)
    }

    /// Session begun when a peer accepts the local player's duel demand:
    /// the local peer, as the duel's initiator, becomes the owner.
    pub fn duel_accepted(
        local_id: PeerId,
        local_stats: Info,
        position: TileCoordinate<AbsoluteSpace>,
    ) -> (s: Self)
        ensures
            s.wf(),
            s.owner == local_id,
            s.local_id == local_id,
            s.phase == Phase::NotInCombat,
            s.participants@.len() == 1,
            s.participants@[0].id == local_id,
    {
        Self::new(local_id, local_id, local_stats, position)
    }

    /// Whether the phase graph allows this transition.
    pub fn can_transition(&self, to: Phase) -> (r: bool)
        ensures
            r == spec_can_transition(self.phase, to),
    {
        match (self.phase, to) {
            (Phase::NotInCombat, Phase::Preparation) => true,
            (Phase::Preparation, Phase::NextTurn) => true,
            (Phase::NextTurn, Phase::YourTurn) => true,
            (Phase::NextTurn, Phase::OthersTurn) => true,
            (Phase::NextTurn, Phase::End) => true,
            (Phase::YourTurn, Phase::NextTurn) => true,
            (Phase::YourTurn, Phase::End) => true,
            (Phase::OthersTurn, Phase::NextTurn) => true,
            (Phase::OthersTurn, Phase::End) => true,
            (Phase::End, Phase::NotInCombat) => true,
            _ => false,
        }
    }

    /// Takes the transition if the phase graph has that edge, tearing down
    /// the old phase's countdown and turn sub-state and creating the new
    /// phase's countdown; a transition not in the graph is rejected and
    /// leaves the session untouched.
    pub fn try_transition(&mut self, to: Phase) -> (r: bool)
        requires
            old(self).wf(),
        ensures
            final(self).wf(),
            r == spec_can_transition(old(self).phase, to),
            r ==> final(self).phase == to,
            !r ==> *final(self) == *old(self),
            final(self).owner == old(self).owner,
            final(self).local_id == old(self).local_id,
            final(self).participants == old(self).participants,
            r ==> final(self).turn_action == TurnAction::NotInTurn,
            r ==> final(self).timer == match spec_phase_duration(to) {
                Some(d) => Some(CombatTimer { elapsed: 0, duration: d }),
                None => None::<CombatTimer>,
            },
    {
        if self.can_transition(to) {
            self.phase = to;
            self.turn_action = TurnAction::NotInTurn;
            self.timer = match to {
                Phase::Preparation => Some(CombatTimer::new(PREPARATION_DURATION)),
                Phase::YourTurn => Some(CombatTimer::new(TURN_DURATION)),
                _ => None,
            };
            true
        } else {
            false
        }
    }
}

/// The participant with its readiness flag replaced.
pub open spec fn spec_set_ready(p: Participant, is_ready: bool) -> Participant {
    Participant {
        id: p.id,
        position: p.position,
        stats_snapshot: p.stats_snapshot,
        ready: is_ready,
        movement_points_remaining: p.movement_points_remaining,
        action_points_remaining: p.action_points_remaining,
    }
}

/// When a readiness message advances the phase: it arrives during
/// preparation from a known participant, the local peer is the owner, and
/// with the sender's flag updated every participant is ready. Non-owner
/// peers never satisfy this, whatever the flags say: they only ever follow
/// the owner's broadcast.
pub open spec fn spec_consensus_fires(s: CombatSession, sender: PeerId, is_ready: bool) -> bool {
    let i = spec_find(s.participants@, sender);
    &&& s.phase == Phase::Preparation
    &&& i != -1
    &&& s.spec_is_owner()
    &&& spec_all_ready(s.participants@.update(i, spec_set_ready(s.participants@[i], is_ready)))
}

/// The consensus can fire only while the phase is `Preparation`; since
/// firing leaves `Preparation`, it cannot fire a second time for one
/// preparation round.
pub proof fn lemma_consensus_fires_only_in_preparation(
    s: CombatSession,
    sender: PeerId,
    is_ready: bool,
)
    requires
        s.phase != Phase::Preparation,
    ensures
        !spec_consensus_fires(s, sender, is_ready),
{
}

/// A countdown advanced by `delta`, saturating at its duration.
pub open spec fn spec_tick(t: CombatTimer, delta: u64) -> CombatTimer {
    CombatTimer {
        elapsed: if t.elapsed + delta <= t.duration {
            (t.elapsed + delta) as u64
        } else {
            t.duration
        },
        duration: t.duration,
    }
}

/// When advancing the countdown by `delta` completes it on this very tick.
pub open spec fn spec_timer_crosses(t: CombatTimer, delta: u64) -> bool {
    !t.spec_finished() && t.elapsed + delta >= t.duration
}

proof fn lemma_find_characterization(s: Seq<Participant>, id: PeerId, i: int)
    requires
        0 <= i <= s.len(),
        forall|j: int| 0 <= j < i ==> (#[trigger] s[j]).id != id,
        i < s.len() ==> s[i].id == id,
    ensures
        spec_find(s, id) == if i == s.len() {
            -1
        } else {
            i
        },
    decreases s.len(),
{
    if s.len() > 0 {
        if i == 0 {
        } else {
            let rest = s.drop_first();
            assert forall|j: int| 0 <= j < i - 1 implies (#[trigger] rest[j]).id != id by {
                assert(rest[j] == s[j + 1]);
            }
            assert(i - 1 < rest.len() ==> rest[i - 1].id == id) by {
                if i - 1 < rest.len() {
                    assert(rest[i - 1] == s[i]);
                }
            }
            lemma_find_characterization(rest, id, i - 1);
        }
    }
}

impl CombatSession {
    /// Index of the participant with the given id, if any.
    fn find_participant(&self, id: PeerId) -> (r: Option<usize>)
        ensures
            match r {
                Some(i) => i as int == spec_find(self.participants@, id),
                None => spec_find(self.participants@, id) == -1,
            },
    {
        let n = self.participants.len();
        let mut i: usize = 0;
        while i < n
            invariant
                i <= n,
                n == self.participants@.len(),
                forall|j: int| 0 <= j < i as int ==> (#[trigger] self.participants@[j]).id != id,
            decreases n - i,
        {
            if self.participants[i].id == id {
                proof {
                    lemma_find_characterization(self.participants@, id, i as int);
                }
                return Some(i);
            }
            i = i + 1;
        }
        proof {
            lemma_find_characterization(self.participants@, id, n as int);
        }
        None
    }

    /// How many participants have signalled readiness.
    fn count_ready(&self) -> (r: usize)
        ensures
            r as nat == spec_ready_count(self.participants@),
    {
        let n = self.participants.len();
        let mut i: usize = 0;
        let mut count: usize = 0;
        proof {
            assert(self.participants@.take(0) =~= Seq::<Participant>::empty());
        }
        while i < n
            invariant
                i <= n,
                n == self.participants@.len(),
                count <= i,
                count as nat == spec_ready_count(self.participants@.take(i as int)),
            decreases n - i,
        {
            proof {
                lemma_ready_count_take_step(self.participants@, i as int);
            }
            if self.participants[i].ready {
                count = count + 1;
            }
            i = i + 1;
        }
        proof {
            assert(self.participants@.take(n as int) =~= self.participants@);
        }
        count
    }

    /// Applies a readiness message per the consensus rule of the
    /// preparation sub-protocol: record the sender's flag; if the local
    /// peer is the session owner and now every participant is ready,
    /// broadcast the combat start and advance to `NextTurn` — exactly one
    /// peer, the owner, can ever originate that broadcast. A message from
    /// a peer outside the session, or outside preparation, is ignored
    /// without any effect.
    pub fn handle_ready_state_changed(&mut self, sender: PeerId, is_ready: bool) -> (r: Option<
        Message,
    >)
        requires
            old(self).wf(),
        ensures
            final(self).wf(),
            final(self).owner == old(self).owner,
            final(self).local_id == old(self).local_id,
            final(self).turn_action == old(self).turn_action,
            ({
                let i = spec_find(old(self).participants@, sender);
                if old(self).phase != Phase::Preparation || i == -1 {
                    &&& *final(self) == *old(self)
                    &&& r is None
                } else {
                    &&& final(self).participants@ == old(self).participants@.update(
                        i,
                        spec_set_ready(old(self).participants@[i], is_ready),
                    )
                    &&& if spec_consensus_fires(*old(self), sender, is_ready) {
                        &&& r == Some(Message::CombatStart)
                        &&& final(self).phase == Phase::NextTurn
                        &&& final(self).timer is None
                    } else {
                        &&& r is None
                        &&& final(self).phase == old(self).phase
                        &&& final(self).timer == old(self).timer
                    }
                }
            }),
    {
        if self.phase != Phase::Preparation {
            return None;
        }
        let found = self.find_participant(sender);
        match found {
            None => None,
            Some(i) => {
                proof {
                    lemma_find_properties(self.participants@, sender);
                }
                let p: &mut Participant = &mut self.participants[i];
                p.ready = is_ready;
                proof {
                    assert(*final(p) == spec_set_ready(
                        old(self).participants@[i as int],
                        is_ready,
                    ));
                }
                let all = self.count_ready() == self.participants.len();
                proof {
                    lemma_ready_count_full(self.participants@);
                }
                if self.local_id == self.owner && all {
                    self.phase = Phase::NextTurn;
                    self.timer = None;
                    Some(Message::CombatStart)
                } else {
                    None
                }
            },
        }
    }
}

impl CombatSession {
    /// Advances the active phase's countdown. During preparation, the tick
    /// that completes the countdown makes the owner — and only the owner —
    /// broadcast the combat start and advance to `NextTurn`; a non-owner
    /// merely watches its countdown run out and keeps waiting for the
    /// owner's broadcast. During the local turn, the completing tick ends
    /// the turn. The completing tick fires its effect exactly once: a
    /// countdown already finished cannot fire again.
    pub fn update_timer(&mut self, delta: u64) -> (r: Option<Message>)
        requires
            old(self).wf(),
        ensures
            final(self).wf(),
            final(self).owner == old(self).owner,
            final(self).local_id == old(self).local_id,
            final(self).participants == old(self).participants,
            ({
                let t = old(self).timer->Some_0;
                if old(self).phase == Phase::Preparation {
                    if spec_timer_crosses(t, delta) && old(self).spec_is_owner() {
                        &&& r == Some(Message::CombatStart)
                        &&& final(self).phase == Phase::NextTurn
                        &&& final(self).timer is None
                    } else {
                        &&& r is None
                        &&& final(self).phase == Phase::Preparation
                        &&& final(self).timer == Some(spec_tick(t, delta))
                    }
                } else if old(self).phase == Phase::YourTurn {
                    if spec_timer_crosses(t, delta) {
                        &&& r is None
                        &&& final(self).phase == Phase::NextTurn
                        &&& final(self).timer is None
                        &&& final(self).turn_action == TurnAction::NotInTurn
                    } else {
                        &&& r is None
                        &&& final(self).phase == Phase::YourTurn
                        &&& final(self).timer == Some(spec_tick(t, delta))
                        &&& final(self).turn_action == old(self).turn_action
                    }
                } else {
                    &&& r is None
                    &&& *final(self) == *old(self)
                }
            }),
    {
        match self.phase {
            Phase::Preparation => {
                let mut t = self.timer.unwrap();
                let just_finished = t.tick(delta);
                if just_finished && self.local_id == self.owner {
                    self.timer = None;
                    self.phase = Phase::NextTurn;
                    Some(Message::CombatStart)
                } else {
                    self.timer = Some(t);
                    None
                }
            },
            Phase::YourTurn => {
                let mut t = self.timer.unwrap();
                let just_finished = t.tick(delta);
                if just_finished {
                    self.timer = None;
                    self.phase = Phase::NextTurn;
                    self.turn_action = TurnAction::NotInTurn;
                } else {
                    self.timer = Some(t);
                }
                None
            },
            _ => None,
        }
    }

    /// Follows the owner's start broadcast: a peer in preparation advances
    /// reactively to `NextTurn`; in any other phase the message is stale
    /// (for instance the second of two idempotent start broadcasts) and is
    /// ignored.
    pub fn handle_combat_started(&mut self) -> (r: bool)
        requires
            old(self).wf(),
        ensures
            final(self).wf(),
            final(self).owner == old(self).owner,
            final(self).local_id == old(self).local_id,
            final(self).participants == old(self).participants,
            r == (old(self).phase == Phase::Preparation),
            r ==> final(self).phase == Phase::NextTurn && final(self).timer is None,
            !r ==> *final(self) == *old(self),
    {
        if self.phase == Phase::Preparation {
            self.phase = Phase::NextTurn;
            self.timer = None;
            true
        } else {
            false
        }
    }

    /// The local player toggles its own readiness: the flag is recorded
    /// and broadcast, and the same consensus rule runs as for a remote
    /// readiness message — so an owner readying up last starts the combat
    /// itself.
    pub fn set_local_ready(&mut self, is_ready: bool) -> (r: (Message, Option<Message>))
        requires
            old(self).wf(),
        ensures
            final(self).wf(),
            final(self).owner == old(self).owner,
            final(self).local_id == old(self).local_id,
            r.0 == Message::CombatReadyStateChanged(is_ready),
            ({
                let i = spec_find(old(self).participants@, old(self).local_id);
                if old(self).phase != Phase::Preparation || i == -1 {
                    &&& *final(self) == *old(self)
                    &&& r.1 is None
                } else {
                    &&& final(self).participants@ == old(self).participants@.update(
                        i,
                        spec_set_ready(old(self).participants@[i], is_ready),
                    )
                    &&& if spec_consensus_fires(*old(self), old(self).local_id, is_ready) {
                        &&& r.1 == Some(Message::CombatStart)
                        &&& final(self).phase == Phase::NextTurn
                    } else {
                        &&& r.1 is None
                        &&& final(self).phase == old(self).phase
                    }
                }
            }),
    {
        let me = self.local_id;
        let fired = self.handle_ready_state_changed(me, is_ready);
        (Message::CombatReadyStateChanged(is_ready), fired)
    }

    /// Records a peer joining the combat: a new participant with the
    /// carried stats and position, its action budgets drawn from the
    /// stats; a peer already in the session has its stats and position
    /// refreshed instead. Only meaningful during preparation; otherwise
    /// ignored.
    pub fn handle_player_joined(
        &mut self,
        sender: PeerId,
        stats: Info,
        position: TileCoordinate<AbsoluteSpace>,
    ) -> (r: bool)
        requires
            old(self).wf(),
        ensures
            final(self).wf(),
            final(self).owner == old(self).owner,
            final(self).local_id == old(self).local_id,
            final(self).phase == old(self).phase,
            final(self).timer == old(self).timer,
            r == (old(self).phase == Phase::Preparation),
            !r ==> *final(self) == *old(self),
            ({
                let i = spec_find(old(self).participants@, sender);
                if old(self).phase != Phase::Preparation {
                    true
                } else if i == -1 {
                    &&& final(self).participants@.len() == old(self).participants@.len() + 1
                    &&& final(self).participants@.take(old(self).participants@.len() as int)
                        == old(self).participants@
                    &&& final(self).participants@.last() == (Participant {
                        id: sender,
                        position,
                        stats_snapshot: stats,
                        ready: false,
                        movement_points_remaining: stats.movement_points,
                        action_points_remaining: stats.action_points,
                    })
                } else {
                    final(self).participants@ == old(self).participants@.update(
                        i,
                        Participant {
                            id: sender,
                            position,
                            stats_snapshot: stats,
                            ready: old(self).participants@[i].ready,
                            movement_points_remaining: stats.movement_points,
                            action_points_remaining: stats.action_points,
                        },
                    )
                }
            }),
    {
        if self.phase != Phase::Preparation {
            return false;
        }
        let found = self.find_participant(sender);
        proof {
            lemma_find_properties(self.participants@, sender);
        }
        let movement_points = stats.movement_points;
        let action_points = stats.action_points;
        match found {
            None => {
                self.participants.push(
                    Participant {
                        id: sender,
                        position,
                        stats_snapshot: stats,
                        ready: false,
                        movement_points_remaining: movement_points,
                        action_points_remaining: action_points,
                    },
                );
                proof {
                    assert(final(self).participants@.take(old(self).participants@.len() as int)
                        =~= old(self).participants@);
                }
            },
            Some(i) => {
                let was_ready = self.participants[i].ready;
                let p: &mut Participant = &mut self.participants[i];
                *p = Participant {
                    id: sender,
                    position,
                    stats_snapshot: stats,
                    ready: was_ready,
                    movement_points_remaining: movement_points,
                    action_points_remaining: action_points,
                };
            },
        }
        true
    }

    /// Records a peer's position broadcast: moves that participant, and no
    /// one else. A position from a peer not in the session is ignored.
    pub fn handle_position_update(
        &mut self,
        sender: PeerId,
        position: TileCoordinate<AbsoluteSpace>,
    ) -> (r: bool)
        requires
            old(self).wf(),
        ensures
            final(self).wf(),
            final(self).owner == old(self).owner,
            final(self).local_id == old(self).local_id,
            final(self).phase == old(self).phase,
            final(self).timer == old(self).timer,
            final(self).turn_action == old(self).turn_action,
            ({
                let i = spec_find(old(self).participants@, sender);
                if i == -1 {
                    &&& !r
                    &&& *final(self) == *old(self)
                } else {
                    let p = old(self).participants@[i];
                    &&& r
                    &&& final(self).participants@ == old(self).participants@.update(
                        i,
                        Participant {
                            id: p.id,
                            position,
                            stats_snapshot: p.stats_snapshot,
                            ready: p.ready,
                            movement_points_remaining: p.movement_points_remaining,
                            action_points_remaining: p.action_points_remaining,
                        },
                    )
                }
            }),
    {
        let found = self.find_participant(sender);
        proof {
            lemma_find_properties(self.participants@, sender);
        }
        match found {
            None => false,
            Some(i) => {
                let p: &mut Participant = &mut self.participants[i];
                p.position = position;
                true
            },
        }
    }

    /// Removes a disconnected peer's participant, keeping everyone else in
    /// order; a peer that was never in the session changes nothing.
    pub fn handle_peer_disconnected(&mut self, peer: PeerId) -> (r: bool)
        requires
            old(self).wf(),
        ensures
            final(self).wf(),
            final(self).owner == old(self).owner,
            final(self).local_id == old(self).local_id,
            final(self).phase == old(self).phase,
            final(self).timer == old(self).timer,
            final(self).turn_action == old(self).turn_action,
            ({
                let i = spec_find(old(self).participants@, peer);
                if i == -1 {
                    &&& !r
                    &&& *final(self) == *old(self)
                } else {
                    &&& r
                    &&& final(self).participants@ == old(self).participants@.remove(i)
                }
            }),
    {
        let found = self.find_participant(peer);
        proof {
            lemma_find_properties(self.participants@, peer);
        }
        match found {
            None => false,
            Some(i) => {
                self.participants.remove(i);
                true
            },
        }
    }
}

/// Relies on rand's `SliceRandom::shuffle`: it reorders the slice in place,
/// so the new contents are a permutation of the old — which permutation
/// depends on the thread-local generator and is left unstated.
#[verifier::external_body]
fn shuffle_tiles(v: &mut Vec<TileCoordinate<LocalSpace>>)
    ensures
        final(v)@.to_multiset() == old(v)@.to_multiset(),
{
    v.shuffle(&mut rand::thread_rng());
}

/// How many ground tiles a row holds among its first `upto` columns.
pub open spec fn spec_ground_in_row(c: Chunk, z: int, upto: int) -> nat
    decreases upto,
{
    if upto <= 0 {
        0
    } else {
        spec_ground_in_row(c, z, upto - 1) + if c.tile_at(upto - 1, z) == Tile::Ground {
            1nat
        } else {
            0nat
        }
    }
}

/// How many ground tiles the first `rows` rows of the chunk hold.
pub open spec fn spec_ground_upto(c: Chunk, rows: int) -> nat
    decreases rows,
{
    if rows <= 0 {
        0
    } else {
        spec_ground_upto(c, rows - 1) + spec_ground_in_row(c, rows - 1, SIZE_X as int)
    }
}

/// How many ground tiles the chunk holds.
pub open spec fn spec_ground_count(c: Chunk) -> nat {
    spec_ground_upto(c, SIZE_Z as int)
}

/// The ground tiles of one row, in increasing column order.
fn ground_tiles_row(chunk: &Chunk, z: usize) -> (row: Vec<TileCoordinate<LocalSpace>>)
    requires
        chunk.wf(),
        z < SIZE_Z,
    ensures
        forall|k: int|
            0 <= k < row@.len() ==> (#[trigger] row@[k]).chunk_valid() && row@[k].z == z
                && chunk.tile_at(row@[k].x as int, z as int) == Tile::Ground,
        forall|k1: int, k2: int|
            0 <= k1 < k2 < row@.len() ==> (#[trigger] row@[k1]).x < (#[trigger] row@[k2]).x,
        row@.len() == spec_ground_in_row(*chunk, z as int, SIZE_X as int),
{
    let mut row: Vec<TileCoordinate<LocalSpace>> = Vec::new();
    let mut x: usize = 0;
    while x < SIZE_X
        invariant
            chunk.wf(),
            z < SIZE_Z,
            x <= SIZE_X,
            forall|k: int|
                0 <= k < row@.len() ==> (#[trigger] row@[k]).chunk_valid() && row@[k].z == z
                    && chunk.tile_at(row@[k].x as int, z as int) == Tile::Ground,
            forall|k: int| 0 <= k < row@.len() ==> (#[trigger] row@[k]).x < x,
            forall|k1: int, k2: int|
                0 <= k1 < k2 < row@.len() ==> (#[trigger] row@[k1]).x < (#[trigger] row@[k2]).x,
            row@.len() == spec_ground_in_row(*chunk, z as int, x as int),
        decreases SIZE_X - x,
    {
        let t = chunk.get_tile(TileCoordinate::new(x as i32, z as i32));
        let is_ground = match t {
            Some(tv) => *tv == Tile::Ground,
            None => false,
        };
        if is_ground {
            let tc: TileCoordinate<LocalSpace> = TileCoordinate::new(x as i32, z as i32);
            row.push(tc);
        }
        x = x + 1;
    }
    row
}

/// Every ground tile of the chunk, in row-major order: each entry is a
/// chunk-valid ground coordinate, none repeats, and the length is exactly
/// the chunk's ground-tile count, so none is missed.
pub fn ground_tiles(chunk: &Chunk) -> (r: Vec<TileCoordinate<LocalSpace>>)
    requires
        chunk.wf(),
    ensures
        forall|k: int|
            0 <= k < r@.len() ==> (#[trigger] r@[k]).chunk_valid() && chunk.tile_at(
                r@[k].x as int,
                r@[k].z as int,
            ) == Tile::Ground,
        r@.no_duplicates(),
        r@.len() == spec_ground_count(*chunk),
{
    let mut r: Vec<TileCoordinate<LocalSpace>> = Vec::new();
    let mut z: usize = 0;
    while z < SIZE_Z
        invariant
            z <= SIZE_Z,
            chunk.wf(),
            forall|k: int|
                0 <= k < r@.len() ==> (#[trigger] r@[k]).chunk_valid() && chunk.tile_at(
                    r@[k].x as int,
                    r@[k].z as int,
                ) == Tile::Ground,
            forall|k: int| 0 <= k < r@.len() ==> (#[trigger] r@[k]).z < z,
            forall|k1: int, k2: int|
                0 <= k1 < k2 < r@.len() ==> #[trigger] r@[k1] != #[trigger] r@[k2],
            r@.len() == spec_ground_upto(*chunk, z as int),
        decreases SIZE_Z - z,
    {
        let mut row = ground_tiles_row(chunk, z);
        let ghost rprev = r@;
        let ghost rowv = row@;
        r.append(&mut row);
        proof {
            assert(r@ == rprev + rowv);
            assert forall|k: int| 0 <= k < r@.len() implies (#[trigger] r@[k]).chunk_valid()
                && chunk.tile_at(r@[k].x as int, r@[k].z as int) == Tile::Ground && r@[k].z
                < z + 1 by {
                if k < rprev.len() {
                    assert(r@[k] == rprev[k]);
                } else {
                    assert(r@[k] == rowv[k - rprev.len()]);
                }
            }
            assert forall|k1: int, k2: int| 0 <= k1 < k2 < r@.len() implies #[trigger] r@[k1]
                != #[trigger] r@[k2] by {
                if k2 < rprev.len() {
                    assert(r@[k1] == rprev[k1] && r@[k2] == rprev[k2]);
                } else if k1 >= rprev.len() {
                    assert(r@[k1] == rowv[k1 - rprev.len()] && r@[k2] == rowv[k2 - rprev.len()]);
                    assert(rowv[k1 - rprev.len()].x < rowv[k2 - rprev.len()].x);
                } else {
                    assert(r@[k1] == rprev[k1] && r@[k2] == rowv[k2 - rprev.len()]);
                    assert(rprev[k1].z < z && rowv[k2 - rprev.len()].z == z);
                }
            }
        }
        z = z + 1;
    }
    proof {
        assert(r@.no_duplicates()) by {
            assert(forall|k1: int, k2: int|
                0 <= k1 < k2 < r@.len() ==> #[trigger] r@[k1] != #[trigger] r@[k2]);
        }
    }
    r
}

/// Selects the preparation phase's placement spots: ten distinct ground
/// tiles of the arena, chosen uniformly at random without replacement —
/// or every ground tile, when the arena offers fewer than ten.
pub fn choose_placement_spots(chunk: &Chunk) -> (spots: Vec<TileCoordinate<LocalSpace>>)
    requires
        chunk.wf(),
    ensures
        spots@.len() == if spec_ground_count(*chunk) < 10 {
            spec_ground_count(*chunk)
        } else {
            10nat
        },
        forall|k: int|
            0 <= k < spots@.len() ==> (#[trigger] spots@[k]).chunk_valid() && chunk.tile_at(
                spots@[k].x as int,
                spots@[k].z as int,
            ) == Tile::Ground,
        spots@.no_duplicates(),
{
    let ground = ground_tiles(chunk);
    let ghost ground0 = ground@;
    let mut shuffled = ground;
    shuffle_tiles(&mut shuffled);
    proof {
        broadcast use vstd::seq_lib::group_to_multiset_ensures;

        assert(shuffled@.to_multiset().len() == shuffled@.len());
        assert(ground0.to_multiset().len() == ground0.len());
        assert(shuffled@.len() == ground0.len());
        ground0.lemma_multiset_has_no_duplicates();
        shuffled@.lemma_multiset_has_no_duplicates_conv();
        assert forall|k: int| 0 <= k < shuffled@.len() implies (
        #[trigger] shuffled@[k]).chunk_valid() && chunk.tile_at(
            shuffled@[k].x as int,
            shuffled@[k].z as int,
        ) == Tile::Ground by {
            let e = shuffled@[k];
            assert(shuffled@.contains(e));
            assert(shuffled@.to_multiset().count(e) > 0);
            assert(ground0.contains(e));
            let j = choose|j: int| 0 <= j < ground0.len() && ground0[j] == e;
        }
    }
    let mut spots = shuffled;
    let ghost all = spots@;
    if spots.len() > 10 {
        spots.truncate(10);
        proof {
            assert(spots@ == all.subrange(0, 10));
            assert forall|k1: int, k2: int|
                0 <= k1 < k2 < spots@.len() implies #[trigger] spots@[k1] != #[trigger] spots@[k2] by {
                assert(spots@[k1] == all[k1] && spots@[k2] == all[k2]);
            }
        }
    }
    spots
}

impl CombatSession {
    /// Enters combat from the open world: the only way into
    /// `Preparation`, starting its countdown. Fails (and changes nothing)
    /// unless the session was still out of combat.
    pub fn enter_combat(&mut self) -> (r: bool)
        requires
            old(self).wf(),
        ensures
            final(self).wf(),
            final(self).owner == old(self).owner,
            final(self).local_id == old(self).local_id,
            final(self).participants == old(self).participants,
            r == (old(self).phase == Phase::NotInCombat),
            r ==> final(self).phase == Phase::Preparation && final(self).timer == Some(
                CombatTimer { elapsed: 0, duration: PREPARATION_DURATION },
            ),
            !r ==> *final(self) == *old(self),
    {
        if self.phase == Phase::NotInCombat {
            self.phase = Phase::Preparation;
            self.timer = Some(CombatTimer::new(PREPARATION_DURATION));
            true
        } else {
            false
        }
    }

    /// Moves the local participant to a placement spot during preparation
    /// and hands back the position broadcast for the peers. Outside
    /// preparation, or with the local player missing from the session,
    /// nothing happens.
    pub fn place_local(&mut self, position: TileCoordinate<AbsoluteSpace>) -> (r: Option<Message>)
        requires
            old(self).wf(),
        ensures
            final(self).wf(),
            final(self).owner == old(self).owner,
            final(self).local_id == old(self).local_id,
            final(self).phase == old(self).phase,
            final(self).timer == old(self).timer,
            final(self).turn_action == old(self).turn_action,
            ({
                let i = spec_find(old(self).participants@, old(self).local_id);
                if old(self).phase != Phase::Preparation || i == -1 {
                    &&& r is None
                    &&& *final(self) == *old(self)
                } else {
                    let p = old(self).participants@[i];
                    &&& final(self).participants@ == old(self).participants@.update(
                        i,
                        Participant {
                            id: p.id,
                            position,
                            stats_snapshot: p.stats_snapshot,
                            ready: p.ready,
                            movement_points_remaining: p.movement_points_remaining,
                            action_points_remaining: p.action_points_remaining,
                        },
                    )
                    &&& r == Some(
                        Message::UpdatePlayerPosition(
                            UpdatePlayerPosition {
                                x: crate::tile::spec_tile_world_x(
                                    position.x as int,
                                    position.z as int,
                                ) as i64,
                                z: position.z as i64,
                            },
                        ),
                    )
                }
            }),
    {
        if self.phase != Phase::Preparation {
            return None;
        }
        let me = self.local_id;
        let moved = self.handle_position_update(me, position);
        if moved {
            let w = position.to_world();
            Some(Message::UpdatePlayerPosition(UpdatePlayerPosition { x: w.x, z: w.z }))
        } else {
            None
        }
    }

    /// Starts the local player's turn, from the turn-order decision point:
    /// the turn countdown begins, the player waits for its next action,
    /// and its movement and action budgets are refilled from its stats.
    /// Fails (and changes nothing) outside `NextTurn` or with the local
    /// player missing.
    pub fn begin_turn(&mut self) -> (r: bool)
        requires
            old(self).wf(),
        ensures
            final(self).wf(),
            final(self).owner == old(self).owner,
            final(self).local_id == old(self).local_id,
            ({
                let i = spec_find(old(self).participants@, old(self).local_id);
                if old(self).phase != Phase::NextTurn || i == -1 {
                    &&& !r
                    &&& *final(self) == *old(self)
                } else {
                    let p = old(self).participants@[i];
                    &&& r
                    &&& final(self).phase == Phase::YourTurn
                    &&& final(self).turn_action == TurnAction::WaitingNextAction
                    &&& final(self).timer == Some(
                        CombatTimer { elapsed: 0, duration: TURN_DURATION },
                    )
                    &&& final(self).participants@ == old(self).participants@.update(
                        i,
                        Participant {
                            id: p.id,
                            position: p.position,
                            stats_snapshot: p.stats_snapshot,
                            ready: p.ready,
                            movement_points_remaining: p.stats_snapshot.movement_points,
                            action_points_remaining: p.stats_snapshot.action_points,
                        },
                    )
                }
            }),
    {
        if self.phase != Phase::NextTurn {
            return false;
        }
        let me = self.local_id;
        let found = self.find_participant(me);
        proof {
            lemma_find_properties(self.participants@, me);
        }
        match found {
            None => false,
            Some(i) => {
                let movement_points = self.participants[i].stats_snapshot.movement_points;
                let action_points = self.participants[i].stats_snapshot.action_points;
                let p: &mut Participant = &mut self.participants[i];
                p.movement_points_remaining = movement_points;
                p.action_points_remaining = action_points;
                self.phase = Phase::YourTurn;
                self.turn_action = TurnAction::WaitingNextAction;
                self.timer = Some(CombatTimer::new(TURN_DURATION));
                true
            },
        }
    }

    /// The local player takes one of its movement options: it moves to the
    /// chosen tile and that tile's cost is deducted from its movement
    /// budget. Allowed only while waiting for the next action of its own
    /// turn, with enough budget left; otherwise nothing happens.
    pub fn apply_move(&mut self, target: TileCoordinate<AbsoluteSpace>, cost: u8) -> (r: bool)
        requires
            old(self).wf(),
        ensures
            final(self).wf(),
            final(self).owner == old(self).owner,
            final(self).local_id == old(self).local_id,
            final(self).phase == old(self).phase,
            final(self).timer == old(self).timer,
            ({
                let i = spec_find(old(self).participants@, old(self).local_id);
                let ok = old(self).phase == Phase::YourTurn && old(self).turn_action
                    == TurnAction::WaitingNextAction && i != -1 && cost <= old(
                    self,
                ).participants@[i].movement_points_remaining;
                if !ok {
                    &&& !r
                    &&& *final(self) == *old(self)
                } else {
                    let p = old(self).participants@[i];
                    &&& r
                    &&& final(self).turn_action == TurnAction::Move
                    &&& final(self).participants@ == old(self).participants@.update(
                        i,
                        Participant {
                            id: p.id,
                            position: target,
                            stats_snapshot: p.stats_snapshot,
                            ready: p.ready,
                            movement_points_remaining: (p.movement_points_remaining - cost) as u8,
                            action_points_remaining: p.action_points_remaining,
                        },
                    )
                }
            }),
    {
        if !(self.phase == Phase::YourTurn && self.turn_action == TurnAction::WaitingNextAction) {
            return false;
        }
        let me = self.local_id;
        let found = self.find_participant(me);
        proof {
            lemma_find_properties(self.participants@, me);
        }
        match found {
            None => false,
            Some(i) => {
                if cost > self.participants[i].movement_points_remaining {
                    return false;
                }
                let p: &mut Participant = &mut self.participants[i];
                p.position = target;
                p.movement_points_remaining = p.movement_points_remaining - cost;
                self.turn_action = TurnAction::Move;
                true
            },
        }
    }

    /// The move animation is over: back to waiting for the next action.
    pub fn finish_move_animation(&mut self) -> (r: bool)
        requires
            old(self).wf(),
        ensures
            final(self).wf(),
            r == (old(self).phase == Phase::YourTurn && old(self).turn_action == TurnAction::Move),
            r ==> *final(self) == (CombatSession {
                turn_action: TurnAction::WaitingNextAction,
                ..*old(self)
            }),
            !r ==> *final(self) == *old(self),
    {
        if self.phase == Phase::YourTurn && self.turn_action == TurnAction::Move {
            self.turn_action = TurnAction::WaitingNextAction;
            true
        } else {
            false
        }
    }

    /// Ends the local player's turn, by choice or by its countdown running
    /// out: the turn's resources are torn down and the session is back at
    /// the turn-order decision point.
    pub fn end_turn(&mut self) -> (r: bool)
        requires
            old(self).wf(),
        ensures
            final(self).wf(),
            final(self).owner == old(self).owner,
            final(self).local_id == old(self).local_id,
            final(self).participants == old(self).participants,
            r == (old(self).phase == Phase::YourTurn),
            r ==> final(self).phase == Phase::NextTurn && final(self).timer is None,
            r ==> final(self).turn_action == TurnAction::NotInTurn,
            !r ==> *final(self) == *old(self),
    {
        if self.phase == Phase::YourTurn {
            self.phase = Phase::NextTurn;
            self.turn_action = TurnAction::NotInTurn;
            self.timer = None;
            true
        } else {
            false
        }
    }
}

/// A participant moved to a new position, all else equal.
pub open spec fn spec_with_position(
    p: Participant,
    position: TileCoordinate<AbsoluteSpace>,
) -> Participant {
    Participant {
        id: p.id,
        position,
        stats_snapshot: p.stats_snapshot,
        ready: p.ready,
        movement_points_remaining: p.movement_points_remaining,
        action_points_remaining: p.action_points_remaining,
    }
}

impl CombatSession {
    /// Routes one inbound peer message to the handler its variant and the
    /// current phase call for, returning what must be broadcast in
    /// response. Messages irrelevant to the current phase — and the
    /// exploration-mode messages, which never concern a combat session —
    /// are ignored without any effect. Whatever arrives, the phase only
    /// ever moves along an edge of the phase graph.
    pub fn handle_message(&mut self, sender: PeerId, m: Message) -> (out: Vec<Message>)
        requires
            old(self).wf(),
        ensures
            final(self).wf(),
            final(self).owner == old(self).owner,
            final(self).local_id == old(self).local_id,
            final(self).phase == old(self).phase || spec_can_transition(
                old(self).phase,
                final(self).phase,
            ),
            (m matches Message::CombatReadyStateChanged(b) ==> ({
                let i = spec_find(old(self).participants@, sender);
                if old(self).phase != Phase::Preparation || i == -1 {
                    &&& *final(self) == *old(self)
                    &&& out@ =~= Seq::<Message>::empty()
                } else {
                    &&& final(self).participants@ == old(self).participants@.update(
                        i,
                        spec_set_ready(old(self).participants@[i], b),
                    )
                    &&& if spec_consensus_fires(*old(self), sender, b) {
                        &&& out@ =~= seq![Message::CombatStart]
                        &&& final(self).phase == Phase::NextTurn
                    } else {
                        &&& out@ =~= Seq::<Message>::empty()
                        &&& final(self).phase == old(self).phase
                    }
                }
            })),
            (m is CombatStart ==> out@ =~= Seq::<Message>::empty() && final(self).participants
                == old(self).participants && (if old(self).phase == Phase::Preparation {
                final(self).phase == Phase::NextTurn
            } else {
                *final(self) == *old(self)
            })),
            (m matches Message::UpdatePlayerPosition(p) ==> out@ =~= Seq::<Message>::empty() && ({
                let w = WorldPos { x: p.x, z: p.z };
                let i = spec_find(old(self).participants@, sender);
                if old(self).phase != Phase::Preparation || !spec_world_in_tile_range(w) || i
                    == -1 {
                    *final(self) == *old(self)
                } else {
                    let t = final(self).participants@[i].position;
                    &&& final(self).participants@ == old(self).participants@.update(
                        i,
                        spec_with_position(old(self).participants@[i], t),
                    )
                    &&& t.x as int == spec_world_tile_x(w)
                    &&& t.z as int == w.z as int
                    &&& final(self).phase == old(self).phase
                }
            })),
            (m matches Message::CombatPlayerJoined { stats, position } ==> out@ =~= Seq::<
                Message,
            >::empty() && final(self).phase == old(self).phase && ({
                let i = spec_find(old(self).participants@, sender);
                if old(self).phase != Phase::Preparation || !spec_world_in_tile_range(position) {
                    *final(self) == *old(self)
                } else {
                    let t = if i == -1 {
                        final(self).participants@.last().position
                    } else {
                        final(self).participants@[i].position
                    };
                    &&& t.x as int == spec_world_tile_x(position)
                    &&& t.z as int == position.z as int
                    &&& if i == -1 {
                        &&& final(self).participants@.len() == old(self).participants@.len() + 1
                        &&& final(self).participants@.take(old(self).participants@.len() as int)
                            == old(self).participants@
                        &&& final(self).participants@.last() == (Participant {
                            id: sender,
                            position: t,
                            stats_snapshot: stats,
                            ready: false,
                            movement_points_remaining: stats.movement_points,
                            action_points_remaining: stats.action_points,
                        })
                    } else {
                        final(self).participants@ == old(self).participants@.update(
                            i,
                            Participant {
                                id: sender,
                                position: t,
                                stats_snapshot: stats,
                                ready: old(self).participants@[i].ready,
                                movement_points_remaining: stats.movement_points,
                                action_points_remaining: stats.action_points,
                            },
                        )
                    }
                }
            })),
            ((m is PlayerInitInfo || m is DuelDemand || m is DuelAccepted || m is DuelRefused
                || m is DuelCancelled) ==> *final(self) == *old(self) && out@ =~= Seq::<
                Message,
            >::empty()),
    {
        let mut out: Vec<Message> = Vec::new();
        match m {
            Message::CombatReadyStateChanged(b) => {
                let fired = self.handle_ready_state_changed(sender, b);
                match fired {
                    Some(msg) => {
                        out.push(msg);
                    },
                    None => {},
                }
            },
            Message::CombatStart => {
                self.handle_combat_started();
            },
            Message::UpdatePlayerPosition(p) => {
                if self.phase == Phase::Preparation {
                    let w = WorldPos { x: p.x, z: p.z };
                    let t = TileCoordinate::try_from_world(w);
                    match t {
                        Some(tile) => {
                            proof {
                                lemma_find_properties(self.participants@, sender);
                            }
                            self.handle_position_update(sender, tile);
                        },
                        None => {},
                    }
                }
            },
            Message::CombatPlayerJoined { stats, position } => {
                if self.phase == Phase::Preparation {
                    let t = TileCoordinate::try_from_world(position);
                    match t {
                        Some(tile) => {
                            proof {
                                lemma_find_properties(self.participants@, sender);
                            }
                            self.handle_player_joined(sender, stats, tile);
                        },
                        None => {},
                    }
                }
            },
            _ => {},
        }
        out
    }
}

/// One step of the readiness count over a growing prefix.
proof fn lemma_ready_count_take_step(s: Seq<Participant>, i: int)
    requires
        0 <= i < s.len(),
    ensures
        spec_ready_count(s.take(i + 1)) == spec_ready_count(s.take(i)) + if s[i].ready {
            1nat
        } else {
            0nat
        },
    decreases i,
{
    let a = s.take(i + 1);
    if i == 0 {
        assert(a.drop_first() =~= s.take(0));
    } else {
        let b = s.take(i);
        assert(a.drop_first() =~= s.drop_first().take(i));
        assert(b.drop_first() =~= s.drop_first().take(i - 1));
        assert(s.drop_first()[i - 1] == s[i]);
        lemma_ready_count_take_step(s.drop_first(), i - 1);
        assert(a[0] == b[0]);
    }
}

} // verus!
