use combat_core::player::Info;
use combat_core::protocol::{decode, encode, Message, PeerId};
use combat_core::session::{
    CombatSession, Phase, TurnAction, PREPARATION_DURATION, TURN_DURATION,
};
use combat_core::tile::{AbsoluteSpace, TileCoordinate};
use combat_core::timer::CombatTimer;

fn info(name: &str) -> Info {
    Info {
        name: name.as_bytes().to_vec(),
        max_health: 100,
        action_points: 6,
        movement_points: 3,
    }
}

fn tile(x: i32, z: i32) -> TileCoordinate<AbsoluteSpace> {
    TileCoordinate::new(x, z)
}

fn owner_session() -> CombatSession {
    // the local peer demanded the duel, the remote peer accepted
    let mut s = CombatSession::duel_accepted(PeerId(1), info("alice"), tile(0, 0));
    assert!(s.enter_combat());
    s
}

fn joined(s: &mut CombatSession, id: PeerId, name: &str) {
    assert!(s.handle_player_joined(id, info(name), tile(1, 1)));
}

#[test]
fn timer_completes_exactly_once() {
    let mut t = CombatTimer::new(10);
    assert!(!t.finished());
    assert!(!t.tick(4));
    assert_eq!(t.progress(), (4, 10));
    assert!(t.tick(100));
    assert!(t.finished());
    assert_eq!(t.progress(), (10, 10));
    // already finished: the crossing tick never fires twice
    assert!(!t.tick(5));
}

#[test]
fn phase_graph_rejects_absent_edges() {
    let mut s = owner_session();
    assert_eq!(s.phase, Phase::Preparation);
    // no direct edge from Preparation to End
    assert!(!s.try_transition(Phase::End));
    assert_eq!(s.phase, Phase::Preparation);
    assert!(!s.try_transition(Phase::YourTurn));
    assert!(!s.try_transition(Phase::NotInCombat));
    assert_eq!(s.phase, Phase::Preparation);
    // the one legal edge out of Preparation
    assert!(s.try_transition(Phase::NextTurn));
    assert_eq!(s.phase, Phase::NextTurn);
}

#[test]
fn phase_scoped_timer_is_created_and_torn_down() {
    let mut s = owner_session();
    assert_eq!(
        s.timer,
        Some(CombatTimer { elapsed: 0, duration: PREPARATION_DURATION })
    );
    assert!(s.try_transition(Phase::NextTurn));
    assert_eq!(s.timer, None);
    assert!(s.begin_turn());
    assert_eq!(s.phase, Phase::YourTurn);
    assert_eq!(s.turn_action, TurnAction::WaitingNextAction);
    assert_eq!(s.timer, Some(CombatTimer { elapsed: 0, duration: TURN_DURATION }));
    assert!(s.end_turn());
    assert_eq!(s.timer, None);
    assert_eq!(s.turn_action, TurnAction::NotInTurn);
}

#[test]
fn consensus_fires_once_when_owner_sees_all_ready() {
    let mut s = owner_session();
    joined(&mut s, PeerId(2), "bob");
    joined(&mut s, PeerId(3), "carol");
    // two of three ready: nothing happens
    assert_eq!(s.handle_ready_state_changed(PeerId(2), true), None);
    assert_eq!(s.handle_ready_state_changed(PeerId(3), true), None);
    assert_eq!(s.phase, Phase::Preparation);
    // the owner readies up last: exactly one broadcast, one transition
    let (ready_msg, fired) = s.set_local_ready(true);
    assert_eq!(ready_msg, Message::CombatReadyStateChanged(true));
    assert_eq!(fired, Some(Message::CombatStart));
    assert_eq!(s.phase, Phase::NextTurn);
    // a stale readiness message after the transition changes nothing
    assert_eq!(s.handle_ready_state_changed(PeerId(2), true), None);
    assert_eq!(s.phase, Phase::NextTurn);
}

#[test]
fn consensus_needs_every_participant() {
    let mut s = owner_session();
    joined(&mut s, PeerId(2), "bob");
    joined(&mut s, PeerId(3), "carol");
    let (_, fired) = s.set_local_ready(true);
    assert_eq!(fired, None);
    assert_eq!(s.handle_ready_state_changed(PeerId(2), true), None);
    assert_eq!(s.phase, Phase::Preparation);
    // a retraction keeps the consensus unsatisfied
    assert_eq!(s.handle_ready_state_changed(PeerId(2), false), None);
    assert_eq!(s.handle_ready_state_changed(PeerId(3), true), None);
    assert_eq!(s.phase, Phase::Preparation);
    // once the retracted peer is ready again, the last message fires
    let fired = s.handle_ready_state_changed(PeerId(2), true);
    assert_eq!(fired, Some(Message::CombatStart));
    assert_eq!(s.phase, Phase::NextTurn);
}

#[test]
fn non_owner_never_originates_the_start() {
    // the remote peer demanded; the local peer accepted, so it is not owner
    let mut s = CombatSession::accept_duel(PeerId(9), PeerId(1), info("alice"), tile(0, 0));
    assert!(s.enter_combat());
    joined(&mut s, PeerId(9), "demander");
    assert_eq!(s.handle_ready_state_changed(PeerId(9), true), None);
    let (_, fired) = s.set_local_ready(true);
    assert_eq!(fired, None);
    assert_eq!(s.phase, Phase::Preparation);
    // it transitions only reactively, on the owner's broadcast
    assert!(s.handle_combat_started());
    assert_eq!(s.phase, Phase::NextTurn);
}

#[test]
fn readiness_from_unknown_peer_is_ignored() {
    let mut s = owner_session();
    joined(&mut s, PeerId(2), "bob");
    assert_eq!(s.handle_ready_state_changed(PeerId(77), true), None);
    assert_eq!(s.phase, Phase::Preparation);
    assert_eq!(s.participants.len(), 2);
}

#[test]
fn timer_fallback_owner_vs_non_owner() {
    // owner: the countdown running out starts the combat, once
    let mut s = owner_session();
    joined(&mut s, PeerId(2), "bob");
    assert_eq!(s.handle_ready_state_changed(PeerId(2), true), None);
    assert_eq!(s.update_timer(PREPARATION_DURATION - 1), None);
    assert_eq!(s.phase, Phase::Preparation);
    assert_eq!(s.update_timer(1), Some(Message::CombatStart));
    assert_eq!(s.phase, Phase::NextTurn);

    // non-owner under identical conditions: the countdown runs out silently
    let mut s = CombatSession::accept_duel(PeerId(9), PeerId(1), info("alice"), tile(0, 0));
    assert!(s.enter_combat());
    joined(&mut s, PeerId(9), "demander");
    assert_eq!(s.handle_ready_state_changed(PeerId(9), true), None);
    assert_eq!(s.update_timer(PREPARATION_DURATION), None);
    assert_eq!(s.phase, Phase::Preparation);
    // and it stays silent on every later tick
    assert_eq!(s.update_timer(1), None);
    assert_eq!(s.phase, Phase::Preparation);
}

#[test]
fn turn_timer_expiry_ends_the_turn() {
    let mut s = owner_session();
    assert!(s.try_transition(Phase::NextTurn));
    assert!(s.begin_turn());
    assert_eq!(s.update_timer(TURN_DURATION - 1), None);
    assert_eq!(s.phase, Phase::YourTurn);
    assert_eq!(s.update_timer(5), None);
    assert_eq!(s.phase, Phase::NextTurn);
    assert_eq!(s.turn_action, TurnAction::NotInTurn);
    assert_eq!(s.timer, None);
}

#[test]
fn moving_deducts_the_tile_cost() {
    let mut s = owner_session();
    assert!(s.try_transition(Phase::NextTurn));
    assert!(s.begin_turn());
    assert_eq!(s.participants[0].movement_points_remaining, 3);
    assert!(s.apply_move(tile(2, 0), 2));
    assert_eq!(s.turn_action, TurnAction::Move);
    assert_eq!(s.participants[0].movement_points_remaining, 1);
    assert_eq!(s.participants[0].position, tile(2, 0));
    assert!(s.finish_move_animation());
    assert_eq!(s.turn_action, TurnAction::WaitingNextAction);
    // not enough budget left: rejected, nothing changes
    assert!(!s.apply_move(tile(4, 0), 2));
    assert_eq!(s.participants[0].position, tile(2, 0));
    assert_eq!(s.participants[0].movement_points_remaining, 1);
    // a fresh turn refills the budget from the stats snapshot
    assert!(s.end_turn());
    assert!(s.begin_turn());
    assert_eq!(s.participants[0].movement_points_remaining, 3);
}

#[test]
fn position_updates_and_disconnects() {
    let mut s = owner_session();
    joined(&mut s, PeerId(2), "bob");
    assert!(s.handle_position_update(PeerId(2), tile(5, 6)));
    assert_eq!(s.participants[1].position, tile(5, 6));
    // unknown peers are ignored
    assert!(!s.handle_position_update(PeerId(77), tile(9, 9)));
    assert!(s.handle_peer_disconnected(PeerId(2)));
    assert_eq!(s.participants.len(), 1);
    assert!(!s.handle_peer_disconnected(PeerId(2)));
}

#[test]
fn place_local_broadcasts_the_new_position() {
    let mut s = owner_session();
    let msg = s.place_local(tile(3, 5)).expect("placement during preparation broadcasts");
    let expected_world = tile(3, 5).to_world();
    match msg {
        Message::UpdatePlayerPosition(p) => {
            assert_eq!((p.x, p.z), (expected_world.x, expected_world.z));
        }
        other => panic!("unexpected broadcast {:?}", other),
    }
    assert_eq!(s.participants[0].position, tile(3, 5));
    // outside preparation nothing happens
    assert!(s.try_transition(Phase::NextTurn));
    assert!(s.place_local(tile(0, 0)).is_none());
    assert_eq!(s.participants[0].position, tile(3, 5));
}

/// Two participants A (the owner) and B join preparation; both signal
/// readiness; A's consensus check fires once, A broadcasts the combat
/// start, and both peers end in `NextTurn` — every message crossing the
/// wire through the real codec.
#[test]
fn two_peer_preparation_trace() {
    let a_id = PeerId(0xa);
    let b_id = PeerId(0xb);
    let mut a = CombatSession::duel_accepted(a_id, info("alice"), tile(0, 0));
    let mut b = CombatSession::accept_duel(a_id, b_id, info("bob"), tile(1, 0));
    assert!(a.is_owner());
    assert!(!b.is_owner());
    assert!(a.enter_combat());
    assert!(b.enter_combat());

    let wire = |m: &Message| decode(&encode(m)).expect("wire round trip");

    // each peer announces itself to the other
    let join_a = Message::CombatPlayerJoined {
        stats: info("alice"),
        position: tile(0, 0).to_world(),
    };
    let join_b = Message::CombatPlayerJoined {
        stats: info("bob"),
        position: tile(1, 0).to_world(),
    };
    assert!(a.handle_message(b_id, wire(&join_b)).is_empty());
    assert!(b.handle_message(a_id, wire(&join_a)).is_empty());
    assert_eq!(a.participants.len(), 2);
    assert_eq!(b.participants.len(), 2);

    // B readies up first and tells A; B itself cannot fire the consensus
    let (b_ready, b_fired) = b.set_local_ready(true);
    assert_eq!(b_fired, None);
    assert!(a.handle_message(b_id, wire(&b_ready)).is_empty());
    assert_eq!(a.phase, Phase::Preparation);

    // A readies up: its consensus check fires exactly once
    let (a_ready, a_fired) = a.set_local_ready(true);
    assert_eq!(a_fired, Some(Message::CombatStart));
    assert_eq!(a.phase, Phase::NextTurn);

    // B sees A's readiness and then the start broadcast
    assert!(b.handle_message(a_id, wire(&a_ready)).is_empty());
    assert_eq!(b.phase, Phase::Preparation);
    let start = a_fired.unwrap();
    assert!(b.handle_message(a_id, wire(&start)).is_empty());
    assert_eq!(b.phase, Phase::NextTurn);

    // the second, idempotent start broadcast is simply ignored
    assert!(b.handle_message(a_id, wire(&start)).is_empty());
    assert_eq!(b.phase, Phase::NextTurn);
}

#[test]
fn rejoining_refreshes_stats_and_keeps_readiness() {
    let mut s = owner_session();
    joined(&mut s, PeerId(2), "bob");
    assert_eq!(s.handle_ready_state_changed(PeerId(2), true), None);
    let richer = Info {
        name: b"bob".to_vec(),
        max_health: 500,
        action_points: 9,
        movement_points: 7,
    };
    let rejoin = Message::CombatPlayerJoined {
        stats: richer,
        position: tile(4, 4).to_world(),
    };
    assert!(s.handle_message(PeerId(2), rejoin).is_empty());
    assert_eq!(s.participants.len(), 2);
    assert_eq!(s.participants[1].stats_snapshot.max_health, 500);
    assert_eq!(s.participants[1].position, tile(4, 4));
    assert!(s.participants[1].ready);
}

#[test]
fn dispatcher_ignores_exploration_messages_and_bad_positions() {
    let mut s = owner_session();
    joined(&mut s, PeerId(2), "bob");
    assert!(s.handle_message(PeerId(2), Message::DuelDemand).is_empty());
    assert!(s.handle_message(PeerId(2), Message::DuelAccepted).is_empty());
    assert_eq!(s.phase, Phase::Preparation);
    // a position too large for any tile is discarded without effect
    let before = s.participants[1].position;
    let bad = Message::UpdatePlayerPosition(combat_core::protocol::UpdatePlayerPosition {
        x: 0,
        z: i64::MAX,
    });
    assert!(s.handle_message(PeerId(2), bad).is_empty());
    assert_eq!(s.participants[1].position, before);
}
