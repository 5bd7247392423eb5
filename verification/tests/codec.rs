use combat_core::player::Info;
use combat_core::protocol::{decode, encode, Message, PeerId, UpdatePlayerPosition};
use combat_core::tile::WorldPos;

fn round_trip(m: Message) -> Message {
    let bytes = encode(&m);
    decode(&bytes).expect("a message must decode from its own encoding")
}

fn sample_info() -> Info {
    Info {
        name: b"alice".to_vec(),
        max_health: 250,
        action_points: 6,
        movement_points: 3,
    }
}

#[test]
fn round_trip_player_init_info() {
    let m = Message::PlayerInitInfo {
        id: PeerId(0x1234_5678_9abc_def0_1122_3344_5566_7788),
        name: b"bob".to_vec(),
        x: -17,
        z: 42,
    };
    assert_eq!(round_trip(m.clone()), m);
}

#[test]
fn round_trip_update_player_position() {
    let m = Message::UpdatePlayerPosition(UpdatePlayerPosition { x: -1, z: i64::MAX });
    assert_eq!(round_trip(m.clone()), m);
}

#[test]
fn round_trip_bare_variants() {
    for m in [
        Message::DuelDemand,
        Message::DuelAccepted,
        Message::DuelRefused,
        Message::DuelCancelled,
        Message::CombatStart,
    ] {
        assert_eq!(round_trip(m.clone()), m);
    }
}

#[test]
fn round_trip_combat_player_joined() {
    let m = Message::CombatPlayerJoined {
        stats: sample_info(),
        position: WorldPos { x: 7, z: -5 },
    };
    assert_eq!(round_trip(m.clone()), m);
}

#[test]
fn round_trip_ready_state() {
    assert_eq!(
        round_trip(Message::CombatReadyStateChanged(true)),
        Message::CombatReadyStateChanged(true)
    );
    assert_eq!(
        round_trip(Message::CombatReadyStateChanged(false)),
        Message::CombatReadyStateChanged(false)
    );
}

#[test]
fn exact_wire_bytes_of_a_simple_message() {
    // tag 7, nothing else: the whole combat-start broadcast is one byte
    assert_eq!(encode(&Message::CombatStart), vec![7u8]);
    // tag 8 plus one flag byte
    assert_eq!(encode(&Message::CombatReadyStateChanged(true)), vec![8u8, 1u8]);
    // position 0/0 encodes as the sign offset, little endian
    let bytes = encode(&Message::UpdatePlayerPosition(UpdatePlayerPosition { x: 0, z: 0 }));
    assert_eq!(bytes.len(), 17);
    assert_eq!(bytes[0], 1);
    assert_eq!(&bytes[1..9], &[0, 0, 0, 0, 0, 0, 0, 0x80]);
    assert_eq!(&bytes[9..17], &[0, 0, 0, 0, 0, 0, 0, 0x80]);
}

#[test]
fn decode_rejects_empty_and_unknown_tags() {
    assert!(decode(&[]).is_none());
    assert!(decode(&[9u8]).is_none());
    assert!(decode(&[255u8]).is_none());
}

#[test]
fn decode_rejects_wrong_lengths() {
    // a bare variant with trailing bytes
    assert!(decode(&[7u8, 0u8]).is_none());
    // a position message one byte short
    let mut bytes = encode(&Message::UpdatePlayerPosition(UpdatePlayerPosition { x: 1, z: 2 }));
    bytes.pop();
    assert!(decode(&bytes).is_none());
    // a name length that disagrees with the actual length
    let mut bytes = encode(&Message::PlayerInitInfo {
        id: PeerId(1),
        name: b"xy".to_vec(),
        x: 0,
        z: 0,
    });
    bytes.push(0);
    assert!(decode(&bytes).is_none());
}

#[test]
fn decode_rejects_malformed_flag() {
    assert!(decode(&[8u8, 2u8]).is_none());
    assert!(decode(&[8u8]).is_none());
}

#[test]
fn decode_rejects_out_of_range_fields() {
    // a CombatPlayerJoined whose 8-byte health field exceeds u32 range
    let m = Message::CombatPlayerJoined {
        stats: sample_info(),
        position: WorldPos { x: 0, z: 0 },
    };
    let mut bytes = encode(&m);
    // health sits after tag(1) + name length(8) + name(5)
    let health_at = 1 + 8 + 5;
    bytes[health_at + 7] = 1;
    assert!(decode(&bytes).is_none());
}
