//! Player data carried across the wire and snapshotted into combat
//! participants.

use vstd::prelude::*;

verus! {

/// Detailed character attributes; kept locally, never sent to peers.
#[derive(Debug, Clone, Copy, PartialEq, Eq, Structural)]
pub struct PlayerStats {
    pub vitality: u16,
    pub agility: u16,
    pub chance: u16,
    pub strength: u16,
    pub intelligence: u16,
    pub unspent_points: u16,
}

impl Default for PlayerStats {
    fn default() -> (r: Self)
        ensures
            r == (PlayerStats {
                vitality: 0,
                agility: 0,
                chance: 0,
                strength: 0,
                intelligence: 0,
                unspent_points: 0,
            }),
    {
        PlayerStats {
            vitality: 0,
            agility: 0,
            chance: 0,
            strength: 0,
            intelligence: 0,
            unspent_points: 0,
        }
    }
}

/// Public information about a player, as shared with peers when they join a
/// combat. The display name is carried as UTF-8 bytes.
#[derive(Debug, Clone, PartialEq, Eq)]
pub struct Info {
    pub name: Vec<u8>,
    pub max_health: u32,
    pub action_points: u8,
    pub movement_points: u8,
}

} // verus!
