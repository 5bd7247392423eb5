//! The wire protocol spoken between peers: the tagged union of combat and
//! exploration messages, and its binary encoding.
//!
//! Each message is one self-describing byte string: a tag byte followed by
//! the variant's fields. Integers travel little-endian; signed values are
//! shifted into unsigned range first; the display name travels as
//! length-prefixed UTF-8 bytes. Decoding is strict: a wrong length, an
//! unknown tag or a malformed flag yields `None` and the message is
//! discarded without touching any session state.

use vstd::arithmetic::div_mod::{
    lemma_div_is_ordered, lemma_fundamental_div_mod, lemma_fundamental_div_mod_converse,
};
use vstd::arithmetic::power::pow;
use vstd::prelude::*;

use crate::player::Info;
use crate::tile::WorldPos;

verus! {

/// The `n` little-endian bytes of `v` (base-256 digits, least significant
/// first).
pub open spec fn le_bytes(v: int, n: nat) -> Seq<u8>
    decreases n,
{
    if n == 0 {
        Seq::empty()
    } else {
        seq![(v % 256) as u8] + le_bytes(v / 256, (n - 1) as nat)
    }
}

/// The value of a little-endian byte string.
pub open spec fn le_val(b: Seq<u8>) -> int
    decreases b.len(),
{
    if b.len() == 0 {
        0
    } else {
        b[0] + 256 * le_val(b.drop_first())
    }
}

pub proof fn lemma_le_bytes_len(v: int, n: nat)
    ensures
        le_bytes(v, n).len() == n,
    decreases n,
{
    if n > 0 {
        lemma_le_bytes_len(v / 256, (n - 1) as nat);
    }
}

/// A little-endian byte string always reads back as a value within the
/// range its length can hold.
pub proof fn lemma_le_val_bound(b: Seq<u8>)
    ensures
        0 <= le_val(b) < pow(256, b.len()),
    decreases b.len(),
{
    reveal(pow);
    if b.len() == 0 {
        assert(pow(256, 0) == 1);
    } else {
        let rest = b.drop_first();
        lemma_le_val_bound(rest);
        assert(pow(256, b.len()) == 256 * pow(256, rest.len()));
    }
}

/// Writing a value in range and reading the bytes back is the identity.
pub proof fn lemma_le_round_trip(v: int, n: nat)
    requires
        0 <= v < pow(256, n),
    ensures
        le_val(le_bytes(v, n)) == v,
    decreases n,
{
    reveal(pow);
    if n == 0 {
        assert(pow(256, 0) == 1);
    } else {
        let p = pow(256, (n - 1) as nat);
        assert(pow(256, n) == 256 * p);
        lemma_fundamental_div_mod(v, 256);
        // v / 256 stays within the range of the remaining bytes
        lemma_fundamental_div_mod_converse(256 * p - 1, 256, p - 1, 255);
        lemma_div_is_ordered(v, 256 * p - 1, 256);
        lemma_le_round_trip(v / 256, (n - 1) as nat);
        let whole = le_bytes(v, n);
        assert(whole.drop_first() =~= le_bytes(v / 256, (n - 1) as nat));
    }
}

pub proof fn lemma_pow256_8()
    ensures
        pow(256, 8) == 0x1_0000_0000_0000_0000,
{
    reveal_with_fuel(pow, 9);
}

pub proof fn lemma_pow256_16()
    ensures
        pow(256, 16) == 0x1_0000_0000_0000_0000_0000_0000_0000_0000,
{
    reveal_with_fuel(pow, 17);
}

/// Appends the `n` little-endian bytes of `v` to `out`.
fn push_le(out: &mut Vec<u8>, v: u128, n: usize)
    requires
        n <= 16,
    ensures
        final(out)@ == old(out)@ + le_bytes(v as int, n as nat),
{
    let ghost orig = out@;
    let ghost v0 = v as int;
    let mut v = v;
    let mut i: usize = 0;
    proof {
        assert(orig + le_bytes(v0, n as nat) == out@ + le_bytes(v as int, (n - i) as nat));
    }
    while i < n
        invariant
            i <= n,
            out@ + le_bytes(v as int, (n - i) as nat) == orig + le_bytes(v0, n as nat),
        decreases n - i,
    {
        let byte = (v % 256) as u8;
        proof {
            let ghost before = out@;
            assert(le_bytes(v as int, (n - i) as nat) == seq![((v as int) % 256) as u8]
                + le_bytes(v as int / 256, (n - i - 1) as nat));
            assert(before + le_bytes(v as int, (n - i) as nat) =~= (before + seq![
                ((v as int) % 256) as u8,
            ]) + le_bytes(v as int / 256, (n - i - 1) as nat));
        }
        out.push(byte);
        v = v / 256;
        i = i + 1;
    }
    proof {
        assert(out@ + le_bytes(v as int, 0) =~= out@);
    }
}

/// Appends a copy of `v` to `out`.
fn push_bytes(out: &mut Vec<u8>, v: &Vec<u8>)
    ensures
        final(out)@ == old(out)@ + v@,
{
    let ghost orig = out@;
    let mut i: usize = 0;
    while i < v.len()
        invariant
            i <= v@.len(),
            out@ == orig + v@.take(i as int),
        decreases v@.len() - i,
    {
        out.push(v[i]);
        proof {
            assert(out@ =~= orig + v@.take(i + 1));
        }
        i = i + 1;
    }
    proof {
        assert(out@ =~= orig + v@);
    }
}

/// Copies the `n` bytes of `b` at `pos` into a fresh vector.
fn read_bytes(b: &[u8], pos: usize, n: usize) -> (r: Vec<u8>)
    requires
        pos + n <= b@.len(),
    ensures
        r@ == b@.subrange(pos as int, pos as int + n as int),
{
    let blen: usize = b.len();
    let mut r: Vec<u8> = Vec::new();
    let mut i: usize = 0;
    while i < n
        invariant
            i <= n,
            pos + n <= blen,
            blen as int == b@.len(),
            r@ == b@.subrange(pos as int, pos as int + i as int),
        decreases n - i,
    {
        r.push(b[pos + i]);
        proof {
            assert(r@ =~= b@.subrange(pos as int, pos as int + i as int + 1));
        }
        i = i + 1;
    }
    r
}

/// Reads the value of the `n` little-endian bytes of `b` at `pos`.
fn read_le(b: &[u8], pos: usize, n: usize) -> (r: u128)
    requires
        n <= 16,
        pos + n <= b@.len(),
    ensures
        r as int == le_val(b@.subrange(pos as int, pos as int + n as int)),
{
    let blen: usize = b.len();
    let mut r: u128 = 0;
    let mut j: usize = n;
    proof {
        assert(b@.subrange(pos as int + n as int, pos as int + n as int) =~= Seq::<u8>::empty());
    }
    while j > 0
        invariant
            j <= n <= 16,
            pos + n <= blen,
            blen as int == b@.len(),
            r as int == le_val(b@.subrange(pos + j, pos as int + n as int)),
        decreases j,
    {
        proof {
            let tail = b@.subrange(pos + j, pos as int + n as int);
            lemma_le_val_bound(tail);
            vstd::arithmetic::power::lemma_pow_increases(256, (n - j) as nat, 15);
            reveal_with_fuel(pow, 17);
            let whole = b@.subrange(pos + j - 1, pos as int + n as int);
            assert(whole.drop_first() =~= tail);
        }
        j = j - 1;
        r = r * 256 + (b[pos + j] as u128);
    }
    r
}

/// Opaque identity a peer is known by, assigned by the transport; only ever
/// compared, never interpreted.
#[derive(Debug, Clone, Copy, PartialEq, Eq, Structural)]
pub struct PeerId(pub u128);

/// A position broadcast whenever a player moves, in world units.
#[derive(Debug, Clone, Copy, PartialEq, Eq, Structural)]
pub struct UpdatePlayerPosition {
    pub x: i64,
    pub z: i64,
}

/// Everything a peer can say to another peer: the tagged union of
/// exploration-mode and combat-mode messages.
#[derive(Debug, Clone, PartialEq, Eq)]
pub enum Message {
    /// Introduces a player to a newly connected peer.
    PlayerInitInfo { id: PeerId, name: Vec<u8>, x: i64, z: i64 },
    /// Broadcast whenever the local player moves.
    UpdatePlayerPosition(UpdatePlayerPosition),
    /// Challenges the addressed peer to a duel.
    DuelDemand,
    /// Accepts a pending duel demand.
    DuelAccepted,
    /// Declines a pending duel demand.
    DuelRefused,
    /// Withdraws a duel demand before it is answered.
    DuelCancelled,
    /// Carries the joining player's stats and starting position.
    CombatPlayerJoined { stats: Info, position: WorldPos },
    /// Owner-originated: the preparation phase is over.
    CombatStart,
    /// The sender toggled its readiness flag.
    CombatReadyStateChanged(bool),
}

/// Mathematical value of an [`Info`] record.
pub struct InfoV {
    pub name: Seq<u8>,
    pub max_health: u32,
    pub action_points: u8,
    pub movement_points: u8,
}

impl View for Info {
    type V = InfoV;

    open spec fn view(&self) -> InfoV {
        InfoV {
            name: self.name@,
            max_health: self.max_health,
            action_points: self.action_points,
            movement_points: self.movement_points,
        }
    }
}

/// Mathematical value of a [`Message`].
pub enum MessageV {
    PlayerInitInfo { id: PeerId, name: Seq<u8>, x: i64, z: i64 },
    UpdatePlayerPosition(UpdatePlayerPosition),
    DuelDemand,
    DuelAccepted,
    DuelRefused,
    DuelCancelled,
    CombatPlayerJoined { stats: InfoV, position: WorldPos },
    CombatStart,
    CombatReadyStateChanged(bool),
}

impl View for Message {
    type V = MessageV;

    open spec fn view(&self) -> MessageV {
        match self {
            Message::PlayerInitInfo { id, name, x, z } => MessageV::PlayerInitInfo {
                id: *id,
                name: name@,
                x: *x,
                z: *z,
            },
            Message::UpdatePlayerPosition(p) => MessageV::UpdatePlayerPosition(*p),
            Message::DuelDemand => MessageV::DuelDemand,
            Message::DuelAccepted => MessageV::DuelAccepted,
            Message::DuelRefused => MessageV::DuelRefused,
            Message::DuelCancelled => MessageV::DuelCancelled,
            Message::CombatPlayerJoined { stats, position } => MessageV::CombatPlayerJoined {
                stats: stats@,
                position: *position,
            },
            Message::CombatStart => MessageV::CombatStart,
            Message::CombatReadyStateChanged(b) => MessageV::CombatReadyStateChanged(*b),
        }
    }
}

/// Shift of a signed 64-bit value into unsigned range for the wire.
pub open spec fn off64(x: int) -> int {
    x + 0x8000_0000_0000_0000
}

/// The byte string a message travels as.
pub open spec fn spec_encode(m: MessageV) -> Seq<u8> {
    match m {
        MessageV::PlayerInitInfo { id, name, x, z } => seq![0u8] + le_bytes(id.0 as int, 16)
            + le_bytes(name.len() as int, 8) + name + le_bytes(off64(x as int), 8) + le_bytes(
            off64(z as int),
            8,
        ),
        MessageV::UpdatePlayerPosition(p) => seq![1u8] + le_bytes(off64(p.x as int), 8) + le_bytes(
            off64(p.z as int),
            8,
        ),
        MessageV::DuelDemand => seq![2u8],
        MessageV::DuelAccepted => seq![3u8],
        MessageV::DuelRefused => seq![4u8],
        MessageV::DuelCancelled => seq![5u8],
        MessageV::CombatPlayerJoined { stats, position } => seq![6u8] + le_bytes(
            stats.name.len() as int,
            8,
        ) + stats.name + le_bytes(stats.max_health as int, 8) + le_bytes(
            stats.action_points as int,
            8,
        ) + le_bytes(stats.movement_points as int, 8) + le_bytes(off64(position.x as int), 8)
            + le_bytes(off64(position.z as int), 8),
        MessageV::CombatStart => seq![7u8],
        MessageV::CombatReadyStateChanged(b) => seq![8u8, if b {
            1u8
        } else {
            0u8
        }],
    }
}

/// The message a byte string decodes to, if any: strict about tags, lengths
/// and field ranges, so that every malformed input is rejected as `None`.
pub open spec fn spec_decode(b: Seq<u8>) -> Option<MessageV> {
    if b.len() < 1 {
        None
    } else if b[0] == 0 {
        if b.len() < 25 {
            None
        } else {
            let nl = le_val(b.subrange(17, 25));
            if b.len() == 41 + nl {
                Some(
                    MessageV::PlayerInitInfo {
                        id: PeerId(le_val(b.subrange(1, 17)) as u128),
                        name: b.subrange(25, 25 + nl),
                        x: (le_val(b.subrange(25 + nl, 33 + nl)) - 0x8000_0000_0000_0000) as i64,
                        z: (le_val(b.subrange(33 + nl, 41 + nl)) - 0x8000_0000_0000_0000) as i64,
                    },
                )
            } else {
                None
            }
        }
    } else if b[0] == 1 {
        if b.len() == 17 {
            Some(
                MessageV::UpdatePlayerPosition(
                    UpdatePlayerPosition {
                        x: (le_val(b.subrange(1, 9)) - 0x8000_0000_0000_0000) as i64,
                        z: (le_val(b.subrange(9, 17)) - 0x8000_0000_0000_0000) as i64,
                    },
                ),
            )
        } else {
            None
        }
    } else if b[0] == 2 {
        if b.len() == 1 {
            Some(MessageV::DuelDemand)
        } else {
            None
        }
    } else if b[0] == 3 {
        if b.len() == 1 {
            Some(MessageV::DuelAccepted)
        } else {
            None
        }
    } else if b[0] == 4 {
        if b.len() == 1 {
            Some(MessageV::DuelRefused)
        } else {
            None
        }
    } else if b[0] == 5 {
        if b.len() == 1 {
            Some(MessageV::DuelCancelled)
        } else {
            None
        }
    } else if b[0] == 6 {
        if b.len() < 9 {
            None
        } else {
            let nl = le_val(b.subrange(1, 9));
            if b.len() == 49 + nl {
                let mh = le_val(b.subrange(9 + nl, 17 + nl));
                let ap = le_val(b.subrange(17 + nl, 25 + nl));
                let mp = le_val(b.subrange(25 + nl, 33 + nl));
                if mh < 0x1_0000_0000 && ap < 0x100 && mp < 0x100 {
                    Some(
                        MessageV::CombatPlayerJoined {
                            stats: InfoV {
                                name: b.subrange(9, 9 + nl),
                                max_health: mh as u32,
                                action_points: ap as u8,
                                movement_points: mp as u8,
                            },
                            position: WorldPos {
                                x: (le_val(b.subrange(33 + nl, 41 + nl))
                                    - 0x8000_0000_0000_0000) as i64,
                                z: (le_val(b.subrange(41 + nl, 49 + nl))
                                    - 0x8000_0000_0000_0000) as i64,
                            },
                        },
                    )
                } else {
                    None
                }
            } else {
                None
            }
        }
    } else if b[0] == 7 {
        if b.len() == 1 {
            Some(MessageV::CombatStart)
        } else {
            None
        }
    } else if b[0] == 8 {
        if b.len() == 2 {
            if b[1] == 1 {
                Some(MessageV::CombatReadyStateChanged(true))
            } else if b[1] == 0 {
                Some(MessageV::CombatReadyStateChanged(false))
            } else {
                None
            }
        } else {
            None
        }
    } else {
        None
    }
}

fn off_u(x: i64) -> (r: u128)
    ensures
        r as int == off64(x as int),
        r < 0x1_0000_0000_0000_0000,
{
    ((x as i128) + 0x8000_0000_0000_0000) as u128
}

fn un_off(v: u128) -> (r: i64)
    requires
        v < 0x1_0000_0000_0000_0000,
    ensures
        r as int == v as int - 0x8000_0000_0000_0000,
{
    ((v as i128) - 0x8000_0000_0000_0000) as i64
}

/// Turns a message into the byte string it travels as.
pub fn encode(m: &Message) -> (r: Vec<u8>)
    ensures
        r@ == spec_encode(m@),
{
    let mut out: Vec<u8> = Vec::new();
    match m {
        Message::PlayerInitInfo { id, name, x, z } => {
            out.push(0u8);
            push_le(&mut out, id.0, 16);
            push_le(&mut out, name.len() as u128, 8);
            push_bytes(&mut out, name);
            push_le(&mut out, off_u(*x), 8);
            push_le(&mut out, off_u(*z), 8);
            proof {
                assert(out@ =~= spec_encode(m@));
            }
        },
        Message::UpdatePlayerPosition(p) => {
            out.push(1u8);
            push_le(&mut out, off_u(p.x), 8);
            push_le(&mut out, off_u(p.z), 8);
            proof {
                assert(out@ =~= spec_encode(m@));
            }
        },
        Message::DuelDemand => {
            out.push(2u8);
            proof {
                assert(out@ =~= spec_encode(m@));
            }
        },
        Message::DuelAccepted => {
            out.push(3u8);
            proof {
                assert(out@ =~= spec_encode(m@));
            }
        },
        Message::DuelRefused => {
            out.push(4u8);
            proof {
                assert(out@ =~= spec_encode(m@));
            }
        },
        Message::DuelCancelled => {
            out.push(5u8);
            proof {
                assert(out@ =~= spec_encode(m@));
            }
        },
        Message::CombatPlayerJoined { stats, position } => {
            out.push(6u8);
            push_le(&mut out, stats.name.len() as u128, 8);
            push_bytes(&mut out, &stats.name);
            push_le(&mut out, stats.max_health as u128, 8);
            push_le(&mut out, stats.action_points as u128, 8);
            push_le(&mut out, stats.movement_points as u128, 8);
            push_le(&mut out, off_u(position.x), 8);
            push_le(&mut out, off_u(position.z), 8);
            proof {
                assert(out@ =~= spec_encode(m@));
            }
        },
        Message::CombatStart => {
            out.push(7u8);
            proof {
                assert(out@ =~= spec_encode(m@));
            }
        },
        Message::CombatReadyStateChanged(b) => {
            out.push(8u8);
            if *b {
                out.push(1u8);
            } else {
                out.push(0u8);
            }
            proof {
                assert(out@ =~= spec_encode(m@));
            }
        },
    }
    out
}

/// Parses a byte string back into the message it encodes, or `None` for any
/// malformed input: wrong length for its tag, unknown tag, out-of-range
/// field, or a flag byte that is neither 0 nor 1.
pub fn decode(b: &[u8]) -> (r: Option<Message>)
    ensures
        r.is_some() == spec_decode(b@).is_some(),
        r matches Some(m) ==> spec_decode(b@) == Some(m@),
{
    let blen: usize = b.len();
    if blen < 1 {
        return None;
    }
    let tag = b[0];
    if tag == 0 {
        if blen < 25 {
            return None;
        }
        let nl128 = read_le(b, 17, 8);
        proof {
            lemma_le_val_bound(b@.subrange(17, 25));
            lemma_pow256_8();
        }
        if (blen as u128) != 41u128 + nl128 {
            return None;
        }
        let nl = nl128 as usize;
        let id = read_le(b, 1, 16);
        let name = read_bytes(b, 25, nl);
        let xv = read_le(b, 25 + nl, 8);
        let zv = read_le(b, 33 + nl, 8);
        proof {
            lemma_le_val_bound(b@.subrange(25 + nl as int, 33 + nl as int));
            lemma_le_val_bound(b@.subrange(33 + nl as int, 41 + nl as int));
            lemma_pow256_8();
        }
        let x = un_off(xv);
        let z = un_off(zv);
        Some(Message::PlayerInitInfo { id: PeerId(id), name, x, z })
    } else if tag == 1 {
        if blen != 17 {
            return None;
        }
        let xv = read_le(b, 1, 8);
        let zv = read_le(b, 9, 8);
        proof {
            lemma_le_val_bound(b@.subrange(1, 9));
            lemma_le_val_bound(b@.subrange(9, 17));
            lemma_pow256_8();
        }
        let x = un_off(xv);
        let z = un_off(zv);
        Some(Message::UpdatePlayerPosition(UpdatePlayerPosition { x, z }))
    } else if tag == 2 {
        if blen != 1 {
            return None;
        }
        Some(Message::DuelDemand)
    } else if tag == 3 {
        if blen != 1 {
            return None;
        }
        Some(Message::DuelAccepted)
    } else if tag == 4 {
        if blen != 1 {
            return None;
        }
        Some(Message::DuelRefused)
    } else if tag == 5 {
        if blen != 1 {
            return None;
        }
        Some(Message::DuelCancelled)
    } else if tag == 6 {
        if blen < 9 {
            return None;
        }
        let nl128 = read_le(b, 1, 8);
        proof {
            lemma_le_val_bound(b@.subrange(1, 9));
            lemma_pow256_8();
        }
        if (blen as u128) != 49u128 + nl128 {
            return None;
        }
        let nl = nl128 as usize;
        let name = read_bytes(b, 9, nl);
        let mh = read_le(b, 9 + nl, 8);
        let ap = read_le(b, 17 + nl, 8);
        let mp = read_le(b, 25 + nl, 8);
        let pxv = read_le(b, 33 + nl, 8);
        let pzv = read_le(b, 41 + nl, 8);
        if !(mh < 0x1_0000_0000 && ap < 0x100 && mp < 0x100) {
            return None;
        }
        proof {
            lemma_le_val_bound(b@.subrange(33 + nl as int, 41 + nl as int));
            lemma_le_val_bound(b@.subrange(41 + nl as int, 49 + nl as int));
            lemma_pow256_8();
        }
        let px = un_off(pxv);
        let pz = un_off(pzv);
        Some(
            Message::CombatPlayerJoined {
                stats: Info {
                    name,
                    max_health: mh as u32,
                    action_points: ap as u8,
                    movement_points: mp as u8,
                },
                position: WorldPos { x: px, z: pz },
            },
        )
    } else if tag == 7 {
        if blen != 1 {
            return None;
        }
        Some(Message::CombatStart)
    } else if tag == 8 {
        if blen != 2 {
            return None;
        }
        if b[1] == 1 {
            Some(Message::CombatReadyStateChanged(true))
        } else if b[1] == 0 {
            Some(Message::CombatReadyStateChanged(false))
        } else {
            None
        }
    } else {
        None
    }
}

/// Which message values fit on the wire: a name must fit its 8-byte length
/// prefix (true of every name held in a vector).
pub open spec fn spec_msg_wf(m: MessageV) -> bool {
    match m {
        MessageV::PlayerInitInfo { id: _, name, x: _, z: _ } => name.len()
            < 0x1_0000_0000_0000_0000,
        MessageV::CombatPlayerJoined { stats, position: _ } => stats.name.len()
            < 0x1_0000_0000_0000_0000,
        _ => true,
    }
}

/// Round trip of the codec: every well-formed message value decodes back
/// from its own encoding, exactly.
pub proof fn lemma_codec_round_trip(m: MessageV)
    requires
        spec_msg_wf(m),
    ensures
        spec_decode(spec_encode(m)) == Some(m),
{
    let e = spec_encode(m);
    lemma_pow256_8();
    lemma_pow256_16();
    match m {
        MessageV::PlayerInitInfo { id, name, x, z } => {
            let nl = name.len() as int;
            lemma_le_bytes_len(id.0 as int, 16);
            lemma_le_bytes_len(nl, 8);
            lemma_le_bytes_len(off64(x as int), 8);
            lemma_le_bytes_len(off64(z as int), 8);
            assert(e.len() == 41 + nl);
            assert(e.subrange(17, 25) =~= le_bytes(nl, 8));
            lemma_le_round_trip(nl, 8);
            assert(e.subrange(1, 17) =~= le_bytes(id.0 as int, 16));
            lemma_le_round_trip(id.0 as int, 16);
            assert(e.subrange(25, 25 + nl) =~= name);
            assert(e.subrange(25 + nl, 33 + nl) =~= le_bytes(off64(x as int), 8));
            lemma_le_round_trip(off64(x as int), 8);
            assert(e.subrange(33 + nl, 41 + nl) =~= le_bytes(off64(z as int), 8));
            lemma_le_round_trip(off64(z as int), 8);
        },
        MessageV::UpdatePlayerPosition(p) => {
            lemma_le_bytes_len(off64(p.x as int), 8);
            lemma_le_bytes_len(off64(p.z as int), 8);
            assert(e.len() == 17);
            assert(e.subrange(1, 9) =~= le_bytes(off64(p.x as int), 8));
            lemma_le_round_trip(off64(p.x as int), 8);
            assert(e.subrange(9, 17) =~= le_bytes(off64(p.z as int), 8));
            lemma_le_round_trip(off64(p.z as int), 8);
        },
        MessageV::CombatPlayerJoined { stats, position } => {
            let nl = stats.name.len() as int;
            lemma_le_bytes_len(nl, 8);
            lemma_le_bytes_len(stats.max_health as int, 8);
            lemma_le_bytes_len(stats.action_points as int, 8);
            lemma_le_bytes_len(stats.movement_points as int, 8);
            lemma_le_bytes_len(off64(position.x as int), 8);
            lemma_le_bytes_len(off64(position.z as int), 8);
            assert(e.len() == 49 + nl);
            assert(e.subrange(1, 9) =~= le_bytes(nl, 8));
            lemma_le_round_trip(nl, 8);
            assert(e.subrange(9, 9 + nl) =~= stats.name);
            assert(e.subrange(9 + nl, 17 + nl) =~= le_bytes(stats.max_health as int, 8));
            lemma_le_round_trip(stats.max_health as int, 8);
            assert(e.subrange(17 + nl, 25 + nl) =~= le_bytes(stats.action_points as int, 8));
            lemma_le_round_trip(stats.action_points as int, 8);
            assert(e.subrange(25 + nl, 33 + nl) =~= le_bytes(stats.movement_points as int, 8));
            lemma_le_round_trip(stats.movement_points as int, 8);
            assert(e.subrange(33 + nl, 41 + nl) =~= le_bytes(off64(position.x as int), 8));
            lemma_le_round_trip(off64(position.x as int), 8);
            assert(e.subrange(41 + nl, 49 + nl) =~= le_bytes(off64(position.z as int), 8));
            lemma_le_round_trip(off64(position.z as int), 8);
        },
        _ => {
        },
    }
}

} // verus!
