//! The component codec and message codec.
//!
//! Every component value and every message is encoded into one
//! self-describing byte envelope: a one-byte kind tag followed by the
//! fields, integers little-endian, variable-length parts length-prefixed.
//! Encoding is deterministic — the same logical value always yields the
//! same bytes — and decoding reconstructs exactly the encoded value or
//! fails; unknown tags and malformed or truncated bytes fail, never skip.

use crate::components::Animate;
use crate::components::Appearance;
use crate::components::AppearanceRecord;
use crate::components::AttackRequest;
use crate::components::Camera;
use crate::components::ComponentView;
use crate::components::Dead;
use crate::components::Deposition;
use crate::components::DropRequest;
use crate::components::Heading;
use crate::components::Hitbox;
use crate::components::Inventory;
use crate::components::Item;
use crate::components::LocalPlayer;
use crate::components::MessageView;
use crate::components::NetComponent;
use crate::components::NetMessage;
use crate::components::PickupRequest;
use crate::components::PlayerAnimationController;
use crate::components::Pos;
use crate::components::SlotIndex;
use crate::components::SpawnPlayer;
use crate::components::Speed;
use crate::components::UpdatePosition;
use crate::geom::Vec2;
use vstd::bytes::*;
use vstd::prelude::*;

verus! {

broadcast use vstd::slice::axiom_spec_len;

/// The bytes were not produced by this codec: truncated, malformed, or an
/// unknown tag.  Fatal to the connection that produced them.
#[derive(Clone, Copy, PartialEq, Eq, Structural, Debug)]
pub struct DecodeError;

// ---------------------------------------------------------------------
// Primitive fields
// ---------------------------------------------------------------------

/// A signed 64-bit field travels as the little-endian bytes of its two's
/// complement bit pattern.
pub open spec fn spec_enc_i64(v: i64) -> Seq<u8> {
    spec_u64_to_le_bytes(v as u64)
}

/// Read back a signed 64-bit field.
pub open spec fn spec_dec_i64(s: Seq<u8>) -> i64
    recommends
        s.len() == 8,
{
    spec_u64_from_le_bytes(s) as i64
}

/// Casting an `i64` through `u64` and back is the identity.
pub proof fn lemma_i64_cast_round_trip(v: i64)
    ensures
        (v as u64) as i64 == v,
{
    assert((v as u64) as i64 == v) by (bit_vector);
}

/// Round trip for signed 64-bit fields.
pub proof fn lemma_i64_round_trip(v: i64)
    ensures
        spec_enc_i64(v).len() == 8,
        spec_dec_i64(spec_enc_i64(v)) == v,
{
    lemma_auto_spec_u64_to_from_le_bytes();
    lemma_i64_cast_round_trip(v);
}

fn write_u32(out: &mut Vec<u8>, v: u32)
    ensures
        final(out)@ == old(out)@ + spec_u32_to_le_bytes(v),
{
    let mut b = u32_to_le_bytes(v);
    out.append(&mut b);
}

fn write_u64(out: &mut Vec<u8>, v: u64)
    ensures
        final(out)@ == old(out)@ + spec_u64_to_le_bytes(v),
{
    let mut b = u64_to_le_bytes(v);
    out.append(&mut b);
}

fn write_i64(out: &mut Vec<u8>, v: i64)
    ensures
        final(out)@ == old(out)@ + spec_enc_i64(v),
{
    write_u64(out, v as u64);
}

/// Read the four bytes starting at `i` as a `u32`.
fn read_u32(s: &[u8], i: usize) -> (r: u32)
    requires
        i + 4 <= s@.len(),
    ensures
        r == spec_u32_from_le_bytes(s@.subrange(i as int, i as int + 4)),
{
    proof {
        vstd::slice::axiom_spec_len(s);
    }
    let sub = vstd::slice::slice_subrange(s, i, i + 4);
    u32_from_le_bytes(sub)
}

/// Read the eight bytes starting at `i` as a `u64`.
fn read_u64(s: &[u8], i: usize) -> (r: u64)
    requires
        i + 8 <= s@.len(),
    ensures
        r == spec_u64_from_le_bytes(s@.subrange(i as int, i as int + 8)),
{
    proof {
        vstd::slice::axiom_spec_len(s);
    }
    let sub = vstd::slice::slice_subrange(s, i, i + 8);
    u64_from_le_bytes(sub)
}

/// Read the eight bytes starting at `i` as an `i64`.
fn read_i64(s: &[u8], i: usize) -> (r: i64)
    requires
        i + 8 <= s@.len(),
    ensures
        r == spec_dec_i64(s@.subrange(i as int, i as int + 8)),
{
    read_u64(s, i) as i64
}

// ---------------------------------------------------------------------
// Planar vectors: two signed fields
// ---------------------------------------------------------------------

pub open spec fn spec_enc_vec2(v: Vec2) -> Seq<u8> {
    spec_enc_i64(v.x) + spec_enc_i64(v.y)
}

pub open spec fn spec_dec_vec2(s: Seq<u8>) -> Vec2
    recommends
        s.len() == 16,
{
    Vec2 { x: spec_dec_i64(s.subrange(0, 8)), y: spec_dec_i64(s.subrange(8, 16)) }
}

pub proof fn lemma_vec2_round_trip(v: Vec2)
    ensures
        spec_enc_vec2(v).len() == 16,
        spec_dec_vec2(spec_enc_vec2(v)) == v,
{
    lemma_i64_round_trip(v.x);
    lemma_i64_round_trip(v.y);
    assert(spec_enc_vec2(v).subrange(0, 8) =~= spec_enc_i64(v.x));
    assert(spec_enc_vec2(v).subrange(8, 16) =~= spec_enc_i64(v.y));
}

fn write_vec2(out: &mut Vec<u8>, v: Vec2)
    ensures
        final(out)@ == old(out)@ + spec_enc_vec2(v),
{
    write_i64(out, v.x);
    write_i64(out, v.y);
    proof {
        assert(out@ =~= old(out)@ + spec_enc_vec2(v));
    }
}

fn read_vec2(s: &[u8], i: usize) -> (r: Vec2)
    requires
        i + 16 <= s@.len(),
    ensures
        r == spec_dec_vec2(s@.subrange(i as int, i as int + 16)),
{
    proof {
        vstd::slice::axiom_spec_len(s);
    }
    let x = read_i64(s, i);
    let y = read_i64(s, i + 8);
    proof {
        let region = s@.subrange(i as int, i as int + 16);
        assert(region.subrange(0, 8) =~= s@.subrange(i as int, i as int + 8));
        assert(region.subrange(8, 16) =~= s@.subrange(i as int + 8, i as int + 16));
    }
    Vec2 { x, y }
}

// ---------------------------------------------------------------------
// Inventory slots: a fixed five bytes each
// ---------------------------------------------------------------------

/// One slot: a presence byte, then the item id (zero when empty).
pub open spec fn spec_enc_slot(s: Option<u32>) -> Seq<u8> {
    match s {
        None => seq![0u8] + spec_u32_to_le_bytes(0),
        Some(id) => seq![1u8] + spec_u32_to_le_bytes(id),
    }
}

/// Decode one slot; anything but the two canonical forms fails.
pub open spec fn spec_dec_slot(s: Seq<u8>) -> Option<Option<u32>>
    recommends
        s.len() == 5,
{
    let id = spec_u32_from_le_bytes(s.subrange(1, 5));
    if s[0] == 0 {
        if id == 0 {
            Some(None)
        } else {
            None
        }
    } else if s[0] == 1 {
        Some(Some(id))
    } else {
        None
    }
}

pub open spec fn spec_enc_slots(s: Seq<Option<u32>>) -> Seq<u8>
    decreases s.len(),
{
    if s.len() == 0 {
        Seq::empty()
    } else {
        spec_enc_slot(s[0]) + spec_enc_slots(s.drop_first())
    }
}

/// Decode exactly `n` slots spanning all of `s`.
pub open spec fn spec_dec_slots(s: Seq<u8>, n: nat) -> Option<Seq<Option<u32>>>
    decreases n,
{
    if n == 0 {
        if s.len() == 0 {
            Some(Seq::empty())
        } else {
            None
        }
    } else if s.len() < 5 {
        None
    } else {
        match spec_dec_slot(s.subrange(0, 5)) {
            None => None,
            Some(head) => match spec_dec_slots(s.subrange(5, s.len() as int), (n - 1) as nat) {
                None => None,
                Some(rest) => Some(seq![head] + rest),
            },
        }
    }
}

proof fn lemma_slot_round_trip(s: Option<u32>)
    ensures
        spec_enc_slot(s).len() == 5,
        spec_dec_slot(spec_enc_slot(s)) == Some(s),
{
    lemma_auto_spec_u32_to_from_le_bytes();
    match s {
        None => {
            assert(spec_enc_slot(s).subrange(1, 5) =~= spec_u32_to_le_bytes(0));
        },
        Some(id) => {
            assert(spec_enc_slot(s).subrange(1, 5) =~= spec_u32_to_le_bytes(id));
        },
    }
}

proof fn lemma_slots_round_trip(s: Seq<Option<u32>>)
    ensures
        spec_enc_slots(s).len() == 5 * s.len(),
        spec_dec_slots(spec_enc_slots(s), s.len()) == Some(s),
    decreases s.len(),
{
    if s.len() == 0 {
    } else {
        lemma_slot_round_trip(s[0]);
        lemma_slots_round_trip(s.drop_first());
        let enc = spec_enc_slots(s);
        assert(enc.subrange(0, 5) =~= spec_enc_slot(s[0]));
        assert(enc.subrange(5, enc.len() as int) =~= spec_enc_slots(s.drop_first()));
        assert(seq![s[0]] + s.drop_first() =~= s);
    }
}

fn write_slot(out: &mut Vec<u8>, s: &Option<u32>)
    ensures
        final(out)@ == old(out)@ + spec_enc_slot(*s),
{
    match s {
        None => {
            out.push(0);
            write_u32(out, 0);
        },
        Some(id) => {
            out.push(1);
            write_u32(out, *id);
        },
    }
    proof {
        assert(out@ =~= old(out)@ + spec_enc_slot(*s));
    }
}

fn write_slots(out: &mut Vec<u8>, s: &[Option<u32>])
    ensures
        final(out)@ == old(out)@ + spec_enc_slots(s@),
    decreases s@.len(),
{
    if s.len() == 0 {
        proof {
            assert(out@ =~= old(out)@ + spec_enc_slots(s@));
        }
    } else {
        write_slot(out, &s[0]);
        let rest = vstd::slice::slice_subrange(s, 1, s.len());
        write_slots(out, rest);
        proof {
            assert(rest@ =~= s@.drop_first());
            assert(out@ =~= old(out)@ + spec_enc_slots(s@));
        }
    }
}

/// Decode `n` slots spanning all of `s`.
fn read_slots(s: &[u8], n: u32) -> (r: Result<Vec<Option<u32>>, DecodeError>)
    ensures
        match r {
            Ok(v) => spec_dec_slots(s@, n as nat) == Some(v@) && v@.len() == n as nat,
            Err(_) => spec_dec_slots(s@, n as nat) is None,
        },
    decreases n,
{
    if n == 0 {
        if s.len() == 0 {
            Ok(Vec::new())
        } else {
            Err(DecodeError)
        }
    } else if s.len() < 5 {
        Err(DecodeError)
    } else {
        let flag = s[0];
        let id = read_u32(s, 1);
        proof {
            assert(s@.subrange(0, 5).subrange(1, 5) =~= s@.subrange(1, 5));
        }
        let head: Option<u32> = if flag == 0 {
            if id != 0 {
                return Err(DecodeError);
            }
            None
        } else if flag == 1 {
            Some(id)
        } else {
            return Err(DecodeError);
        };
        let rest = vstd::slice::slice_subrange(s, 5, s.len());
        match read_slots(rest, n - 1) {
            Ok(mut v) => {
                v.insert(0, head);
                proof {
                    assert(v@ =~= seq![head] + v@.drop_first());
                }
                Ok(v)
            },
            Err(e) => Err(e),
        }
    }
}

// ---------------------------------------------------------------------
// Appearance names: length-prefixed byte strings
// ---------------------------------------------------------------------

pub open spec fn spec_enc_name(n: Seq<u8>) -> Seq<u8> {
    spec_u32_to_le_bytes(n.len() as u32) + n
}

pub open spec fn spec_enc_names(ns: Seq<Seq<u8>>) -> Seq<u8>
    decreases ns.len(),
{
    if ns.len() == 0 {
        Seq::empty()
    } else {
        spec_enc_name(ns[0]) + spec_enc_names(ns.drop_first())
    }
}

/// Decode exactly `n` length-prefixed names spanning all of `s`.
pub open spec fn spec_dec_names(s: Seq<u8>, n: nat) -> Option<Seq<Seq<u8>>>
    decreases n,
{
    if n == 0 {
        if s.len() == 0 {
            Some(Seq::empty())
        } else {
            None
        }
    } else if s.len() < 4 {
        None
    } else {
        let l = spec_u32_from_le_bytes(s.subrange(0, 4)) as int;
        if s.len() < 4 + l {
            None
        } else {
            let name = s.subrange(4, 4 + l);
            match spec_dec_names(s.subrange(4 + l, s.len() as int), (n - 1) as nat) {
                None => None,
                Some(rest) => Some(seq![name] + rest),
            }
        }
    }
}

proof fn lemma_names_round_trip(ns: Seq<Seq<u8>>)
    requires
        forall|i: int| 0 <= i < ns.len() ==> (#[trigger] ns[i]).len() <= u32::MAX,
    ensures
        spec_dec_names(spec_enc_names(ns), ns.len()) == Some(ns),
    decreases ns.len(),
{
    lemma_auto_spec_u32_to_from_le_bytes();
    if ns.len() == 0 {
    } else {
        lemma_names_round_trip(ns.drop_first());
        let enc = spec_enc_names(ns);
        let l = ns[0].len() as int;
        assert(enc.subrange(0, 4) =~= spec_u32_to_le_bytes(ns[0].len() as u32));
        assert(spec_u32_from_le_bytes(enc.subrange(0, 4)) as int == l);
        assert(enc.subrange(4, 4 + l) =~= ns[0]);
        assert(enc.subrange(4 + l, enc.len() as int) =~= spec_enc_names(ns.drop_first()));
        assert(seq![ns[0]] + ns.drop_first() =~= ns);
    }
}

fn write_name(out: &mut Vec<u8>, n: &Vec<u8>)
    requires
        n@.len() <= u32::MAX,
    ensures
        final(out)@ == old(out)@ + spec_enc_name(n@),
{
    write_u32(out, n.len() as u32);
    let mut copy = n.clone();
    out.append(&mut copy);
    proof {
        assert(out@ =~= old(out)@ + spec_enc_name(n@));
    }
}

fn write_names(out: &mut Vec<u8>, ns: &[Vec<u8>])
    requires
        forall|i: int| 0 <= i < ns@.len() ==> (#[trigger] ns@[i])@.len() <= u32::MAX,
    ensures
        final(out)@ == old(out)@ + spec_enc_names(ns@.map_values(|v: Vec<u8>| v@)),
    decreases ns@.len(),
{
    let ghost model = ns@.map_values(|v: Vec<u8>| v@);
    if ns.len() == 0 {
        proof {
            assert(out@ =~= old(out)@ + spec_enc_names(model));
        }
    } else {
        write_name(out, &ns[0]);
        let rest = vstd::slice::slice_subrange(ns, 1, ns.len());
        write_names(out, rest);
        proof {
            assert(rest@.map_values(|v: Vec<u8>| v@) =~= model.drop_first());
            assert(out@ =~= old(out)@ + spec_enc_names(model));
        }
    }
}

/// Decode `n` names spanning all of `s`.
fn read_names(s: &[u8], n: u32) -> (r: Result<Vec<Vec<u8>>, DecodeError>)
    ensures
        match r {
            Ok(v) => spec_dec_names(s@, n as nat) == Some(v@.map_values(|x: Vec<u8>| x@))
                && v@.len() == n as nat && forall|i: int|
                0 <= i < v@.len() ==> (#[trigger] v@[i])@.len() <= u32::MAX,
            Err(_) => spec_dec_names(s@, n as nat) is None,
        },
    decreases n,
{
    if n == 0 {
        if s.len() == 0 {
            let r: Vec<Vec<u8>> = Vec::new();
            proof {
                assert(r@.map_values(|x: Vec<u8>| x@) =~= Seq::<Seq<u8>>::empty());
            }
            Ok(r)
        } else {
            Err(DecodeError)
        }
    } else if s.len() < 4 {
        Err(DecodeError)
    } else {
        let l32 = read_u32(s, 0);
        let l = l32 as usize;
        if s.len() - 4 < l {
            return Err(DecodeError);
        }
        let name_slice = vstd::slice::slice_subrange(s, 4, 4 + l);
        let name = slice_to_vec(name_slice);
        let rest = vstd::slice::slice_subrange(s, 4 + l, s.len());
        match read_names(rest, n - 1) {
            Ok(mut v) => {
                v.insert(0, name);
                proof {
                    let model = v@.map_values(|x: Vec<u8>| x@);
                    assert(model =~= seq![name@] + model.drop_first());
                }
                Ok(v)
            },
            Err(e) => Err(e),
        }
    }
}

/// Copy a byte slice into an owned vector.
fn slice_to_vec(s: &[u8]) -> (r: Vec<u8>)
    ensures
        r@ == s@,
{
    let mut out: Vec<u8> = Vec::new();
    let mut i: usize = 0;
    while i < s.len()
        invariant
            i <= s@.len(),
            out@ == s@.subrange(0, i as int),
        decreases s@.len() - i,
    {
        out.push(s[i]);
        i = i + 1;
        proof {
            assert(out@ =~= s@.subrange(0, i as int));
        }
    }
    proof {
        assert(out@ =~= s@);
    }
    out
}

// ---------------------------------------------------------------------
// Slot indices
// ---------------------------------------------------------------------

pub open spec fn spec_enc_slot_index(si: SlotIndex) -> Seq<u8> {
    match si {
        SlotIndex::Reserved(r) => seq![0u8] + spec_u32_to_le_bytes(r),
        SlotIndex::Loose(a, b) => seq![1u8] + spec_u32_to_le_bytes(a) + spec_u32_to_le_bytes(b),
    }
}

pub open spec fn spec_dec_slot_index(s: Seq<u8>) -> Option<SlotIndex> {
    if s.len() < 1 {
        None
    } else if s[0] == 0 {
        if s.len() == 5 {
            Some(SlotIndex::Reserved(spec_u32_from_le_bytes(s.subrange(1, 5))))
        } else {
            None
        }
    } else if s[0] == 1 {
        if s.len() == 9 {
            Some(
                SlotIndex::Loose(
                    spec_u32_from_le_bytes(s.subrange(1, 5)),
                    spec_u32_from_le_bytes(s.subrange(5, 9)),
                ),
            )
        } else {
            None
        }
    } else {
        None
    }
}

proof fn lemma_slot_index_round_trip(si: SlotIndex)
    ensures
        spec_dec_slot_index(spec_enc_slot_index(si)) == Some(si),
{
    lemma_auto_spec_u32_to_from_le_bytes();
    match si {
        SlotIndex::Reserved(r) => {
            assert(spec_enc_slot_index(si).subrange(1, 5) =~= spec_u32_to_le_bytes(r));
        },
        SlotIndex::Loose(a, b) => {
            assert(spec_enc_slot_index(si).subrange(1, 5) =~= spec_u32_to_le_bytes(a));
            assert(spec_enc_slot_index(si).subrange(5, 9) =~= spec_u32_to_le_bytes(b));
        },
    }
}

// ---------------------------------------------------------------------
// Components
// ---------------------------------------------------------------------

/// The fields of one component value, without its kind tag.
pub open spec fn spec_enc_component_payload(c: ComponentView) -> Seq<u8> {
    match c {
        ComponentView::Appearance(a) => spec_u32_to_le_bytes(a.index),
        ComponentView::Animate(a) => spec_u32_to_le_bytes(a.current_frame) + spec_u32_to_le_bytes(
            a.row,
        ),
        ComponentView::PlayerAnimationController(_) => Seq::empty(),
        ComponentView::Item(_) => Seq::empty(),
        ComponentView::Deposition(_) => Seq::empty(),
        ComponentView::Inventory(slots) => spec_u32_to_le_bytes(slots.len() as u32)
            + spec_enc_slots(slots),
        ComponentView::PickupRequest(p) => spec_u32_to_le_bytes(p.id),
        ComponentView::DropRequest(d) => spec_enc_slot_index(d.item_index),
        ComponentView::Pos(p) => spec_enc_vec2(p.at) + spec_enc_i64(p.rot),
        ComponentView::Hitbox(h) => spec_enc_vec2(h.half_extents),
        ComponentView::UpdatePosition(u) => spec_enc_vec2(u.at) + spec_enc_i64(u.rot)
            + spec_u64_to_le_bytes(u.time_stamp_ms),
        ComponentView::SpawnPlayer(_) => Seq::empty(),
        ComponentView::LocalPlayer(_) => Seq::empty(),
        ComponentView::Heading(h) => spec_enc_vec2(h.dir),
        ComponentView::Speed(sp) => spec_enc_i64(sp.speed),
        ComponentView::Camera(_) => Seq::empty(),
        ComponentView::Dead(_) => Seq::empty(),
        ComponentView::AttackRequest(_) => Seq::empty(),
    }
}

/// One component value on the wire: its kind tag, then its fields.
pub open spec fn spec_enc_component(c: ComponentView) -> Seq<u8> {
    seq![c.kind()] + spec_enc_component_payload(c)
}

/// Decode one component envelope spanning all of `s`.  Unknown tags and
/// payloads of the wrong shape fail.
pub open spec fn spec_dec_component(s: Seq<u8>) -> Option<ComponentView> {
    if s.len() < 1 {
        None
    } else {
        let t = s[0];
        let p = s.subrange(1, s.len() as int);
        if t == 0 {
            if p.len() == 4 {
                Some(ComponentView::Appearance(Appearance { index: spec_u32_from_le_bytes(p) }))
            } else {
                None
            }
        } else if t == 1 {
            if p.len() == 8 {
                Some(
                    ComponentView::Animate(
                        Animate {
                            current_frame: spec_u32_from_le_bytes(p.subrange(0, 4)),
                            row: spec_u32_from_le_bytes(p.subrange(4, 8)),
                        },
                    ),
                )
            } else {
                None
            }
        } else if t == 2 {
            if p.len() == 0 {
                Some(ComponentView::PlayerAnimationController(PlayerAnimationController))
            } else {
                None
            }
        } else if t == 3 {
            if p.len() == 0 {
                Some(ComponentView::Item(Item))
            } else {
                None
            }
        } else if t == 4 {
            if p.len() == 0 {
                Some(ComponentView::Deposition(Deposition))
            } else {
                None
            }
        } else if t == 5 {
            if p.len() < 4 {
                None
            } else {
                let n = spec_u32_from_le_bytes(p.subrange(0, 4));
                match spec_dec_slots(p.subrange(4, p.len() as int), n as nat) {
                    None => None,
                    Some(slots) => Some(ComponentView::Inventory(slots)),
                }
            }
        } else if t == 6 {
            if p.len() == 4 {
                Some(ComponentView::PickupRequest(PickupRequest { id: spec_u32_from_le_bytes(p) }))
            } else {
                None
            }
        } else if t == 7 {
            match spec_dec_slot_index(p) {
                None => None,
                Some(si) => Some(ComponentView::DropRequest(DropRequest { item_index: si })),
            }
        } else if t == 8 {
            if p.len() == 24 {
                Some(
                    ComponentView::Pos(
                        Pos {
                            at: spec_dec_vec2(p.subrange(0, 16)),
                            rot: spec_dec_i64(p.subrange(16, 24)),
                        },
                    ),
                )
            } else {
                None
            }
        } else if t == 9 {
            if p.len() == 16 {
                Some(ComponentView::Hitbox(Hitbox { half_extents: spec_dec_vec2(p) }))
            } else {
                None
            }
        } else if t == 10 {
            if p.len() == 32 {
                Some(
                    ComponentView::UpdatePosition(
                        UpdatePosition {
                            at: spec_dec_vec2(p.subrange(0, 16)),
                            rot: spec_dec_i64(p.subrange(16, 24)),
                            time_stamp_ms: spec_u64_from_le_bytes(p.subrange(24, 32)),
                        },
                    ),
                )
            } else {
                None
            }
        } else if t == 11 {
            if p.len() == 0 {
                Some(ComponentView::SpawnPlayer(SpawnPlayer))
            } else {
                None
            }
        } else if t == 12 {
            if p.len() == 0 {
                Some(ComponentView::LocalPlayer(LocalPlayer))
            } else {
                None
            }
        } else if t == 13 {
            if p.len() == 16 {
                Some(ComponentView::Heading(Heading { dir: spec_dec_vec2(p) }))
            } else {
                None
            }
        } else if t == 14 {
            if p.len() == 8 {
                Some(ComponentView::Speed(Speed { speed: spec_dec_i64(p) }))
            } else {
                None
            }
        } else if t == 15 {
            if p.len() == 0 {
                Some(ComponentView::Camera(Camera))
            } else {
                None
            }
        } else if t == 16 {
            if p.len() == 0 {
                Some(ComponentView::Dead(Dead))
            } else {
                None
            }
        } else if t == 17 {
            if p.len() == 0 {
                Some(ComponentView::AttackRequest(AttackRequest))
            } else {
                None
            }
        } else {
            None
        }
    }
}

/// Decoding inverts encoding: every well-formed component value comes back
/// from its own bytes.
pub proof fn lemma_component_round_trip(c: ComponentView)
    requires
        c.wf(),
    ensures
        spec_dec_component(spec_enc_component(c)) == Some(c),
{
    lemma_auto_spec_u32_to_from_le_bytes();
    lemma_auto_spec_u64_to_from_le_bytes();
    let enc = spec_enc_component(c);
    let p = enc.subrange(1, enc.len() as int);
    assert(p =~= spec_enc_component_payload(c));
    match c {
        ComponentView::Appearance(a) => {
            assert(p =~= spec_u32_to_le_bytes(a.index));
        },
        ComponentView::Animate(a) => {
            assert(p.subrange(0, 4) =~= spec_u32_to_le_bytes(a.current_frame));
            assert(p.subrange(4, 8) =~= spec_u32_to_le_bytes(a.row));
        },
        ComponentView::PlayerAnimationController(_) => {},
        ComponentView::Item(_) => {},
        ComponentView::Deposition(_) => {},
        ComponentView::Inventory(slots) => {
            lemma_slots_round_trip(slots);
            assert(p.subrange(0, 4) =~= spec_u32_to_le_bytes(slots.len() as u32));
            assert(p.subrange(4, p.len() as int) =~= spec_enc_slots(slots));
        },
        ComponentView::PickupRequest(pr) => {
            assert(p =~= spec_u32_to_le_bytes(pr.id));
        },
        ComponentView::DropRequest(d) => {
            lemma_slot_index_round_trip(d.item_index);
            assert(p =~= spec_enc_slot_index(d.item_index));
        },
        ComponentView::Pos(pos) => {
            lemma_vec2_round_trip(pos.at);
            lemma_i64_round_trip(pos.rot);
            assert(p.subrange(0, 16) =~= spec_enc_vec2(pos.at));
            assert(p.subrange(16, 24) =~= spec_enc_i64(pos.rot));
        },
        ComponentView::Hitbox(h) => {
            lemma_vec2_round_trip(h.half_extents);
            assert(p =~= spec_enc_vec2(h.half_extents));
        },
        ComponentView::UpdatePosition(u) => {
            lemma_vec2_round_trip(u.at);
            lemma_i64_round_trip(u.rot);
            assert(p.subrange(0, 16) =~= spec_enc_vec2(u.at));
            assert(p.subrange(16, 24) =~= spec_enc_i64(u.rot));
            assert(p.subrange(24, 32) =~= spec_u64_to_le_bytes(u.time_stamp_ms));
        },
        ComponentView::SpawnPlayer(_) => {},
        ComponentView::LocalPlayer(_) => {},
        ComponentView::Heading(h) => {
            lemma_vec2_round_trip(h.dir);
            assert(p =~= spec_enc_vec2(h.dir));
        },
        ComponentView::Speed(sp) => {
            lemma_i64_round_trip(sp.speed);
            assert(p =~= spec_enc_i64(sp.speed));
        },
        ComponentView::Camera(_) => {},
        ComponentView::Dead(_) => {},
        ComponentView::AttackRequest(_) => {},
    }
}

// ---------------------------------------------------------------------
// Messages
// ---------------------------------------------------------------------

/// One wire message: a one-byte message tag, then its fields.  An upsert
/// carries its component envelope as the remainder of the frame.
pub open spec fn spec_enc_message(m: MessageView) -> Seq<u8> {
    match m {
        MessageView::NewEnt(id) => seq![0u8] + spec_u32_to_le_bytes(id),
        MessageView::InsertComp(id, c) => seq![1u8] + spec_u32_to_le_bytes(id)
            + spec_enc_component(c),
        MessageView::Establishment { local_player, names } => seq![2u8] + spec_u32_to_le_bytes(
            local_player,
        ) + spec_u32_to_le_bytes(names.len() as u32) + spec_enc_names(names),
    }
}

/// Decode one message frame spanning all of `s`.
pub open spec fn spec_dec_message(s: Seq<u8>) -> Option<MessageView> {
    if s.len() < 1 {
        None
    } else {
        let t = s[0];
        let p = s.subrange(1, s.len() as int);
        if t == 0 {
            if p.len() == 4 {
                Some(MessageView::NewEnt(spec_u32_from_le_bytes(p)))
            } else {
                None
            }
        } else if t == 1 {
            if p.len() < 4 {
                None
            } else {
                let id = spec_u32_from_le_bytes(p.subrange(0, 4));
                match spec_dec_component(p.subrange(4, p.len() as int)) {
                    None => None,
                    Some(c) => Some(MessageView::InsertComp(id, c)),
                }
            }
        } else if t == 2 {
            if p.len() < 8 {
                None
            } else {
                let local_player = spec_u32_from_le_bytes(p.subrange(0, 4));
                let n = spec_u32_from_le_bytes(p.subrange(4, 8));
                match spec_dec_names(p.subrange(8, p.len() as int), n as nat) {
                    None => None,
                    Some(names) => Some(MessageView::Establishment { local_player, names }),
                }
            }
        } else {
            None
        }
    }
}

/// Decoding inverts encoding for whole messages.
pub proof fn lemma_message_round_trip(m: MessageView)
    requires
        m.wf(),
    ensures
        spec_dec_message(spec_enc_message(m)) == Some(m),
{
    lemma_auto_spec_u32_to_from_le_bytes();
    let enc = spec_enc_message(m);
    let p = enc.subrange(1, enc.len() as int);
    match m {
        MessageView::NewEnt(id) => {
            assert(p =~= spec_u32_to_le_bytes(id));
        },
        MessageView::InsertComp(id, c) => {
            lemma_component_round_trip(c);
            assert(p.subrange(0, 4) =~= spec_u32_to_le_bytes(id));
            assert(p.subrange(4, p.len() as int) =~= spec_enc_component(c));
        },
        MessageView::Establishment { local_player, names } => {
            lemma_names_round_trip(names);
            assert(p.subrange(0, 4) =~= spec_u32_to_le_bytes(local_player));
            assert(p.subrange(4, 8) =~= spec_u32_to_le_bytes(names.len() as u32));
            assert(p.subrange(8, p.len() as int) =~= spec_enc_names(names));
        },
    }
}

// ---------------------------------------------------------------------
// Executable encoding
// ---------------------------------------------------------------------

/// Encode one component value into its wire envelope.
pub fn encode_component(c: &NetComponent) -> (r: Vec<u8>)
    requires
        c@.wf(),
    ensures
        r@ == spec_enc_component(c@),
{
    let mut out: Vec<u8> = Vec::new();
    out.push(c.kind_tag());
    match c {
        NetComponent::Appearance(a) => {
            write_u32(&mut out, a.index);
        },
        NetComponent::Animate(a) => {
            write_u32(&mut out, a.current_frame);
            write_u32(&mut out, a.row);
        },
        NetComponent::PlayerAnimationController(_) => {},
        NetComponent::Item(_) => {},
        NetComponent::Deposition(_) => {},
        NetComponent::Inventory(inv) => {
            write_u32(&mut out, inv.slots.len() as u32);
            write_slots(&mut out, inv.slots.as_slice());
        },
        NetComponent::PickupRequest(p) => {
            write_u32(&mut out, p.id);
        },
        NetComponent::DropRequest(d) => {
            match d.item_index {
                SlotIndex::Reserved(r0) => {
                    out.push(0);
                    write_u32(&mut out, r0);
                },
                SlotIndex::Loose(a, b) => {
                    out.push(1);
                    write_u32(&mut out, a);
                    write_u32(&mut out, b);
                },
            }
        },
        NetComponent::Pos(p) => {
            write_vec2(&mut out, p.at);
            write_i64(&mut out, p.rot);
        },
        NetComponent::Hitbox(h) => {
            write_vec2(&mut out, h.half_extents);
        },
        NetComponent::UpdatePosition(u) => {
            write_vec2(&mut out, u.at);
            write_i64(&mut out, u.rot);
            write_u64(&mut out, u.time_stamp_ms);
        },
        NetComponent::SpawnPlayer(_) => {},
        NetComponent::LocalPlayer(_) => {},
        NetComponent::Heading(h) => {
            write_vec2(&mut out, h.dir);
        },
        NetComponent::Speed(sp) => {
            write_i64(&mut out, sp.speed);
        },
        NetComponent::Camera(_) => {},
        NetComponent::Dead(_) => {},
        NetComponent::AttackRequest(_) => {},
    }
    proof {
        assert(out@ =~= spec_enc_component(c@));
    }
    out
}

/// Decode one component envelope; fails on anything this codec did not
/// produce.
pub fn decode_component(s: &[u8]) -> (r: Result<NetComponent, DecodeError>)
    ensures
        match r {
            Ok(v) => spec_dec_component(s@) == Some(v@) && v@.wf(),
            Err(_) => spec_dec_component(s@) is None,
        },
{
    if s.len() < 1 {
        return Err(DecodeError);
    }
    let t = s[0];
    let plen = s.len() - 1;
    let ghost p = s@.subrange(1, s@.len() as int);
    if t == 0 {
        if plen == 4 {
            let index = read_u32(s, 1);
            proof {
                assert(p =~= s@.subrange(1, 5));
            }
            Ok(NetComponent::Appearance(Appearance { index }))
        } else {
            Err(DecodeError)
        }
    } else if t == 1 {
        if plen == 8 {
            let current_frame = read_u32(s, 1);
            let row = read_u32(s, 5);
            proof {
                assert(p.subrange(0, 4) =~= s@.subrange(1, 5));
                assert(p.subrange(4, 8) =~= s@.subrange(5, 9));
            }
            Ok(NetComponent::Animate(Animate { current_frame, row }))
        } else {
            Err(DecodeError)
        }
    } else if t == 2 {
        if plen == 0 {
            Ok(NetComponent::PlayerAnimationController(PlayerAnimationController))
        } else {
            Err(DecodeError)
        }
    } else if t == 3 {
        if plen == 0 {
            Ok(NetComponent::Item(Item))
        } else {
            Err(DecodeError)
        }
    } else if t == 4 {
        if plen == 0 {
            Ok(NetComponent::Deposition(Deposition))
        } else {
            Err(DecodeError)
        }
    } else if t == 5 {
        if plen < 4 {
            return Err(DecodeError);
        }
        let n = read_u32(s, 1);
        let rest = vstd::slice::slice_subrange(s, 5, s.len());
        proof {
            assert(p.subrange(0, 4) =~= s@.subrange(1, 5));
            assert(p.subrange(4, p.len() as int) =~= rest@);
        }
        match read_slots(rest, n) {
            Ok(slots) => Ok(NetComponent::Inventory(Inventory { slots })),
            Err(e) => Err(e),
        }
    } else if t == 6 {
        if plen == 4 {
            let id = read_u32(s, 1);
            proof {
                assert(p =~= s@.subrange(1, 5));
            }
            Ok(NetComponent::PickupRequest(PickupRequest { id }))
        } else {
            Err(DecodeError)
        }
    } else if t == 7 {
        if plen < 1 {
            return Err(DecodeError);
        }
        let v = s[1];
        if v == 0 {
            if plen == 5 {
                let r0 = read_u32(s, 2);
                proof {
                    assert(p.subrange(1, 5) =~= s@.subrange(2, 6));
                }
                Ok(
                    NetComponent::DropRequest(
                        DropRequest { item_index: SlotIndex::Reserved(r0) },
                    ),
                )
            } else {
                Err(DecodeError)
            }
        } else if v == 1 {
            if plen == 9 {
                let a = read_u32(s, 2);
                let b = read_u32(s, 6);
                proof {
                    assert(p.subrange(1, 5) =~= s@.subrange(2, 6));
                    assert(p.subrange(5, 9) =~= s@.subrange(6, 10));
                }
                Ok(
                    NetComponent::DropRequest(
                        DropRequest { item_index: SlotIndex::Loose(a, b) },
                    ),
                )
            } else {
                Err(DecodeError)
            }
        } else {
            Err(DecodeError)
        }
    } else if t == 8 {
        if plen == 24 {
            let at = read_vec2(s, 1);
            let rot = read_i64(s, 17);
            proof {
                assert(p.subrange(0, 16) =~= s@.subrange(1, 17));
                assert(p.subrange(16, 24) =~= s@.subrange(17, 25));
            }
            Ok(NetComponent::Pos(Pos { at, rot }))
        } else {
            Err(DecodeError)
        }
    } else if t == 9 {
        if plen == 16 {
            let half_extents = read_vec2(s, 1);
            proof {
                assert(p =~= s@.subrange(1, 17));
            }
            Ok(NetComponent::Hitbox(Hitbox { half_extents }))
        } else {
            Err(DecodeError)
        }
    } else if t == 10 {
        if plen == 32 {
            let at = read_vec2(s, 1);
            let rot = read_i64(s, 17);
            let time_stamp_ms = read_u64(s, 25);
            proof {
                assert(p.subrange(0, 16) =~= s@.subrange(1, 17));
                assert(p.subrange(16, 24) =~= s@.subrange(17, 25));
                assert(p.subrange(24, 32) =~= s@.subrange(25, 33));
            }
            Ok(NetComponent::UpdatePosition(UpdatePosition { at, rot, time_stamp_ms }))
        } else {
            Err(DecodeError)
        }
    } else if t == 11 {
        if plen == 0 {
            Ok(NetComponent::SpawnPlayer(SpawnPlayer))
        } else {
            Err(DecodeError)
        }
    } else if t == 12 {
        if plen == 0 {
            Ok(NetComponent::LocalPlayer(LocalPlayer))
        } else {
            Err(DecodeError)
        }
    } else if t == 13 {
        if plen == 16 {
            let dir = read_vec2(s, 1);
            proof {
                assert(p =~= s@.subrange(1, 17));
            }
            Ok(NetComponent::Heading(Heading { dir }))
        } else {
            Err(DecodeError)
        }
    } else if t == 14 {
        if plen == 8 {
            let speed = read_i64(s, 1);
            proof {
                assert(p =~= s@.subrange(1, 9));
            }
            Ok(NetComponent::Speed(Speed { speed }))
        } else {
            Err(DecodeError)
        }
    } else if t == 15 {
        if plen == 0 {
            Ok(NetComponent::Camera(Camera))
        } else {
            Err(DecodeError)
        }
    } else if t == 16 {
        if plen == 0 {
            Ok(NetComponent::Dead(Dead))
        } else {
            Err(DecodeError)
        }
    } else if t == 17 {
        if plen == 0 {
            Ok(NetComponent::AttackRequest(AttackRequest))
        } else {
            Err(DecodeError)
        }
    } else {
        Err(DecodeError)
    }
}

/// Encode one message into its transport frame.
pub fn encode_message(m: &NetMessage) -> (r: Vec<u8>)
    requires
        m@.wf(),
    ensures
        r@ == spec_enc_message(m@),
{
    let mut out: Vec<u8> = Vec::new();
    match m {
        NetMessage::NewEnt(id) => {
            out.push(0);
            write_u32(&mut out, *id);
        },
        NetMessage::InsertComp(id, c) => {
            out.push(1);
            write_u32(&mut out, *id);
            let mut body = encode_component(c);
            out.append(&mut body);
        },
        NetMessage::Establishment { local_player, appearance_record } => {
            out.push(2);
            write_u32(&mut out, *local_player);
            write_u32(&mut out, appearance_record.names.len() as u32);
            proof {
                let ns = appearance_record.names@;
                let model = appearance_record@;
                assert forall|i: int| 0 <= i < ns.len() implies (#[trigger] ns[i])@.len()
                    <= u32::MAX by {
                    assert(model[i] == ns[i]@);
                }
            }
            write_names(&mut out, appearance_record.names.as_slice());
        },
    }
    proof {
        assert(out@ =~= spec_enc_message(m@));
    }
    out
}

/// Decode one transport frame; fails on anything this codec did not
/// produce.
pub fn decode_message(s: &[u8]) -> (r: Result<NetMessage, DecodeError>)
    ensures
        match r {
            Ok(v) => spec_dec_message(s@) == Some(v@) && v@.wf(),
            Err(_) => spec_dec_message(s@) is None,
        },
{
    if s.len() < 1 {
        return Err(DecodeError);
    }
    let t = s[0];
    let plen = s.len() - 1;
    let ghost p = s@.subrange(1, s@.len() as int);
    if t == 0 {
        if plen == 4 {
            let id = read_u32(s, 1);
            proof {
                assert(p =~= s@.subrange(1, 5));
            }
            Ok(NetMessage::NewEnt(id))
        } else {
            Err(DecodeError)
        }
    } else if t == 1 {
        if plen < 4 {
            return Err(DecodeError);
        }
        let id = read_u32(s, 1);
        let rest = vstd::slice::slice_subrange(s, 5, s.len());
        proof {
            assert(p.subrange(0, 4) =~= s@.subrange(1, 5));
            assert(p.subrange(4, p.len() as int) =~= rest@);
        }
        match decode_component(rest) {
            Ok(c) => Ok(NetMessage::InsertComp(id, c)),
            Err(e) => Err(e),
        }
    } else if t == 2 {
        if plen < 8 {
            return Err(DecodeError);
        }
        let local_player = read_u32(s, 1);
        let n = read_u32(s, 5);
        let rest = vstd::slice::slice_subrange(s, 9, s.len());
        proof {
            assert(p.subrange(0, 4) =~= s@.subrange(1, 5));
            assert(p.subrange(4, 8) =~= s@.subrange(5, 9));
            assert(p.subrange(8, p.len() as int) =~= rest@);
        }
        match read_names(rest, n) {
            Ok(names) => Ok(
                NetMessage::Establishment {
                    local_player,
                    appearance_record: AppearanceRecord { names },
                },
            ),
            Err(e) => Err(e),
        }
    } else {
        Err(DecodeError)
    }
}

} // verus!
