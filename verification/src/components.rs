//! The closed set of replicable component kinds, and the wire messages
//! that carry them.
//!
//! A component value is always scoped to one entity; on the wire it is
//! tagged with its kind so the receiver can decode it without schema
//! negotiation.  Adding a kind is a compile-time change on both ends.

use crate::geom::Vec2;
use vstd::prelude::*;

verus! {

/// Where an entity stands and which way it faces.  `rot` is an angle in
/// fixed-point milliradians.
#[derive(Clone, Copy, PartialEq, Eq, Structural, Debug)]
pub struct Pos {
    pub at: Vec2,
    pub rot: i64,
}

impl Pos {
    /// A position at the given point with no rotation.
    pub fn vec(at: Vec2) -> (r: Pos)
        ensures
            r.at == at,
            r.rot == 0,
    {
        Pos { at, rot: 0 }
    }
}

/// An axis-aligned collision box, stored by its half extents.
#[derive(Clone, Copy, PartialEq, Eq, Structural, Debug)]
pub struct Hitbox {
    pub half_extents: Vec2,
}

impl Hitbox {
    /// Create a hitbox from its half extents (so it spans twice the given
    /// numbers on each axis).
    pub fn vec(half_extents: Vec2) -> (r: Hitbox)
        ensures
            r.half_extents == half_extents,
    {
        Hitbox { half_extents }
    }
}

/// An index into the appearance catalog: which of the loaded appearances
/// an entity shows.  Appearance never affects behaviour.
#[derive(Clone, Copy, PartialEq, Eq, Structural, Debug, Hash)]
pub struct Appearance {
    pub index: u32,
}

/// Animation state: entities with this are rendered frame by frame from a
/// spritesheet row.
#[derive(Clone, Copy, PartialEq, Eq, Structural, Debug)]
pub struct Animate {
    pub current_frame: u32,
    pub row: u32,
}

impl Animate {
    pub fn new() -> (r: Animate)
        ensures
            r.current_frame == 0,
            r.row == 0,
    {
        Animate { current_frame: 0, row: 0 }
    }

    pub fn row(row: u32) -> (r: Animate)
        ensures
            r.current_frame == 0,
            r.row == row,
    {
        Animate { current_frame: 0, row }
    }
}

/// Marker: this entity's animation rows follow the player's movement.
#[derive(Clone, Copy, PartialEq, Eq, Structural, Debug)]
pub struct PlayerAnimationController;

/// Marker: this entity can sit in an inventory.
#[derive(Clone, Copy, PartialEq, Eq, Structural, Debug)]
pub struct Item;

/// Marker: this entity is leaving the physical world and becoming a pure
/// inventory item; its position and appearance are dropped from the mirror.
#[derive(Clone, Copy, PartialEq, Eq, Structural, Debug)]
pub struct Deposition;

/// Which slot of an inventory is meant: a reserved slot for a given
/// equipment role, or a loose slot at a row/column of the grid.
#[derive(Clone, Copy, PartialEq, Eq, Structural, Debug)]
pub enum SlotIndex {
    Reserved(u32),
    Loose(u32, u32),
}

/// An entity's item slots; each slot is empty or holds the server-global
/// id of the item entity sitting in it.
#[derive(Clone, PartialEq, Eq, Debug)]
pub struct Inventory {
    pub slots: Vec<Option<u32>>,
}

impl View for Inventory {
    type V = Seq<Option<u32>>;

    open spec fn view(&self) -> Seq<Option<u32>> {
        self.slots@
    }
}

impl Inventory {
    /// Slot count small enough for the wire's length prefix.
    pub open spec fn wf(self) -> bool {
        self.slots@.len() <= u32::MAX
    }
}

/// A client's request to pick up the item entity with the given
/// server-global id.
#[derive(Clone, Copy, PartialEq, Eq, Structural, Debug)]
pub struct PickupRequest {
    pub id: u32,
}

/// A client's request to drop the item sitting in one of its slots.
#[derive(Clone, Copy, PartialEq, Eq, Structural, Debug)]
pub struct DropRequest {
    pub item_index: SlotIndex,
}

/// An authoritative position sample sent from the server to a client.
/// Clients never put these on the server; the client mirror blends its
/// local position toward them.  `time_stamp_ms` is milliseconds since the
/// epoch at the moment the sample was taken.
#[derive(Clone, Copy, PartialEq, Eq, Structural, Debug)]
pub struct UpdatePosition {
    pub at: Vec2,
    pub rot: i64,
    pub time_stamp_ms: u64,
}

/// Sent by a client when it is ready to enter the game world and wants its
/// position and appearance components.
#[derive(Clone, Copy, PartialEq, Eq, Structural, Debug)]
pub struct SpawnPlayer;

/// Attached by the server, on a client's mirror, to the one entity that
/// client controls.
#[derive(Clone, Copy, PartialEq, Eq, Structural, Debug)]
pub struct LocalPlayer;

/// Where the client would like to go; zero when idle.  The server is not
/// obliged to get them there.
#[derive(Clone, Copy, PartialEq, Eq, Structural, Debug)]
pub struct Heading {
    pub dir: Vec2,
}

impl Heading {
    /// An active heading: some nonzero direction is driving movement.
    pub open spec fn is_active(self) -> bool {
        self.dir.x != 0 || self.dir.y != 0
    }

    pub fn active(&self) -> (r: bool)
        ensures
            r == self.is_active(),
    {
        self.dir.x != 0 || self.dir.y != 0
    }
}

/// How far a heading moves its entity per tick, in sub-units.
#[derive(Clone, Copy, PartialEq, Eq, Structural, Debug)]
pub struct Speed {
    pub speed: i64,
}

/// Marker: the client looks out of this entity.
#[derive(Clone, Copy, PartialEq, Eq, Structural, Debug)]
pub struct Camera;

/// Marker: this entity has died and is awaiting cleanup.
#[derive(Clone, Copy, PartialEq, Eq, Structural, Debug)]
pub struct Dead;

/// A client's request to swing at whatever stands in reach.
#[derive(Clone, Copy, PartialEq, Eq, Structural, Debug)]
pub struct AttackRequest;

/// Hit points.
#[derive(Clone, Copy, PartialEq, Eq, Structural, Debug)]
pub struct Health {
    pub current: u32,
    pub max: u32,
}

impl Health {
    /// Health at its maximum.
    pub fn full(max: u32) -> (r: Health)
        ensures
            r.current == max,
            r.max == max,
    {
        Health { current: max, max }
    }
}

/// The catalog of appearance names currently loaded, in index order; a
/// name is carried as its UTF-8 bytes.
#[derive(Clone, PartialEq, Eq, Debug)]
pub struct AppearanceRecord {
    pub names: Vec<Vec<u8>>,
}

impl View for AppearanceRecord {
    type V = Seq<Seq<u8>>;

    open spec fn view(&self) -> Seq<Seq<u8>> {
        self.names@.map_values(|v: Vec<u8>| v@)
    }
}

impl AppearanceRecord {
    /// Catalog and name sizes small enough for the wire's length prefixes.
    pub open spec fn wf(self) -> bool {
        self@.len() <= u32::MAX && forall|i: int|
            0 <= i < self@.len() ==> (#[trigger] self@[i]).len() <= u32::MAX
    }
}

/// One value of the closed set of replicable component kinds.
#[derive(Clone, PartialEq, Eq, Debug)]
pub enum NetComponent {
    Appearance(Appearance),
    Animate(Animate),
    PlayerAnimationController(PlayerAnimationController),
    Item(Item),
    Deposition(Deposition),
    Inventory(Inventory),
    PickupRequest(PickupRequest),
    DropRequest(DropRequest),
    Pos(Pos),
    Hitbox(Hitbox),
    UpdatePosition(UpdatePosition),
    SpawnPlayer(SpawnPlayer),
    LocalPlayer(LocalPlayer),
    Heading(Heading),
    Speed(Speed),
    Camera(Camera),
    Dead(Dead),
    AttackRequest(AttackRequest),
}

/// The purely mathematical shape of a component value: the same closed
/// set of kinds, with sequence contents in place of vectors.
pub enum ComponentView {
    Appearance(Appearance),
    Animate(Animate),
    PlayerAnimationController(PlayerAnimationController),
    Item(Item),
    Deposition(Deposition),
    Inventory(Seq<Option<u32>>),
    PickupRequest(PickupRequest),
    DropRequest(DropRequest),
    Pos(Pos),
    Hitbox(Hitbox),
    UpdatePosition(UpdatePosition),
    SpawnPlayer(SpawnPlayer),
    LocalPlayer(LocalPlayer),
    Heading(Heading),
    Speed(Speed),
    Camera(Camera),
    Dead(Dead),
    AttackRequest(AttackRequest),
}

impl ComponentView {
    /// The kind tag: one byte that names the variant on the wire, and the
    /// key under which an upsert overwrites an earlier value of the same
    /// kind.
    pub open spec fn kind(self) -> u8 {
        match self {
            ComponentView::Appearance(_) => 0,
            ComponentView::Animate(_) => 1,
            ComponentView::PlayerAnimationController(_) => 2,
            ComponentView::Item(_) => 3,
            ComponentView::Deposition(_) => 4,
            ComponentView::Inventory(_) => 5,
            ComponentView::PickupRequest(_) => 6,
            ComponentView::DropRequest(_) => 7,
            ComponentView::Pos(_) => 8,
            ComponentView::Hitbox(_) => 9,
            ComponentView::UpdatePosition(_) => 10,
            ComponentView::SpawnPlayer(_) => 11,
            ComponentView::LocalPlayer(_) => 12,
            ComponentView::Heading(_) => 13,
            ComponentView::Speed(_) => 14,
            ComponentView::Camera(_) => 15,
            ComponentView::Dead(_) => 16,
            ComponentView::AttackRequest(_) => 17,
        }
    }

    /// Sizes fit the wire's length prefixes (only variable-size payloads
    /// constrain anything).
    pub open spec fn wf(self) -> bool {
        match self {
            ComponentView::Inventory(slots) => slots.len() <= u32::MAX,
            _ => true,
        }
    }
}

impl View for NetComponent {
    type V = ComponentView;

    open spec fn view(&self) -> ComponentView {
        match self {
            NetComponent::Appearance(a) => ComponentView::Appearance(*a),
            NetComponent::Animate(a) => ComponentView::Animate(*a),
            NetComponent::PlayerAnimationController(a) => ComponentView::PlayerAnimationController(
                *a,
            ),
            NetComponent::Item(a) => ComponentView::Item(*a),
            NetComponent::Deposition(a) => ComponentView::Deposition(*a),
            NetComponent::Inventory(inv) => ComponentView::Inventory(inv.slots@),
            NetComponent::PickupRequest(a) => ComponentView::PickupRequest(*a),
            NetComponent::DropRequest(a) => ComponentView::DropRequest(*a),
            NetComponent::Pos(a) => ComponentView::Pos(*a),
            NetComponent::Hitbox(a) => ComponentView::Hitbox(*a),
            NetComponent::UpdatePosition(a) => ComponentView::UpdatePosition(*a),
            NetComponent::SpawnPlayer(a) => ComponentView::SpawnPlayer(*a),
            NetComponent::LocalPlayer(a) => ComponentView::LocalPlayer(*a),
            NetComponent::Heading(a) => ComponentView::Heading(*a),
            NetComponent::Speed(a) => ComponentView::Speed(*a),
            NetComponent::Camera(a) => ComponentView::Camera(*a),
            NetComponent::Dead(a) => ComponentView::Dead(*a),
            NetComponent::AttackRequest(a) => ComponentView::AttackRequest(*a),
        }
    }
}

impl NetComponent {
    /// The kind tag of this value's view.
    pub open spec fn kind(self) -> u8 {
        self@.kind()
    }

    /// Executable kind tag.
    pub fn kind_tag(&self) -> (r: u8)
        ensures
            r == self@.kind(),
    {
        match self {
            NetComponent::Appearance(_) => 0,
            NetComponent::Animate(_) => 1,
            NetComponent::PlayerAnimationController(_) => 2,
            NetComponent::Item(_) => 3,
            NetComponent::Deposition(_) => 4,
            NetComponent::Inventory(_) => 5,
            NetComponent::PickupRequest(_) => 6,
            NetComponent::DropRequest(_) => 7,
            NetComponent::Pos(_) => 8,
            NetComponent::Hitbox(_) => 9,
            NetComponent::UpdatePosition(_) => 10,
            NetComponent::SpawnPlayer(_) => 11,
            NetComponent::LocalPlayer(_) => 12,
            NetComponent::Heading(_) => 13,
            NetComponent::Speed(_) => 14,
            NetComponent::Camera(_) => 15,
            NetComponent::Dead(_) => 16,
            NetComponent::AttackRequest(_) => 17,
        }
    }

    /// Sizes fit the wire's length prefixes.
    pub open spec fn wf(self) -> bool {
        self@.wf()
    }
}

/// Copy an item-slot vector.
fn clone_slots(v: &Vec<Option<u32>>) -> (r: Vec<Option<u32>>)
    ensures
        r@ == v@,
{
    let mut out: Vec<Option<u32>> = Vec::new();
    let mut i: usize = 0;
    while i < v.len()
        invariant
            i <= v@.len(),
            out@ == v@.subrange(0, i as int),
        decreases v@.len() - i,
    {
        out.push(v[i]);
        i = i + 1;
        proof {
            assert(out@ =~= v@.subrange(0, i as int));
        }
    }
    proof {
        assert(out@ =~= v@);
    }
    out
}

impl NetComponent {
    /// An identical copy of this component value.
    pub fn clone_component(&self) -> (r: NetComponent)
        ensures
            r@ == self@,
    {
        match self {
            NetComponent::Appearance(a) => NetComponent::Appearance(*a),
            NetComponent::Animate(a) => NetComponent::Animate(*a),
            NetComponent::PlayerAnimationController(a) => NetComponent::PlayerAnimationController(
                *a,
            ),
            NetComponent::Item(a) => NetComponent::Item(*a),
            NetComponent::Deposition(a) => NetComponent::Deposition(*a),
            NetComponent::Inventory(inv) => NetComponent::Inventory(
                Inventory { slots: clone_slots(&inv.slots) },
            ),
            NetComponent::PickupRequest(a) => NetComponent::PickupRequest(*a),
            NetComponent::DropRequest(a) => NetComponent::DropRequest(*a),
            NetComponent::Pos(a) => NetComponent::Pos(*a),
            NetComponent::Hitbox(a) => NetComponent::Hitbox(*a),
            NetComponent::UpdatePosition(a) => NetComponent::UpdatePosition(*a),
            NetComponent::SpawnPlayer(a) => NetComponent::SpawnPlayer(*a),
            NetComponent::LocalPlayer(a) => NetComponent::LocalPlayer(*a),
            NetComponent::Heading(a) => NetComponent::Heading(*a),
            NetComponent::Speed(a) => NetComponent::Speed(*a),
            NetComponent::Camera(a) => NetComponent::Camera(*a),
            NetComponent::Dead(a) => NetComponent::Dead(*a),
            NetComponent::AttackRequest(a) => NetComponent::AttackRequest(*a),
        }
    }
}

/// Copy a byte string.
fn clone_bytes(v: &Vec<u8>) -> (r: Vec<u8>)
    ensures
        r@ == v@,
{
    let mut out: Vec<u8> = Vec::new();
    let mut i: usize = 0;
    while i < v.len()
        invariant
            i <= v@.len(),
            out@ == v@.subrange(0, i as int),
        decreases v@.len() - i,
    {
        out.push(v[i]);
        i = i + 1;
        proof {
            assert(out@ =~= v@.subrange(0, i as int));
        }
    }
    proof {
        assert(out@ =~= v@);
    }
    out
}

impl AppearanceRecord {
    /// An identical copy of the catalog.
    pub fn clone_record(&self) -> (r: AppearanceRecord)
        ensures
            r@ == self@,
    {
        let mut names: Vec<Vec<u8>> = Vec::new();
        let mut i: usize = 0;
        while i < self.names.len()
            invariant
                i <= self.names@.len(),
                names@.len() == i,
                forall|j: int| 0 <= j < i ==> (#[trigger] names@[j])@ == self.names@[j]@,
            decreases self.names@.len() - i,
        {
            names.push(clone_bytes(&self.names[i]));
            i = i + 1;
        }
        let r = AppearanceRecord { names };
        proof {
            let f = |v: Vec<u8>| v@;
            assert forall|j: int| 0 <= j < r@.len() implies r@[j] == self@[j] by {
                assert(r@[j] == f(r.names@[j]));
                assert(self@[j] == f(self.names@[j]));
            }
            assert(r@ =~= self@);
        }
        r
    }
}

/// The kind tag of a position component.
pub const KIND_POS: u8 = 8;

/// The kind tag of an authoritative position update.
pub const KIND_UPDATE_POSITION: u8 = 10;

/// The kind tag of a movement heading.
pub const KIND_HEADING: u8 = 13;

/// The kind tag of an appearance index.
pub const KIND_APPEARANCE: u8 = 0;

/// The kind tag of the deposition marker.
pub const KIND_DEPOSITION: u8 = 4;

/// The kind tag of the item marker.
pub const KIND_ITEM: u8 = 3;

/// One wire message.  Each transport frame carries exactly one.
#[derive(Clone, PartialEq, Eq, Debug)]
pub enum NetMessage {
    /// Instructs the client to allocate a fresh local entity for this
    /// server-global id.  Sent client-to-server it only marks liveness and
    /// is otherwise ignored.
    NewEnt(u32),
    /// Inserts (possibly overwriting) one component.  On the client the id
    /// selects the target entity; on the server the id is ignored and the
    /// component lands on the sending client's own entity.
    InsertComp(u32, NetComponent),
    /// Sent once per connection, server-to-client, as soon as the client's
    /// first message arrives: the id the client's own entity will get, and
    /// the appearance catalog.  Sent client-to-server it is ignored.
    Establishment { local_player: u32, appearance_record: AppearanceRecord },
}

/// The purely mathematical shape of a wire message.
pub enum MessageView {
    NewEnt(u32),
    InsertComp(u32, ComponentView),
    Establishment { local_player: u32, names: Seq<Seq<u8>> },
}

impl MessageView {
    /// Sizes fit the wire's length prefixes.
    pub open spec fn wf(self) -> bool {
        match self {
            MessageView::NewEnt(_) => true,
            MessageView::InsertComp(_, c) => c.wf(),
            MessageView::Establishment { local_player: _, names } => names.len() <= u32::MAX
                && forall|i: int| 0 <= i < names.len() ==> (#[trigger] names[i]).len() <= u32::MAX,
        }
    }
}

impl View for NetMessage {
    type V = MessageView;

    open spec fn view(&self) -> MessageView {
        match self {
            NetMessage::NewEnt(id) => MessageView::NewEnt(*id),
            NetMessage::InsertComp(id, c) => MessageView::InsertComp(*id, c@),
            NetMessage::Establishment { local_player, appearance_record } => {
                MessageView::Establishment { local_player: *local_player, names: appearance_record@ }
            },
        }
    }
}

impl NetMessage {
    /// Sizes fit the wire's length prefixes.
    pub open spec fn wf(self) -> bool {
        self@.wf()
    }
}

impl NetMessage {
    /// An identical copy of this message.
    pub fn clone_message(&self) -> (r: NetMessage)
        ensures
            r@ == self@,
    {
        match self {
            NetMessage::NewEnt(id) => NetMessage::NewEnt(*id),
            NetMessage::InsertComp(id, c) => NetMessage::InsertComp(*id, c.clone_component()),
            NetMessage::Establishment { local_player, appearance_record } => {
                NetMessage::Establishment {
                    local_player: *local_player,
                    appearance_record: appearance_record.clone_record(),
                }
            },
        }
    }
}

/// The kind tag of the spawn-request marker.
pub const KIND_SPAWN_PLAYER: u8 = 11;

} // verus!
