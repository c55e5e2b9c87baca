use hauntfall_core::art::AnimationData;
use hauntfall_core::art::UpdateAnimations;
use hauntfall_core::bootstrap::build_bootstrap;
use hauntfall_core::bootstrap::HandleClientPackets;
use hauntfall_core::bootstrap::SendWorldToNewPlayers;
use hauntfall_core::bootstrap::SpawnNewPlayers;
use hauntfall_core::client::HandleServerPackets;
use hauntfall_core::combat::Alignment;
use hauntfall_core::client::Player;
use hauntfall_core::codec::decode_component;
use hauntfall_core::codec::decode_message;
use hauntfall_core::codec::encode_component;
use hauntfall_core::codec::encode_message;
use hauntfall_core::components::Animate;
use hauntfall_core::components::Appearance;
use hauntfall_core::components::AppearanceRecord;
use hauntfall_core::components::AttackRequest;
use hauntfall_core::components::Camera;
use hauntfall_core::components::Dead;
use hauntfall_core::components::Deposition;
use hauntfall_core::components::DropRequest;
use hauntfall_core::components::Heading;
use hauntfall_core::components::Hitbox;
use hauntfall_core::components::Inventory;
use hauntfall_core::components::Item;
use hauntfall_core::components::LocalPlayer;
use hauntfall_core::components::NetComponent;
use hauntfall_core::components::NetMessage;
use hauntfall_core::components::PickupRequest;
use hauntfall_core::components::PlayerAnimationController;
use hauntfall_core::components::Pos;
use hauntfall_core::components::SlotIndex;
use hauntfall_core::components::SpawnPlayer;
use hauntfall_core::components::Speed;
use hauntfall_core::components::UpdatePosition;
use hauntfall_core::components::KIND_APPEARANCE;
use hauntfall_core::components::KIND_POS;
use hauntfall_core::components::KIND_SPAWN_PLAYER;
use hauntfall_core::controls::MovementControl;
use hauntfall_core::controls::MoveHeadings;
use hauntfall_core::controls::PickupItems;
use hauntfall_core::geom::Vec2;
use hauntfall_core::ids::ServerToLocalIds;
use hauntfall_core::item::DepositionItems;
use hauntfall_core::item::UpdateInventory;
use hauntfall_core::mirror::Mirror;
use hauntfall_core::renderer::Render;
use hauntfall_core::server::ConnectionManager;
use hauntfall_core::sync::SyncPositions;

fn v(x: i64, y: i64) -> Vec2 {
    Vec2 { x, y }
}

fn roundtrip(c: NetComponent) {
    let bytes = encode_component(&c);
    let back = decode_component(bytes.as_slice()).expect("decode failed");
    assert_eq!(back, c);
}

// `All` matches anything, `Neither` matches nothing, and the named
// teams match themselves.
#[test]
fn test_alignment() {
    for align in [Alignment::Players, Alignment::Enemies].iter() {
        assert!(*align == Alignment::All);
        assert!(*align != Alignment::Neither);
        assert!(*align == Alignment::Enemies || *align == Alignment::Players);
    }

    assert!(Alignment::All == Alignment::All);
    assert!(Alignment::All == Alignment::Neither);
    assert!(Alignment::Neither != Alignment::Neither);
}

#[test]
fn alignment_names_round_trip() {
    for a in [Alignment::Players, Alignment::Enemies, Alignment::All, Alignment::Neither] {
        let name = a.name();
        let back = Alignment::str(name.as_slice()).expect("parse failed");
        // alignment equality is team equivalence, so compare names
        assert_eq!(back.name(), name);
    }
    assert!(Alignment::str(b"Ghosts").is_err());
}

#[test]
fn component_round_trip_every_kind() {
    roundtrip(NetComponent::Appearance(Appearance { index: 0 }));
    roundtrip(NetComponent::Appearance(Appearance { index: u32::MAX }));
    roundtrip(NetComponent::Animate(Animate { current_frame: 7, row: 3 }));
    roundtrip(NetComponent::PlayerAnimationController(PlayerAnimationController));
    roundtrip(NetComponent::Item(Item));
    roundtrip(NetComponent::Deposition(Deposition));
    roundtrip(NetComponent::Inventory(Inventory { slots: vec![] }));
    roundtrip(NetComponent::Inventory(Inventory {
        slots: vec![None, Some(4), Some(u32::MAX), None],
    }));
    roundtrip(NetComponent::PickupRequest(PickupRequest { id: 123 }));
    roundtrip(NetComponent::DropRequest(DropRequest { item_index: SlotIndex::Reserved(2) }));
    roundtrip(NetComponent::DropRequest(DropRequest { item_index: SlotIndex::Loose(1, 9) }));
    roundtrip(NetComponent::Pos(Pos { at: v(0, 0), rot: 0 }));
    roundtrip(NetComponent::Pos(Pos { at: v(-1, 1), rot: -1 }));
    roundtrip(NetComponent::Pos(Pos { at: v(i64::MIN, i64::MAX), rot: i64::MIN }));
    roundtrip(NetComponent::Hitbox(Hitbox { half_extents: v(500, 250) }));
    roundtrip(NetComponent::UpdatePosition(UpdatePosition {
        at: v(i64::MAX, i64::MIN),
        rot: 42,
        time_stamp_ms: u64::MAX,
    }));
    roundtrip(NetComponent::SpawnPlayer(SpawnPlayer));
    roundtrip(NetComponent::LocalPlayer(LocalPlayer));
    roundtrip(NetComponent::Heading(Heading { dir: v(-1000, 1000) }));
    roundtrip(NetComponent::Speed(Speed { speed: 115 }));
    roundtrip(NetComponent::Speed(Speed { speed: i64::MIN }));
    roundtrip(NetComponent::Camera(Camera));
    roundtrip(NetComponent::Dead(Dead));
    roundtrip(NetComponent::AttackRequest(AttackRequest));
}

#[test]
fn message_round_trip() {
    for m in [
        NetMessage::NewEnt(0),
        NetMessage::NewEnt(u32::MAX),
        NetMessage::InsertComp(7, NetComponent::Pos(Pos { at: v(-5, 9), rot: 3 })),
        NetMessage::Establishment {
            local_player: 1,
            appearance_record: AppearanceRecord { names: vec![] },
        },
        NetMessage::Establishment {
            local_player: u32::MAX,
            appearance_record: AppearanceRecord {
                names: vec![b"Player".to_vec(), vec![], vec![0, 255, 128]],
            },
        },
    ] {
        let bytes = encode_message(&m);
        let back = decode_message(bytes.as_slice()).expect("decode failed");
        assert_eq!(back, m);
    }
}

#[test]
fn encoding_is_deterministic() {
    let c = NetComponent::Pos(Pos { at: v(12, -34), rot: 5 });
    assert_eq!(encode_component(&c), encode_component(&c));
    let m = NetMessage::InsertComp(3, c);
    assert_eq!(encode_message(&m), encode_message(&m));
}

#[test]
fn malformed_bytes_fail_decode() {
    // empty frame
    assert!(decode_message(&[]).is_err());
    assert!(decode_component(&[]).is_err());
    // unknown tags fail, never skip
    assert!(decode_component(&[200, 0, 0, 0, 0]).is_err());
    assert!(decode_message(&[9, 0, 0, 0, 0]).is_err());
    // truncated payloads fail
    let full = encode_component(&NetComponent::Pos(Pos { at: v(1, 2), rot: 3 }));
    assert!(decode_component(&full[..full.len() - 1]).is_err());
    // trailing garbage fails
    let mut long = encode_component(&NetComponent::Dead(Dead));
    long.push(0);
    assert!(decode_component(long.as_slice()).is_err());
    // a non-canonical empty slot fails
    let inv = encode_component(&NetComponent::Inventory(Inventory { slots: vec![None] }));
    let mut bad = inv.clone();
    bad[6] = 9; // the empty slot's id bytes must be zero
    assert!(decode_component(bad.as_slice()).is_err());
}

#[test]
fn bijection_bind_resolve_unbind() {
    let mut ids = ServerToLocalIds::new();
    assert!(ids.bind(10, 0));
    assert!(ids.bind(20, 1));
    // duplicate server id, and duplicate handle: both refused
    assert!(!ids.bind(10, 2));
    assert!(!ids.bind(30, 1));
    assert_eq!(ids.resolve(10), Some(0));
    assert_eq!(ids.resolve(20), Some(1));
    assert_eq!(ids.resolve(30), None);
    // the reverse direction agrees
    assert_eq!(ids.resolve_local(0), Some(10));
    assert_eq!(ids.resolve_local(1), Some(20));
    assert_eq!(ids.resolve_local(2), None);
    // unbind removes both directions
    assert_eq!(ids.unbind(0), Some(10));
    assert_eq!(ids.resolve(10), None);
    assert_eq!(ids.resolve_local(0), None);
    assert_eq!(ids.unbind(0), None);
    // the freed pair can be bound again
    assert!(ids.bind(10, 0));
}

struct Client {
    handler: HandleServerPackets,
    ids: ServerToLocalIds,
    mirror: Mirror,
    player: Player,
    catalog: Option<AppearanceRecord>,
}

fn fresh_client() -> Client {
    Client {
        handler: HandleServerPackets::new(),
        ids: ServerToLocalIds::new(),
        mirror: Mirror::new(),
        player: Player::new(),
        catalog: None,
    }
}

impl Client {
    fn feed(&mut self, msgs: &Vec<NetMessage>) -> Vec<NetMessage> {
        self.handler.run(
            &mut self.ids,
            &mut self.mirror,
            &mut self.player,
            &mut self.catalog,
            msgs,
        )
    }
}

#[test]
fn late_upsert_is_dropped_then_redelivery_succeeds() {
    let mut c = fresh_client();
    let comp = NetComponent::Hitbox(Hitbox { half_extents: v(5, 5) });
    // the upsert outruns its create: dropped, no error, no entity
    c.feed(&vec![NetMessage::InsertComp(77, comp.clone())]);
    assert_eq!(c.ids.resolve(77), None);
    assert_eq!(c.mirror.entities.len(), 0);
    // the create arrives, then the same upsert: lands normally
    c.feed(&vec![NetMessage::NewEnt(77), NetMessage::InsertComp(77, comp.clone())]);
    let h = c.ids.resolve(77).expect("bound after create");
    assert_eq!(c.mirror.get_kind(h, 9), Some(comp));
}

#[test]
fn duplicate_create_is_dropped() {
    let mut c = fresh_client();
    c.feed(&vec![NetMessage::NewEnt(5), NetMessage::NewEnt(5)]);
    assert_eq!(c.mirror.entities.len(), 1);
    assert_eq!(c.ids.resolve(5), Some(0));
}

#[test]
fn first_message_triggers_spawn_request() {
    let mut c = fresh_client();
    let out = c.feed(&vec![NetMessage::NewEnt(1), NetMessage::NewEnt(2)]);
    // exactly one spawn request, from the first message only
    assert_eq!(out, vec![NetMessage::InsertComp(0, NetComponent::SpawnPlayer(SpawnPlayer))]);
    let out2 = c.feed(&vec![NetMessage::NewEnt(3)]);
    assert!(out2.is_empty());
}

#[test]
fn establishment_defers_player_binding() {
    let mut c = fresh_client();
    let record = AppearanceRecord { names: vec![b"Player".to_vec(), b"Crate".to_vec()] };
    c.feed(&vec![NetMessage::Establishment {
        local_player: 42,
        appearance_record: record.clone(),
    }]);
    // cached, not yet a local handle
    assert!(c.player.0.is_none());
    assert_eq!(c.catalog.as_ref().map(|r| r.names.clone()), Some(record.names.clone()));
    // an unrelated create does not bind the player
    c.feed(&vec![NetMessage::NewEnt(7)]);
    assert!(c.player.0.is_none());
    // the matching create does
    c.feed(&vec![NetMessage::NewEnt(42)]);
    assert_eq!(c.player.0, c.ids.resolve(42));
    assert!(c.player.0.is_some());
}

fn world_with_entities() -> Mirror {
    let mut world = Mirror::new();
    let a = world.create_entity();
    let b = world.create_entity();
    let c = world.create_entity();
    world.upsert(a, NetComponent::Pos(Pos { at: v(10, 20), rot: 0 }));
    world.upsert(a, NetComponent::Hitbox(Hitbox { half_extents: v(1, 1) }));
    world.upsert(b, NetComponent::Pos(Pos { at: v(-3, 4), rot: 9 }));
    world.upsert(b, NetComponent::Appearance(Appearance { index: 1 }));
    world.upsert(b, NetComponent::Item(Item));
    world.upsert(c, NetComponent::Dead(Dead));
    world
}

#[test]
fn bootstrap_sends_one_create_and_all_components_per_entity() {
    let world = world_with_entities();
    let catalog = AppearanceRecord { names: vec![b"Player".to_vec()] };
    let msgs = build_bootstrap(&world, &catalog, 99);
    // one establishment leads
    assert!(matches!(msgs[0], NetMessage::Establishment { local_player: 99, .. }));
    // exactly one create per entity, and one upsert per component
    for (ent, comps) in [(0u32, 2usize), (1, 3), (2, 1)] {
        let creates = msgs
            .iter()
            .filter(|m| matches!(m, NetMessage::NewEnt(id) if *id == ent))
            .count();
        let upserts = msgs
            .iter()
            .filter(|m| matches!(m, NetMessage::InsertComp(id, _) if *id == ent))
            .count();
        assert_eq!(creates, 1);
        assert_eq!(upserts, comps);
    }
}

#[test]
fn bootstrap_replay_yields_isomorphic_mirror() {
    let world = world_with_entities();
    let catalog = AppearanceRecord { names: vec![b"Player".to_vec()] };
    let msgs = build_bootstrap(&world, &catalog, 99);
    let mut c = fresh_client();
    c.feed(&msgs);
    // every server entity is bound to exactly one local handle carrying
    // the same components
    let mut handles = Vec::new();
    for ent in &world.entities {
        let h = c.ids.resolve(ent.handle).expect("entity bound");
        assert!(!handles.contains(&h));
        handles.push(h);
        for comp in &ent.components {
            let got = c.mirror.get_kind(h, comp.kind_tag());
            assert_eq!(got.as_ref(), Some(comp));
        }
    }
}

#[test]
fn reconciliation_converges_monotonically() {
    let mut mirror = Mirror::new();
    let h = mirror.create_entity();
    mirror.upsert(h, NetComponent::Pos(Pos { at: v(0, 0), rot: 5 }));
    mirror.upsert(
        h,
        NetComponent::UpdatePosition(UpdatePosition { at: v(1000, -500), rot: 0, time_stamp_ms: 0 }),
    );
    let sync = SyncPositions;
    let target = v(1000, -500);
    let mut last_dist = i64::MAX;
    for _ in 0..1501 {
        sync.run(&mut mirror);
        let pos = match mirror.get_kind(h, KIND_POS) {
            Some(NetComponent::Pos(p)) => p,
            _ => panic!("no position"),
        };
        let d = (target.x - pos.at.x).abs() + (target.y - pos.at.y).abs();
        assert!(d <= last_dist, "distance must not grow");
        last_dist = d;
    }
    // converged within the distance bound (1500 sub-units)
    assert_eq!(last_dist, 0);
    // the rotation is untouched by the blend
    match mirror.get_kind(h, KIND_POS) {
        Some(NetComponent::Pos(p)) => assert_eq!(p.rot, 5),
        _ => panic!("no position"),
    }
}

#[test]
fn first_blend_step_is_three_percent() {
    let mut mirror = Mirror::new();
    let h = mirror.create_entity();
    mirror.upsert(h, NetComponent::Pos(Pos { at: v(0, 0), rot: 0 }));
    mirror.upsert(
        h,
        NetComponent::UpdatePosition(UpdatePosition { at: v(1000, 10), rot: 0, time_stamp_ms: 0 }),
    );
    SyncPositions.run(&mut mirror);
    match mirror.get_kind(h, KIND_POS) {
        // 3% of 1000 is 30; 3% of 10 truncates to zero, so the minimum
        // step of one sub-unit applies
        Some(NetComponent::Pos(p)) => assert_eq!((p.at.x, p.at.y), (30, 1)),
        _ => panic!("no position"),
    }
}

#[test]
fn active_heading_suppresses_blend() {
    let mut mirror = Mirror::new();
    let h = mirror.create_entity();
    mirror.upsert(h, NetComponent::Pos(Pos { at: v(0, 0), rot: 0 }));
    mirror.upsert(
        h,
        NetComponent::UpdatePosition(UpdatePosition {
            at: v(i64::MAX, i64::MIN),
            rot: 0,
            time_stamp_ms: 0,
        }),
    );
    mirror.upsert(h, NetComponent::Heading(Heading { dir: v(1000, 0) }));
    SyncPositions.run(&mut mirror);
    match mirror.get_kind(h, KIND_POS) {
        Some(NetComponent::Pos(p)) => assert_eq!((p.at.x, p.at.y), (0, 0)),
        _ => panic!("no position"),
    }
    // the instant the heading goes idle, blending resumes
    mirror.upsert(h, NetComponent::Heading(Heading { dir: v(0, 0) }));
    SyncPositions.run(&mut mirror);
    match mirror.get_kind(h, KIND_POS) {
        Some(NetComponent::Pos(p)) => assert!(p.at != v(0, 0)),
        _ => panic!("no position"),
    }
}

#[test]
fn backlog_on_one_connection_never_stalls_another() {
    let mut cm = ConnectionManager::new();
    assert!(cm.add_connection(1));
    assert!(cm.add_connection(2));
    // one stalled client accumulates an enormous backlog
    for i in 0..20_000u32 {
        assert!(cm.tell_component(1, i, NetComponent::Dead(Dead)));
    }
    // telling the other connection still completes and lands exactly once
    assert!(cm.tell_new_entity(2, 7));
    assert!(cm.tell_component(2, 7, NetComponent::Camera(Camera)));
    let q2 = cm.drain_outbound(2).expect("connection 2 live");
    assert_eq!(q2.len(), 2);
    let q1 = cm.drain_outbound(1).expect("connection 1 live");
    assert_eq!(q1.len(), 20_000);
}

#[test]
fn closed_connection_is_released_alone() {
    let mut cm = ConnectionManager::new();
    assert!(cm.add_connection(1));
    assert!(cm.add_connection(2));
    assert!(cm.tell_new_entity(1, 3));
    assert!(cm.remove_connection(1));
    assert!(!cm.remove_connection(1));
    assert!(!cm.tell_new_entity(1, 3));
    assert!(cm.tell_new_entity(2, 3));
}

#[test]
fn joining_connection_is_bootstrapped_once() {
    let mut cm = ConnectionManager::new();
    let mut world = world_with_entities();
    let catalog = AppearanceRecord { names: vec![b"Player".to_vec()] };
    assert!(cm.add_connection(8));
    let hcp = HandleClientPackets;
    // the first message of any kind activates and bootstraps
    hcp.run(&mut cm, &mut world, &catalog, 8, &NetMessage::NewEnt(0));
    let reserved = cm.reserved_of(8).expect("established");
    assert_eq!(reserved, 3); // after the three world entities
    let sent = cm.drain_outbound(8).expect("live");
    assert!(matches!(
        sent[0],
        NetMessage::Establishment { local_player, .. } if local_player == reserved
    ));
    // …establishment + 3 creates + 6 upserts + the reserved entity's create
    assert_eq!(sent.len(), 11);
    // a second message does not bootstrap again
    hcp.run(&mut cm, &mut world, &catalog, 8, &NetMessage::NewEnt(0));
    assert!(cm.drain_outbound(8).expect("live").is_empty());
}

#[test]
fn client_upsert_lands_on_own_entity_only() {
    let mut cm = ConnectionManager::new();
    let mut world = Mirror::new();
    let victim = world.create_entity();
    let catalog = AppearanceRecord { names: vec![] };
    assert!(cm.add_connection(4));
    let hcp = HandleClientPackets;
    hcp.run(&mut cm, &mut world, &catalog, 4, &NetMessage::NewEnt(0));
    let own = cm.reserved_of(4).expect("established");
    // the embedded target id names someone else's entity: ignored
    let spawn = NetComponent::SpawnPlayer(SpawnPlayer);
    hcp.run(&mut cm, &mut world, &catalog, 4, &NetMessage::InsertComp(victim, spawn.clone()));
    assert_eq!(world.get_kind(victim, KIND_SPAWN_PLAYER), None);
    assert_eq!(world.get_kind(own, KIND_SPAWN_PLAYER), Some(spawn));
}

#[test]
fn spawn_attaches_components_and_tells_everyone() {
    let mut cm = ConnectionManager::new();
    let mut world = Mirror::new();
    let catalog = AppearanceRecord { names: vec![b"Crate".to_vec(), b"Player".to_vec()] };
    assert!(cm.add_connection(1));
    assert!(cm.add_connection(2));
    let hcp = HandleClientPackets;
    hcp.run(
        &mut cm,
        &mut world,
        &catalog,
        1,
        &NetMessage::InsertComp(0, NetComponent::SpawnPlayer(SpawnPlayer)),
    );
    let reserved = cm.reserved_of(1).expect("established");
    cm.drain_outbound(1).expect("live");
    cm.drain_outbound(2).expect("live");
    let app = catalog.appearance_of(b"Player");
    assert_eq!(app.index, 1);
    SpawnNewPlayers.run(&mut cm, &mut world, app, &vec![reserved]);
    // the spawn request is consumed and the player components attached
    assert_eq!(world.get_kind(reserved, KIND_SPAWN_PLAYER), None);
    assert_eq!(
        world.get_kind(reserved, KIND_POS),
        Some(NetComponent::Pos(Pos { at: v(1000, 1000), rot: 0 }))
    );
    assert_eq!(
        world.get_kind(reserved, KIND_APPEARANCE),
        Some(NetComponent::Appearance(Appearance { index: 1 }))
    );
    // both clients hear about the new kid: a create and five components
    for addr in [1, 2] {
        let q = cm.drain_outbound(addr).expect("live");
        assert_eq!(q.len(), 6);
        assert_eq!(q[0], NetMessage::NewEnt(reserved));
    }
}

#[test]
fn snapshot_system_targets_one_connection() {
    let mut cm = ConnectionManager::new();
    let world = world_with_entities();
    let catalog = AppearanceRecord { names: vec![] };
    assert!(cm.add_connection(1));
    assert!(cm.add_connection(2));
    assert!(SendWorldToNewPlayers.run(&mut cm, &world, &catalog, 2, 50));
    assert!(cm.drain_outbound(1).expect("live").is_empty());
    assert_eq!(cm.drain_outbound(2).expect("live").len(), 10);
}

#[test]
fn appearance_catalog_lookup() {
    let record = AppearanceRecord {
        names: vec![b"Crate".to_vec(), b"Player".to_vec(), b"Player".to_vec()],
    };
    let a = record.try_appearance_of(b"Player").expect("present");
    assert_eq!(a.index, 1); // the first matching entry
    assert_eq!(record.try_appearance_of(b"Crate").expect("present").index, 0);
    assert!(record.try_appearance_of(b"Ghost").is_err());
    assert!(AppearanceRecord { names: vec![] }.try_appearance_of(b"Player").is_err());
}

#[test]
fn animation_frames_wrap() {
    let row = AnimationData { total_frames: 3, frame_duration: 2 };
    let mut animate = Animate { current_frame: 0, row: 1 };
    let mut seen = Vec::new();
    for _ in 0..7 {
        UpdateAnimations.run(&mut animate, &row);
        seen.push(animate.current_frame);
    }
    assert_eq!(seen, vec![1, 2, 3, 4, 5, 0, 1]);
    assert_eq!(animate.row, 1);
}

#[test]
fn movement_control_reports_heading_changes_only() {
    let mut mc = MovementControl::new();
    // pressing d: heading goes diagonal up-right
    let h = mc.run(false, false, false, true).expect("changed");
    assert_eq!(h.dir, v(1000, 1000));
    // holding the same keys: no resend
    assert!(mc.run(false, false, false, true).is_none());
    // w and s cancel; only d remains the same: still no resend
    assert!(mc.run(true, true, false, true).is_none());
    // releasing everything: idle heading is sent once
    let h2 = mc.run(false, false, false, false).expect("changed");
    assert_eq!(h2.dir, v(0, 0));
}

#[test]
fn headings_move_entities_with_clamping() {
    let mh = MoveHeadings;
    let mut pos = Pos { at: v(0, 0), rot: 2 };
    let heading = Heading { dir: v(1000, -1000) };
    let speed = Speed { speed: 115 };
    mh.run(&mut pos, &heading, &speed, 3);
    assert_eq!((pos.at.x, pos.at.y), (345, -345));
    assert_eq!(pos.rot, 2);
    // an idle heading moves nothing
    let mut still = Pos { at: v(7, 8), rot: 0 };
    mh.run(&mut still, &Heading { dir: v(0, 0) }, &speed, 3);
    assert_eq!((still.at.x, still.at.y), (7, 8));
    // the world's edge saturates
    let mut edge = Pos { at: v(1_000_000_000, 0), rot: 0 };
    mh.run(&mut edge, &Heading { dir: v(1000, 0) }, &speed, 3);
    assert_eq!(edge.at.x, 1_000_000_000);
}

#[test]
fn pickup_chooses_nearest_item_in_range() {
    let p = PickupItems;
    let player = v(0, 0);
    let items = vec![
        (11, v(1500, 0)),    // in range
        (12, v(100, 100)),   // nearest
        (13, v(3000, 0)),    // out of range
        (14, v(i64::MAX, 0)) // out of the world
    ];
    let req = p.run(player, &items).expect("one in range");
    assert_eq!(req.id, 12);
    assert!(p.run(player, &vec![(9, v(2000, 1))]).is_none());
    assert!(p.run(player, &vec![]).is_none());
}

#[test]
fn drop_requests_use_recorded_slots() {
    let mut ui = UpdateInventory::new();
    ui.record_slot(5, SlotIndex::Reserved(0));
    ui.record_slot(6, SlotIndex::Loose(2, 3));
    assert_eq!(ui.drop_request(6).item_index, SlotIndex::Loose(2, 3));
    assert_eq!(ui.drop_request(5).item_index, SlotIndex::Reserved(0));
}

#[test]
fn deposition_removes_physical_presence() {
    let mut mirror = Mirror::new();
    let item = mirror.create_entity();
    let bystander = mirror.create_entity();
    mirror.upsert(item, NetComponent::Pos(Pos { at: v(1, 2), rot: 0 }));
    mirror.upsert(item, NetComponent::Appearance(Appearance { index: 0 }));
    mirror.upsert(item, NetComponent::Deposition(Deposition));
    mirror.upsert(bystander, NetComponent::Pos(Pos { at: v(5, 5), rot: 0 }));
    DepositionItems.run(&mut mirror);
    assert_eq!(mirror.get_kind(item, KIND_POS), None);
    assert_eq!(mirror.get_kind(item, KIND_APPEARANCE), None);
    assert!(mirror.get_kind(bystander, KIND_POS).is_some());
}

#[test]
fn render_collects_position_bearing_entities() {
    let mut mirror = Mirror::new();
    let a = mirror.create_entity();
    let b = mirror.create_entity();
    let c = mirror.create_entity();
    mirror.upsert(a, NetComponent::Pos(Pos { at: v(1, 2), rot: 3 }));
    mirror.upsert(c, NetComponent::Pos(Pos { at: v(4, 5), rot: 6 }));
    let entries = Render.run(&mirror);
    assert_eq!(entries.len(), 2);
    assert_eq!((entries[0].ent, entries[0].at, entries[0].rot), (a, v(1, 2), 3));
    assert_eq!((entries[1].ent, entries[1].at, entries[1].rot), (c, v(4, 5), 6));
    // the camera follows the player, or sits at the origin without one
    let mut player = Player::new();
    assert_eq!(Render.player_pos(&mirror, &player), v(0, 0));
    player.0 = Some(c);
    assert_eq!(Render.player_pos(&mirror, &player), v(4, 5));
    player.0 = Some(b);
    assert_eq!(Render.player_pos(&mirror, &player), v(0, 0));
}

#[test]
fn upsert_overwrites_same_kind() {
    let mut mirror = Mirror::new();
    let h = mirror.create_entity();
    mirror.upsert(h, NetComponent::Speed(Speed { speed: 10 }));
    mirror.upsert(h, NetComponent::Speed(Speed { speed: 20 }));
    assert_eq!(mirror.get_kind(h, 14), Some(NetComponent::Speed(Speed { speed: 20 })));
    assert_eq!(mirror.entities[0].components.len(), 1);
    // a different kind sits beside it
    mirror.upsert(h, NetComponent::Dead(Dead));
    assert_eq!(mirror.entities[0].components.len(), 2);
}
