use std::collections::{HashMap, HashSet, VecDeque};

use world::{Direction, Position};
use world::game::Game;
use world::game::autowalk::{FindPathParams, PathQuery, Plan, walk_destination};
use world::game::commands::{Command, Reply};
use world::game::state::{InitialState, MonsterState, MonsterType, PlayerState, RaceType};
use world::map::{FloorChange, ItemType, ItemsOtb, ItemsXml, MapItem, MapTile, OtbmMap, Town};
use world::map::grid::StaticMap;
use world::wire::{Outfit, Packet, SpeakType, push_channel};

/// An item kind with nothing special about it.
fn item(server_id: u16, client_id: u16) -> ItemType {
    ItemType {
        server_id,
        client_id,
        flags: 0,
        always_on_top: false,
        top_order: 0,
        has_height: false,
        floor_change: FloorChange::none(),
        stackable: false,
        fluid_or_splash: false,
        animated: false,
        pickupable: false,
        moveable: false,
        block_projectile: false,
        container: false,
    }
}

fn tile(x: u16, y: u16, z: u8, ids: &[u16]) -> MapTile {
    MapTile { x, y, z, flags: 0, items: ids.iter().map(|&id| MapItem { id, count: None }).collect() }
}

fn towns(x: u16, y: u16, z: u8) -> Vec<Town> {
    vec![Town { id: 1, name: "Thais".to_string(), x, y, z }]
}

/// A map whose items have no more than their kinds.
fn plain(tiles: Vec<MapTile>, items: Vec<ItemType>, spawn: Position) -> StaticMap {
    let otb = ItemsOtb { items };
    let map = OtbmMap { tiles, towns: towns(spawn.x, spawn.y, spawn.z) };
    let mut sm = StaticMap::from_formats(&map, &otb);
    sm.load_item_metadata(&otb, &ItemsXml { items: HashMap::new() });
    sm
}

/// Three tiles to stand on around the spawn point, and a wall to the west of it.
fn walk_map() -> StaticMap {
    plain(
        vec![
            tile(95, 117, 7, &[100]),
            tile(96, 117, 7, &[100]),
            tile(95, 116, 7, &[100]),
            tile(94, 117, 7, &[100, 200]),
        ],
        vec![item(100, 4526), ItemType { flags: 0x0000_0001, ..item(200, 1059) }],
        Position::new(95, 117, 7),
    )
}

/// Three tiles in a row; the spawn point may lie in a protection zone.
fn combat_map(spawn_pz: bool) -> StaticMap {
    plain(
        vec![
            MapTile { flags: if spawn_pz { 1 } else { 0 }, ..tile(95, 117, 7, &[100]) },
            tile(96, 117, 7, &[100]),
            tile(97, 117, 7, &[100]),
        ],
        vec![item(100, 4526)],
        Position::new(95, 117, 7),
    )
}

/// A long row of tiles with a protection zone at its west end.
fn wide_combat_map_with_pz() -> StaticMap {
    let mut tiles: Vec<MapTile> = (90u16..=116u16)
        .map(|x| MapTile { flags: if x == 90 { 1 } else { 0 }, ..tile(x, 117, 7, &[100]) })
        .collect();
    tiles.push(tile(115, 116, 7, &[100]));
    plain(tiles, vec![item(100, 4526)], Position::new(95, 117, 7))
}

fn knight() -> Outfit {
    Outfit { look_type: 128, head: 78, body: 69, legs: 58, feet: 76, addons: 0, mount: 0 }
}

fn default_initial(outfit: Outfit) -> InitialState {
    InitialState {
        position: None,
        direction: Direction::South,
        outfit,
        health: 150,
        max_health: 150,
        max_melee: 8,
        sex: 1, // male
        gamemaster: false,
        inventory: Vec::new(),
        container_items: Vec::new(),
    }
}

fn player_at(pos: Position) -> PlayerState {
    PlayerState {
        name: "Tester".to_string(),
        position: pos,
        direction: Direction::South,
        outfit: knight(),
        session: push_channel(),
        known: HashSet::new(),
        health: 150,
        max_health: 150,
        max_melee: 8,
        attacking: None,
        last_attack_ms: 0,
        sex: 1, // male
        gamemaster: false,
        race: RaceType::Blood,
        is_ghost: false,
        prev_outfit: None,
        noclip: false,
        speed: 220,
        inventory: [None; 10],
        open_containers: std::array::from_fn(|_| None),
        follow_target: None,
        go_to_position: None,
        failed_repaths: None,
        list_walk_dir: VecDeque::new(),
        last_walk_ms: 0,
        conditions: Vec::new(),
    }
}

fn insert_player(g: &mut Game, p: PlayerState) -> u32 {
    let id = g.next_id;
    g.next_id += 1;
    g.players.insert(id, p);
    id
}

/// Put a player at `pos`, past the greetings of a login.
fn add_player(g: &mut Game, pos: Position) -> u32 {
    insert_player(g, player_at(pos))
}

/// Put a rat at `pos`, unseen.
fn add_monster(g: &mut Game, pos: Position) -> u32 {
    let kind = rat();
    let id = g.next_monster_id;
    g.next_monster_id += 1;
    g.monsters.insert(id, MonsterState::born(&kind, pos, None));
    id
}

fn rat() -> MonsterType {
    MonsterType {
        name: "Rat".to_string(),
        look_type: 100,
        health: 50,
        max_health: 50,
        speed: 200,
        attack: 7,
        loot: Vec::new(),
        target_distance: 0,
        race: Some(RaceType::Blood),
    }
}

fn player_of(g: &Game, id: u32) -> &PlayerState {
    g.players.get(id).expect("the player is there")
}

fn player_mut(g: &mut Game, id: u32) -> &mut PlayerState {
    g.players.get_mut(id).expect("the player is there")
}

fn monster_of(g: &Game, id: u32) -> &MonsterState {
    g.monsters.get(id).expect("the monster is there")
}

fn monster_mut(g: &mut Game, id: u32) -> &mut MonsterState {
    g.monsters.get_mut(id).expect("the monster is there")
}

/// All messages that wait for a player, also for one who has left.
fn drain(g: &mut Game, id: u32) -> Vec<Packet> {
    if let Some(p) = g.players.get_mut(id) {
        return p.session.drain();
    }
    for (who, session) in g.left.iter_mut() {
        if *who == id {
            return session.drain();
        }
    }
    Vec::new()
}

/// The byte that a message starts with.
fn op(p: &Packet) -> u8 {
    match p {
        Packet::AddTileCreature { .. } | Packet::AddTileItem { .. } => 0x6A,
        Packet::UpdateTileItem { .. } | Packet::CreatureTurn { .. } => 0x6B,
        Packet::RemoveCreature { .. } | Packet::RemoveTileThing { .. } => 0x6C,
        Packet::CreatureMove { .. } | Packet::WalkUpdate { .. } => 0x6D,
        Packet::OpenContainer { .. } => 0x6E,
        Packet::CloseContainer { .. } => 0x6F,
        Packet::AddContainerItem { .. } => 0x70,
        Packet::RemoveContainerItem { .. } => 0x72,
        Packet::InventorySet { .. } => 0x78,
        Packet::InventoryEmpty { .. } => 0x79,
        Packet::MagicEffect { .. } => 0x83,
        Packet::CreatureHealth { .. } => 0x8C,
        Packet::CreatureOutfit { .. } => 0x8E,
        Packet::Stats { .. } => 0xA0,
        Packet::CreatureSay { .. } => 0xAA,
        Packet::TextMessage { .. } | Packet::DamageText { .. } => 0xB4,
        Packet::CancelWalk { .. } => 0xB5,
        Packet::OutfitWindow { .. } => 0xC8,
        Packet::DeathWindow => 0x28,
    }
}

fn ops(packets: &[Packet]) -> Vec<u8> {
    packets.iter().map(op).collect()
}

/// The text of the first text message, with its mode.
fn text_of(packets: &[Packet]) -> (u8, String) {
    for p in packets {
        if let Packet::TextMessage { mode, text } = p {
            return (*mode, String::from_utf8(text.clone()).expect("valid UTF-8"));
        }
    }
    panic!("no text message in {packets:?}");
}

/// What was said, in words.
fn said(p: &Packet) -> String {
    match p {
        Packet::CreatureSay { text, .. } => String::from_utf8(text.clone()).expect("valid UTF-8"),
        _ => panic!("not said: {p:?}"),
    }
}

/// A shortest way for a query over walkable tiles, found by a flood from its start.
fn find_way(map: &StaticMap, q: &PathQuery) -> VecDeque<Direction> {
    let near = |p: Position| {
        p.x.abs_diff(q.target.x).max(p.y.abs_diff(q.target.y)) as u32 <= q.reach
    };
    let mut seen = vec![(q.start, VecDeque::new())];
    let mut i = 0;
    while i < seen.len() {
        let (at, way) = (seen[i].0, seen[i].1.clone());
        if near(at) {
            return way;
        }
        for d in [
            Direction::North,
            Direction::East,
            Direction::South,
            Direction::West,
            Direction::NorthEast,
            Direction::SouthEast,
            Direction::SouthWest,
            Direction::NorthWest,
        ] {
            let (dx, dy) = d.delta();
            if let Some(to) = at.offset(dx, dy) {
                if map.is_walkable(to) && !seen.iter().any(|(p, _)| *p == to) {
                    let mut longer = way.clone();
                    longer.push_back(d);
                    seen.push((to, longer));
                }
            }
        }
        i += 1;
    }
    VecDeque::new()
}

fn go_to(g: &mut Game, id: u32, target: Position) {
    g.do_go_to_position(id, target, find_way);
}

/// One tick for the players who walk by themselves.
fn ai_tick(g: &mut Game, now_ms: u64) {
    g.on_monster_ai_tick(0, now_ms, find_way);
}

// ---------------------------------------------------------------------------
// Who sees whom
// ---------------------------------------------------------------------------

#[test]
fn spectators_within_client_viewport() {
    let mut g = Game::new(walk_map());
    let a = add_player(&mut g, Position::new(100, 100, 7));
    let b = add_player(&mut g, Position::new(108, 106, 7)); // edge: +8x +6y
    let c = add_player(&mut g, Position::new(109, 100, 7)); // 9 west of its own view: out
    // A viewer above ground sees floor 7 from one floor up.
    let d = add_player(&mut g, Position::new(100, 100, 6));
    let specs = g.spectators(Position::new(100, 100, 7), a);
    assert!(specs.contains(&b), "edge of viewport is visible");
    assert!(!specs.contains(&c), "beyond the viewport is not visible");
    assert!(specs.contains(&d), "an overground viewer one floor up sees the z7 tile");
    assert!(!specs.contains(&a), "self excluded");
}

fn assert_asymmetric_viewport() {
    let c = Position::new(100, 100, 7);
    assert!(Game::can_see(c, Position::new(109, 100, 7)), "+9 east is visible");
    assert!(!Game::can_see(c, Position::new(110, 100, 7)), "+10 east is not");
    assert!(Game::can_see(c, Position::new(92, 100, 7)), "-8 west is visible");
    assert!(!Game::can_see(c, Position::new(91, 100, 7)), "-9 west is not");
    assert!(Game::can_see(c, Position::new(100, 107, 7)), "+7 south is visible");
    assert!(!Game::can_see(c, Position::new(100, 108, 7)), "+8 south is not");
    assert!(Game::can_see(c, Position::new(100, 94, 7)), "-6 north is visible");
    assert!(!Game::can_see(c, Position::new(100, 93, 7)), "-7 north is not");
}

#[test]
fn game_viewport_is_asymmetric_like_tfs() {
    assert_asymmetric_viewport();
}

#[test]
fn mod_viewport_is_asymmetric_like_tfs() {
    assert_asymmetric_viewport();
}

fn assert_spectators_are_dual() {
    // A player 9 tiles WEST sees the place on its +9 east edge and is a spectator; a player 9
    // tiles EAST is not.
    let mut g = Game::new(walk_map());
    let west9 = add_player(&mut g, Position::new(91, 100, 7));
    let east9 = add_player(&mut g, Position::new(109, 100, 7));
    let specs = g.spectators(Position::new(100, 100, 7), u32::MAX);
    assert!(specs.contains(&west9), "a viewer 9 west sees pos at its east edge");
    assert!(!specs.contains(&east9), "a viewer 9 east cannot see pos");
}

#[test]
fn game_spectators_are_the_dual_of_can_see() {
    assert_spectators_are_dual();
}

#[test]
fn mod_spectators_are_the_dual_of_can_see() {
    assert_spectators_are_dual();
}

fn assert_full_then_short_form() {
    let mut g = Game::new(walk_map());
    let viewer = add_player(&mut g, Position::new(100, 100, 7));
    let target = add_player(&mut g, Position::new(101, 100, 7));
    let first = g.introduce(viewer, target).unwrap();
    assert!(!first.known, "first sighting is full form");
    let second = g.introduce(viewer, target).unwrap();
    assert!(second.known, "second is short form");
}

#[test]
fn game_introduce_uses_full_then_short_form() {
    assert_full_then_short_form();
}

#[test]
fn mod_introduce_uses_full_then_short_form() {
    assert_full_then_short_form();
}

#[test]
fn underground_spectator_sees_within_two_floors() {
    // viewer underground at z=9; targets at z=6 (out, >2) and z=11 (in, =2).
    assert!(
        !Game::can_see(Position::new(100, 100, 9), Position::new(100, 100, 6)),
        "3 floors below: out"
    );
    assert!(
        Game::can_see(Position::new(100, 100, 9), Position::new(100, 100, 11)),
        "2 floors below: in"
    );
    assert!(
        Game::can_see(Position::new(100, 100, 9), Position::new(100, 100, 7)),
        "2 floors above: in"
    );
}

#[test]
fn overground_viewer_sees_all_upper_floors_but_not_underground() {
    assert!(
        Game::can_see(Position::new(100, 100, 7), Position::new(100, 100, 7)),
        "same floor"
    );
    assert!(
        Game::can_see(Position::new(100, 100, 7), Position::new(100, 100, 6)),
        "one floor up is visible"
    );
    assert!(
        Game::can_see(Position::new(100, 100, 7), Position::new(102, 102, 5)),
        "two floors up, projection-aligned, visible"
    );
    assert!(
        !Game::can_see(Position::new(100, 100, 7), Position::new(100, 100, 8)),
        "underground hidden from surface"
    );
}

// ---------------------------------------------------------------------------
// Monsters among the creatures
// ---------------------------------------------------------------------------

#[test]
fn monster_creature_name_rat() {
    let mut g = Game::new(walk_map());
    let mid = add_monster(&mut g, Position::new(101, 100, 7));
    assert_eq!(g.creature_name(mid).map(|n| n.as_str()), Some("Rat"));
}

#[test]
fn monster_creature_outfit_uses_look_type() {
    let mut g = Game::new(walk_map());
    let viewer = add_player(&mut g, Position::new(100, 100, 7));
    let mid = add_monster(&mut g, Position::new(101, 100, 7));
    let outfit = g.introduce(viewer, mid).unwrap().outfit;
    assert_eq!(outfit.look_type, 100);
    assert_eq!(outfit.head, 0);
    assert_eq!(outfit.body, 0);
}

#[test]
fn monster_creature_type_byte_returns_monster() {
    let mut g = Game::new(walk_map());
    let viewer = add_player(&mut g, Position::new(100, 100, 7));
    let mid = add_monster(&mut g, Position::new(101, 100, 7));
    assert_eq!(g.introduce(viewer, mid).unwrap().creature_type, 1);
}

#[test]
fn monster_creature_type_byte_player_returns_player() {
    let mut g = Game::new(walk_map());
    let viewer = add_player(&mut g, Position::new(100, 100, 7));
    let pid = add_player(&mut g, Position::new(100, 100, 7));
    assert_eq!(g.introduce(viewer, pid).unwrap().creature_type, 0);
}

#[test]
fn monster_creature_exists_for_monster() {
    let mut g = Game::new(walk_map());
    let mid = add_monster(&mut g, Position::new(101, 100, 7));
    assert!(g.creature_exists(mid));
    assert!(!g.creature_exists(0x9999_9999));
}

#[test]
fn monster_visible_from_returns_monster_in_range() {
    let mut g = Game::new(walk_map());
    let mid = add_monster(&mut g, Position::new(101, 100, 7));
    let visible = g.monsters_visible_from(Position::new(100, 100, 7));
    assert!(visible.contains(&mid), "monster at +1x must be visible");
}

#[test]
fn monster_not_visible_from_out_of_range() {
    let mut g = Game::new(walk_map());
    add_monster(&mut g, Position::new(200, 200, 7));
    let visible = g.monsters_visible_from(Position::new(100, 100, 7));
    assert!(visible.is_empty(), "monster too far must not be visible");
}

#[test]
fn monster_creatures_on_includes_monster() {
    let mut g = Game::new(walk_map());
    let pid = add_player(&mut g, Position::new(100, 100, 7));
    let mid = add_monster(&mut g, Position::new(101, 100, 7));
    let creatures = g.creatures_on(Position::new(101, 100, 7));
    assert!(creatures.contains(&mid), "monster must be listed on its tile");
    assert!(!creatures.contains(&pid), "different tile creature excluded");
}

#[test]
fn monster_creature_stackpos_advances_for_monster() {
    let mut g = Game::new(walk_map());
    let pid = add_player(&mut g, Position::new(101, 100, 7));
    let mid = add_monster(&mut g, Position::new(101, 100, 7));
    // Both on the same tile: 1 for the ground, and 1 for the other creature.
    let p_sp = g.creature_stackpos_on(Position::new(101, 100, 7), pid);
    let m_sp = g.creature_stackpos_on(Position::new(101, 100, 7), mid);
    assert_eq!(p_sp, 2, "player shares tile with monster");
    assert_eq!(m_sp, 2, "monster shares tile with player");
}

#[test]
fn monster_introduce_uses_full_form_first_time() {
    let mut g = Game::new(walk_map());
    let viewer = add_player(&mut g, Position::new(100, 100, 7));
    let mid = add_monster(&mut g, Position::new(101, 100, 7));
    let first = g.introduce(viewer, mid).unwrap();
    assert!(!first.known, "first monster sighting is full form");
}

#[test]
fn monster_introduce_uses_monster_creature_type() {
    let mut g = Game::new(walk_map());
    let viewer = add_player(&mut g, Position::new(100, 100, 7));
    let mid = add_monster(&mut g, Position::new(101, 100, 7));
    let thing = g.introduce(viewer, mid).unwrap();
    assert_eq!(thing.creature_type, 1, "introduce must say that it is a monster");
    assert_eq!(thing.name, "Rat");
    assert_eq!(thing.health_percent, 100);
}

// ---------------------------------------------------------------------------
// Steps
// ---------------------------------------------------------------------------

#[test]
fn mover_forgets_creatures_that_leave_its_own_viewport() {
    let mut g = Game::new(walk_map());
    let a = add_player(&mut g, Position::new(96, 117, 7));
    // At the +9x east edge of A: in view from 96, but not from 95.
    let b = add_player(&mut g, Position::new(105, 117, 7));
    g.introduce(a, b).unwrap();
    assert!(player_of(&g, a).known.contains(&b), "A knows B after introduce");

    g.do_move(a, Direction::West); // 96,117 -> 95,117; B leaves A's view

    assert!(
        !player_of(&g, a).known.contains(&b),
        "B left A's viewport, so A must forget it for a full re-introduce on return"
    );
}

#[test]
fn move_pushes_creature_move_to_spectator() {
    let mut g = Game::new(walk_map());
    let a = g.login("A".to_string(), default_initial(knight()), push_channel()).snapshot.id;
    let b = g.login("B".to_string(), default_initial(knight()), push_channel()).snapshot.id;
    drain(&mut g, a);
    drain(&mut g, b);
    // B stands where A wants to go unless it was put elsewhere: step to a free tile.
    let free = if player_of(&g, b).position == Position::new(96, 117, 7) {
        Direction::North
    } else {
        Direction::East
    };
    g.do_move(a, free);
    let to = player_of(&g, a).position;
    assert_eq!(drain(&mut g, b), vec![Packet::CreatureMove { id: a, to }]);
}

#[test]
fn move_out_of_view_pushes_remove_to_spectator() {
    let mut g = Game::new(walk_map());
    let mover = add_player(&mut g, Position::new(95, 117, 7));
    let spec = add_player(&mut g, Position::new(86, 117, 7)); // sees from (dx=9), not to (dx=10)
    g.do_move(mover, Direction::East); // 95,117 -> 96,117
    let pkts = drain(&mut g, spec);
    assert_eq!(pkts, vec![Packet::RemoveCreature { id: mover }]);
}

#[test]
fn move_into_view_pushes_appear_to_spectator() {
    let mut g = Game::new(walk_map());
    let mover = add_player(&mut g, Position::new(95, 117, 7));
    let spec = add_player(&mut g, Position::new(104, 117, 7)); // sees to, not from
    g.do_move(mover, Direction::East); // 95,117 -> 96,117
    let pkts = drain(&mut g, spec);
    assert_eq!(ops(&pkts), vec![0x6A]);
}

#[test]
fn cannot_move_onto_tile_occupied_by_creature() {
    let mut g = Game::new(walk_map());
    let a = add_player(&mut g, Position::new(95, 117, 7));
    let b = add_player(&mut g, Position::new(96, 117, 7)); // east of A
    // A tries to step east onto B's tile -> blocked.
    g.do_move(a, Direction::East);
    assert!(drain(&mut g, b).is_empty(), "B should get nothing; A's move was blocked");
    assert_eq!(player_of(&g, a).position, Position::new(95, 117, 7));
    assert_eq!(ops(&drain(&mut g, a)), vec![0xB5], "A is told that the walk was cancelled");
}

#[test]
fn a_step_into_a_wall_only_cancels_the_walk() {
    let mut g = Game::new(walk_map());
    let a = add_player(&mut g, Position::new(95, 117, 7));
    g.do_move(a, Direction::West);
    assert_eq!(player_of(&g, a).position, Position::new(95, 117, 7));
    assert_eq!(drain(&mut g, a), vec![Packet::CancelWalk { direction: 2 }]);
}

#[test]
fn monsters_stop_at_walls_and_players() {
    let mut g = Game::new(walk_map());
    let a = add_player(&mut g, Position::new(95, 117, 7));
    let m = add_monster(&mut g, Position::new(96, 117, 7));
    g.do_move_monster(m, Direction::West); // a player
    g.do_move_monster(m, Direction::East); // no ground
    assert_eq!(monster_of(&g, m).position, Position::new(96, 117, 7));
    assert!(drain(&mut g, a).is_empty());
    g.do_move_monster(m, Direction::NorthWest);
    assert_eq!(monster_of(&g, m).position, Position::new(95, 116, 7));
}

#[test]
fn a_turn_is_told_to_all_who_see_it() {
    let mut g = Game::new(walk_map());
    let a = add_player(&mut g, Position::new(95, 117, 7));
    let b = add_player(&mut g, Position::new(96, 117, 7));
    g.do_turn(a, Direction::West);
    assert_eq!(player_of(&g, a).direction, Direction::West);
    assert_eq!(drain(&mut g, b), vec![Packet::CreatureTurn { id: a, direction: 3 }]);
}

#[test]
fn a_step_tells_the_walker_what_comes_into_view() {
    let mut g = Game::new(walk_map());
    let a = add_player(&mut g, Position::new(95, 117, 7));
    let b = add_player(&mut g, Position::new(105, 117, 7)); // in view from 96, not from 95
    g.do_move(a, Direction::East);
    let pkts = drain(&mut g, a);
    match &pkts[0] {
        Packet::WalkUpdate { id, from, to, others } => {
            assert_eq!(*id, a);
            assert_eq!(*from, Position::new(95, 117, 7));
            assert_eq!(*to, Position::new(96, 117, 7));
            assert_eq!(others.len(), 1);
            assert_eq!(others[0].creature.id, b);
        }
        p => panic!("not a walk: {p:?}"),
    }
}

// ---------------------------------------------------------------------------
// Talk
// ---------------------------------------------------------------------------

fn assert_say_is_heard() {
    let mut g = Game::new(walk_map());
    let a = g.login("A".to_string(), default_initial(knight()), push_channel()).snapshot.id;
    let b = g.login("B".to_string(), default_initial(knight()), push_channel()).snapshot.id;
    // A saw B appear, with a puff.
    assert_eq!(ops(&drain(&mut g, a)), vec![0x6A, 0x83]);
    g.do_say(a, SpeakType::Say, "hello".to_string());
    let own = drain(&mut g, a);
    assert_eq!(ops(&own), vec![0xAA], "speaker hears own");
    let heard = drain(&mut g, b);
    assert_eq!(ops(&heard), vec![0xAA], "spectator hears it");
    assert_eq!(said(&heard[0]), "hello");
}

#[test]
fn game_say_broadcasts_to_spectator_and_speaker() {
    assert_say_is_heard();
}

#[test]
fn chat_say_broadcasts_to_spectator_and_speaker() {
    assert_say_is_heard();
}

fn assert_say_stays_in_view() {
    let mut g = Game::new(walk_map());
    let a = add_player(&mut g, Position::new(95, 117, 7));
    let far = add_player(&mut g, Position::new(107, 117, 7)); // 12 east, outside +-8
    g.do_say(a, SpeakType::Say, "hi".to_string());
    assert!(drain(&mut g, far).is_empty(), "say must not reach beyond +-8x");
}

#[test]
fn game_say_does_not_reach_beyond_viewport() {
    assert_say_stays_in_view();
}

#[test]
fn chat_say_does_not_reach_beyond_viewport() {
    assert_say_stays_in_view();
}

fn assert_yell_carries() {
    let mut g = Game::new(walk_map());
    let a = add_player(&mut g, Position::new(95, 117, 7));
    let far = add_player(&mut g, Position::new(107, 117, 7)); // 12 east: beyond 8, within 18
    g.do_say(a, SpeakType::Yell, "help".to_string());
    let pkts = drain(&mut g, far);
    assert_eq!(ops(&pkts), vec![0xAA], "yell reaches +-18x");
    assert!(said(&pkts[0]).contains("HELP"), "yell text is uppercased");
}

#[test]
fn game_yell_uppercases_and_reaches_far_spectator() {
    assert_yell_carries();
}

#[test]
fn chat_yell_uppercases_and_reaches_far_spectator() {
    assert_yell_carries();
}

fn assert_whisper_is_muffled() {
    let mut g = Game::new(walk_map());
    let a = add_player(&mut g, Position::new(95, 117, 7));
    let adj = add_player(&mut g, Position::new(96, 117, 7)); // one tile away
    let far = add_player(&mut g, Position::new(102, 117, 7)); // 7 east: in view, not close
    g.do_say(a, SpeakType::Whisper, "secret".to_string());
    let near = drain(&mut g, adj);
    assert!(said(&near[0]).contains("secret"));
    let away = drain(&mut g, far);
    let fs = said(&away[0]);
    assert!(fs.contains("pspsps") && !fs.contains("secret"), "far in view hears pspsps: {fs}");
}

#[test]
fn game_whisper_full_to_adjacent_pspsps_to_far_in_view() {
    assert_whisper_is_muffled();
}

#[test]
fn chat_whisper_full_to_adjacent_pspsps_to_far_in_view() {
    assert_whisper_is_muffled();
}

#[test]
fn talk_stays_on_its_floor() {
    let mut g = Game::new(walk_map());
    let a = add_player(&mut g, Position::new(95, 117, 7));
    let up = add_player(&mut g, Position::new(95, 117, 6));
    g.do_say(a, SpeakType::Yell, "help".to_string());
    assert!(drain(&mut g, up).is_empty());
}

#[test]
fn statements_are_numbered_and_upper_case_is_full() {
    let mut g = Game::new(walk_map());
    let a = add_player(&mut g, Position::new(95, 117, 7));
    g.do_say(a, SpeakType::Say, "one".to_string());
    g.do_say(a, SpeakType::Yell, "stra\u{df}e".to_string());
    let pkts = drain(&mut g, a);
    match (&pkts[0], &pkts[1]) {
        (
            Packet::CreatureSay { statement: s0, .. },
            Packet::CreatureSay { statement: s1, level, name, .. },
        ) => {
            assert_eq!(*s1, *s0 + 1);
            assert_eq!(*level, 1);
            assert_eq!(name, "Tester");
        }
        p => panic!("not said: {p:?}"),
    }
    assert_eq!(said(&pkts[1]), "STRASSE");
}

// ---------------------------------------------------------------------------
// Walking by oneself
// ---------------------------------------------------------------------------

#[test]
fn go_to_position_defaults_to_none_on_login() {
    let mut g = Game::new(walk_map());
    let pid = add_player(&mut g, Position::new(100, 100, 7));
    assert!(player_of(&g, pid).go_to_position.is_none());
    let id = g.login("A".to_string(), default_initial(knight()), push_channel()).snapshot.id;
    assert!(player_of(&g, id).go_to_position.is_none());
}

#[test]
fn clear_auto_walk_clears_goto_position_and_queue() {
    let mut g = Game::new(walk_map());
    let pid = add_player(&mut g, Position::new(100, 100, 7));
    let p = player_mut(&mut g, pid);
    p.go_to_position = Some(Position::new(105, 100, 7));
    p.list_walk_dir.push_back(Direction::East);
    p.follow_target = Some(pid + 1);
    g.handle(Command::ClearAutoWalk { id: pid }, find_way);
    let p = player_of(&g, pid);
    assert!(p.go_to_position.is_none());
    assert!(p.list_walk_dir.is_empty());
    assert!(p.follow_target.is_none());
}

#[test]
fn manual_move_clears_goto_position_and_queue() {
    let mut g = Game::new(walk_map());
    let pid = add_player(&mut g, Position::new(95, 117, 7));
    {
        let p = player_mut(&mut g, pid);
        p.go_to_position = Some(Position::new(99, 117, 7));
        p.list_walk_dir.push_back(Direction::East);
    }
    g.handle(Command::Move { id: pid, direction: Direction::East }, find_way);
    let p = player_of(&g, pid);
    assert!(p.go_to_position.is_none(), "go_to_position must be cleared on manual move");
    assert!(p.list_walk_dir.is_empty(), "walk queue must be cleared on manual move");
}

#[test]
fn do_go_to_position_rejects_different_floor() {
    let mut g = Game::new(walk_map());
    let pid = add_player(&mut g, Position::new(95, 117, 7));
    go_to(&mut g, pid, Position::new(96, 117, 8));
    assert!(player_of(&g, pid).go_to_position.is_none(), "cross-floor goto must be rejected");
    assert_eq!(text_of(&drain(&mut g, pid)).1, "You cannot walk to a different floor.");
}

#[test]
fn do_go_to_position_rejects_unwalkable_tile() {
    let mut g = Game::new(walk_map());
    let pid = add_player(&mut g, Position::new(95, 117, 7));
    // (94,117) has a block-solid item in walk_map
    go_to(&mut g, pid, Position::new(94, 117, 7));
    assert!(player_of(&g, pid).go_to_position.is_none(), "unwalkable goto must be rejected");
    assert_eq!(text_of(&drain(&mut g, pid)).1, "You cannot walk there.");
}

#[test]
fn do_go_to_position_rejects_out_of_viewport() {
    let mut g = Game::new(walk_map());
    let pid = add_player(&mut g, Position::new(95, 117, 7));
    go_to(&mut g, pid, Position::new(200, 200, 7));
    assert!(
        player_of(&g, pid).go_to_position.is_none(),
        "out-of-viewport goto must be rejected"
    );
}

#[test]
fn do_go_to_position_already_there_is_noop() {
    let mut g = Game::new(walk_map());
    let pid = add_player(&mut g, Position::new(95, 117, 7));
    go_to(&mut g, pid, Position::new(95, 117, 7));
    assert!(player_of(&g, pid).go_to_position.is_none(), "same-tile goto must be rejected");
}

#[test]
fn do_go_to_position_sets_target_and_fills_queue_for_walkable_dest() {
    let mut g = Game::new(walk_map());
    let pid = add_player(&mut g, Position::new(95, 117, 7));
    go_to(&mut g, pid, Position::new(96, 117, 7));
    let p = player_of(&g, pid);
    assert_eq!(p.go_to_position, Some(Position::new(96, 117, 7)));
    assert!(!p.list_walk_dir.is_empty(), "the way found should fill the walk queue");
}

#[test]
fn do_go_to_position_fills_queue_for_distant_target() {
    // combat_map(false) has tiles at (95..97, 117, 7) all walkable.
    let mut g = Game::new(combat_map(false));
    let pid = add_player(&mut g, Position::new(95, 117, 7));
    go_to(&mut g, pid, Position::new(97, 117, 7));
    let queue_len = player_of(&g, pid).list_walk_dir.len();
    assert!(queue_len > 0, "queue must be filled for distant target; got {queue_len}");
}

#[test]
fn a_walk_without_a_way_is_refused() {
    let mut g = Game::new(walk_map());
    let pid = add_player(&mut g, Position::new(95, 117, 7));
    let q = g.wish_travel(pid, Position::new(96, 117, 7)).expect("a way is wanted");
    assert_eq!((q.start, q.target, q.reach), (Position::new(95, 117, 7), Position::new(96, 117, 7), 0));
    assert_eq!(
        q.params,
        FindPathParams { full_search: false, clear_sight: false, max_search_dist: 20 }
    );
    g.go_to_found(pid, VecDeque::new());
    assert!(player_of(&g, pid).go_to_position.is_none());
    assert_eq!(text_of(&drain(&mut g, pid)).1, "There is no way.");
}

#[test]
fn ai_tick_takes_one_step_toward_go_to_target() {
    let mut g = Game::new(combat_map(false));
    let pid = add_player(&mut g, Position::new(95, 117, 7));
    // Target at (97,117): 2 tiles east.
    go_to(&mut g, pid, Position::new(97, 117, 7));
    assert!(!player_of(&g, pid).list_walk_dir.is_empty(), "queue not empty");
    let before = player_of(&g, pid).position;
    ai_tick(&mut g, 1000);
    let after = player_of(&g, pid).position;
    assert_ne!(before, after, "player should take one step toward goto target");
    // Too soon for another step.
    ai_tick(&mut g, 1001);
    assert_eq!(player_of(&g, pid).position, after);
}

#[test]
fn ai_tick_clears_goto_on_arrival() {
    let mut g = Game::new(combat_map(false));
    let pid = add_player(&mut g, Position::new(95, 117, 7));
    go_to(&mut g, pid, Position::new(97, 117, 7));
    ai_tick(&mut g, 1000); // step to (96,117)
    ai_tick(&mut g, 2000); // step to (97,117)
    ai_tick(&mut g, 3000); // arrived
    let p = player_of(&g, pid);
    assert_eq!(p.position, Position::new(97, 117, 7));
    assert!(p.go_to_position.is_none(), "goto cleared on exact arrival");
}

#[test]
fn ai_tick_clears_goto_on_pz_entry() {
    // (90,117) is a protection zone, (91..116,117) is not.
    let mut g = Game::new(wide_combat_map_with_pz());
    let pid = add_player(&mut g, Position::new(91, 117, 7));
    {
        let p = player_mut(&mut g, pid);
        p.go_to_position = Some(Position::new(80, 117, 7));
        p.list_walk_dir.push_back(Direction::West);
    }
    ai_tick(&mut g, 1000);
    let p = player_of(&g, pid);
    assert!(p.go_to_position.is_none(), "goto must be cleared when stepping into PZ");
    assert!(p.list_walk_dir.is_empty(), "walk queue must be cleared when stepping into PZ");
}

#[test]
fn the_third_failed_search_ends_a_walk() {
    let mut g = Game::new(combat_map(false));
    let pid = add_player(&mut g, Position::new(95, 117, 7));
    player_mut(&mut g, pid).go_to_position = Some(Position::new(102, 117, 7));
    for now in 1..=2u64 {
        ai_tick(&mut g, now * 1000);
        assert_eq!(player_of(&g, pid).failed_repaths, Some(now as u32));
    }
    ai_tick(&mut g, 3000);
    assert!(player_of(&g, pid).go_to_position.is_none());
    assert_eq!(text_of(&drain(&mut g, pid)).1, "There is no way.");
}

#[test]
fn do_go_to_steps_derives_target_from_authoritative_position() {
    // A player at (95,117,7) who moves by hand to (96,117,7).
    let mut g = Game::new(combat_map(false));
    let pid = add_player(&mut g, Position::new(95, 117, 7));
    g.handle(Command::Move { id: pid, direction: Direction::East }, find_way);
    assert_eq!(player_of(&g, pid).position, Position::new(96, 117, 7));

    let steps = vec![Direction::East];
    g.handle(Command::GoToSteps { id: pid, steps }, find_way);
    assert_eq!(
        player_of(&g, pid).go_to_position,
        Some(Position::new(97, 117, 7)),
        "the target must be derived from where the player really stands"
    );
}

#[test]
fn do_go_to_steps_same_target_skips_astar_on_second_call() {
    let mut g = Game::new(combat_map(false));
    let pid = add_player(&mut g, Position::new(95, 117, 7));
    let steps = vec![Direction::East, Direction::East];
    g.handle(Command::GoToSteps { id: pid, steps: steps.clone() }, find_way);
    let p = player_of(&g, pid);
    assert_eq!(p.go_to_position, Some(Position::new(97, 117, 7)));
    assert!(p.list_walk_dir.len() > 0, "first call should fill the walk queue");

    // One tick consumes one step.
    player_mut(&mut g, pid).list_walk_dir.pop_front();
    let reduced_len = player_of(&g, pid).list_walk_dir.len();

    // Second call with the same steps: no search, the queue stays reduced. The way is told
    // from where the player stands, which has not changed.
    let reply = g.handle(Command::GoToSteps { id: pid, steps }, find_way);
    assert!(matches!(reply, Reply::Done));
    assert_eq!(
        player_of(&g, pid).list_walk_dir.len(),
        reduced_len,
        "second call with same target must NOT re-fill the queue"
    );
}

#[test]
fn steps_off_the_map_lead_nowhere() {
    assert_eq!(
        walk_destination(Position::new(1, 1, 7), &vec![Direction::West, Direction::NorthWest]),
        None
    );
    assert_eq!(
        walk_destination(Position::new(1, 1, 7), &vec![Direction::East, Direction::South]),
        Some(Position::new(2, 2, 7))
    );
}

#[test]
fn followers_stop_next_to_their_target() {
    let mut g = Game::new(wide_combat_map_with_pz());
    let a = add_player(&mut g, Position::new(95, 117, 7));
    let b = add_player(&mut g, Position::new(98, 117, 7));
    player_mut(&mut g, a).go_to_position = Some(Position::new(96, 117, 7));
    let q = g.wish_follow(a, b).expect("a way is wanted");
    assert_eq!((q.target, q.reach), (Position::new(98, 117, 7), 1));
    assert_eq!(q.creatures, vec![Position::new(98, 117, 7)]);
    let way = find_way(&g.map, &q);
    g.follow_found(a, way);
    assert_eq!(player_of(&g, a).go_to_position, None, "whoever follows walks nowhere else");
    assert_eq!(player_of(&g, a).follow_target, Some(b));
    ai_tick(&mut g, 1000);
    ai_tick(&mut g, 2000);
    assert_eq!(player_of(&g, a).position, Position::new(97, 117, 7));
    ai_tick(&mut g, 3000);
    assert_eq!(player_of(&g, a).follow_target, None);
    assert!(g.wish_follow(a, b).is_none(), "already there");
}

#[test]
fn a_new_goal_ends_following() {
    let mut g = Game::new(wide_combat_map_with_pz());
    let a = add_player(&mut g, Position::new(95, 117, 7));
    let b = add_player(&mut g, Position::new(98, 117, 7));
    g.do_follow_target(a, b, find_way);
    assert_eq!(player_of(&g, a).follow_target, Some(b));
    go_to(&mut g, a, Position::new(93, 117, 7));
    assert_eq!(player_of(&g, a).follow_target, None);
    assert_eq!(player_of(&g, a).go_to_position, Some(Position::new(93, 117, 7)));
    g.do_follow_target(a, b, find_way);
    assert_eq!(player_of(&g, a).follow_target, Some(b));
    assert_eq!(player_of(&g, a).go_to_position, None);
}

#[test]
fn a_step_forgets_failed_searches() {
    let mut g = Game::new(wide_combat_map_with_pz());
    let pid = add_player(&mut g, Position::new(95, 117, 7));
    {
        let p = player_mut(&mut g, pid);
        p.go_to_position = Some(Position::new(98, 117, 7));
        p.failed_repaths = Some(2);
    }
    ai_tick(&mut g, 1000);
    let p = player_of(&g, pid);
    assert_eq!(p.position, Position::new(96, 117, 7));
    assert_eq!((p.failed_repaths, p.last_walk_ms), (None, 1000));
}

#[test]
fn a_step_that_fails_is_not_timed() {
    let mut g = Game::new(walk_map());
    let pid = add_player(&mut g, Position::new(95, 117, 7));
    {
        let p = player_mut(&mut g, pid);
        p.go_to_position = Some(Position::new(93, 117, 7));
        p.list_walk_dir.push_back(Direction::West);
        p.failed_repaths = Some(1);
    }
    ai_tick(&mut g, 1000);
    let p = player_of(&g, pid);
    assert_eq!(p.position, Position::new(95, 117, 7), "a wall is in the way");
    assert_eq!((p.failed_repaths, p.last_walk_ms), (Some(1), 0));
}

#[test]
fn monsters_chase_and_give_up() {
    let mut g = Game::new(wide_combat_map_with_pz());
    let a = add_player(&mut g, Position::new(95, 117, 7));
    let m = add_monster(&mut g, Position::new(99, 117, 7));
    monster_mut(&mut g, m).follow_target = Some(a);
    assert_eq!(g.begin_ai_tick((m % 10) as u8, 500), vec![m]);
    assert!(g.begin_ai_tick(((m + 1) % 10) as u8, 600).is_empty());
    let query = match g.plan_monster(m) {
        Plan::Search { query } => query,
        p => panic!("a way is wanted: {p:?}"),
    };
    assert_eq!((query.start, query.target, query.reach), (Position::new(99, 117, 7), Position::new(95, 117, 7), 1));
    drain(&mut g, a);
    g.on_monster_ai_tick(((m + 1) % 10) as u8, 700, find_way);
    assert_eq!(monster_of(&g, m).position, Position::new(99, 117, 7), "not its turn");
    g.on_monster_ai_tick((m % 10) as u8, 800, find_way);
    assert_eq!(monster_of(&g, m).position, Position::new(98, 117, 7));
    assert_eq!(monster_of(&g, m).direction, Direction::West);
    assert_eq!(
        drain(&mut g, a),
        vec![Packet::CreatureMove { id: m, to: Position::new(98, 117, 7) }]
    );
    assert!(matches!(g.plan_monster(m), Plan::Walk));
    // A target that is gone is chased no more.
    monster_mut(&mut g, m).list_walk_dir.clear();
    g.logout(a);
    assert!(matches!(g.plan_monster(m), Plan::Idle));
    assert_eq!(monster_of(&g, m).follow_target, None);
}
