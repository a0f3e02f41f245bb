use std::collections::{HashMap, HashSet, VecDeque};

use world::{Direction, Position};
use world::game::Game;
use world::game::autowalk::PathQuery;
use world::game::commands::{Command, Reply};
use world::game::state::{
    ContainerSource, InitialState, MonsterState, MonsterType, PlayerState, RaceType,
};
use world::map::{
    FloorChange, ItemAttrs, ItemType, ItemsOtb, ItemsXml, MapItem, MapTile, OtbmMap, Town,
};
use world::map::grid::StaticMap;
use world::wire::{Outfit, Packet, push_channel};

/// An item kind with nothing special about it.
fn item(server_id: u16, client_id: u16) -> ItemType {
    ItemType {
        server_id,
        client_id,
        flags: 0,
        always_on_top: false,
        top_order: 0,
        has_height: false,
        floor_change: FloorChange::none(),
        stackable: false,
        fluid_or_splash: false,
        animated: false,
        pickupable: false,
        moveable: false,
        block_projectile: false,
        container: false,
    }
}

fn attrs(name: &str, article: &str, plural: &str, weight: u32) -> ItemAttrs {
    ItemAttrs {
        name: name.to_string(),
        article: article.to_string(),
        plural: plural.to_string(),
        description: String::new(),
        weight,
        show_count: false,
        slot_type: String::new(),
        weapon_type: String::new(),
        container_size: 0,
    }
}

fn tile(x: u16, y: u16, z: u8, ids: &[u16]) -> MapTile {
    MapTile { x, y, z, flags: 0, items: ids.iter().map(|&id| MapItem { id, count: None }).collect() }
}

fn towns(x: u16, y: u16, z: u8) -> Vec<Town> {
    vec![Town { id: 1, name: "Thais".to_string(), x, y, z }]
}

/// A map whose items have no more than their kinds.
fn plain(tiles: Vec<MapTile>, items: Vec<ItemType>, spawn: Position) -> StaticMap {
    let otb = ItemsOtb { items };
    let map = OtbmMap { tiles, towns: towns(spawn.x, spawn.y, spawn.z) };
    let mut sm = StaticMap::from_formats(&map, &otb);
    sm.load_item_metadata(&otb, &ItemsXml { items: HashMap::new() });
    sm
}

/// Three tiles to stand on around the spawn point, and a wall to the west of it.
fn walk_map() -> StaticMap {
    plain(
        vec![
            tile(95, 117, 7, &[100]),
            tile(96, 117, 7, &[100]),
            tile(95, 116, 7, &[100]),
            tile(94, 117, 7, &[100, 200]),
        ],
        vec![item(100, 4526), ItemType { flags: 0x0000_0001, ..item(200, 1059) }],
        Position::new(95, 117, 7),
    )
}

/// Things to move on floor 7: a stone (200) at (101,100), ten gold coins (300) at (102,100), a
/// decoration (400) that stays at (103,100), a helmet (500) at (106,100) and a backpack (600)
/// at (100,110). There is no tile at (104,100).
fn move_map() -> StaticMap {
    let otb = ItemsOtb {
        items: vec![
            item(100, 4526),
            ItemType { moveable: true, ..item(200, 1987) },
            ItemType { moveable: true, stackable: true, pickupable: true, ..item(300, 2148) },
            item(400, 999),
            ItemType { moveable: true, pickupable: true, ..item(500, 5741) },
            ItemType { moveable: true, pickupable: true, container: true, ..item(600, 1988) },
        ],
    };
    let xml = ItemsXml {
        items: HashMap::from([
            (200, attrs("stone", "a", "stones", 110)),
            (300, ItemAttrs { show_count: true, ..attrs("gold coin", "a", "gold coins", 10) }),
            (400, attrs("decoration", "a", "decorations", 0)),
            (500, ItemAttrs { slot_type: "head".to_string(), ..attrs("helmet", "a", "", 0) }),
            (600, ItemAttrs { container_size: 20, ..attrs("backpack", "a", "", 0) }),
        ]),
    };
    let mut coins = tile(102, 100, 7, &[100, 300]);
    coins.items[1].count = Some(10);
    let map = OtbmMap {
        tiles: vec![
            tile(100, 100, 7, &[100]),
            tile(101, 100, 7, &[100, 200]),
            coins,
            tile(103, 100, 7, &[100, 400]),
            tile(105, 100, 7, &[100]),
            tile(106, 100, 7, &[100, 500]),
            tile(100, 110, 7, &[100, 600]),
            tile(100, 111, 7, &[100]),
            tile(100, 112, 7, &[100]),
            tile(100, 113, 7, &[100]),
        ],
        towns: towns(100, 100, 7),
    };
    let mut sm = StaticMap::from_formats(&map, &otb);
    sm.load_item_metadata(&otb, &xml);
    sm
}

fn knight() -> Outfit {
    Outfit { look_type: 128, head: 78, body: 69, legs: 58, feet: 76, addons: 0, mount: 0 }
}

fn wizard_outfit() -> Outfit {
    Outfit { look_type: 75, head: 20, body: 30, legs: 40, feet: 50, addons: 1, mount: 0 }
}

fn default_initial(outfit: Outfit) -> InitialState {
    InitialState {
        position: None,
        direction: Direction::South,
        outfit,
        health: 150,
        max_health: 150,
        max_melee: 8,
        sex: 1, // male
        gamemaster: false,
        inventory: Vec::new(),
        container_items: Vec::new(),
    }
}

fn player_at(pos: Position) -> PlayerState {
    PlayerState {
        name: "Tester".to_string(),
        position: pos,
        direction: Direction::South,
        outfit: knight(),
        session: push_channel(),
        known: HashSet::new(),
        health: 150,
        max_health: 150,
        max_melee: 8,
        attacking: None,
        last_attack_ms: 0,
        sex: 1, // male
        gamemaster: false,
        race: RaceType::Blood,
        is_ghost: false,
        prev_outfit: None,
        noclip: false,
        speed: 220,
        inventory: [None; 10],
        open_containers: std::array::from_fn(|_| None),
        follow_target: None,
        go_to_position: None,
        failed_repaths: None,
        list_walk_dir: VecDeque::new(),
        last_walk_ms: 0,
        conditions: Vec::new(),
    }
}

fn insert_player(g: &mut Game, p: PlayerState) -> u32 {
    let id = g.next_id;
    g.next_id += 1;
    g.players.insert(id, p);
    id
}

/// Put a player at `pos`, past the greetings of a login.
fn add_player(g: &mut Game, pos: Position) -> u32 {
    insert_player(g, player_at(pos))
}

/// Put a rat at `pos`, unseen.
fn add_monster(g: &mut Game, pos: Position) -> u32 {
    let kind = rat();
    let id = g.next_monster_id;
    g.next_monster_id += 1;
    g.monsters.insert(id, MonsterState::born(&kind, pos, None));
    id
}

fn rat() -> MonsterType {
    MonsterType {
        name: "Rat".to_string(),
        look_type: 100,
        health: 50,
        max_health: 50,
        speed: 200,
        attack: 7,
        loot: Vec::new(),
        target_distance: 0,
        race: Some(RaceType::Blood),
    }
}

fn player_of(g: &Game, id: u32) -> &PlayerState {
    g.players.get(id).expect("the player is there")
}

fn player_mut(g: &mut Game, id: u32) -> &mut PlayerState {
    g.players.get_mut(id).expect("the player is there")
}

/// All messages that wait for a player, also for one who has left.
fn drain(g: &mut Game, id: u32) -> Vec<Packet> {
    if let Some(p) = g.players.get_mut(id) {
        return p.session.drain();
    }
    for (who, session) in g.left.iter_mut() {
        if *who == id {
            return session.drain();
        }
    }
    Vec::new()
}

/// The byte that a message starts with.
fn op(p: &Packet) -> u8 {
    match p {
        Packet::AddTileCreature { .. } | Packet::AddTileItem { .. } => 0x6A,
        Packet::UpdateTileItem { .. } | Packet::CreatureTurn { .. } => 0x6B,
        Packet::RemoveCreature { .. } | Packet::RemoveTileThing { .. } => 0x6C,
        Packet::CreatureMove { .. } | Packet::WalkUpdate { .. } => 0x6D,
        Packet::OpenContainer { .. } => 0x6E,
        Packet::CloseContainer { .. } => 0x6F,
        Packet::AddContainerItem { .. } => 0x70,
        Packet::RemoveContainerItem { .. } => 0x72,
        Packet::InventorySet { .. } => 0x78,
        Packet::InventoryEmpty { .. } => 0x79,
        Packet::MagicEffect { .. } => 0x83,
        Packet::CreatureHealth { .. } => 0x8C,
        Packet::CreatureOutfit { .. } => 0x8E,
        Packet::Stats { .. } => 0xA0,
        Packet::CreatureSay { .. } => 0xAA,
        Packet::TextMessage { .. } | Packet::DamageText { .. } => 0xB4,
        Packet::CancelWalk { .. } => 0xB5,
        Packet::OutfitWindow { .. } => 0xC8,
        Packet::DeathWindow => 0x28,
    }
}

fn ops(packets: &[Packet]) -> Vec<u8> {
    packets.iter().map(op).collect()
}

/// A shortest way for a query over walkable tiles, found by a flood from its start.
fn find_way(map: &StaticMap, q: &PathQuery) -> VecDeque<Direction> {
    let near = |p: Position| {
        p.x.abs_diff(q.target.x).max(p.y.abs_diff(q.target.y)) as u32 <= q.reach
    };
    let mut seen = vec![(q.start, VecDeque::new())];
    let mut i = 0;
    while i < seen.len() {
        let (at, way) = (seen[i].0, seen[i].1.clone());
        if near(at) {
            return way;
        }
        for d in [
            Direction::North,
            Direction::East,
            Direction::South,
            Direction::West,
            Direction::NorthEast,
            Direction::SouthEast,
            Direction::SouthWest,
            Direction::NorthWest,
        ] {
            let (dx, dy) = d.delta();
            if let Some(to) = at.offset(dx, dy) {
                if map.is_walkable(to) && !seen.iter().any(|(p, _)| *p == to) {
                    let mut longer = way.clone();
                    longer.push_back(d);
                    seen.push((to, longer));
                }
            }
        }
        i += 1;
    }
    VecDeque::new()
}

// ---------------------------------------------------------------------------
// Logins
// ---------------------------------------------------------------------------

fn log_in(g: &mut Game, name: &str) -> u32 {
    g.login(name.to_string(), default_initial(knight()), push_channel()).snapshot.id
}

fn assert_login_is_seen() {
    let mut g = Game::new(walk_map());
    let a = log_in(&mut g, "A");
    log_in(&mut g, "B");
    // A sees B appear, with the teleport puff.
    assert_eq!(ops(&drain(&mut g, a)), vec![0x6A, 0x83]);
    assert_ne!(a, 0);
}

#[test]
fn game_login_pushes_appear_to_existing_spectator() {
    assert_login_is_seen();
}

#[test]
fn session_login_pushes_appear_to_existing_spectator() {
    assert_login_is_seen();
}

fn assert_newcomer_sees_others() {
    let mut g = Game::new(walk_map());
    let a = log_in(&mut g, "A");
    let ack_b = g.login("B".to_string(), default_initial(knight()), push_channel());
    assert_eq!(ack_b.others.len(), 1, "B's enter-world includes A");
    assert_eq!(ack_b.others[0].creature.id, a);
}

#[test]
fn game_second_login_sees_first_in_ack_others() {
    assert_newcomer_sees_others();
}

#[test]
fn session_second_login_sees_first_in_ack_others() {
    assert_newcomer_sees_others();
}

#[test]
fn login_includes_visible_monster_in_others() {
    let mut g = Game::new(walk_map());
    add_monster(&mut g, Position::new(96, 117, 7));
    let ack = g.login("Hero".to_string(), default_initial(knight()), push_channel());
    let has_monster = ack.others.iter().any(|pc| pc.creature.creature_type == 1);
    assert!(has_monster, "login ack.others must include monster");
}

#[test]
fn login_visible_monster_uses_creaturetype_monster() {
    let mut g = Game::new(walk_map());
    let mid = add_monster(&mut g, Position::new(96, 117, 7));
    let ack = g.login("Hero".to_string(), default_initial(knight()), push_channel());
    let seen = ack.others.iter().find(|pc| pc.creature.id == mid).expect("the rat is seen");
    assert_eq!(seen.creature.creature_type, 1);
    assert_eq!(seen.position, Position::new(96, 117, 7));
}

#[test]
fn login_out_of_range_monster_not_included() {
    let mut g = Game::new(walk_map());
    add_monster(&mut g, Position::new(200, 200, 7));
    let ack = g.login("Hero".to_string(), default_initial(knight()), push_channel());
    let has_monster = ack.others.iter().any(|pc| pc.creature.creature_type == 1);
    assert!(!has_monster, "out-of-range monster must NOT be in ack.others");
}

#[test]
fn relogin_map_description_includes_dynamic_ground_items() {
    // Whoever draws the map for a newcomer sees what was dropped since the map was loaded.
    let mut g = Game::new(walk_map());
    let drop_pos = Position::new(96, 117, 7);
    let shown = |g: &Game| {
        g.tile(drop_pos).unwrap().things.iter().any(|t| t.item.client_id == 0x7777)
    };
    let initial = InitialState {
        position: Some(Position::new(95, 117, 7)),
        ..default_initial(knight())
    };
    g.login("Before".to_string(), initial, push_channel());
    assert!(!shown(&g), "nothing was dropped yet");
    g.add_to_ground_front(drop_pos, 999, 0x7777, 1, false, false);
    let initial = InitialState {
        position: Some(Position::new(95, 117, 7)),
        ..default_initial(knight())
    };
    g.login("After".to_string(), initial, push_channel());
    assert!(shown(&g), "the dropped item is on the tile");
}

fn assert_logout_is_seen() {
    let mut g = Game::new(walk_map());
    let a = log_in(&mut g, "A");
    let b = log_in(&mut g, "B");
    assert_eq!(ops(&drain(&mut g, a)), vec![0x6A, 0x83]);
    g.logout(b);
    // A teleport puff, then the removal.
    assert_eq!(ops(&drain(&mut g, a)), vec![0x83, 0x6C]);
}

#[test]
fn game_logout_pushes_remove_to_spectator() {
    assert_logout_is_seen();
}

#[test]
fn session_logout_pushes_remove_to_spectator() {
    assert_logout_is_seen();
}

#[test]
fn shutdown_and_save_persists_online_players_then_stops_actor() {
    let mut g = Game::new(walk_map());
    g.saves = Some(Vec::new());
    let ack = g.login("Diego".to_string(), default_initial(wizard_outfit()), push_channel());
    let reply = g.handle(Command::Shutdown, find_way);
    assert!(matches!(reply, Reply::Done));
    let recs = g.saves.as_ref().unwrap();
    assert_eq!(recs.len(), 1);
    assert_eq!(recs[0].name, "Diego");
    assert_eq!(recs[0].position, ack.snapshot.position);
    assert_eq!(recs[0].outfit, wizard_outfit());
}

fn assert_spawn_is_not_shared() {
    let mut g = Game::new(walk_map());
    let a = log_in(&mut g, "A");
    let b = log_in(&mut g, "B");
    assert_ne!(
        player_of(&g, a).position,
        player_of(&g, b).position,
        "co-logins must not share a tile"
    );
}

#[test]
fn game_second_login_on_occupied_spawn_gets_free_tile() {
    assert_spawn_is_not_shared();
}

#[test]
fn session_second_login_on_occupied_spawn_gets_free_tile() {
    assert_spawn_is_not_shared();
}

#[test]
fn login_on_occupied_saved_position_gets_free_adjacent_tile() {
    let mut g = Game::new(walk_map());
    let saved = Position::new(95, 117, 7);
    add_player(&mut g, saved); // someone is already there
    let initial = InitialState { position: Some(saved), ..default_initial(knight()) };
    let ack = g.login("Returning".to_string(), initial, push_channel());
    let pos = player_of(&g, ack.snapshot.id).position;
    assert_ne!(pos, saved, "must not log in on top of the occupant");
    assert!(g.map.is_walkable(pos), "bumped tile must be walkable");
    let sharing =
        (0..g.players.len()).filter(|&i| g.players.entry_at(i).position == pos).count();
    assert_eq!(sharing, 1, "bumped tile must hold only the returning player");
}

#[test]
fn login_with_initial_position_places_player_at_that_position() {
    let mut g = Game::new(walk_map());
    let pos = Position::new(96, 117, 7);
    let outfit = wizard_outfit();
    let initial = InitialState {
        position: Some(pos),
        direction: Direction::North,
        health: 80,
        max_health: 120,
        ..default_initial(outfit)
    };
    let ack = g.login("Restored".to_string(), initial, push_channel());
    let ps = player_of(&g, ack.snapshot.id);
    assert_eq!(ps.position, pos, "restored player must be at saved position");
    assert_eq!(ps.outfit, outfit, "restored player must have saved outfit");
    assert_eq!(ps.health, 80, "restored player must have saved health");
    assert_eq!(ps.max_health, 120, "restored player must have saved max_health");
    assert_eq!(ps.direction, Direction::North, "restored player must face saved direction");
    assert_eq!(ack.snapshot.outfit, outfit, "snapshot outfit must match");
}

#[test]
fn login_with_no_position_falls_back_to_free_spawn() {
    let mut g = Game::new(walk_map());
    let spawn = g.map.spawn();
    let id = log_in(&mut g, "NewPlayer");
    assert_eq!(
        player_of(&g, id).position,
        spawn,
        "new player with no saved position must spawn at the spawn point"
    );
}

// ---------------------------------------------------------------------------
// Records
// ---------------------------------------------------------------------------

#[test]
fn logout_with_save_tx_emits_save_record() {
    let mut g = Game::new(walk_map());
    g.saves = Some(Vec::new());
    let pos = Position::new(96, 117, 7);
    let hero = PlayerState {
        name: "Hero".to_string(),
        direction: Direction::East,
        outfit: wizard_outfit(),
        health: 77,
        ..player_at(pos)
    };
    let id = insert_player(&mut g, hero);
    g.logout(id);
    let rec = &g.saves.as_ref().unwrap()[0];
    assert_eq!(rec.name, "Hero");
    assert_eq!(rec.position, pos);
    assert_eq!(rec.direction, Direction::East);
    assert_eq!(rec.outfit, wizard_outfit());
    assert_eq!(rec.health, 77);
    assert_eq!(rec.max_health, 150);
}

#[test]
fn save_all_emits_one_record_per_player_without_removing_them() {
    let mut g = Game::new(walk_map());
    g.saves = Some(Vec::new());
    let pos_a = Position::new(96, 117, 7);
    let diego = PlayerState {
        name: "Diego".to_string(),
        direction: Direction::North,
        outfit: wizard_outfit(),
        health: 90,
        gamemaster: true,
        ..player_at(pos_a)
    };
    let id_a = insert_player(&mut g, diego);
    let pos_b = Position::new(100, 120, 7);
    let grissda = PlayerState {
        name: "Grissda".to_string(),
        health: 145,
        max_health: 145,
        sex: 0,
        ..player_at(pos_b)
    };
    let id_b = insert_player(&mut g, grissda);

    g.save_all();

    assert_eq!(g.players.len(), 2, "save_all must not remove players");
    assert!(g.players.contains(id_a) && g.players.contains(id_b));
    let recs = g.saves.as_ref().unwrap();
    assert_eq!(recs.len(), 2, "save_all must emit one record per online player");
    let diego = recs.iter().find(|r| r.name == "Diego").expect("Diego record");
    assert_eq!(diego.position, pos_a);
    assert_eq!(diego.direction, Direction::North);
    assert_eq!(diego.outfit, wizard_outfit());
    assert_eq!(diego.health, 90);
    let grissda = recs.iter().find(|r| r.name == "Grissda").expect("Grissda record");
    assert_eq!(grissda.position, pos_b);
    assert_eq!(grissda.outfit, knight());
    assert_eq!(grissda.health, 145);
}

#[test]
fn save_all_with_no_save_tx_is_a_noop() {
    let mut g = Game::new(walk_map());
    g.saves = None;
    let lonely = PlayerState {
        name: "Lonely".to_string(),
        direction: Direction::West,
        health: 100,
        max_health: 100,
        ..player_at(Position::new(96, 117, 7))
    };
    insert_player(&mut g, lonely);
    g.save_all();
    assert_eq!(g.players.len(), 1, "players are untouched when no records are kept");
    assert!(g.saves.is_none());
}

#[test]
fn push_to_dead_channel_reap_also_emits_save_record() {
    let mut g = Game::new(walk_map());
    g.saves = Some(Vec::new());
    let spawn = g.map.spawn();
    let mut gone = PlayerState { name: "Ghost".to_string(), health: 50, ..player_at(spawn) };
    gone.session.close();
    let id = insert_player(&mut g, gone);
    // Any message finds the session closed: the player is logged out and saved.
    g.push(id, Packet::DeathWindow);
    assert!(!g.players.contains(id));
    let rec = &g.saves.as_ref().unwrap()[0];
    assert_eq!(rec.name, "Ghost");
    assert_eq!(rec.health, 50);
}

#[test]
fn what_is_saved_comes_back() {
    let mut g = Game::new(move_map());
    g.saves = Some(Vec::new());
    let initial = InitialState {
        inventory: vec![(1, 500, 1), (3, 600, 1)],
        container_items: vec![(3, "0".to_string(), 200, 1), (3, "1".to_string(), 300, 40)],
        ..default_initial(knight())
    };
    let id = g.login("Hoarder".to_string(), initial, push_channel()).snapshot.id;
    let p = player_of(&g, id);
    assert_eq!(p.inventory[0].map(|i| i.server_id), Some(500));
    assert_eq!(p.inventory[2].map(|i| i.server_id), Some(600));
    let bag = p.open_containers.iter().find_map(|w| w.as_ref()).expect("the bag has a window");
    assert_eq!(bag.source, ContainerSource::Slot(3));
    let held: Vec<(u16, Option<u8>)> =
        bag.items.iter().map(|i| (i.server_id, i.count)).collect();
    assert_eq!(held, vec![(200, None), (300, Some(40))]);
    g.logout(id);
    let rec = &g.saves.as_ref().unwrap()[0];
    assert_eq!(rec.inventory, vec![(1, 500, 1), (3, 600, 1)]);
    assert_eq!(
        rec.container_items,
        vec![(3, "0".to_string(), 200, 1), (3, "1".to_string(), 300, 40)]
    );
}

#[test]
fn the_sessions_of_those_who_left_are_handed_out_once() {
    let mut g = Game::new(walk_map());
    let a = log_in(&mut g, "A");
    g.logout(a);
    let left = g.take_left();
    assert_eq!(left.len(), 1);
    assert_eq!(left[0].0, a);
    assert!(g.take_left().is_empty());
}

// ---------------------------------------------------------------------------
// Outfits
// ---------------------------------------------------------------------------

#[test]
fn change_outfit_updates_player_state() {
    let mut g = Game::new(walk_map());
    let id = add_player(&mut g, Position::new(95, 117, 7));
    let new_outfit =
        Outfit { look_type: 130, head: 10, body: 20, legs: 30, feet: 40, addons: 3, mount: 0 };
    g.do_change_outfit(id, new_outfit);
    assert_eq!(player_of(&g, id).outfit, new_outfit);
}

#[test]
fn change_outfit_broadcasts_0x8e_to_player_and_spectator() {
    let mut g = Game::new(walk_map());
    let id = add_player(&mut g, Position::new(95, 117, 7));
    let spec = add_player(&mut g, Position::new(95, 117, 7));
    let outfit =
        Outfit { look_type: 130, head: 0, body: 0, legs: 0, feet: 0, addons: 0, mount: 0 };
    g.do_change_outfit(id, outfit);
    let told = Packet::CreatureOutfit { id, outfit };
    assert_eq!(drain(&mut g, id).last(), Some(&told), "player must receive 0x8E");
    assert_eq!(drain(&mut g, spec).last(), Some(&told), "spectator must receive 0x8E");
}

#[test]
fn change_outfit_unknown_id_is_noop() {
    let mut g = Game::new(walk_map());
    let outfit =
        Outfit { look_type: 130, head: 0, body: 0, legs: 0, feet: 0, addons: 0, mount: 0 };
    g.do_change_outfit(0xDEAD_BEEF, outfit);
    assert_eq!(g.players.len(), 0);
}

fn window_looktypes(pkts: &[Packet]) -> Vec<u16> {
    match &pkts[0] {
        Packet::OutfitWindow { available, .. } => {
            available.iter().map(|o| o.look_type).collect()
        }
        p => panic!("not a wardrobe: {p:?}"),
    }
}

#[test]
fn request_outfit_sends_0xc8_to_requester_only() {
    let mut g = Game::new(walk_map());
    let id = add_player(&mut g, Position::new(95, 117, 7));
    let spec = add_player(&mut g, Position::new(95, 117, 7));
    g.do_request_outfit(id);
    assert_eq!(ops(&drain(&mut g, id)), vec![0xC8], "packet must be 0xC8");
    assert!(drain(&mut g, spec).is_empty(), "spectator must NOT receive anything");
}

#[test]
fn request_outfit_male_gets_male_catalog() {
    let mut g = Game::new(walk_map());
    let id = add_player(&mut g, Position::new(95, 117, 7)); // sex = 1 (male)
    g.do_request_outfit(id);
    let types = window_looktypes(&drain(&mut g, id));
    assert_eq!(types.len(), 55, "male catalog has all 55 outfits");
    assert!(types.contains(&128), "male catalog contains male Citizen (128)");
    assert!(!types.contains(&136), "male catalog must NOT contain female Citizen (136)");
}

#[test]
fn request_outfit_female_gets_female_catalog() {
    let mut g = Game::new(walk_map());
    let id = add_player(&mut g, Position::new(95, 117, 7));
    player_mut(&mut g, id).sex = 0; // female
    g.do_request_outfit(id);
    let types = window_looktypes(&drain(&mut g, id));
    assert_eq!(types.len(), 55, "female catalog has all 55 outfits");
    assert!(types.contains(&136), "female catalog contains female Citizen (136)");
    assert!(!types.contains(&128), "female catalog must NOT contain male Citizen (128)");
}

#[test]
fn sex_is_set_from_initial_state_on_login() {
    let mut g = Game::new(walk_map());
    let initial = InitialState { sex: 0, ..default_initial(knight()) };
    let ack = g.login("Tester".to_string(), initial, push_channel());
    assert_eq!(
        player_of(&g, ack.snapshot.id).sex, 0,
        "sex from InitialState must be stored in PlayerState"
    );
}

#[test]
fn sex_is_emitted_in_save_record_on_logout() {
    let mut g = Game::new(walk_map());
    g.saves = Some(Vec::new());
    let initial = InitialState { sex: 0, ..default_initial(knight()) };
    let id = g.login("Tester".to_string(), initial, push_channel()).snapshot.id;
    g.logout(id);
    let rec = &g.saves.as_ref().unwrap()[0];
    assert_eq!(rec.sex, 0, "sex must come back in the record");
}

// ---------------------------------------------------------------------------
// Ghosts, clipping and speed
// ---------------------------------------------------------------------------

#[test]
fn introduce_ghost_gm_has_walkthrough_byte_set() {
    let mut g = Game::new(walk_map());
    let gm = add_player(&mut g, Position::new(95, 117, 7));
    player_mut(&mut g, gm).gamemaster = true;
    let viewer = add_player(&mut g, Position::new(96, 117, 7));
    let normal = g.introduce(viewer, gm).unwrap();
    assert_eq!(normal.walkthrough, 0, "non-ghost introduce must have walkthrough=0");
    g.do_gm_command(gm, "/ghost".to_string());
    let unseen = g.introduce(viewer, gm).unwrap();
    assert_eq!(unseen.walkthrough, 1, "ghost GM introduce must have walkthrough=1");
}

#[test]
fn ghost_not_persisted_in_save_record() {
    let mut g = Game::new(walk_map());
    g.saves = Some(Vec::new());
    let spawn = g.map.spawn();
    let spook = PlayerState {
        name: "GhostGuy".to_string(),
        gamemaster: true,
        is_ghost: true,
        prev_outfit: Some(knight()),
        ..player_at(spawn)
    };
    let id = insert_player(&mut g, spook);
    g.logout(id);
    let rec = &g.saves.as_ref().unwrap()[0];
    assert_eq!(rec.name, "GhostGuy");
    assert_eq!(rec.outfit, knight(), "outfit is the knight outfit, not ghost");
}

#[test]
fn ghost_resets_on_login() {
    let mut g = Game::new(walk_map());
    let initial = InitialState {
        position: Some(Position::new(95, 117, 7)),
        gamemaster: true,
        ..default_initial(knight())
    };
    let ack = g.login("TestGM".to_string(), initial, push_channel());
    let p = player_of(&g, ack.snapshot.id);
    assert!(!p.is_ghost, "ghost must be false after login");
    assert_eq!(p.prev_outfit, None, "prev_outfit must be None after login");
}

#[test]
fn creature_speed_returns_player_speed_from_state() {
    let mut g = Game::new(walk_map());
    let id = add_player(&mut g, Position::new(95, 117, 7));
    assert_eq!(g.creature_speed(id), 220, "default speed must be 220");
    player_mut(&mut g, id).speed = 500;
    assert_eq!(g.creature_speed(id), 500, "creature_speed must read live p.speed");
    player_mut(&mut g, id).speed = 150;
    assert_eq!(g.creature_speed(id), 150, "creature_speed must reflect updated p.speed");
}

#[test]
fn noclip_resets_on_login() {
    let mut g = Game::new(walk_map());
    let initial = InitialState {
        position: Some(Position::new(95, 117, 7)),
        gamemaster: true,
        ..default_initial(knight())
    };
    let ack = g.login("TestGM".to_string(), initial, push_channel());
    assert!(!player_of(&g, ack.snapshot.id).noclip, "noclip must be false after login");
}

#[test]
fn ids_and_dates_must_fit() {
    let mut g = Game::new(walk_map());
    let gm = Command::Gm { id: 1, text: "/pos".to_string() };
    let tick = Command::CombatTick { now_ms: u64::MAX };
    assert!(g.is_ready(&gm));
    assert!(g.is_ready(&tick));
    g.next_id = u32::MAX;
    let login = Command::Login {
        name: "Late".to_string(),
        initial: default_initial(knight()),
        session: push_channel(),
    };
    assert!(!g.is_ready(&login));
    g.next_monster_id = u32::MAX;
    assert!(!g.is_ready(&gm));
    assert!(g.is_ready(&tick), "no spawn waits for an id or a date");
    assert!(g.is_ready(&Command::Shutdown));
}

#[test]
fn commands_reach_the_game() {
    let mut g = Game::new(walk_map());
    let login = Command::Login {
        name: "Alice".to_string(),
        initial: default_initial(knight()),
        session: push_channel(),
    };
    assert!(g.is_ready(&login));
    let id = match g.handle(login, find_way) {
        Reply::LoggedIn { ack } => ack.snapshot.id,
        other => panic!("unexpected {other:?}"),
    };
    let step = Command::Move { id, direction: Direction::East };
    assert!(matches!(g.handle(step, find_way), Reply::Done));
    assert_eq!(player_of(&g, id).position, Position::new(96, 117, 7));
    let target = Position::new(95, 116, 7);
    assert!(matches!(g.handle(Command::GoToPosition { id, target }, find_way), Reply::Done));
    assert_eq!(player_of(&g, id).go_to_position, Some(target));
    assert_eq!(player_of(&g, id).list_walk_dir.len(), 1);
    let tick = Command::MonsterAiTick { bucket: 0, now_ms: 1000 };
    assert!(matches!(g.handle(tick, find_way), Reply::Done));
    assert_eq!(player_of(&g, id).position, target);
    assert!(matches!(g.handle(Command::ReloadLua, find_way), Reply::ReloadScripts));
    assert!(matches!(g.handle(Command::Logout { id }, find_way), Reply::Done));
    assert!(g.players.get(id).is_none());
}

#[test]
fn monsters_at_lists_those_on_the_tile() {
    let mut g = Game::new(walk_map());
    let here = Position::new(95, 117, 7);
    let a = add_monster(&mut g, here);
    let _elsewhere = add_monster(&mut g, Position::new(96, 117, 7));
    let b = add_monster(&mut g, here);
    assert_eq!(g.monsters_at(here), vec![a, b]);
    assert!(g.monsters_at(Position::new(95, 116, 7)).is_empty());
}

#[test]
fn newcomers_see_no_ghosts_but_gamemasters_do() {
    let mut g = Game::new(walk_map());
    let master = InitialState { gamemaster: true, ..default_initial(knight()) };
    let gm = g.login("Master".to_string(), master, push_channel()).snapshot.id;
    g.do_gm_command(gm, "/ghost".to_string());
    drain(&mut g, gm);
    let ack = g.login("Alice".to_string(), default_initial(knight()), push_channel());
    assert!(ack.others.is_empty(), "ghosts are invisible to ordinary players");
    assert!(!player_of(&g, ack.snapshot.id).known.contains(&gm));
    assert_eq!(ops(&drain(&mut g, gm)), vec![0x6A, 0x83], "the ghost sees who comes");
    let master = InitialState { gamemaster: true, ..default_initial(knight()) };
    let ack = g.login("Other".to_string(), master, push_channel());
    assert!(ack.others.iter().any(|c| c.creature.id == gm));
}

#[test]
fn newcomers_are_shown_themselves_in_full() {
    let mut g = Game::new(walk_map());
    let initial = InitialState { health: 75, ..default_initial(wizard_outfit()) };
    let ack = g.login("Alice".to_string(), initial, push_channel());
    let me = &ack.me;
    assert_eq!(me.position, ack.snapshot.position);
    assert_eq!(me.creature.name, "Alice");
    assert_eq!((me.creature.known, me.creature.id), (false, ack.snapshot.id));
    assert_eq!((me.creature.health_percent, me.creature.speed), (100, 220));
    assert_eq!(me.creature.outfit, wizard_outfit());
    assert!(!player_of(&g, ack.snapshot.id).known.contains(&ack.snapshot.id));
}
