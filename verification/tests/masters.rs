use std::collections::{HashMap, HashSet, VecDeque};

use world::{Direction, Position};
use world::game::{GHOST_LOOKTYPE, Game};
use world::game::autowalk::PathQuery;
use world::game::commands::{Command, Reply};
use world::game::lua::LuaRuntime;
use world::game::monster::parse_monsters_xml;
use world::game::state::{PlayerState, RaceType};
use world::map::{
    FloorChange, ItemAttrs, ItemType, ItemsOtb, ItemsXml, MapItem, MapTile, OtbmMap, TileStack,
    Town,
};
use world::map::grid::{StaticMap, key_of};
use world::wire::{Outfit, Packet, push_channel};

/// An item kind with nothing special about it.
fn item(server_id: u16, client_id: u16) -> ItemType {
    ItemType {
        server_id,
        client_id,
        flags: 0,
        always_on_top: false,
        top_order: 0,
        has_height: false,
        floor_change: FloorChange::none(),
        stackable: false,
        fluid_or_splash: false,
        animated: false,
        pickupable: false,
        moveable: false,
        block_projectile: false,
        container: false,
    }
}

fn attrs(name: &str, article: &str, plural: &str, weight: u32) -> ItemAttrs {
    ItemAttrs {
        name: name.to_string(),
        article: article.to_string(),
        plural: plural.to_string(),
        description: String::new(),
        weight,
        show_count: false,
        slot_type: String::new(),
        weapon_type: String::new(),
        container_size: 0,
    }
}

fn tile(x: u16, y: u16, z: u8, ids: &[u16]) -> MapTile {
    MapTile { x, y, z, flags: 0, items: ids.iter().map(|&id| MapItem { id, count: None }).collect() }
}

fn towns(x: u16, y: u16, z: u8) -> Vec<Town> {
    vec![Town { id: 1, name: "Thais".to_string(), x, y, z }]
}

/// A map whose items have no more than their kinds.
fn plain(tiles: Vec<MapTile>, items: Vec<ItemType>, spawn: Position) -> StaticMap {
    let otb = ItemsOtb { items };
    let map = OtbmMap { tiles, towns: towns(spawn.x, spawn.y, spawn.z) };
    let mut sm = StaticMap::from_formats(&map, &otb);
    sm.load_item_metadata(&otb, &ItemsXml { items: HashMap::new() });
    sm
}

/// A stair one step east of the spawn point, which leads one floor down.
fn stair_map() -> StaticMap {
    let down = FloorChange { down: true, ..FloorChange::none() };
    plain(
        vec![
            tile(100, 100, 7, &[100]),
            tile(101, 100, 7, &[100, 300]),
            tile(101, 100, 8, &[100]),
        ],
        vec![item(100, 4526), ItemType { floor_change: down, ..item(300, 1) }],
        Position::new(100, 100, 7),
    )
}

/// Three tiles to stand on around the spawn point, and a wall to the west of it.
fn walk_map() -> StaticMap {
    plain(
        vec![
            tile(95, 117, 7, &[100]),
            tile(96, 117, 7, &[100]),
            tile(95, 116, 7, &[100]),
            tile(94, 117, 7, &[100, 200]),
        ],
        vec![item(100, 4526), ItemType { flags: 0x0000_0001, ..item(200, 1059) }],
        Position::new(95, 117, 7),
    )
}

/// A stone at (101,100,7) and fifty gold coins at (102,100,7).
fn look_map() -> StaticMap {
    let otb = ItemsOtb {
        items: vec![
            item(100, 4526),
            ItemType { pickupable: true, ..item(200, 1987) },
            ItemType { pickupable: true, stackable: true, ..item(300, 2148) },
        ],
    };
    let xml = ItemsXml {
        items: HashMap::from([
            (200, attrs("stone", "a", "stones", 110)),
            (300, ItemAttrs { show_count: true, ..attrs("gold coin", "a", "gold coins", 10) }),
        ]),
    };
    let mut coins = tile(102, 100, 7, &[100, 300]);
    coins.items[1].count = Some(50);
    let map = OtbmMap {
        tiles: vec![
            tile(100, 100, 7, &[100]),
            tile(101, 100, 7, &[100, 200]),
            coins,
            tile(103, 100, 7, &[100]),
            tile(99, 100, 7, &[100]),
        ],
        towns: towns(100, 100, 7),
    };
    let mut sm = StaticMap::from_formats(&map, &otb);
    sm.load_item_metadata(&otb, &xml);
    sm
}

fn knight() -> Outfit {
    Outfit { look_type: 128, head: 78, body: 69, legs: 58, feet: 76, addons: 0, mount: 0 }
}

fn player_at(pos: Position) -> PlayerState {
    PlayerState {
        name: "Tester".to_string(),
        position: pos,
        direction: Direction::South,
        outfit: knight(),
        session: push_channel(),
        known: HashSet::new(),
        health: 150,
        max_health: 150,
        max_melee: 8,
        attacking: None,
        last_attack_ms: 0,
        sex: 1, // male
        gamemaster: false,
        race: RaceType::Blood,
        is_ghost: false,
        prev_outfit: None,
        noclip: false,
        speed: 220,
        inventory: [None; 10],
        open_containers: std::array::from_fn(|_| None),
        follow_target: None,
        go_to_position: None,
        failed_repaths: None,
        list_walk_dir: VecDeque::new(),
        last_walk_ms: 0,
        conditions: Vec::new(),
    }
}

fn insert_player(g: &mut Game, p: PlayerState) -> u32 {
    let id = g.next_id;
    g.next_id += 1;
    g.players.insert(id, p);
    id
}

/// Put a player at `pos`, past the greetings of a login.
fn add_player(g: &mut Game, pos: Position) -> u32 {
    insert_player(g, player_at(pos))
}

fn player_of(g: &Game, id: u32) -> &PlayerState {
    g.players.get(id).expect("the player is there")
}

fn player_mut(g: &mut Game, id: u32) -> &mut PlayerState {
    g.players.get_mut(id).expect("the player is there")
}

/// All messages that wait for a player, also for one who has left.
fn drain(g: &mut Game, id: u32) -> Vec<Packet> {
    if let Some(p) = g.players.get_mut(id) {
        return p.session.drain();
    }
    for (who, session) in g.left.iter_mut() {
        if *who == id {
            return session.drain();
        }
    }
    Vec::new()
}

/// The byte that a message starts with.
fn op(p: &Packet) -> u8 {
    match p {
        Packet::AddTileCreature { .. } | Packet::AddTileItem { .. } => 0x6A,
        Packet::UpdateTileItem { .. } | Packet::CreatureTurn { .. } => 0x6B,
        Packet::RemoveCreature { .. } | Packet::RemoveTileThing { .. } => 0x6C,
        Packet::CreatureMove { .. } | Packet::WalkUpdate { .. } => 0x6D,
        Packet::OpenContainer { .. } => 0x6E,
        Packet::CloseContainer { .. } => 0x6F,
        Packet::AddContainerItem { .. } => 0x70,
        Packet::RemoveContainerItem { .. } => 0x72,
        Packet::InventorySet { .. } => 0x78,
        Packet::InventoryEmpty { .. } => 0x79,
        Packet::MagicEffect { .. } => 0x83,
        Packet::CreatureHealth { .. } => 0x8C,
        Packet::CreatureOutfit { .. } => 0x8E,
        Packet::Stats { .. } => 0xA0,
        Packet::CreatureSay { .. } => 0xAA,
        Packet::TextMessage { .. } | Packet::DamageText { .. } => 0xB4,
        Packet::CancelWalk { .. } => 0xB5,
        Packet::OutfitWindow { .. } => 0xC8,
        Packet::DeathWindow => 0x28,
    }
}

fn ops(packets: &[Packet]) -> Vec<u8> {
    packets.iter().map(op).collect()
}

fn has_op(packets: &[Packet], byte: u8) -> bool {
    packets.iter().any(|p| op(p) == byte)
}

/// The text of the first text message, with its mode.
fn text_of(packets: &[Packet]) -> (u8, String) {
    for p in packets {
        if let Packet::TextMessage { mode, text } = p {
            return (*mode, String::from_utf8(text.clone()).expect("valid UTF-8"));
        }
    }
    panic!("no text message in {packets:?}");
}

/// The changed stack of a tile.
fn stack_at(g: &Game, pos: Position) -> Option<&TileStack> {
    g.dynamic.get(&key_of(pos))
}

fn sids(st: &TileStack) -> Vec<u16> {
    st.things.iter().map(|t| t.server_id).collect()
}

/// A shortest way for a query over walkable tiles, found by a flood from its start.
fn find_way(map: &StaticMap, q: &PathQuery) -> VecDeque<Direction> {
    let near = |p: Position| {
        p.x.abs_diff(q.target.x).max(p.y.abs_diff(q.target.y)) as u32 <= q.reach
    };
    let mut seen = vec![(q.start, VecDeque::new())];
    let mut i = 0;
    while i < seen.len() {
        let (at, way) = (seen[i].0, seen[i].1.clone());
        if near(at) {
            return way;
        }
        for d in [
            Direction::North,
            Direction::East,
            Direction::South,
            Direction::West,
            Direction::NorthEast,
            Direction::SouthEast,
            Direction::SouthWest,
            Direction::NorthWest,
        ] {
            let (dx, dy) = d.delta();
            if let Some(to) = at.offset(dx, dy) {
                if map.is_walkable(to) && !seen.iter().any(|(p, _)| *p == to) {
                    let mut longer = way.clone();
                    longer.push_back(d);
                    seen.push((to, longer));
                }
            }
        }
        i += 1;
    }
    VecDeque::new()
}

fn runtime(scripts: &[&str]) -> LuaRuntime {
    let lua = LuaRuntime::new().unwrap();
    let scripts: Vec<String> = scripts.iter().map(|s| s.to_string()).collect();
    assert!(lua.load_scripts(&scripts).is_empty(), "every script loads");
    lua
}

fn make_master(g: &mut Game, pos: Position) -> u32 {
    let id = add_player(g, pos);
    player_mut(g, id).gamemaster = true;
    id
}

#[test]
fn find_player_by_name_is_case_insensitive() {
    let mut g = Game::new(stair_map());
    let id = add_player(&mut g, Position::new(100, 100, 7));
    player_mut(&mut g, id).name = "God Diego".to_string();
    assert_eq!(g.find_player_by_name("god diego"), Some(id));
    assert_eq!(g.find_player_by_name("GOD DIEGO"), Some(id));
    assert_eq!(g.find_player_by_name("nobody"), None);
}

// ---------------------------------------------------------------------------
// /ghost and /noclip
// ---------------------------------------------------------------------------

#[test]
fn ghost_toggle_on_sets_flag_and_changes_looktype_to_40() {
    let mut g = Game::new(walk_map());
    let gm = make_master(&mut g, Position::new(95, 117, 7));
    let orig_outfit = player_of(&g, gm).outfit;
    assert_ne!(orig_outfit.look_type, GHOST_LOOKTYPE, "precondition: orig looktype != 40");

    g.do_gm_command(gm, "/ghost".to_string());

    let p = player_of(&g, gm);
    assert!(p.is_ghost, "ghost flag must be true after /ghost");
    assert_eq!(p.outfit.look_type, GHOST_LOOKTYPE, "looktype must be GHOST_LOOKTYPE (40)");
    assert_eq!(p.prev_outfit, Some(orig_outfit), "original outfit must be saved");
}

#[test]
fn ghost_toggle_off_restores_looktype_and_clears_flag() {
    let mut g = Game::new(walk_map());
    let gm = make_master(&mut g, Position::new(95, 117, 7));
    let orig_outfit = player_of(&g, gm).outfit;

    g.do_gm_command(gm, "/ghost".to_string());
    assert!(player_of(&g, gm).is_ghost);
    assert_eq!(player_of(&g, gm).outfit.look_type, GHOST_LOOKTYPE);

    g.do_gm_command(gm, "/ghost".to_string());
    let p = player_of(&g, gm);
    assert!(!p.is_ghost, "ghost flag must be false after second /ghost");
    assert_eq!(p.outfit, orig_outfit, "original outfit must be restored");
    assert_eq!(p.prev_outfit, None, "prev_outfit must be cleared after restore");
}

#[test]
fn ghost_toggle_non_gm_is_silently_dropped() {
    let mut g = Game::new(walk_map());
    let me = add_player(&mut g, Position::new(95, 117, 7));
    g.do_gm_command(me, "/ghost".to_string());
    assert!(!player_of(&g, me).is_ghost, "non-GM ghost state must not change");
    assert!(
        drain(&mut g, me).is_empty(),
        "non-GM must NOT receive any message (silent drop)"
    );
}

#[test]
fn a_ghost_vanishes_from_players_and_comes_back() {
    let mut g = Game::new(walk_map());
    let gm = make_master(&mut g, Position::new(95, 117, 7));
    let layman = add_player(&mut g, Position::new(96, 117, 7));
    let other = make_master(&mut g, Position::new(95, 116, 7));
    g.do_gm_command(gm, "/ghost".to_string());
    assert!(drain(&mut g, layman).contains(&Packet::RemoveCreature { id: gm }));
    assert!(!drain(&mut g, other).contains(&Packet::RemoveCreature { id: gm }));
    g.do_gm_command(gm, "/ghost".to_string());
    assert!(has_op(&drain(&mut g, layman), 0x6A));
}

#[test]
fn noclip_toggle_on_sets_flag_outfit_unchanged() {
    let mut g = Game::new(walk_map());
    let gm = make_master(&mut g, Position::new(95, 117, 7));
    let orig_outfit = player_of(&g, gm).outfit;
    g.do_gm_command(gm, "/noclip".to_string());
    let p = player_of(&g, gm);
    assert!(p.noclip, "noclip flag must be true after /noclip");
    assert_eq!(p.outfit, orig_outfit, "noclip must NOT change outfit");
    assert!(!p.is_ghost, "noclip must NOT set ghost flag");
}

#[test]
fn noclip_toggle_off_clears_flag() {
    let mut g = Game::new(walk_map());
    let gm = make_master(&mut g, Position::new(95, 117, 7));
    g.do_gm_command(gm, "/noclip".to_string());
    assert!(player_of(&g, gm).noclip);
    g.do_gm_command(gm, "/noclip".to_string());
    assert!(!player_of(&g, gm).noclip, "noclip must be false after second /noclip");
}

#[test]
fn noclip_toggle_non_gm_is_silently_dropped() {
    let mut g = Game::new(walk_map());
    let me = add_player(&mut g, Position::new(95, 117, 7));
    g.do_gm_command(me, "/noclip".to_string());
    assert!(!player_of(&g, me).noclip, "non-GM noclip state must not change");
    assert!(
        drain(&mut g, me).is_empty(),
        "non-GM must NOT receive any message (silent drop)"
    );
}

#[test]
fn non_gm_spectator_does_not_see_ghost_gm() {
    let mut g = Game::new(walk_map());
    let gm = make_master(&mut g, Position::new(95, 117, 7));
    let non_gm = add_player(&mut g, Position::new(96, 117, 7));
    g.do_gm_command(gm, "/ghost".to_string());
    let specs = g.spectators(Position::new(95, 117, 7), gm);
    assert!(!specs.contains(&non_gm), "non-GM must NOT be in spectators of ghost GM's pos");
}

#[test]
fn gm_spectator_sees_ghost_gm() {
    let mut g = Game::new(walk_map());
    let gm = make_master(&mut g, Position::new(95, 117, 7));
    let gm2 = make_master(&mut g, Position::new(96, 117, 7));
    g.do_gm_command(gm, "/ghost".to_string());
    let specs = g.spectators(Position::new(95, 117, 7), gm);
    assert!(specs.contains(&gm2), "GM viewer must see ghost GM in spectators");
}

#[test]
fn non_gm_visible_from_excludes_ghost_gm() {
    let mut g = Game::new(walk_map());
    let gm = make_master(&mut g, Position::new(96, 117, 7));
    let non_gm = add_player(&mut g, Position::new(95, 117, 7));
    g.do_gm_command(gm, "/ghost".to_string());
    let visible = g.visible_from(Position::new(95, 117, 7), non_gm);
    assert!(!visible.contains(&gm), "non-GM's visible_from must exclude ghost GM");
}

#[test]
fn gm_visible_from_includes_ghost_gm() {
    let mut g = Game::new(walk_map());
    let gm = make_master(&mut g, Position::new(96, 117, 7));
    let gm2 = make_master(&mut g, Position::new(95, 117, 7));
    g.do_gm_command(gm, "/ghost".to_string());
    let visible = g.visible_from(Position::new(95, 117, 7), gm2);
    assert!(visible.contains(&gm), "GM's visible_from must include ghost GM");
}

// ---------------------------------------------------------------------------
// /speed
// ---------------------------------------------------------------------------

#[test]
fn speed_self_target_sets_speed_and_pushes_stats() {
    let mut g = Game::new(walk_map());
    let gm = make_master(&mut g, Position::new(95, 117, 7));
    g.do_gm_command(gm, "/speed 500".to_string());
    assert_eq!(player_of(&g, gm).speed, 500, "self-target speed must be 500");
    let pkts = drain(&mut g, gm);
    assert!(has_op(&pkts, 0xA0), "must push 0xA0 stats packet after speed change");
    assert!(has_op(&pkts, 0x6C), "must push remove (0x6C) for self re-introduce");
    assert!(has_op(&pkts, 0x6A), "must push add tile creature (0x6A) for self re-introduce");
    let speed = pkts.iter().find_map(|p| match p {
        Packet::Stats { stats } => Some(stats.base_speed),
        _ => None,
    });
    assert_eq!(speed, Some(500), "0xA0 base_speed must be 500");
}

#[test]
fn speed_named_target_sets_target_speed() {
    let mut g = Game::new(walk_map());
    let gm = make_master(&mut g, Position::new(95, 117, 7));
    let target = add_player(&mut g, Position::new(96, 117, 7));
    player_mut(&mut g, target).name = "Alice".to_string();
    g.do_gm_command(gm, r#"/speed "Alice" 750"#.to_string());
    assert_eq!(player_of(&g, target).speed, 750, "named target speed must be 750");
    assert!(
        has_op(&drain(&mut g, gm), 0xB4),
        "GM must receive status message after named speed change"
    );
}

#[test]
fn speed_invalid_name_returns_error() {
    let mut g = Game::new(walk_map());
    let gm = make_master(&mut g, Position::new(95, 117, 7));
    g.do_gm_command(gm, r#"/speed "Nobody" 500"#.to_string());
    let msgs = drain(&mut g, gm);
    assert!(has_op(&msgs, 0xB4), "must receive error for invalid player name");
    let first_msg = text_of(&msgs).1;
    assert!(
        first_msg.to_lowercase().contains("not found"),
        "error must mention player not found; got: {first_msg}"
    );
}

#[test]
fn speed_range_below_minimum_is_rejected() {
    let mut g = Game::new(walk_map());
    let gm = make_master(&mut g, Position::new(95, 117, 7));
    g.do_gm_command(gm, "/speed 9".to_string());
    assert_eq!(player_of(&g, gm).speed, 220, "speed must remain at default 220");
    assert!(has_op(&drain(&mut g, gm), 0xB4), "must receive error for value below minimum");
}

#[test]
fn speed_range_above_maximum_is_rejected() {
    let mut g = Game::new(walk_map());
    let gm = make_master(&mut g, Position::new(95, 117, 7));
    g.do_gm_command(gm, "/speed 2501".to_string());
    assert_eq!(player_of(&g, gm).speed, 220, "speed must remain at default 220");
    assert!(has_op(&drain(&mut g, gm), 0xB4), "must receive error for value above maximum");
}

#[test]
fn speed_range_minimum_accepted() {
    let mut g = Game::new(walk_map());
    let gm = make_master(&mut g, Position::new(95, 117, 7));
    g.do_gm_command(gm, "/speed 10".to_string());
    assert_eq!(player_of(&g, gm).speed, 10, "minimum speed 10 must be accepted");
}

#[test]
fn speed_range_maximum_accepted() {
    let mut g = Game::new(walk_map());
    let gm = make_master(&mut g, Position::new(95, 117, 7));
    g.do_gm_command(gm, "/speed 2500".to_string());
    assert_eq!(player_of(&g, gm).speed, 2500, "maximum speed 2500 must be accepted");
}

#[test]
fn speed_non_numeric_value_is_rejected() {
    let mut g = Game::new(walk_map());
    let gm = make_master(&mut g, Position::new(95, 117, 7));
    g.do_gm_command(gm, "/speed fast".to_string());
    assert_eq!(
        player_of(&g, gm).speed, 220,
        "speed must remain at default 220 after non-numeric input"
    );
    assert!(has_op(&drain(&mut g, gm), 0xB4), "must receive error for non-numeric value");
}

#[test]
fn speed_change_broadcasts_remove_and_reintroduce_to_spectators() {
    let mut g = Game::new(walk_map());
    let gm = make_master(&mut g, Position::new(95, 117, 7));
    let target = add_player(&mut g, Position::new(96, 117, 7));
    player_mut(&mut g, target).name = "Alice".to_string();
    let spec = add_player(&mut g, Position::new(95, 116, 7));
    g.do_gm_command(gm, r#"/speed "Alice" 999"#.to_string());
    let pkts = drain(&mut g, spec);
    assert!(has_op(&pkts, 0x6C), "spectator must see remove (0x6C) after speed change");
    assert!(has_op(&pkts, 0x6A), "spectator must see add (0x6A) after speed change");
    assert_eq!(player_of(&g, target).speed, 999, "target speed must be 999");
}

#[test]
fn speed_no_packets_to_out_of_range_spectators() {
    let mut g = Game::new(walk_map());
    let gm = make_master(&mut g, Position::new(95, 117, 7));
    let target = add_player(&mut g, Position::new(96, 117, 7));
    player_mut(&mut g, target).name = "Bob".to_string();
    let far = add_player(&mut g, Position::new(150, 150, 7));
    g.do_gm_command(gm, r#"/speed "Bob" 500"#.to_string());
    let pkts = drain(&mut g, far);
    assert!(pkts.is_empty(), "out-of-range spectator must NOT receive any packets; {pkts:?}");
    assert_eq!(player_of(&g, target).speed, 500, "target speed must be 500");
}

// ---------------------------------------------------------------------------
// The other commands
// ---------------------------------------------------------------------------

#[test]
fn reload_lua_command_refreshes_lua_state() {
    let mut g = Game::new(walk_map());
    g.lua = Some(runtime(&["version = 1\nfunction onUse(args) return true end"]));
    let gm = make_master(&mut g, Position::new(100, 100, 7));
    assert_eq!(
        g.lua.as_ref().unwrap().get_global_i64("version"),
        Some(1),
        "Lua state must have version=1 after initial load"
    );
    let reload = g.do_gm_command(gm, "/reload lua".to_string());
    assert!(reload, "the scripts are to be reloaded");
    let scripts = vec!["version = 2\nfunction onUse(args) return true end".to_string()];
    assert!(g.do_reload_lua(&scripts).is_empty());
    assert_eq!(
        g.lua.as_ref().unwrap().get_global_i64("version"),
        Some(2),
        "after /reload lua the Lua state must reflect the new script"
    );
    let reply = g.handle(Command::Gm { id: gm, text: "/reload".to_string() }, find_way);
    assert!(matches!(reply, Reply::ReloadScripts));
    assert!(!g.do_gm_command(gm, "/help".to_string()));
}

#[test]
fn help_lists_every_command() {
    let mut g = Game::new(walk_map());
    let gm = make_master(&mut g, Position::new(95, 117, 7));
    g.do_gm_command(gm, "/help".to_string());
    let pkts = drain(&mut g, gm);
    let lines: Vec<String> = pkts
        .iter()
        .map(|p| match p {
            Packet::TextMessage { text, .. } => String::from_utf8(text.clone()).unwrap(),
            p => panic!("not a line: {p:?}"),
        })
        .collect();
    for word in ["/help", "/item", "/goto", "/speed", "/ghost", "/noclip"] {
        assert!(lines.iter().any(|l| l.contains(word)), "{word} is listed");
    }
}

#[test]
fn unknown_commands_are_refused() {
    let mut g = Game::new(walk_map());
    let gm = make_master(&mut g, Position::new(95, 117, 7));
    assert!(!g.do_gm_command(gm, "/nonsense".to_string()));
    assert!(has_op(&drain(&mut g, gm), 0xB4));
}

#[test]
fn travel_commands_teleport() {
    let mut g = Game::new(walk_map());
    let gm = make_master(&mut g, Position::new(95, 117, 7));
    let bob = add_player(&mut g, Position::new(96, 117, 7));
    player_mut(&mut g, bob).name = "Bob".to_string();
    g.do_gm_command(gm, "/goto 95 116 7".to_string());
    assert_eq!(player_of(&g, gm).position, Position::new(95, 116, 7));
    assert_eq!(text_of(&drain(&mut g, gm)).1, "Teleported to 95, 116, 7.");
    g.do_gm_command(gm, "/bring \"Bob\"".to_string());
    assert_eq!(player_of(&g, bob).position, Position::new(95, 116, 7));
    assert_eq!(text_of(&drain(&mut g, gm)).1, "Brought Bob to you.");
    g.do_gm_command(gm, "/temple".to_string());
    assert_eq!(player_of(&g, gm).position, Position::new(95, 117, 7));
    assert_eq!(text_of(&drain(&mut g, gm)).1, "Teleported to temple (95, 117, 7).");
    g.do_gm_command(gm, "/teleport \"Bob\" 96 117 7".to_string());
    assert_eq!(player_of(&g, bob).position, Position::new(96, 117, 7));
    assert_eq!(text_of(&drain(&mut g, gm)).1, "Teleported Bob to 96, 117, 7.");
    g.do_gm_command(gm, "/teleportto \"Bob\"".to_string());
    assert_eq!(player_of(&g, gm).position, Position::new(96, 117, 7));
    assert_eq!(text_of(&drain(&mut g, gm)).1, "Teleported to Bob.");
}

#[test]
fn travel_needs_a_goal() {
    let mut g = Game::new(walk_map());
    let gm = make_master(&mut g, Position::new(95, 117, 7));
    for (line, answer) in [
        ("/goto 1 1 7", "There is no tile there."),
        ("/goto \"Nobody\"", "Player 'Nobody' not found."),
        ("/goto", "Usage: /goto <x> <y> <z> | /goto \"player\""),
        ("/temple 99", "No town with id 99."),
        ("/temple Venore", "No town named 'Venore'."),
        ("/bring", "Usage: /bring <name>"),
        ("/teleport Bob 1 2", "Usage: /teleport <name> <x> <y> <z>"),
        ("/teleportto Bob", "Player 'Bob' not found."),
    ] {
        g.do_gm_command(gm, line.to_string());
        assert_eq!(text_of(&drain(&mut g, gm)).1, answer, "{line}");
        assert_eq!(player_of(&g, gm).position, Position::new(95, 117, 7), "{line}");
    }
}

#[test]
fn teleport_computes_destination_chunks() {
    let mut g = Game::new(walk_map());
    let me = add_player(&mut g, Position::new(95, 117, 7));
    let dest = Position::new(1000, 1000, 7);
    g.do_teleport(me, dest);
    assert_eq!(
        player_of(&g, me).position,
        dest,
        "player must be teleported to the destination"
    );
}

#[test]
fn do_teleport_same_position_is_noop() {
    let mut g = Game::new(walk_map());
    let pos = Position::new(95, 117, 7);
    let me = add_player(&mut g, pos);
    g.do_teleport(me, pos);
    assert_eq!(player_of(&g, me).position, pos);
    assert!(drain(&mut g, me).is_empty());
}

#[test]
fn a_teleport_is_seen_at_both_ends() {
    let mut g = Game::new(walk_map());
    let me = add_player(&mut g, Position::new(95, 117, 7));
    let here = add_player(&mut g, Position::new(96, 117, 7));
    let there = add_player(&mut g, Position::new(200, 200, 7));
    g.do_teleport(me, Position::new(201, 200, 7));
    assert_eq!(drain(&mut g, here), vec![Packet::RemoveCreature { id: me }]);
    assert_eq!(ops(&drain(&mut g, there)), vec![0x6A]);
    match &drain(&mut g, me)[0] {
        Packet::WalkUpdate { others, .. } => assert_eq!(others[0].creature.id, there),
        p => panic!("not a view: {p:?}"),
    }
}

#[test]
fn items_are_made_by_id_and_by_name() {
    let mut g = Game::new(look_map());
    let gm = make_master(&mut g, Position::new(100, 100, 7));
    g.do_gm_command(gm, "/item gold coin 30".to_string());
    let st = stack_at(&g, Position::new(100, 100, 7)).expect("an item lies there");
    assert_eq!(st.things[1].server_id, 300);
    assert_eq!(st.things[1].count, Some(30));
    g.do_gm_command(gm, "/i 200".to_string());
    let st = stack_at(&g, Position::new(100, 100, 7)).expect("an item lies there");
    assert_eq!(sids(st), vec![100, 200, 300]);
}

#[test]
fn sexes_and_looks_are_changed() {
    let mut g = Game::new(walk_map());
    let gm = make_master(&mut g, Position::new(95, 117, 7));
    let bob = add_player(&mut g, Position::new(96, 117, 7));
    player_mut(&mut g, bob).name = "Bob".to_string();
    g.do_gm_command(gm, "/changesex \"Bob\" female".to_string());
    assert_eq!(player_of(&g, bob).sex, 0);
    g.do_gm_command(gm, "/changesex \"Bob\" MALE".to_string());
    assert_eq!(player_of(&g, bob).sex, 1);
    g.do_gm_command(gm, "/setlooktype \"Bob\" 75".to_string());
    assert_eq!(player_of(&g, bob).outfit.look_type, 75);
    g.do_gm_command(gm, "/setlooktype 76".to_string());
    assert_eq!(player_of(&g, gm).outfit.look_type, 76);
}

#[test]
fn monsters_are_called_by_name() {
    let mut g = Game::new(walk_map());
    let gm = make_master(&mut g, Position::new(95, 117, 7));
    g.monster_types = parse_monsters_xml(
        r#"<monsters><monster name="Rat" looktype="21" health="20" speed="134" attack="7"/></monsters>"#,
    )
    .unwrap();
    g.do_gm_command(gm, "/m rat".to_string());
    assert_eq!(g.monsters.len(), 1);
    let m = g.monsters.entry_at(0);
    assert_eq!((m.look_type, m.health), (21, 20));
    assert_eq!(m.position, Position::new(95, 116, 7), "the first free tile next to the gamemaster");
    g.do_gm_command(gm, "/m rat".to_string());
    assert_eq!(g.monsters.entry_at(1).position, Position::new(96, 117, 7));
    drain(&mut g, gm);
    // Walls and creatures are all around now.
    g.do_gm_command(gm, "/m rat".to_string());
    assert_eq!(g.monsters.len(), 2);
    assert_eq!(text_of(&drain(&mut g, gm)).1, "You cannot spawn a creature there.");
}

#[test]
fn ghosts_and_those_without_clipping_walk_through_everything() {
    let mut g = Game::new(walk_map());
    let gm = make_master(&mut g, Position::new(95, 117, 7));
    let bob = add_player(&mut g, Position::new(96, 117, 7));
    g.do_move(gm, Direction::West); // a wall
    assert_eq!(player_of(&g, gm).position, Position::new(95, 117, 7));
    g.do_gm_command(gm, "/noclip".to_string());
    g.do_move(gm, Direction::West);
    assert_eq!(player_of(&g, gm).position, Position::new(94, 117, 7));
    g.do_move(gm, Direction::East);
    g.do_gm_command(gm, "/noclip".to_string());
    g.do_gm_command(gm, "/ghost".to_string());
    g.do_move(gm, Direction::East); // onto someone
    assert_eq!(player_of(&g, gm).position, player_of(&g, bob).position);
    g.do_move(gm, Direction::East); // no ground
    assert_eq!(player_of(&g, gm).position, Position::new(96, 117, 7));
}

#[test]
fn commands_that_fail_leave_the_game_alone() {
    let mut g = Game::new(walk_map());
    let here = Position::new(95, 117, 7);
    let gm = insert_player(&mut g, PlayerState { gamemaster: true, ..player_at(here) });
    for line in [
        "/goto 1 2 3",
        "/goto nobody",
        "/temple 99",
        "/teleport nobody 95 117 7",
        "/bring nobody",
        "/changesex nobody male",
        "/setlooktype x",
        "/speed 9",
        "/item 999",
        "/m",
        "/nonsense",
    ] {
        g.do_gm_command(gm, line.to_string());
        assert_eq!(ops(&drain(&mut g, gm)), vec![0xB4], "{line}");
        let p = player_of(&g, gm);
        assert_eq!((p.position, p.speed, p.sex), (here, 220, 1), "{line}");
        assert!(g.dynamic.is_empty(), "{line}");
        assert_eq!(g.monsters.len(), 0, "{line}");
    }
}
