use std::collections::{HashMap, HashSet, VecDeque};

use world::{Direction, Position};
use world::game::Game;
use world::game::autowalk::PathQuery;
use world::game::commands::{Command, Reply};
use world::game::lua::{GameAction, LuaArgs, LuaRuntime, ScriptResult, split_script_name};
use world::game::state::{PlayerState, RaceType};
use world::game::xml_registry::XmlRegistry;
use world::map::{
    FloorChange, ItemAttrs, ItemType, ItemsOtb, ItemsXml, MapItem, MapTile, OtbmMap, Town,
};
use world::map::grid::StaticMap;
use world::wire::{Outfit, Packet, push_channel};

/// An item kind with nothing special about it.
fn item(server_id: u16, client_id: u16) -> ItemType {
    ItemType {
        server_id,
        client_id,
        flags: 0,
        always_on_top: false,
        top_order: 0,
        has_height: false,
        floor_change: FloorChange::none(),
        stackable: false,
        fluid_or_splash: false,
        animated: false,
        pickupable: false,
        moveable: false,
        block_projectile: false,
        container: false,
    }
}

fn attrs(name: &str, article: &str, plural: &str, weight: u32) -> ItemAttrs {
    ItemAttrs {
        name: name.to_string(),
        article: article.to_string(),
        plural: plural.to_string(),
        description: String::new(),
        weight,
        show_count: false,
        slot_type: String::new(),
        weapon_type: String::new(),
        container_size: 0,
    }
}

fn tile(x: u16, y: u16, z: u8, ids: &[u16]) -> MapTile {
    MapTile { x, y, z, flags: 0, items: ids.iter().map(|&id| MapItem { id, count: None }).collect() }
}

fn towns(x: u16, y: u16, z: u8) -> Vec<Town> {
    vec![Town { id: 1, name: "Thais".to_string(), x, y, z }]
}

/// Things to move on floor 7: a stone (200) at (101,100), ten gold coins (300) at (102,100), a
/// decoration (400) that stays at (103,100), a helmet (500) at (106,100) and a backpack (600)
/// at (100,110). There is no tile at (104,100).
fn move_map() -> StaticMap {
    let otb = ItemsOtb {
        items: vec![
            item(100, 4526),
            ItemType { moveable: true, ..item(200, 1987) },
            ItemType { moveable: true, stackable: true, pickupable: true, ..item(300, 2148) },
            item(400, 999),
            ItemType { moveable: true, pickupable: true, ..item(500, 5741) },
            ItemType { moveable: true, pickupable: true, container: true, ..item(600, 1988) },
        ],
    };
    let xml = ItemsXml {
        items: HashMap::from([
            (200, attrs("stone", "a", "stones", 110)),
            (300, ItemAttrs { show_count: true, ..attrs("gold coin", "a", "gold coins", 10) }),
            (400, attrs("decoration", "a", "decorations", 0)),
            (500, ItemAttrs { slot_type: "head".to_string(), ..attrs("helmet", "a", "", 0) }),
            (600, ItemAttrs { container_size: 20, ..attrs("backpack", "a", "", 0) }),
        ]),
    };
    let mut coins = tile(102, 100, 7, &[100, 300]);
    coins.items[1].count = Some(10);
    let map = OtbmMap {
        tiles: vec![
            tile(100, 100, 7, &[100]),
            tile(101, 100, 7, &[100, 200]),
            coins,
            tile(103, 100, 7, &[100, 400]),
            tile(105, 100, 7, &[100]),
            tile(106, 100, 7, &[100, 500]),
            tile(100, 110, 7, &[100, 600]),
            tile(100, 111, 7, &[100]),
            tile(100, 112, 7, &[100]),
            tile(100, 113, 7, &[100]),
        ],
        towns: towns(100, 100, 7),
    };
    let mut sm = StaticMap::from_formats(&map, &otb);
    sm.load_item_metadata(&otb, &xml);
    sm
}

fn knight() -> Outfit {
    Outfit { look_type: 128, head: 78, body: 69, legs: 58, feet: 76, addons: 0, mount: 0 }
}

fn player_at(pos: Position) -> PlayerState {
    PlayerState {
        name: "Tester".to_string(),
        position: pos,
        direction: Direction::South,
        outfit: knight(),
        session: push_channel(),
        known: HashSet::new(),
        health: 150,
        max_health: 150,
        max_melee: 8,
        attacking: None,
        last_attack_ms: 0,
        sex: 1, // male
        gamemaster: false,
        race: RaceType::Blood,
        is_ghost: false,
        prev_outfit: None,
        noclip: false,
        speed: 220,
        inventory: [None; 10],
        open_containers: std::array::from_fn(|_| None),
        follow_target: None,
        go_to_position: None,
        failed_repaths: None,
        list_walk_dir: VecDeque::new(),
        last_walk_ms: 0,
        conditions: Vec::new(),
    }
}

fn insert_player(g: &mut Game, p: PlayerState) -> u32 {
    let id = g.next_id;
    g.next_id += 1;
    g.players.insert(id, p);
    id
}

/// Put a player at `pos`, past the greetings of a login.
fn add_player(g: &mut Game, pos: Position) -> u32 {
    insert_player(g, player_at(pos))
}

fn player_of(g: &Game, id: u32) -> &PlayerState {
    g.players.get(id).expect("the player is there")
}

/// All messages that wait for a player, also for one who has left.
fn drain(g: &mut Game, id: u32) -> Vec<Packet> {
    if let Some(p) = g.players.get_mut(id) {
        return p.session.drain();
    }
    for (who, session) in g.left.iter_mut() {
        if *who == id {
            return session.drain();
        }
    }
    Vec::new()
}

/// The text of the first text message, with its mode.
fn text_of(packets: &[Packet]) -> (u8, String) {
    for p in packets {
        if let Packet::TextMessage { mode, text } = p {
            return (*mode, String::from_utf8(text.clone()).expect("valid UTF-8"));
        }
    }
    panic!("no text message in {packets:?}");
}

/// A shortest way for a query over walkable tiles, found by a flood from its start.
fn find_way(map: &StaticMap, q: &PathQuery) -> VecDeque<Direction> {
    let near = |p: Position| {
        p.x.abs_diff(q.target.x).max(p.y.abs_diff(q.target.y)) as u32 <= q.reach
    };
    let mut seen = vec![(q.start, VecDeque::new())];
    let mut i = 0;
    while i < seen.len() {
        let (at, way) = (seen[i].0, seen[i].1.clone());
        if near(at) {
            return way;
        }
        for d in [
            Direction::North,
            Direction::East,
            Direction::South,
            Direction::West,
            Direction::NorthEast,
            Direction::SouthEast,
            Direction::SouthWest,
            Direction::NorthWest,
        ] {
            let (dx, dy) = d.delta();
            if let Some(to) = at.offset(dx, dy) {
                if map.is_walkable(to) && !seen.iter().any(|(p, _)| *p == to) {
                    let mut longer = way.clone();
                    longer.push_back(d);
                    seen.push((to, longer));
                }
            }
        }
        i += 1;
    }
    VecDeque::new()
}

fn runtime(scripts: &[&str]) -> LuaRuntime {
    let lua = LuaRuntime::new().unwrap();
    let scripts: Vec<String> = scripts.iter().map(|s| s.to_string()).collect();
    assert!(lua.load_scripts(&scripts).is_empty(), "every script loads");
    lua
}

fn sample_args() -> LuaArgs {
    LuaArgs { player_id: 1, item_id: 1386, pos_x: 100, pos_y: 100, pos_z: 7, stackpos: 0 }
}

fn scripted_game(script: &str) -> Game {
    let mut g = Game::new(move_map());
    g.lua = Some(runtime(&[script]));
    g.registry = XmlRegistry::from_actions_xml(
        r#"<actions><action itemid="200" script="test.onUse"/></actions>"#,
    )
    .unwrap();
    g
}

fn lua_call_count(g: &Game) -> i64 {
    g.lua.as_ref().and_then(|rt| rt.get_global_i64("call_count")).unwrap_or(0)
}

// ---------------------------------------------------------------------------
// Calling scripts
// ---------------------------------------------------------------------------

#[test]
fn new_loads_scripts_and_dispatch_calls_function() {
    let mut rt = runtime(&["function onUse(args) return true end"]);
    let result = rt.dispatch("onUse", &sample_args()).unwrap();
    assert!(result, "dispatch of registered onUse must return true");
}

#[test]
fn dispatch_returns_false_for_missing_function() {
    let mut rt = runtime(&["function onUse(args) return true end"]);
    let result = rt.dispatch("nonexistent", &sample_args()).unwrap();
    assert!(!result, "dispatch of missing function must return Ok(false)");
}

#[test]
fn reload_reflects_new_script_content() {
    let mut rt = runtime(&["function onUse(args) return false end"]);
    assert!(!rt.dispatch("onUse", &sample_args()).unwrap());
    let faults = rt.reload(&vec!["function onUse(args) return true end".to_string()]);
    assert!(faults.is_empty());
    assert!(
        rt.dispatch("onUse", &sample_args()).unwrap(),
        "after reload new script must be active"
    );
}

#[test]
fn missing_scripts_dir_starts_empty() {
    let mut rt = runtime(&[]);
    let result = rt.dispatch("onUse", &sample_args()).unwrap();
    assert!(!result, "runtime without scripts must return Ok(false)");
}

#[test]
fn a_bad_script_does_not_stop_the_others() {
    let mut rt = LuaRuntime::new().unwrap();
    let scripts = vec!["function (".to_string(), "function onUse(args) return true end".to_string()];
    let faults = rt.load_scripts(&scripts);
    assert_eq!(faults.len(), 1);
    assert!(faults[0].text().starts_with("Lua runtime error: "));
    assert!(faults[0].text().len() > "Lua runtime error: ".len());
    assert!(rt.dispatch("onUse", &sample_args()).unwrap());
}

#[test]
fn dispatch_returns_false_when_callback_returns_false() {
    let mut rt = runtime(&["function onUse(args) return false end"]);
    let result = rt.dispatch("onUse", &sample_args()).unwrap();
    assert!(!result, "callback returning false must yield Ok(false)");
}

#[test]
fn dispatch_returns_false_when_callback_returns_nothing() {
    let mut rt = runtime(&["function onUse(args) end"]);
    assert!(!rt.dispatch("onUse", &sample_args()).unwrap());
}

#[test]
fn dispatch_truthy_for_non_boolean_return() {
    let mut rt = runtime(&["function onUse(args) return 42 end"]);
    let result = rt.dispatch("onUse", &sample_args()).unwrap();
    assert!(result, "callback returning number must yield Ok(true)");
}

#[test]
fn dispatch_passes_args_as_table() {
    let mut rt = runtime(&[r#"
        function onUse(args)
            return args.player_id == 1 and args.item_id == 1386
        end
        "#]);
    let result = rt.dispatch("onUse", &sample_args()).unwrap();
    assert!(result, "callback that validates args must succeed");
}

#[test]
fn scripts_are_told_where_the_item_is() {
    let mut rt = runtime(&[r#"
        function onUse(args)
            return args.pos_x == 1 and args.pos_y == 2 and args.pos_z == 3 and args.stackpos == 4
        end
        "#]);
    let args = LuaArgs { player_id: 9, item_id: 8, pos_x: 1, pos_y: 2, pos_z: 3, stackpos: 4 };
    assert!(rt.dispatch("onUse", &args).unwrap());
    assert!(!rt.dispatch("onUse", &sample_args()).unwrap());
    let fields = [
        ("player_id", 9), ("item_id", 8), ("pos_x", 1), ("pos_y", 2), ("pos_z", 3), ("stackpos", 4),
    ];
    assert_eq!(args.fields(), fields);
}

#[test]
fn errors_of_scripts_are_reported() {
    let mut rt = runtime(&["function onUse(args) error('boom') end"]);
    let fault = rt.dispatch("onUse", &sample_args()).unwrap_err();
    assert!(fault.text().contains("boom"));
}

// ---------------------------------------------------------------------------
// What scripts ask for
// ---------------------------------------------------------------------------

#[test]
fn do_feed_pushes_feed_action_with_correct_params() {
    let mut rt = runtime(&[r#"
        function onUse(args)
            do_feed(args.player_id, 8, 2000, 60000, 240)
            return true
        end
        "#]);
    rt.dispatch("onUse", &sample_args()).unwrap();
    let actions = rt.drain_actions();
    assert_eq!(actions.len(), 1, "exactly one action must be queued");
    match &actions[0] {
        GameAction::Feed { player_id, health_gain, interval_ms, duration_ms, total_heal_cap } => {
            assert_eq!(*player_id, 1, "player_id must be 1");
            assert_eq!(*health_gain, 8, "health_gain must be 8");
            assert_eq!(*interval_ms, 2000, "interval_ms must be 2000");
            assert_eq!(*duration_ms, 60000, "duration_ms must be 60000");
            assert_eq!(*total_heal_cap, 240, "total_heal_cap must be 240");
        }
        other => panic!("expected GameAction::Feed, got {:?}", other),
    }
    assert!(rt.drain_actions().is_empty(), "what was drained is gone");
}

#[test]
fn do_feed_with_zero_values_still_queues_action() {
    let mut rt = runtime(&[r#"
        function onUse(args)
            do_feed(args.player_id, 0, 0, 0, 0)
            return true
        end
        "#]);
    rt.dispatch("onUse", &sample_args()).unwrap();
    let actions = rt.drain_actions();
    assert_eq!(actions.len(), 1, "zero-value feed must still queue an action");
    match &actions[0] {
        GameAction::Feed { player_id, health_gain, .. } => {
            assert_eq!(*player_id, 1);
            assert_eq!(*health_gain, 0);
        }
        other => panic!("expected GameAction::Feed, got {:?}", other),
    }
}

#[test]
fn do_send_text_message_queues_textmessage_action() {
    let mut rt = runtime(&[r#"
        function onUse(args)
            do_send_text_message(args.player_id, 13, "Glup")
            return true
        end
        "#]);
    rt.dispatch("onUse", &sample_args()).unwrap();
    let actions = rt.drain_actions();
    assert_eq!(actions.len(), 1, "exactly one action must be queued");
    match &actions[0] {
        GameAction::TextMessage { player_id, message_type, text } => {
            assert_eq!(*player_id, 1, "player_id must be 1");
            assert_eq!(*message_type, 13, "message_type must be 13");
            assert_eq!(text, "Glup", "text must be 'Glup'");
        }
        other => panic!("expected GameAction::TextMessage, got {:?}", other),
    }
}

#[test]
fn do_send_text_message_without_call_does_not_queue_action() {
    let mut rt = runtime(&["function onUse(args) return true end"]);
    rt.dispatch("onUse", &sample_args()).unwrap();
    assert!(
        rt.drain_actions().is_empty(),
        "no actions must be queued when do_send_text_message is not called"
    );
}

#[test]
fn do_send_text_message_multiple_calls_queue_multiple_actions() {
    let mut rt = runtime(&[r#"
        function onUse(args)
            do_send_text_message(args.player_id, 13, "Glup")
            do_send_text_message(args.player_id, 13, "Chomp")
            return true
        end
        "#]);
    rt.dispatch("onUse", &sample_args()).unwrap();
    let actions = rt.drain_actions();
    assert_eq!(actions.len(), 2, "exactly 2 actions must be queued");
    match &actions[0] {
        GameAction::TextMessage { text, .. } => {
            assert_eq!(text, "Glup", "first message must be 'Glup'");
        }
        other => panic!("expected TextMessage, got {:?}", other),
    }
    match &actions[1] {
        GameAction::TextMessage { text, .. } => {
            assert_eq!(text, "Chomp", "second message must be 'Chomp'");
        }
        other => panic!("expected TextMessage, got {:?}", other),
    }
}

#[test]
fn do_feed_is_not_called_when_script_does_not_invoke_it() {
    let mut rt = runtime(&["function onUse(args) return true end"]);
    rt.dispatch("onUse", &sample_args()).unwrap();
    assert!(
        rt.drain_actions().is_empty(),
        "no actions must be queued when do_feed is not called"
    );
}

// ---------------------------------------------------------------------------
// Scripts in tables
// ---------------------------------------------------------------------------

#[test]
fn dispatch_namespaced_looks_up_table_method() {
    let mut rt = runtime(&[r#"food = {}
        function food.onUse(args)
            return args.item_id == 1386
        end"#]);
    let result = rt.dispatch_namespaced("food.onUse", &sample_args()).unwrap();
    assert!(result, "namespaced dispatch must find and call food.onUse");
}

#[test]
fn dispatch_namespaced_returns_false_for_missing_table() {
    let mut rt = runtime(&["food = {}"]);
    let result = rt.dispatch_namespaced("nonexistent.onUse", &sample_args()).unwrap();
    assert!(!result, "missing table must yield Ok(false)");
}

#[test]
fn dispatch_namespaced_returns_false_for_missing_method() {
    let mut rt = runtime(&["food = {}"]);
    let result = rt.dispatch_namespaced("food.onUse", &sample_args()).unwrap();
    assert!(!result, "table without method must yield Ok(false)");
}

#[test]
fn dispatch_namespaced_falls_back_to_flat_for_no_dot() {
    let mut rt = runtime(&["function onUse(args) return true end"]);
    let result = rt.dispatch_namespaced("onUse", &sample_args()).unwrap();
    assert!(result, "flat name must fall back to regular dispatch");
}

#[test]
fn dispatch_namespaced_two_scripts_coexist() {
    let mut rt = runtime(&[
        r#"food = {}
        function food.onUse(args)
            do_feed(args.player_id, 8, 2000, 60000, 240)
            return true
        end"#,
        r#"teleport = {}
        function teleport.onUse(args)
            do_teleport(args.player_id, 100, 100, 7)
            return true
        end"#,
    ]);
    let food_args = LuaArgs { item_id: 2666, ..sample_args() };
    let result = rt.dispatch_namespaced("food.onUse", &food_args).unwrap();
    assert!(result, "food.onUse must dispatch successfully");
    let result = rt.dispatch_namespaced("teleport.onUse", &sample_args()).unwrap();
    assert!(result, "teleport.onUse must dispatch successfully");
    let actions = rt.drain_actions();
    assert_eq!(actions.len(), 2, "both scripts should have queued actions");
    let has_feed = actions.iter().any(|a| matches!(a, GameAction::Feed { .. }));
    let has_tele = actions.iter().any(|a| matches!(a, GameAction::Teleport { .. }));
    assert!(has_feed, "food.onUse must have queued a Feed action");
    assert!(has_tele, "teleport.onUse must have queued a Teleport action");
}

// ---------------------------------------------------------------------------
// Using items that have scripts
// ---------------------------------------------------------------------------

#[test]
fn registered_item_triggers_lua_onuse_dispatch() {
    let mut g = scripted_game(
        "call_count = 0\nfunction onUse(args) call_count = call_count + 1 return true end",
    );
    let me = add_player(&mut g, Position::new(100, 100, 7));
    // The stone (sid 200) at (101,100,7), stackpos 1 (ground + stone).
    assert_eq!(
        g.find_script(me, 101, 100, 7, 1),
        Some(LuaArgs { player_id: me, item_id: 200, pos_x: 101, pos_y: 100, pos_z: 7, stackpos: 1 })
    );
    assert!(g.do_use_item(me, 101, 100, 7, 1, 0).is_none());
    assert_eq!(
        lua_call_count(&g),
        1,
        "onUse must be dispatched exactly once for registered item 200"
    );
}

#[test]
fn scripts_are_found_under_their_own_name_first() {
    let mut g = scripted_game(
        r#"call_count = 0
        test = {}
        function test.onUse(args) call_count = call_count + 10 end
        function onUse(args) call_count = call_count + 1 end"#,
    );
    let me = add_player(&mut g, Position::new(100, 100, 7));
    assert!(g.do_use_item(me, 101, 100, 7, 1, 0).is_none());
    assert_eq!(lua_call_count(&g), 10);
}

#[test]
fn unregistered_item_silently_ignored_by_lua_dispatch() {
    let mut g = scripted_game(
        "call_count = 0\nfunction onUse(args) call_count = call_count + 1 return true end",
    );
    g.registry = XmlRegistry::default();
    let me = add_player(&mut g, Position::new(100, 100, 7));
    // Gold coins (sid 300) at (102,100,7): not registered.
    g.do_use_item(me, 102, 100, 7, 1, 0);
    assert_eq!(lua_call_count(&g), 0, "onUse must NOT be dispatched for unregistered item");
}

#[test]
fn lua_onuse_teleports_player_upstairs() {
    let mut g = scripted_game(
        "function onUse(args) do_teleport(args.player_id, args.pos_x, args.pos_y, args.pos_z - 1) return true end",
    );
    let me = add_player(&mut g, Position::new(100, 100, 7));
    g.do_use_item(me, 101, 100, 7, 1, 0);
    assert_eq!(
        player_of(&g, me).position,
        Position::new(101, 100, 6),
        "player must be teleported upstairs (z-1) after using a registered item"
    );
}

#[test]
fn lua_error_during_onuse_does_not_crash_server() {
    let mut g = scripted_game("function onUse(args) error('boom') return true end");
    let me = add_player(&mut g, Position::new(100, 100, 7));
    let cmd =
        Command::UseItem { id: me, pos_x: 101, pos_y: 100, pos_z: 7, stackpos: 1, index: 0 };
    let reply = g.handle(cmd, find_way);
    assert!(matches!(reply, Reply::ScriptFailed { .. }));
    assert_eq!(
        player_of(&g, me).position,
        Position::new(100, 100, 7),
        "player must stay at original position after a Lua error"
    );
}

#[test]
fn meals_beyond_the_clock_are_left_out() {
    let mut g = Game::new(move_map());
    let me = add_player(&mut g, Position::new(100, 100, 7));
    g.now_ms = u64::MAX - 10;
    let meal = |duration_ms| GameAction::Feed {
        player_id: me,
        health_gain: 2,
        interval_ms: 1000,
        duration_ms,
        total_heal_cap: 10,
    };
    g.do_script_actions(&vec![meal(11), meal(10)]);
    assert_eq!(player_of(&g, me).conditions.len(), 1);
    assert_eq!(player_of(&g, me).conditions[0].expires_at_ms, u64::MAX);
}

#[test]
fn scripts_get_what_they_ask_for() {
    let mut g = Game::new(move_map());
    let me = add_player(&mut g, Position::new(100, 100, 7));
    let landing = Position::new(101, 100, 6);
    g.do_script_action(&GameAction::Teleport { player_id: me, landing });
    assert_eq!(player_of(&g, me).position, landing);
    drain(&mut g, me);
    g.do_script_action(&GameAction::TextMessage {
        player_id: me,
        message_type: 22,
        text: "Munch.".to_string(),
    });
    assert_eq!(text_of(&drain(&mut g, me)), (22, "Munch.".to_string()));
    g.now_ms = 500;
    g.do_script_action(&GameAction::Feed {
        player_id: me,
        health_gain: 2,
        interval_ms: 1000,
        duration_ms: 5000,
        total_heal_cap: 10,
    });
    let c = player_of(&g, me).conditions[0];
    assert_eq!((c.health_gain, c.expires_at_ms, c.last_health_tick), (2, 5500, 500));
    // More food makes it last longer.
    g.now_ms = 1500;
    g.do_feed(me, 7, 100, 4000, 99);
    assert_eq!(player_of(&g, me).conditions.len(), 1);
    let c = player_of(&g, me).conditions[0];
    assert_eq!((c.health_gain, c.expires_at_ms, c.last_health_tick), (2, 9500, 1500));
    // Once it has worn off, a new meal begins anew.
    g.now_ms = 9500;
    g.do_feed(me, 7, 100, 4000, 99);
    assert_eq!(player_of(&g, me).conditions[1].expires_at_ms, 13_500);
}

#[test]
fn script_names_are_cut_at_the_first_dot() {
    let pair = |a: &str, b: &str| Some((a.to_string(), b.to_string()));
    assert_eq!(split_script_name("food.onUse"), pair("food", "onUse"));
    assert_eq!(split_script_name("a.b.c"), pair("a", "b.c"));
    assert_eq!(split_script_name(".x"), pair("", "x"));
    assert_eq!(split_script_name("onUse"), None);
}

#[test]
fn scripts_say_whether_they_took_care() {
    assert!(!ScriptResult::Missing.is_handled());
    assert!(!ScriptResult::Nil.is_handled());
    assert!(!ScriptResult::Boolean { value: false }.is_handled());
    assert!(ScriptResult::Boolean { value: true }.is_handled());
    assert!(ScriptResult::Other.is_handled());
}

#[test]
fn requests_are_taken_once_the_script_has_run() {
    let mut g = scripted_game(
        "function onUse(args) do_send_text_message(args.player_id, 13, 'Glup') end",
    );
    let me = add_player(&mut g, Position::new(100, 100, 7));
    assert!(g.do_use_item(me, 101, 100, 7, 1, 0).is_none());
    assert_eq!(text_of(&drain(&mut g, me)), (13, "Glup".to_string()));
    assert!(g.lua.as_mut().unwrap().drain_actions().is_empty(), "nothing waits for the next use");
}
