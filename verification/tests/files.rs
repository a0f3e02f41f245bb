use std::collections::{HashMap, HashSet, VecDeque};

use world::{Direction, Position};
use world::game::Game;
use world::game::condition::ConditionRegeneration;
use world::game::lua::LuaRuntime;
use world::game::monster::{MonsterTypes, name_hash_looktype, parse_monsters_xml, parse_spawns_xml};
use world::game::monster_files::{parse_monster_file_xml, parse_monster_index_xml};
use world::game::setup::GameConfig;
use world::game::state::{PlayerState, RaceType};
use world::game::xml_registry::XmlRegistry;
use world::map::{FloorChange, ItemType, ItemsOtb, ItemsXml, MapItem, MapTile, OtbmMap, Town};
use world::map::grid::StaticMap;
use world::wire::{Outfit, Packet, push_channel};
use world::xml::FormatError;

/// An item kind with nothing special about it.
fn item(server_id: u16, client_id: u16) -> ItemType {
    ItemType {
        server_id,
        client_id,
        flags: 0,
        always_on_top: false,
        top_order: 0,
        has_height: false,
        floor_change: FloorChange::none(),
        stackable: false,
        fluid_or_splash: false,
        animated: false,
        pickupable: false,
        moveable: false,
        block_projectile: false,
        container: false,
    }
}

fn tile(x: u16, y: u16, z: u8, ids: &[u16]) -> MapTile {
    MapTile { x, y, z, flags: 0, items: ids.iter().map(|&id| MapItem { id, count: None }).collect() }
}

fn towns(x: u16, y: u16, z: u8) -> Vec<Town> {
    vec![Town { id: 1, name: "Thais".to_string(), x, y, z }]
}

/// A map whose items have no more than their kinds.
fn plain(tiles: Vec<MapTile>, items: Vec<ItemType>, spawn: Position) -> StaticMap {
    let otb = ItemsOtb { items };
    let map = OtbmMap { tiles, towns: towns(spawn.x, spawn.y, spawn.z) };
    let mut sm = StaticMap::from_formats(&map, &otb);
    sm.load_item_metadata(&otb, &ItemsXml { items: HashMap::new() });
    sm
}

fn knight() -> Outfit {
    Outfit { look_type: 128, head: 78, body: 69, legs: 58, feet: 76, addons: 0, mount: 0 }
}

fn player_at(pos: Position) -> PlayerState {
    PlayerState {
        name: "Tester".to_string(),
        position: pos,
        direction: Direction::South,
        outfit: knight(),
        session: push_channel(),
        known: HashSet::new(),
        health: 150,
        max_health: 150,
        max_melee: 8,
        attacking: None,
        last_attack_ms: 0,
        sex: 1, // male
        gamemaster: false,
        race: RaceType::Blood,
        is_ghost: false,
        prev_outfit: None,
        noclip: false,
        speed: 220,
        inventory: [None; 10],
        open_containers: std::array::from_fn(|_| None),
        follow_target: None,
        go_to_position: None,
        failed_repaths: None,
        list_walk_dir: VecDeque::new(),
        last_walk_ms: 0,
        conditions: Vec::new(),
    }
}

fn insert_player(g: &mut Game, p: PlayerState) -> u32 {
    let id = g.next_id;
    g.next_id += 1;
    g.players.insert(id, p);
    id
}

/// Put a player at `pos`, past the greetings of a login.
fn add_player(g: &mut Game, pos: Position) -> u32 {
    insert_player(g, player_at(pos))
}

fn player_of(g: &Game, id: u32) -> &PlayerState {
    g.players.get(id).expect("the player is there")
}

fn player_mut(g: &mut Game, id: u32) -> &mut PlayerState {
    g.players.get_mut(id).expect("the player is there")
}

/// All messages that wait for a player, also for one who has left.
fn drain(g: &mut Game, id: u32) -> Vec<Packet> {
    if let Some(p) = g.players.get_mut(id) {
        return p.session.drain();
    }
    for (who, session) in g.left.iter_mut() {
        if *who == id {
            return session.drain();
        }
    }
    Vec::new()
}

/// The byte that a message starts with.
fn op(p: &Packet) -> u8 {
    match p {
        Packet::AddTileCreature { .. } | Packet::AddTileItem { .. } => 0x6A,
        Packet::UpdateTileItem { .. } | Packet::CreatureTurn { .. } => 0x6B,
        Packet::RemoveCreature { .. } | Packet::RemoveTileThing { .. } => 0x6C,
        Packet::CreatureMove { .. } | Packet::WalkUpdate { .. } => 0x6D,
        Packet::OpenContainer { .. } => 0x6E,
        Packet::CloseContainer { .. } => 0x6F,
        Packet::AddContainerItem { .. } => 0x70,
        Packet::RemoveContainerItem { .. } => 0x72,
        Packet::InventorySet { .. } => 0x78,
        Packet::InventoryEmpty { .. } => 0x79,
        Packet::MagicEffect { .. } => 0x83,
        Packet::CreatureHealth { .. } => 0x8C,
        Packet::CreatureOutfit { .. } => 0x8E,
        Packet::Stats { .. } => 0xA0,
        Packet::CreatureSay { .. } => 0xAA,
        Packet::TextMessage { .. } | Packet::DamageText { .. } => 0xB4,
        Packet::CancelWalk { .. } => 0xB5,
        Packet::OutfitWindow { .. } => 0xC8,
        Packet::DeathWindow => 0x28,
    }
}

fn has_op(packets: &[Packet], byte: u8) -> bool {
    packets.iter().any(|p| op(p) == byte)
}

fn runtime(scripts: &[&str]) -> LuaRuntime {
    let lua = LuaRuntime::new().unwrap();
    let scripts: Vec<String> = scripts.iter().map(|s| s.to_string()).collect();
    assert!(lua.load_scripts(&scripts).is_empty(), "every script loads");
    lua
}

fn sample_actions_xml() -> &'static str {
    r#"<actions>
      <action itemid="1386" script="teleport.onUse"/>
      <action itemid="1280" script="teleport.onUse"/>
      <action itemid="8592" script="teleport.onUse"/>
    </actions>"#
}

fn range_actions_xml() -> &'static str {
    r#"<actions>
      <action itemid="1386" script="teleport.onUse"/>
      <action fromid="2666" toid="2691" script="food.onUse"/>
    </actions>"#
}

// ---------------------------------------------------------------------------
// Actions
// ---------------------------------------------------------------------------

#[test]
fn lookup_returns_script_for_registered_item() {
    let registry = XmlRegistry::from_actions_xml(sample_actions_xml())
        .expect("valid XML must parse successfully");
    assert_eq!(
        registry.lookup(1386),
        Some("teleport.onUse"),
        "item 1386 (ladder) must map to teleport.onUse"
    );
    assert_eq!(
        registry.lookup(1280),
        Some("teleport.onUse"),
        "item 1280 (hole) must map to teleport.onUse"
    );
}

#[test]
fn lookup_returns_none_for_unregistered_item() {
    let registry = XmlRegistry::from_actions_xml(sample_actions_xml())
        .expect("valid XML must parse successfully");
    assert_eq!(registry.lookup(9999), None, "unregistered item must return None");
}

#[test]
fn from_actions_xml_returns_err_on_malformed_xml() {
    let result = XmlRegistry::from_actions_xml("this is not valid xml <<<>>>");
    assert!(result.is_err(), "malformed XML must return Err(FormatError); got {result:?}");
}

#[test]
fn empty_actions_xml_produces_empty_registry() {
    let registry = XmlRegistry::from_actions_xml("<actions/>")
        .expect("empty <actions/> must parse successfully");
    assert_eq!(
        registry.lookup(1386),
        None,
        "empty registry must return None for any lookup"
    );
}

#[test]
fn action_without_itemid_is_rejected() {
    let result = XmlRegistry::from_actions_xml(
        r#"<actions>
          <action script="noop.onUse"/>
        </actions>"#,
    );
    assert!(result.is_err(), "action without itemid must return Err; got {result:?}");
}

#[test]
fn action_without_script_is_rejected() {
    let result = XmlRegistry::from_actions_xml(
        r#"<actions>
          <action itemid="1386"/>
        </actions>"#,
    );
    assert!(result.is_err(), "action without script attribute must return Err; got {result:?}");
}

#[test]
fn fromid_toid_range_expands_all_items_in_range() {
    let registry = XmlRegistry::from_actions_xml(range_actions_xml())
        .expect("valid XML with fromid/toid must parse successfully");
    assert_eq!(
        registry.lookup(2666),
        Some("food.onUse"),
        "item 2666 (start of range) must map to food.onUse"
    );
    assert_eq!(
        registry.lookup(2680),
        Some("food.onUse"),
        "item 2680 (middle of range) must map to food.onUse"
    );
    assert_eq!(
        registry.lookup(2691),
        Some("food.onUse"),
        "item 2691 (end of range) must map to food.onUse"
    );
    assert_eq!(
        registry.lookup(1386),
        Some("teleport.onUse"),
        "single-itemid entry (1386) must still work alongside ranges"
    );
}

#[test]
fn fromid_toid_single_item_equal_bounds() {
    let registry = XmlRegistry::from_actions_xml(
        r#"<actions>
          <action fromid="2666" toid="2666" script="food.onUse"/>
        </actions>"#,
    )
    .expect("fromid==toid must parse successfully");
    assert_eq!(
        registry.lookup(2666),
        Some("food.onUse"),
        "single-item range must register the item"
    );
}

#[test]
fn unregistered_item_outside_range_returns_none() {
    let registry = XmlRegistry::from_actions_xml(range_actions_xml())
        .expect("valid XML with fromid/toid must parse successfully");
    assert_eq!(registry.lookup(3000), None, "item 3000 outside range must return None");
    assert_eq!(registry.lookup(1), None, "item 1 (outside range) must return None");
}

#[test]
fn fromid_without_toid_is_rejected() {
    let result = XmlRegistry::from_actions_xml(
        r#"<actions>
          <action fromid="2666" script="food.onUse"/>
        </actions>"#,
    );
    assert!(result.is_err(), "action with fromid but no toid must return Err; got {result:?}");
}

#[test]
fn toid_without_fromid_is_rejected() {
    let result = XmlRegistry::from_actions_xml(
        r#"<actions>
          <action toid="2691" script="food.onUse"/>
        </actions>"#,
    );
    assert!(result.is_err(), "action with toid but no fromid must return Err; got {result:?}");
}

#[test]
fn fromid_greater_than_toid_is_empty_and_logged() {
    let registry = XmlRegistry::from_actions_xml(
        r#"<actions>
          <action fromid="2691" toid="2666" script="food.onUse"/>
        </actions>"#,
    )
    .expect("inverted range must parse without error (empty expansion)");
    assert_eq!(
        registry.lookup(2666),
        None,
        "item 2666 must not be registered from inverted range"
    );
    assert_eq!(
        registry.lookup(2691),
        None,
        "item 2691 must not be registered from inverted range"
    );
}

#[test]
fn the_last_action_for_an_item_wins() {
    let registry = XmlRegistry::from_actions_xml(
        r#"<actions>
          <action fromid="10" toid="12" script="a.onUse"/>
          <action itemid="11" script="b.onUse"/>
        </actions>"#,
    )
    .unwrap();
    assert_eq!(registry.lookup(10), Some("a.onUse"));
    assert_eq!(registry.lookup(11), Some("b.onUse"));
}

#[test]
fn item_ids_that_are_no_numbers_are_rejected() {
    for xml in [
        r#"<actions><action itemid="x" script="a"/></actions>"#,
        r#"<actions><action itemid="65536" script="a"/></actions>"#,
        r#"<actions><action fromid="1" toid="y" script="a"/></actions>"#,
    ] {
        assert!(XmlRegistry::from_actions_xml(xml).is_err(), "{xml}");
    }
}

// ---------------------------------------------------------------------------
// Monsters
// ---------------------------------------------------------------------------

#[test]
fn parse_monsters_xml_race_attr_blood() {
    let xml = r#"<monsters>
        <monster name="Rat" looktype="100" health="50" max_health="50" speed="200" attack="7" race="blood"/>
    </monsters>"#;
    let map = parse_monsters_xml(xml).unwrap();
    let rat = map.get("rat").expect("Rat must be parsed");
    assert_eq!(rat.race, Some(RaceType::Blood));
}

#[test]
fn parse_monsters_xml_race_attr_venom() {
    let xml = r#"<monsters>
        <monster name="Spider" looktype="38" health="30" max_health="30" speed="120" attack="15" race="venom"/>
    </monsters>"#;
    let map = parse_monsters_xml(xml).unwrap();
    let spider = map.get("spider").expect("Spider must be parsed");
    assert_eq!(spider.race, Some(RaceType::Venom));
}

#[test]
fn parse_monsters_xml_race_attr_missing() {
    let xml = r#"<monsters>
        <monster name="Skeleton" looktype="33" health="50" max_health="50" speed="146" attack="7"/>
    </monsters>"#;
    let map = parse_monsters_xml(xml).unwrap();
    let skel = map.get("skeleton").expect("Skeleton must be parsed");
    assert_eq!(skel.race, Some(RaceType::Blood));
}

#[test]
fn parse_monsters_xml_race_attr_undead() {
    let xml = r#"<monsters>
        <monster name="Ghost" looktype="52" health="80" max_health="80" speed="160" attack="10" race="undead"/>
    </monsters>"#;
    let map = parse_monsters_xml(xml).unwrap();
    let spook = map.get("ghost").expect("Ghost must be parsed");
    assert_eq!(spook.race, Some(RaceType::Undead));
}

#[test]
fn monster_names_are_found_in_lower_case() {
    let xml = r#"<monsters><monster name="Cave Rat" looktype="1" health="2" speed="3" attack="4"/></monsters>"#;
    let map = parse_monsters_xml(xml).unwrap();
    let m = map.get("cave rat").expect("the key is in lower case");
    assert_eq!(m.name, "Cave Rat");
    assert_eq!((m.look_type, m.health, m.max_health, m.speed, m.attack), (1, 2, 2, 3, 4));
    assert!(map.get("Cave Rat").is_none());
}

#[test]
fn monster_files_that_are_no_xml_are_rejected() {
    let err = parse_monsters_xml("<monsters>").unwrap_err();
    assert!(!err.what().is_empty());
    assert!(parse_spawns_xml("<spawns>").is_err());
}

#[test]
fn what_is_wrong_with_a_file_is_named() {
    for (xml, what) in [
        ("<monsters>", "monsters.xml is not well-formed"),
        (
            r#"<monsters><monster name="Rat" looktype="1"/></monsters>"#,
            "monster missing or invalid health attribute",
        ),
    ] {
        assert_eq!(parse_monsters_xml(xml).unwrap_err(), FormatError::InvalidNode { what });
    }
    for (xml, what) in [
        ("<spawns>", "spawns.xml is not well-formed"),
        (r#"<spawns><spawn centery="1" centerz="1"/></spawns>"#, "spawn missing centerx"),
        (r#"<spawns><spawn centerx="1" centerz="1"/></spawns>"#, "spawn missing centery"),
        (r#"<spawns><spawn centerx="1" centery="1"/></spawns>"#, "spawn missing centerz"),
        (
            r#"<spawns><spawn centerx="1" centery="1" centerz="1"><monster/></spawn></spawns>"#,
            "monster in spawn missing name",
        ),
    ] {
        match parse_spawns_xml(xml) {
            Ok(_) => panic!("{xml} is read"),
            Err(e) => assert_eq!(e.what(), what),
        }
    }
}

#[test]
fn spawns_lie_around_their_centre() {
    let spawns = parse_spawns_xml(
        r#"<spawns>
            <spawn centerx="100" centery="200" centerz="7" radius="2">
                <monster name="Silver Rabbit" x="-1" y="2" z="0" spawntime="30"/>
                <monster name="Rat"/>
            </spawn>
        </spawns>"#,
    )
    .unwrap();
    assert_eq!(spawns.len(), 2);
    assert_eq!(spawns[0].position, Position::new(99, 202, 7));
    assert_eq!(spawns[0].respawn_interval_ms, 30_000);
    assert_eq!(spawns[0].kind.name, "Silver Rabbit");
    assert_eq!(spawns[1].position, Position::new(100, 200, 7));
    assert_eq!(spawns[1].respawn_interval_ms, 60_000);
    assert_eq!(spawns[1].kind.look_type, name_hash_looktype("Rat"));
}

// ---------------------------------------------------------------------------
// The game
// ---------------------------------------------------------------------------

fn one_tile_map() -> StaticMap {
    plain(vec![tile(95, 117, 7, &[100])], vec![item(100, 4526)], Position::new(95, 117, 7))
}

#[test]
fn spawns_put_their_monsters_into_the_game() {
    let mut g = Game::new(one_tile_map());
    g.monster_types = parse_monsters_xml(
        r#"<monsters><monster name="Rat" looktype="21" health="20" speed="134" attack="7"/></monsters>"#,
    )
    .unwrap();
    let loaded = g.load_spawns(
        r#"<spawns>
            <spawn centerx="95" centery="117" centerz="7" radius="1">
                <monster name="Rat" x="0" y="0" z="0" spawntime="60"/>
            </spawn>
        </spawns>"#,
    );
    assert_eq!(loaded, Ok(true));
    assert_eq!(g.monsters.len(), 1);
    assert_eq!(g.spawns.len(), 1);
    let m = g.monsters.entry_at(0);
    assert_eq!(m.position, Position::new(95, 117, 7));
    assert_eq!(m.spawn_id, Some(g.spawns.id_at(0)));
}

#[test]
fn a_game_is_set_up_from_its_files() {
    let mut g = Game::new(one_tile_map());
    let config = GameConfig {
        actions_xml: range_actions_xml().to_string(),
        monsters_xml:
            r#"<monsters><monster name="Rat" looktype="21" health="20" speed="134" attack="7"/></monsters>"#
                .to_string(),
        spawns_xml: "<spawns/>".to_string(),
        ..GameConfig::default()
    };
    assert!(g.set_up(&config, None, MonsterTypes::new()).is_ok());
    assert_eq!(g.registry.lookup(2670), Some("food.onUse"));
    assert_eq!(g.monster_types.get("rat").map(|m| m.look_type), Some(21));
}

#[test]
fn conditions_heal_players_over_time() {
    let mut g = Game::new(one_tile_map());
    let id = add_player(&mut g, Position::new(95, 117, 7));
    {
        let p = player_mut(&mut g, id);
        p.health = 140;
        p.conditions.push(ConditionRegeneration::new(0, 10_000, 3, 1000, 100));
    }
    g.on_regen_tick(1000);
    assert_eq!(player_of(&g, id).health, 143);
    assert!(has_op(&drain(&mut g, id), 0xA0));
    g.on_regen_tick(1500);
    assert_eq!(player_of(&g, id).health, 143);
    g.on_regen_tick(20_000);
    assert!(player_of(&g, id).conditions.is_empty(), "a condition ends");
}

#[test]
fn health_stops_at_its_maximum() {
    let mut g = Game::new(one_tile_map());
    let id = add_player(&mut g, Position::new(95, 117, 7));
    {
        let p = player_mut(&mut g, id);
        p.health = 149;
        p.conditions.push(ConditionRegeneration::new(0, 10_000, 3, 1000, 100));
    }
    g.on_regen_tick(1000);
    assert_eq!(player_of(&g, id).health, 150);
}

#[test]
fn parse_monsters_data_dir_parses_individual_xml() {
    let index = parse_monster_index_xml(
        r#"<?xml version="1.0" encoding="UTF-8"?>
<monsters>
    <monster name="Rat" file="Rats/rat.xml"/>
    <monster name="Dragon" file="Dragons/dragon.xml"/>
</monsters>"#,
    )
    .unwrap();
    let files: Vec<(&str, &str)> =
        index.iter().map(|f| (f.name.as_str(), f.file.as_str())).collect();
    assert_eq!(files, [("Rat", "Rats/rat.xml"), ("Dragon", "Dragons/dragon.xml")]);
    let rat_xml = r#"<?xml version="1.0" encoding="UTF-8"?>
<monster name="Rat" nameDescription="a rat" race="blood" experience="5" speed="134" manacost="200">
    <health now="20" max="20"/>
    <look type="21" corpse="5964"/>
    <attacks>
        <attack name="melee" interval="2000" skill="15" attack="7"/>
    </attacks>
</monster>"#;
    let dragon_xml = r#"<?xml version="1.0" encoding="UTF-8"?>
<monster name="Dragon" nameDescription="a dragon" race="fire" experience="1000" speed="180">
    <health now="300" max="300"/>
    <look type="92" corpse="5991"/>
    <attacks>
        <attack name="melee" interval="2000" min="-30" max="-50"/>
    </attacks>
</monster>"#;
    let mut map = MonsterTypes::new();
    map.add_file("Rat", rat_xml).unwrap();
    map.add_file("Dragon", dragon_xml).unwrap();

    let rat = map.get("rat").expect("Rat must be parsed");
    assert_eq!(rat.race, Some(RaceType::Blood));
    assert_eq!(rat.health, 20);
    assert_eq!(rat.max_health, 20);
    assert_eq!(rat.look_type, 21);
    assert_eq!(rat.speed, 134);
    assert_eq!(rat.attack, 7);

    let dragon = map.get("dragon").expect("Dragon must be parsed");
    assert_eq!(dragon.race, Some(RaceType::Fire));
    assert_eq!(dragon.health, 300);
    assert_eq!(dragon.max_health, 300);
    assert_eq!(dragon.look_type, 92);
    assert_eq!(dragon.speed, 180);
    assert_eq!(dragon.attack, 50);
}

#[test]
fn monster_files_say_what_is_wrong() {
    let index = |xml| parse_monster_index_xml(xml).unwrap_err().what();
    assert_eq!(index("<monsters>"), "monster index is not well-formed");
    assert_eq!(index(r#"<m><monster file="a"/></m>"#), "monster missing name attribute");
    assert_eq!(index(r#"<m><monster name="a"/></m>"#), "monster missing file attribute");
    let file = |xml| parse_monster_file_xml(xml).unwrap_err().what();
    assert_eq!(file("<monster"), "monster file is not well-formed");
    assert_eq!(file("<npc/>"), "monster file without a monster");
    assert_eq!(file("<monster/>"), "monster missing name attribute");
    assert_eq!(file(r#"<monster name="a"/>"#), "monster missing or invalid look type");
    assert_eq!(
        file(r#"<monster name="a"><look type="1"/></monster>"#),
        "monster missing or invalid health"
    );
    let mut map = MonsterTypes::new();
    assert!(map.add_file("a", "<npc/>").is_err());
    assert!(map.get("a").is_none());
}

#[test]
fn monster_files_leave_things_out() {
    let t = parse_monster_file_xml(
        r#"<monster name="Imp"><health max="9"/><look type="3"/>
        <attack name="fire" attack="90"/><attack name="melee" max="+12"/></monster>"#,
    )
    .unwrap();
    assert_eq!((t.health, t.max_health, t.speed, t.attack), (9, 9, 200, 12));
    let t = parse_monster_file_xml(
        r#"<monster name="Imp"><health max="9" now="4"/><look type="3"/></monster>"#,
    )
    .unwrap();
    assert_eq!((t.health, t.max_health, t.attack), (4, 9, 7));
}

#[test]
fn a_game_keeps_the_scripts_it_is_given() {
    let mut g = Game::new(one_tile_map());
    let lua = runtime(&["version = 5"]);
    assert!(g.set_up(&GameConfig::default(), Some(lua), MonsterTypes::new()).is_err());
    assert_eq!(g.lua.as_ref().unwrap().get_global_i64("version"), Some(5));
}
