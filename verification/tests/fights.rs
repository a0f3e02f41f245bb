use std::collections::{HashMap, HashSet, VecDeque};

use rand::rngs::StdRng;
use rand::SeedableRng;

use world::{Direction, Position};
use world::combat::{melee_damage, roll_drop};
use world::game::{Game, ITEM_FULLSPLASH, ITEM_SMALLSPLASH, MELEE_ATTACK_INTERVAL_MS};
use world::game::state::{
    MonsterDrop, MonsterSpawn, MonsterState, MonsterType, PlayerState, RaceType,
};
use world::map::{
    FloorChange, ItemType, ItemsOtb, ItemsXml, MapItem, MapTile, OtbmMap, TileStack, Town,
};
use world::map::grid::{StaticMap, key_of};
use world::wire::{DamageRole, Outfit, PUSH_CAPACITY, Packet, push_channel};

/// An item kind with nothing special about it.
fn item(server_id: u16, client_id: u16) -> ItemType {
    ItemType {
        server_id,
        client_id,
        flags: 0,
        always_on_top: false,
        top_order: 0,
        has_height: false,
        floor_change: FloorChange::none(),
        stackable: false,
        fluid_or_splash: false,
        animated: false,
        pickupable: false,
        moveable: false,
        block_projectile: false,
        container: false,
    }
}

fn tile(x: u16, y: u16, z: u8, ids: &[u16]) -> MapTile {
    MapTile { x, y, z, flags: 0, items: ids.iter().map(|&id| MapItem { id, count: None }).collect() }
}

fn towns(x: u16, y: u16, z: u8) -> Vec<Town> {
    vec![Town { id: 1, name: "Thais".to_string(), x, y, z }]
}

/// A map whose items have no more than their kinds.
fn plain(tiles: Vec<MapTile>, items: Vec<ItemType>, spawn: Position) -> StaticMap {
    let otb = ItemsOtb { items };
    let map = OtbmMap { tiles, towns: towns(spawn.x, spawn.y, spawn.z) };
    let mut sm = StaticMap::from_formats(&map, &otb);
    sm.load_item_metadata(&otb, &ItemsXml { items: HashMap::new() });
    sm
}

/// Three tiles in a row; the spawn point may lie in a protection zone.
fn combat_map(spawn_pz: bool) -> StaticMap {
    plain(
        vec![
            MapTile { flags: if spawn_pz { 1 } else { 0 }, ..tile(95, 117, 7, &[100]) },
            tile(96, 117, 7, &[100]),
            tile(97, 117, 7, &[100]),
        ],
        vec![item(100, 4526)],
        Position::new(95, 117, 7),
    )
}

/// A long row of tiles with a protection zone at its west end.
fn wide_combat_map_with_pz() -> StaticMap {
    let mut tiles: Vec<MapTile> = (90u16..=116u16)
        .map(|x| MapTile { flags: if x == 90 { 1 } else { 0 }, ..tile(x, 117, 7, &[100]) })
        .collect();
    tiles.push(tile(115, 116, 7, &[100]));
    plain(tiles, vec![item(100, 4526)], Position::new(95, 117, 7))
}

fn knight() -> Outfit {
    Outfit { look_type: 128, head: 78, body: 69, legs: 58, feet: 76, addons: 0, mount: 0 }
}

fn player_at(pos: Position) -> PlayerState {
    PlayerState {
        name: "Tester".to_string(),
        position: pos,
        direction: Direction::South,
        outfit: knight(),
        session: push_channel(),
        known: HashSet::new(),
        health: 150,
        max_health: 150,
        max_melee: 8,
        attacking: None,
        last_attack_ms: 0,
        sex: 1, // male
        gamemaster: false,
        race: RaceType::Blood,
        is_ghost: false,
        prev_outfit: None,
        noclip: false,
        speed: 220,
        inventory: [None; 10],
        open_containers: std::array::from_fn(|_| None),
        follow_target: None,
        go_to_position: None,
        failed_repaths: None,
        list_walk_dir: VecDeque::new(),
        last_walk_ms: 0,
        conditions: Vec::new(),
    }
}

fn insert_player(g: &mut Game, p: PlayerState) -> u32 {
    let id = g.next_id;
    g.next_id += 1;
    g.players.insert(id, p);
    id
}

/// Put a player at `pos`, past the greetings of a login.
fn add_player(g: &mut Game, pos: Position) -> u32 {
    insert_player(g, player_at(pos))
}

/// Put a rat at `pos`, unseen.
fn add_monster(g: &mut Game, pos: Position) -> u32 {
    let kind = rat();
    let id = g.next_monster_id;
    g.next_monster_id += 1;
    g.monsters.insert(id, MonsterState::born(&kind, pos, None));
    id
}

fn rat() -> MonsterType {
    MonsterType {
        name: "Rat".to_string(),
        look_type: 100,
        health: 50,
        max_health: 50,
        speed: 200,
        attack: 7,
        loot: Vec::new(),
        target_distance: 0,
        race: Some(RaceType::Blood),
    }
}

fn player_of(g: &Game, id: u32) -> &PlayerState {
    g.players.get(id).expect("the player is there")
}

fn player_mut(g: &mut Game, id: u32) -> &mut PlayerState {
    g.players.get_mut(id).expect("the player is there")
}

fn monster_of(g: &Game, id: u32) -> &MonsterState {
    g.monsters.get(id).expect("the monster is there")
}

fn monster_mut(g: &mut Game, id: u32) -> &mut MonsterState {
    g.monsters.get_mut(id).expect("the monster is there")
}

/// All messages that wait for a player, also for one who has left.
fn drain(g: &mut Game, id: u32) -> Vec<Packet> {
    if let Some(p) = g.players.get_mut(id) {
        return p.session.drain();
    }
    for (who, session) in g.left.iter_mut() {
        if *who == id {
            return session.drain();
        }
    }
    Vec::new()
}

/// The byte that a message starts with.
fn op(p: &Packet) -> u8 {
    match p {
        Packet::AddTileCreature { .. } | Packet::AddTileItem { .. } => 0x6A,
        Packet::UpdateTileItem { .. } | Packet::CreatureTurn { .. } => 0x6B,
        Packet::RemoveCreature { .. } | Packet::RemoveTileThing { .. } => 0x6C,
        Packet::CreatureMove { .. } | Packet::WalkUpdate { .. } => 0x6D,
        Packet::OpenContainer { .. } => 0x6E,
        Packet::CloseContainer { .. } => 0x6F,
        Packet::AddContainerItem { .. } => 0x70,
        Packet::RemoveContainerItem { .. } => 0x72,
        Packet::InventorySet { .. } => 0x78,
        Packet::InventoryEmpty { .. } => 0x79,
        Packet::MagicEffect { .. } => 0x83,
        Packet::CreatureHealth { .. } => 0x8C,
        Packet::CreatureOutfit { .. } => 0x8E,
        Packet::Stats { .. } => 0xA0,
        Packet::CreatureSay { .. } => 0xAA,
        Packet::TextMessage { .. } | Packet::DamageText { .. } => 0xB4,
        Packet::CancelWalk { .. } => 0xB5,
        Packet::OutfitWindow { .. } => 0xC8,
        Packet::DeathWindow => 0x28,
    }
}

fn ops(packets: &[Packet]) -> Vec<u8> {
    packets.iter().map(op).collect()
}

fn has_op(packets: &[Packet], byte: u8) -> bool {
    packets.iter().any(|p| op(p) == byte)
}

/// The changed stack of a tile.
fn stack_at(g: &Game, pos: Position) -> Option<&TileStack> {
    g.dynamic.get(&key_of(pos))
}

fn sids(st: &TileStack) -> Vec<u16> {
    st.things.iter().map(|t| t.server_id).collect()
}

// ---------------------------------------------------------------------------
// Damage rolls
// ---------------------------------------------------------------------------

/// Over 10 000 seeded rolls the damage must never exceed the maximum of a beginner.
#[test]
fn fist_damage_stays_within_zero_to_max() {
    let mut rng = StdRng::seed_from_u64(42);
    let max = 8;
    let mut top = 0;
    for _ in 0..10_000 {
        let d = melee_damage(&mut rng, max);
        assert!((0..=max).contains(&d), "damage {d} is out of 0..={max}");
        top = top.max(d);
    }
    assert_eq!(top, max, "the maximum is rolled too");
}

/// When the maximum is 0 the result is 0, and likewise below.
#[test]
fn zero_max_returns_zero_without_panic() {
    let mut rng = StdRng::seed_from_u64(0);
    assert_eq!(melee_damage(&mut rng, 0), 0);
    assert_eq!(melee_damage(&mut rng, -3), 0);
}

/// A seeded generator gives the same rolls again.
#[test]
fn seeded_rng_deterministic_sequence() {
    let mut rng = StdRng::seed_from_u64(1);
    let results: Vec<i32> = (0..5).map(|_| melee_damage(&mut rng, 8)).collect();
    for &d in &results {
        assert!((0..=8).contains(&d), "value {d} out of range");
    }
    let mut rng2 = StdRng::seed_from_u64(1);
    let results2: Vec<i32> = (0..5).map(|_| melee_damage(&mut rng2, 8)).collect();
    assert_eq!(results, results2);
}

#[test]
fn sure_drops_fall_and_impossible_ones_do_not() {
    let mut rng = StdRng::seed_from_u64(7);
    for _ in 0..100 {
        assert!(roll_drop(&mut rng, 1, 1));
        assert!(!roll_drop(&mut rng, 0, 1));
    }
    let fallen = (0..1000).filter(|_| roll_drop(&mut rng, 1, 2)).count();
    assert!((300..700).contains(&fallen), "half of the drops fall: {fallen}");
}

// ---------------------------------------------------------------------------
// Targets
// ---------------------------------------------------------------------------

#[test]
fn set_target_sets_attacking_and_clear_resets_it() {
    let mut g = Game::new(combat_map(false));
    let a = add_player(&mut g, Position::new(95, 117, 7));
    let b = add_player(&mut g, Position::new(96, 117, 7));
    g.do_set_target(a, b);
    assert_eq!(player_of(&g, a).attacking, Some(b), "set_target should store target id");
    g.do_set_target(a, 0);
    assert_eq!(player_of(&g, a).attacking, None, "target 0 clears the fight");
}

#[test]
fn set_target_self_is_ignored() {
    let mut g = Game::new(combat_map(false));
    let a = add_player(&mut g, Position::new(95, 117, 7));
    g.do_set_target(a, a);
    assert_eq!(player_of(&g, a).attacking, None, "self-target must be ignored");
    assert!(drain(&mut g, a).is_empty(), "self-target must not push any packet");
}

#[test]
fn set_target_from_pz_tile_rejects_and_pushes_0xb4() {
    let mut g = Game::new(combat_map(true)); // spawn is PZ
    let a = add_player(&mut g, Position::new(95, 117, 7)); // PZ tile
    let b = add_player(&mut g, Position::new(96, 117, 7));
    g.do_set_target(a, b);
    assert_eq!(player_of(&g, a).attacking, None, "PZ attacker must not get a target");
    let pkts = drain(&mut g, a);
    assert_eq!(op(&pkts[0]), 0xB4, "PZ rejection packet must be a text message (0xB4)");
}

#[test]
fn set_target_on_monster_sets_attacking() {
    let mut g = Game::new(combat_map(false));
    let a = add_player(&mut g, Position::new(95, 117, 7));
    let m = add_monster(&mut g, Position::new(96, 117, 7));
    g.do_set_target(a, m);
    assert_eq!(player_of(&g, a).attacking, Some(m));
}

#[test]
fn set_target_on_unknown_creature_is_ignored() {
    let mut g = Game::new(combat_map(false));
    let a = add_player(&mut g, Position::new(95, 117, 7));
    g.do_set_target(a, 0x4000_0001);
    assert_eq!(player_of(&g, a).attacking, None);
}

#[test]
fn set_target_on_monster_from_pz_rejects() {
    let mut g = Game::new(wide_combat_map_with_pz());
    let a = add_player(&mut g, Position::new(90, 117, 7)); // PZ tile
    let m = add_monster(&mut g, Position::new(95, 117, 7));
    g.do_set_target(a, m);
    assert_eq!(
        player_of(&g, a).attacking, None,
        "attacker in PZ must not be allowed to set target on any creature"
    );
}

// ---------------------------------------------------------------------------
// Players fight players
// ---------------------------------------------------------------------------

#[test]
fn combat_tick_deals_damage_to_adjacent_target() {
    let mut g = Game::new(combat_map(false));
    let a = add_player(&mut g, Position::new(95, 117, 7));
    let b = add_player(&mut g, Position::new(96, 117, 7));
    g.do_set_target(a, b);
    let before = player_of(&g, b).health;
    g.on_combat_tick(MELEE_ATTACK_INTERVAL_MS);
    let after = player_of(&g, b).health;
    assert!(after <= before && before - after <= 8);
    let pkts = drain(&mut g, b);
    assert_eq!(op(&pkts[0]), 0x8C, "first packet must be 0x8C (health-bar)");
}

#[test]
fn combat_tick_sends_stats_to_victim() {
    let mut g = Game::new(combat_map(false));
    let a = add_player(&mut g, Position::new(95, 117, 7));
    let b = add_player(&mut g, Position::new(96, 117, 7));
    g.do_set_target(a, b);
    g.on_combat_tick(MELEE_ATTACK_INTERVAL_MS);
    let pkts = drain(&mut g, b);
    assert_eq!(op(&pkts[0]), 0x8C, "0x8C expected");
    assert_eq!(op(&pkts[1]), 0xA0, "0xA0 self-stats expected");
}

#[test]
fn combat_tick_spectator_receives_health_bar() {
    let mut g = Game::new(combat_map(false));
    let a = add_player(&mut g, Position::new(95, 117, 7));
    let b = add_player(&mut g, Position::new(96, 117, 7));
    let spec = add_player(&mut g, Position::new(95, 116, 7));
    g.do_set_target(a, b);
    g.on_combat_tick(MELEE_ATTACK_INTERVAL_MS);
    let pkts = drain(&mut g, spec);
    assert_eq!(op(&pkts[0]), 0x8C);
}

#[test]
fn combat_tick_no_damage_when_target_out_of_melee_range() {
    let mut g = Game::new(combat_map(false));
    let a = add_player(&mut g, Position::new(95, 117, 7));
    let b = add_player(&mut g, Position::new(97, 117, 7)); // 2 tiles east
    g.do_set_target(a, b);
    g.on_combat_tick(MELEE_ATTACK_INTERVAL_MS);
    assert!(drain(&mut g, b).is_empty(), "out-of-range target should receive no packets");
}

#[test]
fn combat_tick_respects_interval_no_damage_before_due() {
    let mut g = Game::new(combat_map(false));
    let a = add_player(&mut g, Position::new(95, 117, 7));
    let b = add_player(&mut g, Position::new(96, 117, 7));
    g.do_set_target(a, b);
    // A tick at t=1000ms (< 2000ms interval): no swing.
    g.on_combat_tick(1000);
    assert!(
        drain(&mut g, b).is_empty(),
        "tick before interval elapses must not produce damage"
    );
}

#[test]
fn a_hit_is_told_from_every_side() {
    let mut g = Game::new(combat_map(false));
    let a = add_player(&mut g, Position::new(95, 117, 7));
    let b = add_player(&mut g, Position::new(96, 117, 7));
    let c = add_player(&mut g, Position::new(97, 117, 7));
    player_mut(&mut g, a).name = "Alice".to_string();
    player_mut(&mut g, b).name = "Bob".to_string();
    g.apply_damage(a, b, 5);
    assert_eq!(player_of(&g, b).health, 145);
    let role = |pkts: Vec<Packet>| {
        pkts.into_iter().find_map(|p| match p {
            Packet::DamageText { role, value, .. } => Some((role, value)),
            _ => None,
        })
    };
    assert_eq!(role(drain(&mut g, a)), Some((DamageRole::Dealt, 5)));
    let told = drain(&mut g, b);
    assert!(told.contains(&Packet::CreatureHealth { id: b, health: 145, max_health: 150 }));
    assert_eq!(role(told), Some((DamageRole::Received, 5)));
    assert_eq!(role(drain(&mut g, c)), Some((DamageRole::Others, 5)));
}

#[test]
fn no_hit_heals_and_the_last_one_kills() {
    let mut g = Game::new(combat_map(false));
    let a = add_player(&mut g, Position::new(95, 117, 7));
    let b = add_player(&mut g, Position::new(96, 117, 7));
    g.apply_damage(a, b, -5);
    assert_eq!(player_of(&g, b).health, 150);
    g.apply_damage(a, b, 149);
    assert_eq!(player_of(&g, b).health, 1);
    g.apply_damage(a, b, 1);
    assert!(!g.players.contains(b));
}

#[test]
fn death_sends_window_removes_victim_and_saves_at_temple() {
    let mut g = Game::new_seeded(combat_map(false), 1);
    g.saves = Some(Vec::new());
    let a = add_player(&mut g, Position::new(97, 117, 7));
    let b = add_player(&mut g, Position::new(96, 117, 7));
    let max_hp = player_of(&g, b).max_health;
    let temple = g.map.spawn();
    g.do_set_target(a, b);
    player_mut(&mut g, b).health = 1;

    let mut saw_death_window = false;
    for tick in 1..=(max_hp as u64 + 5) {
        g.on_combat_tick(tick * MELEE_ATTACK_INTERVAL_MS);
        if has_op(&drain(&mut g, b), 0x28) {
            saw_death_window = true;
        }
        if !g.players.contains(b) {
            break;
        }
    }

    assert!(saw_death_window, "dying player must receive the 0x28 death window");
    assert!(!g.players.contains(b), "victim must be removed from the world on death");
    let saves = g.saves.as_ref().unwrap();
    let rec = &saves[0];
    assert_eq!(rec.position, temple, "death saves the player at the temple");
    assert_eq!(rec.health, rec.max_health, "death saves the player at full HP");
}

#[test]
fn death_with_full_client_buffer_still_saves_at_temple() {
    let mut g = Game::new(combat_map(false));
    g.saves = Some(Vec::new());
    let b = add_player(&mut g, Position::new(96, 117, 7));
    let temple = g.map.spawn();
    player_mut(&mut g, b).health = 1;
    // Fill B's session so that one message more would log it out.
    for _ in 0..PUSH_CAPACITY {
        g.push(b, Packet::CloseContainer { cid: 0 });
    }
    g.do_death(b);
    let rec = &g.saves.as_ref().unwrap()[0];
    assert_eq!(rec.position, temple, "death saves at the temple even with a full client buffer");
    assert_eq!(rec.health, rec.max_health, "death saves full HP even with a full client buffer");
    assert!(!g.players.contains(b), "victim must be removed from the world");
}

#[test]
fn death_clears_attacker_fight() {
    let mut g = Game::new_seeded(combat_map(false), 2);
    let a = add_player(&mut g, Position::new(97, 117, 7));
    let b = add_player(&mut g, Position::new(96, 117, 7));
    g.do_set_target(a, b);
    player_mut(&mut g, b).health = 1;
    for tick in 1..=200u64 {
        g.on_combat_tick(tick * MELEE_ATTACK_INTERVAL_MS);
        drain(&mut g, b);
        if !g.players.contains(b) {
            break;
        }
    }
    assert!(!g.players.contains(b), "victim must be removed from the world on death");
    assert_eq!(
        player_of(&g, a).attacking, None,
        "attacker's fight must clear on target death"
    );
}

#[test]
fn death_remove_uses_id_form_for_coocc_safety() {
    let mut g = Game::new_seeded(combat_map(false), 3);
    let a = add_player(&mut g, Position::new(97, 117, 7));
    let b = add_player(&mut g, Position::new(96, 117, 7));
    let max_hp = player_of(&g, b).max_health;
    g.do_set_target(a, b);
    player_mut(&mut g, b).health = 1;
    let mut removed: Option<Packet> = None;
    for tick in 1..=(max_hp as u64 + 5) {
        g.on_combat_tick(tick * MELEE_ATTACK_INTERVAL_MS);
        for pkt in drain(&mut g, a) {
            if op(&pkt) == 0x6C {
                removed = Some(pkt);
            }
        }
        if removed.is_some() {
            break;
        }
    }
    assert_eq!(
        removed,
        Some(Packet::RemoveCreature { id: b }),
        "the victim is removed by its id"
    );
}

#[test]
fn tick_clears_target_when_target_logs_out() {
    let mut g = Game::new(combat_map(false));
    let a = add_player(&mut g, Position::new(95, 117, 7));
    let b = add_player(&mut g, Position::new(96, 117, 7));
    g.do_set_target(a, b);
    assert_eq!(player_of(&g, a).attacking, Some(b));
    g.logout(b); // B disconnects
    g.on_combat_tick(MELEE_ATTACK_INTERVAL_MS);
    assert_eq!(player_of(&g, a).attacking, None, "attacker must clear when target logs out");
}

#[test]
fn combat_tick_clears_fight_when_target_enters_pz() {
    let mut g = Game::new(wide_combat_map_with_pz());
    let a = add_player(&mut g, Position::new(91, 117, 7));
    let b = add_player(&mut g, Position::new(92, 117, 7));
    g.do_set_target(a, b);
    assert_eq!(player_of(&g, a).attacking, Some(b));
    // B steps into the protection zone.
    player_mut(&mut g, b).position = Position::new(90, 117, 7);
    g.on_combat_tick(MELEE_ATTACK_INTERVAL_MS);
    assert_eq!(
        player_of(&g, a).attacking, None,
        "combat tick must clear attacker.attacking when target is in PZ"
    );
    assert!(
        drain(&mut g, b).is_empty(),
        "target in PZ must receive no damage (no 0x8C) on tick"
    );
}

#[test]
fn combat_stats_push_uses_live_player_speed() {
    let mut g = Game::new(combat_map(false));
    let a = add_player(&mut g, Position::new(95, 117, 7));
    let b = add_player(&mut g, Position::new(96, 117, 7));
    player_mut(&mut g, b).speed = 800;
    g.do_set_target(a, b);
    g.on_combat_tick(MELEE_ATTACK_INTERVAL_MS);
    let found_speed = drain(&mut g, b).iter().find_map(|p| match p {
        Packet::Stats { stats } => Some(stats.base_speed),
        _ => None,
    });
    assert_eq!(found_speed, Some(800), "0xA0 must carry base_speed = 800 (p.speed)");
}

// ---------------------------------------------------------------------------
// Players fight monsters
// ---------------------------------------------------------------------------

#[test]
fn combat_tick_deals_damage_to_monster() {
    let mut g = Game::new(combat_map(false));
    let a = add_player(&mut g, Position::new(95, 117, 7));
    let m = add_monster(&mut g, Position::new(96, 117, 7));
    g.do_set_target(a, m);
    let hp_before = monster_of(&g, m).health;
    g.on_combat_tick(MELEE_ATTACK_INTERVAL_MS);
    let hp_after = monster_of(&g, m).health;
    assert!(hp_after <= hp_before, "monster HP must not increase after combat tick");
    let pkts = drain(&mut g, a);
    assert_eq!(op(&pkts[0]), 0x8C, "attacker must receive a 0x8C for monster health-bar");
}

#[test]
fn combat_tick_kills_monster() {
    let mut g = Game::new_seeded(combat_map(false), 4);
    let a = add_player(&mut g, Position::new(95, 117, 7));
    let m = add_monster(&mut g, Position::new(96, 117, 7));
    monster_mut(&mut g, m).health = 1;
    g.do_set_target(a, m);
    for tick in 1..=5u64 {
        g.on_combat_tick(tick * MELEE_ATTACK_INTERVAL_MS);
        if !g.monsters.contains(m) {
            break;
        }
    }
    assert!(!g.monsters.contains(m), "monster must be removed on death");
    assert_eq!(
        player_of(&g, a).attacking, None,
        "attacker's fight must clear on monster death"
    );
    assert!(
        drain(&mut g, a).contains(&Packet::RemoveCreature { id: m }),
        "attacker must receive 0x6C remove for the monster on death"
    );
}

#[test]
fn combat_tick_monster_spectator_receives_health_bar() {
    let mut g = Game::new(combat_map(false));
    let a = add_player(&mut g, Position::new(95, 117, 7));
    let spec = add_player(&mut g, Position::new(95, 116, 7));
    let m = add_monster(&mut g, Position::new(96, 117, 7));
    g.do_set_target(a, m);
    g.on_combat_tick(MELEE_ATTACK_INTERVAL_MS);
    let pkts = drain(&mut g, spec);
    assert_eq!(op(&pkts[0]), 0x8C, "spectator must receive 0x8C for monster health bar");
}

#[test]
fn combat_tick_monster_no_damage_when_out_of_melee_range() {
    let mut g = Game::new(combat_map(false));
    let a = add_player(&mut g, Position::new(95, 117, 7));
    let m = add_monster(&mut g, Position::new(97, 117, 7)); // 2 tiles east
    g.do_set_target(a, m);
    g.on_combat_tick(MELEE_ATTACK_INTERVAL_MS);
    assert!(drain(&mut g, a).is_empty(), "out-of-range monster should produce no packets");
}

#[test]
fn combat_tick_monster_respects_interval() {
    let mut g = Game::new(combat_map(false));
    let a = add_player(&mut g, Position::new(95, 117, 7));
    let m = add_monster(&mut g, Position::new(96, 117, 7));
    g.do_set_target(a, m);
    g.on_combat_tick(1000); // < 2000ms interval
    assert!(
        drain(&mut g, a).is_empty(),
        "tick before interval must not produce damage packets"
    );
}

#[test]
fn combat_tick_monster_does_not_clear_in_pz() {
    let mut g = Game::new(wide_combat_map_with_pz());
    let a = add_player(&mut g, Position::new(91, 117, 7)); // normal ground
    let m = add_monster(&mut g, Position::new(90, 117, 7)); // PZ tile
    g.do_set_target(a, m);
    assert_eq!(
        player_of(&g, a).attacking,
        Some(m),
        "targeting a monster on a PZ tile must be allowed"
    );
    let old_hp = monster_of(&g, m).health;
    g.on_combat_tick(MELEE_ATTACK_INTERVAL_MS);
    assert_eq!(
        player_of(&g, a).attacking,
        Some(m),
        "monster in PZ must NOT clear the attacker's fight"
    );
    let new_hp = monster_of(&g, m).health;
    assert!(new_hp <= old_hp, "monster on PZ tile must still take damage");
    assert!(has_op(&drain(&mut g, a), 0x8C));
}

#[test]
fn combat_tick_clears_monster_target_when_monster_dies_elsewhere() {
    let mut g = Game::new(combat_map(false));
    let a = add_player(&mut g, Position::new(95, 117, 7));
    let m = add_monster(&mut g, Position::new(96, 117, 7));
    g.do_set_target(a, m);
    assert_eq!(player_of(&g, a).attacking, Some(m));
    g.monsters.remove(m);
    g.on_combat_tick(MELEE_ATTACK_INTERVAL_MS);
    assert_eq!(
        player_of(&g, a).attacking, None,
        "attacker must clear when monster is removed externally"
    );
}

// ---------------------------------------------------------------------------
// Monsters fight players
// ---------------------------------------------------------------------------

#[test]
fn monster_retaliates_when_attacked() {
    let mut g = Game::new(combat_map(false));
    let a = add_player(&mut g, Position::new(95, 117, 7));
    let m = add_monster(&mut g, Position::new(96, 117, 7));
    assert_eq!(monster_of(&g, m).attacking, None, "monster starts with no target");
    g.do_set_target(a, m);
    g.on_combat_tick(MELEE_ATTACK_INTERVAL_MS);
    assert_eq!(
        monster_of(&g, m).attacking,
        Some(a),
        "monster must retaliate after being hit"
    );
}

#[test]
fn monster_combat_tick_attacks_player() {
    let mut g = Game::new(combat_map(false));
    let a = add_player(&mut g, Position::new(95, 117, 7));
    let m = add_monster(&mut g, Position::new(96, 117, 7));
    monster_mut(&mut g, m).attacking = Some(a);
    monster_mut(&mut g, m).attack = 20;
    let hp_before = player_of(&g, a).health;
    g.on_combat_tick(MELEE_ATTACK_INTERVAL_MS);
    let hp_after = player_of(&g, a).health;
    assert!(hp_after <= hp_before, "player HP must not increase after monster attack tick");
    let pkts = drain(&mut g, a);
    assert_eq!(op(&pkts[0]), 0x8C, "player must receive 0x8C for own health bar");
}

#[test]
fn monster_combat_tick_kills_player() {
    let mut g = Game::new_seeded(combat_map(false), 5);
    g.saves = Some(Vec::new());
    let a = add_player(&mut g, Position::new(95, 117, 7));
    let m = add_monster(&mut g, Position::new(96, 117, 7));
    player_mut(&mut g, a).health = 1;
    monster_mut(&mut g, m).attacking = Some(a);
    monster_mut(&mut g, m).attack = 20;

    g.on_combat_tick(MELEE_ATTACK_INTERVAL_MS);

    assert!(!g.players.contains(a), "player must be removed on death");
    assert!(
        has_op(&drain(&mut g, a), 0x28),
        "player must receive 0x28 death window after monster kill"
    );
    assert_eq!(
        monster_of(&g, m).attacking, None,
        "monster's fight must clear when its target dies"
    );
    let rec = &g.saves.as_ref().unwrap()[0];
    assert_eq!(rec.health, rec.max_health, "SaveRecord must have full HP (temple respawn)");
}

#[test]
fn monster_combat_tick_out_of_range() {
    let mut g = Game::new(combat_map(false));
    let a = add_player(&mut g, Position::new(95, 117, 7));
    let m = add_monster(&mut g, Position::new(97, 117, 7)); // 2 tiles east
    monster_mut(&mut g, m).attacking = Some(a);
    g.on_combat_tick(MELEE_ATTACK_INTERVAL_MS);
    assert!(
        drain(&mut g, a).is_empty(),
        "out-of-range monster attack must produce no packets"
    );
}

#[test]
fn monster_combat_tick_respects_interval() {
    let mut g = Game::new(combat_map(false));
    let a = add_player(&mut g, Position::new(95, 117, 7));
    let m = add_monster(&mut g, Position::new(96, 117, 7));
    monster_mut(&mut g, m).attacking = Some(a);
    g.on_combat_tick(1000); // < 2000ms interval
    assert!(drain(&mut g, a).is_empty(), "monster attack before interval must not hit");
}

#[test]
fn monster_attack_clears_when_target_logs_out() {
    let mut g = Game::new(combat_map(false));
    let a = add_player(&mut g, Position::new(95, 117, 7));
    let m = add_monster(&mut g, Position::new(96, 117, 7));
    monster_mut(&mut g, m).attacking = Some(a);
    g.logout(a); // player disconnects
    g.on_combat_tick(MELEE_ATTACK_INTERVAL_MS);
    assert_eq!(
        monster_of(&g, m).attacking, None,
        "monster must clear its target when the player logs out"
    );
}

#[test]
fn monster_attack_clears_when_attacker_in_pz() {
    let mut g = Game::new(wide_combat_map_with_pz());
    let a = add_player(&mut g, Position::new(91, 117, 7)); // normal ground
    let m = add_monster(&mut g, Position::new(90, 117, 7)); // PZ tile
    monster_mut(&mut g, m).attacking = Some(a);
    g.on_combat_tick(MELEE_ATTACK_INTERVAL_MS);
    assert_eq!(monster_of(&g, m).attacking, None, "monster in PZ must clear its fight");
    assert!(
        drain(&mut g, a).is_empty(),
        "player must receive no damage from monster in PZ"
    );
}

#[test]
fn monster_attack_clears_when_target_in_pz() {
    let mut g = Game::new(wide_combat_map_with_pz());
    let a = add_player(&mut g, Position::new(90, 117, 7)); // PZ tile
    let m = add_monster(&mut g, Position::new(91, 117, 7)); // normal ground
    monster_mut(&mut g, m).attacking = Some(a);
    g.on_combat_tick(MELEE_ATTACK_INTERVAL_MS);
    assert_eq!(
        monster_of(&g, m).attacking, None,
        "monster fight must clear when target is in PZ"
    );
    assert!(
        drain(&mut g, a).is_empty(),
        "player in PZ must receive no damage from monster"
    );
}

// ---------------------------------------------------------------------------
// Monsters fight monsters
// ---------------------------------------------------------------------------

#[test]
fn monster_attacks_monster() {
    let mut g = Game::new(combat_map(false));
    add_player(&mut g, Position::new(95, 117, 7)); // spectator
    let m1 = add_monster(&mut g, Position::new(100, 117, 7));
    let m2 = add_monster(&mut g, Position::new(101, 117, 7));
    monster_mut(&mut g, m1).attacking = Some(m2);
    monster_mut(&mut g, m1).attack = 20;
    let hp_before = monster_of(&g, m2).health;
    g.on_combat_tick(MELEE_ATTACK_INTERVAL_MS);
    let hp_after = monster_of(&g, m2).health;
    assert!(
        hp_after <= hp_before,
        "monster HP must not increase after monster-on-monster hit"
    );
    assert_eq!(
        monster_of(&g, m1).attacking,
        Some(m2),
        "monster attacker must keep its target after hitting another monster"
    );
}

#[test]
fn monster_kills_monster() {
    let mut g = Game::new_seeded(combat_map(false), 6);
    add_player(&mut g, Position::new(95, 117, 7)); // spectator
    let m1 = add_monster(&mut g, Position::new(100, 117, 7));
    let m2 = add_monster(&mut g, Position::new(101, 117, 7));
    monster_mut(&mut g, m1).attacking = Some(m2);
    monster_mut(&mut g, m1).attack = 20;
    monster_mut(&mut g, m2).health = 1;
    for tick in 1..=5u64 {
        g.on_combat_tick(tick * MELEE_ATTACK_INTERVAL_MS);
        if !g.monsters.contains(m2) {
            break;
        }
    }
    assert!(!g.monsters.contains(m2), "victim monster must be removed on death");
    assert_eq!(
        monster_of(&g, m1).attacking, None,
        "monster attacker's fight must clear when its monster target dies"
    );
}

#[test]
fn monster_vs_monster_retaliation() {
    let mut g = Game::new(combat_map(false));
    add_player(&mut g, Position::new(95, 117, 7)); // spectator
    let m1 = add_monster(&mut g, Position::new(100, 117, 7));
    let m2 = add_monster(&mut g, Position::new(101, 117, 7));
    monster_mut(&mut g, m1).attacking = Some(m2);
    monster_mut(&mut g, m1).attack = 20;
    assert_eq!(monster_of(&g, m2).attacking, None, "m2 starts with no target");
    g.on_combat_tick(MELEE_ATTACK_INTERVAL_MS);
    assert_eq!(
        monster_of(&g, m2).attacking,
        Some(m1),
        "m2 must retaliate after being hit by m1"
    );
}

#[test]
fn monster_vs_monster_out_of_range() {
    let mut g = Game::new(combat_map(false));
    add_player(&mut g, Position::new(95, 117, 7));
    let m1 = add_monster(&mut g, Position::new(100, 117, 7));
    let m2 = add_monster(&mut g, Position::new(102, 117, 7)); // 2 tiles east
    monster_mut(&mut g, m1).attacking = Some(m2);
    let hp_before = monster_of(&g, m2).health;
    g.on_combat_tick(MELEE_ATTACK_INTERVAL_MS);
    assert_eq!(
        monster_of(&g, m2).health, hp_before,
        "out-of-range monster must not take damage"
    );
}

// ---------------------------------------------------------------------------
// Loot and respawns
// ---------------------------------------------------------------------------

#[test]
fn monster_drops_nothing_with_empty_loot() {
    let mut g = Game::new(combat_map(false));
    let a = add_player(&mut g, Position::new(95, 117, 7)); // spectator
    let m = add_monster(&mut g, Position::new(96, 117, 7));
    g.do_monster_death(m, 0, &Vec::new());
    assert!(!g.monsters.contains(m), "monster must be removed");
    // The splash comes first; no item after it.
    let pkts = drain(&mut g, a);
    assert!(!has_op(&pkts[1..], 0x6A), "empty loot must not emit 0x6A add-item packets");
}

#[test]
fn monster_drops_item_on_death() {
    let mut g = Game::new(combat_map(false));
    let a = add_player(&mut g, Position::new(95, 117, 7)); // spectator
    let m = add_monster(&mut g, Position::new(96, 117, 7));
    monster_mut(&mut g, m).loot =
        vec![MonsterDrop { item_id: 100, numerator: 1, denominator: 1, count: 1 }];
    g.do_monster_death(m, 0, &vec![true]);
    assert!(!g.monsters.contains(m), "monster must be removed");
    // The splash, then the removal, then the item.
    assert_eq!(ops(&drain(&mut g, a)), vec![0x6A, 0x6C, 0x6A]);
}

#[test]
fn monster_drop_uses_chance() {
    let mut g = Game::new(combat_map(false));
    let a = add_player(&mut g, Position::new(95, 117, 7));
    let m = add_monster(&mut g, Position::new(96, 117, 7));
    // Two drops: one guaranteed, one impossible.
    let loot = vec![
        MonsterDrop { item_id: 100, numerator: 1, denominator: 1, count: 1 },
        MonsterDrop { item_id: 100, numerator: 0, denominator: 1, count: 1 },
    ];
    monster_mut(&mut g, m).loot = loot;
    monster_mut(&mut g, m).health = 1;
    monster_mut(&mut g, m).race = Some(RaceType::Undead);
    // Swing until one is enough; the drops are rolled by the game.
    for tick in 1..=50u64 {
        g.process_player_attack(a, m, tick * MELEE_ATTACK_INTERVAL_MS);
    }
    assert!(!g.monsters.contains(m), "monster must be removed");
    let count = drain(&mut g, a).iter().filter(|p| op(p) == 0x6A).count();
    assert_eq!(count, 1, "only the sure drop must produce a 0x6A packet");
}

fn rat_spawn(interval: u64) -> MonsterSpawn {
    MonsterSpawn {
        position: Position::new(96, 117, 7),
        respawn_interval_ms: interval,
        respawn_at_ms: None,
        kind: MonsterType { race: None, ..rat() },
    }
}

#[test]
fn monster_respawns_after_death() {
    let mut g = Game::new(combat_map(false));
    let a = add_player(&mut g, Position::new(95, 117, 7));
    let sid = 1;
    g.next_spawn_id = 2;
    g.spawns.insert(sid, rat_spawn(100));
    let m = add_monster(&mut g, Position::new(96, 117, 7));
    monster_mut(&mut g, m).spawn_id = Some(sid);

    g.do_monster_death(m, 0, &Vec::new());
    assert!(!g.monsters.contains(m), "monster removed on death");
    assert_eq!(
        g.spawns.get(sid).unwrap().respawn_at_ms,
        Some(100),
        "spawn timer set at now_ms + interval"
    );
    drain(&mut g, a);

    g.on_combat_tick(50);
    assert_eq!(g.monsters.len(), 0, "no respawn before interval elapses");

    g.on_combat_tick(100);
    assert_eq!(g.monsters.len(), 1, "monster respawned after interval");
    assert_eq!(g.spawns.get(sid).unwrap().respawn_at_ms, None);
    let pkts = drain(&mut g, a);
    assert_eq!(op(&pkts[0]), 0x6A, "respawn packet is 0x6A add-tile-creature");
}

#[test]
fn monster_dies_without_respawn_when_no_spawn_id() {
    let mut g = Game::new(combat_map(false));
    add_player(&mut g, Position::new(95, 117, 7));
    let m = add_monster(&mut g, Position::new(96, 117, 7));
    g.do_monster_death(m, 0, &Vec::new());
    assert!(!g.monsters.contains(m), "monster removed");
    g.process_respawns(9999);
    assert_eq!(g.monsters.len(), 0, "monster without spawn_id does not respawn");
}

#[test]
fn spawns_without_an_interval_give_no_more_monsters() {
    let mut g = Game::new(combat_map(false));
    let sid = 1;
    g.next_spawn_id = 2;
    g.spawns.insert(sid, rat_spawn(0));
    let m = add_monster(&mut g, Position::new(96, 117, 7));
    monster_mut(&mut g, m).spawn_id = Some(sid);
    g.do_monster_death(m, 0, &Vec::new());
    assert_eq!(g.spawns.get(sid).unwrap().respawn_at_ms, None);
    g.process_respawns(9999);
    assert_eq!(g.monsters.len(), 0);
}

#[test]
fn monster_respawn_respects_interval() {
    let mut g = Game::new(combat_map(false));
    add_player(&mut g, Position::new(95, 117, 7));
    let sid = 1;
    g.next_spawn_id = 2;
    g.spawns.insert(sid, rat_spawn(200));
    let m = add_monster(&mut g, Position::new(96, 117, 7));
    monster_mut(&mut g, m).spawn_id = Some(sid);
    g.do_monster_death(m, 0, &Vec::new());
    assert_eq!(g.spawns.get(sid).unwrap().respawn_at_ms, Some(200));
    g.process_respawns(199);
    assert_eq!(g.monsters.len(), 0, "not yet due at 199 < 200");
    g.process_respawns(200);
    assert_eq!(g.monsters.len(), 1, "respawn at exact boundary");
}

// ---------------------------------------------------------------------------
// Splashes
// ---------------------------------------------------------------------------

#[test]
fn blood_player_hit_spawns_small_splash() {
    let mut g = Game::new(combat_map(false));
    let a = add_player(&mut g, Position::new(95, 117, 7));
    let b = add_player(&mut g, Position::new(96, 117, 7));
    g.do_set_target(a, b);
    g.on_combat_tick(MELEE_ATTACK_INTERVAL_MS);
    let st = stack_at(&g, Position::new(96, 117, 7)).expect("the tile has a splash");
    assert!(sids(st).contains(&ITEM_SMALLSPLASH), "on-hit splash; sids: {:?}", sids(st));
}

#[test]
fn blood_player_death_spawns_full_splash() {
    let mut g = Game::new_seeded(combat_map(false), 8);
    let a = add_player(&mut g, Position::new(95, 117, 7));
    let b = add_player(&mut g, Position::new(96, 117, 7));
    player_mut(&mut g, b).health = 1;
    g.do_set_target(a, b);
    for tick in 1..=5u64 {
        g.on_combat_tick(tick * MELEE_ATTACK_INTERVAL_MS);
    }
    let st = stack_at(&g, Position::new(96, 117, 7)).expect("the tile has a splash");
    assert!(sids(st).contains(&ITEM_FULLSPLASH), "on-death splash; sids: {:?}", sids(st));
}

#[test]
fn undead_monster_hit_produces_no_splash() {
    let mut g = Game::new(combat_map(false));
    let a = add_player(&mut g, Position::new(95, 117, 7));
    let m = add_monster(&mut g, Position::new(96, 117, 7));
    monster_mut(&mut g, m).race = Some(RaceType::Undead);
    g.do_set_target(a, m);
    g.on_combat_tick(MELEE_ATTACK_INTERVAL_MS);
    if let Some(st) = stack_at(&g, Position::new(96, 117, 7)) {
        assert!(!sids(st).contains(&ITEM_SMALLSPLASH), "no splash; sids: {:?}", sids(st));
    }
}

#[test]
fn monster_hit_spawns_small_splash_when_race_is_blood() {
    let mut g = Game::new(combat_map(false));
    let a = add_player(&mut g, Position::new(95, 117, 7));
    let m = add_monster(&mut g, Position::new(96, 117, 7));
    monster_mut(&mut g, m).race = Some(RaceType::Blood);
    g.do_set_target(a, m);
    g.on_combat_tick(MELEE_ATTACK_INTERVAL_MS);
    let st = stack_at(&g, Position::new(96, 117, 7)).expect("the tile has a splash");
    assert!(sids(st).contains(&ITEM_SMALLSPLASH), "on-hit splash; sids: {:?}", sids(st));
}

#[test]
fn monster_death_spawns_full_splash_when_race_is_blood() {
    let mut g = Game::new(combat_map(false));
    add_player(&mut g, Position::new(95, 117, 7)); // spectator
    let m = add_monster(&mut g, Position::new(96, 117, 7));
    monster_mut(&mut g, m).race = Some(RaceType::Blood);
    monster_mut(&mut g, m).health = 1;
    g.do_monster_death(m, 0, &Vec::new());
    let st = stack_at(&g, Position::new(96, 117, 7)).expect("the tile has a splash");
    assert!(sids(st).contains(&ITEM_FULLSPLASH), "on-death splash; sids: {:?}", sids(st));
}

#[test]
fn a_target_out_of_reach_ends_the_fight_of_a_player() {
    let mut g = Game::new(combat_map(false));
    let a = add_player(&mut g, Position::new(95, 117, 7));
    let b = add_player(&mut g, Position::new(97, 117, 7));
    g.do_set_target(a, b);
    g.on_combat_tick(MELEE_ATTACK_INTERVAL_MS - 1);
    assert_eq!(player_of(&g, a).attacking, Some(b), "no swing is due yet");
    g.on_combat_tick(MELEE_ATTACK_INTERVAL_MS);
    assert_eq!(player_of(&g, a).attacking, None);
    assert_eq!(player_of(&g, b).health, 150);
    let m = add_monster(&mut g, Position::new(97, 117, 7));
    monster_mut(&mut g, m).attacking = Some(a);
    g.on_combat_tick(2 * MELEE_ATTACK_INTERVAL_MS);
    assert_eq!(monster_of(&g, m).attacking, Some(a), "monsters hold on");
}
