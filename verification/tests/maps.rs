use std::collections::HashMap;

use world::map::grid::{key_of, to_position, StaticMap};
use world::map::{
    FloorChange, ItemAttrs, ItemMeta, ItemType, ItemsOtb, ItemsXml, MapItem, MapTile, OtbmMap,
    StackThing, TileStack, Town,
};
use world::wire::WireItem;
use world::Position;

fn item(server_id: u16, client_id: u16) -> ItemType {
    ItemType {
        server_id,
        client_id,
        flags: 0,
        always_on_top: false,
        top_order: 0,
        has_height: false,
        floor_change: FloorChange::none(),
        stackable: false,
        fluid_or_splash: false,
        animated: false,
        pickupable: false,
        moveable: false,
        block_projectile: false,
        container: false,
    }
}

fn top_item(server_id: u16, client_id: u16, top_order: u8) -> ItemType {
    ItemType { always_on_top: true, top_order, ..item(server_id, client_id) }
}

fn attrs(name: &str) -> ItemAttrs {
    ItemAttrs {
        name: name.to_string(),
        article: String::new(),
        plural: String::new(),
        description: String::new(),
        weight: 0,
        show_count: false,
        slot_type: String::new(),
        weapon_type: String::new(),
        container_size: 0,
    }
}

fn things(ids: &[u16]) -> Vec<MapItem> {
    ids.iter().map(|&id| MapItem { id, count: None }).collect()
}

fn tile(x: u16, y: u16, z: u8, ids: &[u16]) -> MapTile {
    MapTile { x, y, z, flags: 0, items: things(ids) }
}

fn town(id: u32, name: &str, x: u16, y: u16, z: u8) -> Town {
    Town { id, name: name.to_string(), x, y, z }
}

fn tiny_map() -> (OtbmMap, ItemsOtb) {
    let items = ItemsOtb { items: vec![item(100, 4526)] };
    let map = OtbmMap {
        tiles: vec![tile(95, 117, 7, &[100])],
        towns: vec![town(1, "Thais", 95, 117, 7)],
    };
    (map, items)
}

/// Client ids of a slice of things, for terse stack-order assertions.
fn cids(things: &[StackThing]) -> Vec<u16> {
    things.iter().map(|t| t.item.client_id).collect()
}

fn pre(st: &TileStack) -> &[StackThing] {
    &st.things[..st.pre_creature_len]
}

fn post(st: &TileStack) -> &[StackThing] {
    &st.things[st.pre_creature_len..]
}

#[test]
fn find_item_id_by_name_matches_name_and_derived_plural() {
    let (map, _) = tiny_map();
    let otb = ItemsOtb {
        items: vec![
            item(100, 4526),
            ItemType { stackable: true, ..item(2160, 1) },
            item(2152, 2),
        ],
    };
    let mut sm = StaticMap::from_formats(&map, &otb);
    let xml = ItemsXml {
        items: HashMap::from([
            (2160, ItemAttrs { show_count: true, ..attrs("crystal coin") }),
            (2152, attrs("platinum coin")),
        ]),
    };
    sm.load_item_metadata(&otb, &xml);
    assert_eq!(sm.find_item_id_by_name("crystal coin"), Some(2160));
    assert_eq!(sm.find_item_id_by_name("CRYSTAL COIN"), Some(2160)); // case-insensitive
    assert_eq!(sm.find_item_id_by_name("crystal coins"), Some(2160)); // derived plural
    assert_eq!(sm.find_item_id_by_name("platinum coin"), Some(2152));
    assert_eq!(sm.find_item_id_by_name("nonexistent"), None);
}

#[test]
fn find_item_id_by_name_breaks_ties_on_lowest_id() {
    let (map, _) = tiny_map();
    let otb = ItemsOtb { items: vec![item(100, 4526), item(500, 3), item(400, 4)] };
    let mut sm = StaticMap::from_formats(&map, &otb);
    let xml = ItemsXml { items: HashMap::from([(500, attrs("door")), (400, attrs("door"))]) };
    sm.load_item_metadata(&otb, &xml);
    assert_eq!(sm.find_item_id_by_name("door"), Some(400));
}

#[test]
fn town_temple_lookup_by_name_and_id() {
    let (map, items) = tiny_map(); // town Thais id 1 at (95, 117, 7)
    let sm = StaticMap::from_formats(&map, &items);
    assert_eq!(sm.town_temple_by_name("Thais"), Some(Position::new(95, 117, 7)));
    assert_eq!(sm.town_temple_by_name("thais"), Some(Position::new(95, 117, 7))); // case-insensitive
    assert_eq!(sm.town_temple_by_id(1), Some(Position::new(95, 117, 7)));
    assert_eq!(sm.town_temple_by_name("Venore"), None);
    assert_eq!(sm.town_temple_by_id(99), None);
}

#[test]
fn resolves_ground_client_id_and_spawn() {
    let (map, items) = tiny_map();
    let sm = StaticMap::from_formats(&map, &items);
    assert_eq!(sm.spawn(), Position::new(95, 117, 7));
    assert_eq!(cids(pre(sm.tile(Position::new(95, 117, 7)).unwrap())), vec![4526]);
    assert!(sm.tile(Position::new(0, 0, 7)).is_none());
    assert!(to_position(-1, 0, 7).is_none());
}

#[test]
fn spawn_town_selects_named_temple_with_fallback() {
    let (mut map, items) = tiny_map();
    map.towns = vec![town(1, "Venore", 95, 117, 7), town(5, "Ab'Dendriel", 200, 300, 7)];

    // Named town wins over the first town.
    let sm = StaticMap::from_formats_with_spawn(&map, &items, Some("Ab'Dendriel"));
    assert_eq!(sm.spawn(), Position::new(200, 300, 7));

    // Unknown name falls back to the first town.
    let sm = StaticMap::from_formats_with_spawn(&map, &items, Some("Nowhere"));
    assert_eq!(sm.spawn(), Position::new(95, 117, 7));

    // No preference falls back to the first town.
    let sm = StaticMap::from_formats_with_spawn(&map, &items, None);
    assert_eq!(sm.spawn(), Position::new(95, 117, 7));
}

#[test]
fn walkability_uses_block_solid_flag() {
    // server 100 = walkable ground; server 200 = block-solid wall on the same tile.
    let items = ItemsOtb {
        items: vec![item(100, 4526), ItemType { flags: 0x0000_0001, ..item(200, 1059) }],
    };
    let map = OtbmMap {
        tiles: vec![
            // plain ground -> walkable
            tile(95, 117, 7, &[100]),
            // ground + block-solid wall -> not walkable
            tile(96, 117, 7, &[100, 200]),
        ],
        towns: vec![town(1, "Thais", 95, 117, 7)],
    };
    let sm = StaticMap::from_formats(&map, &items);
    assert!(sm.is_walkable(Position::new(95, 117, 7)), "plain ground walkable");
    assert!(!sm.is_walkable(Position::new(96, 117, 7)), "block-solid wall not walkable");
    assert!(!sm.is_walkable(Position::new(1, 1, 7)), "no ground not walkable");
    assert!(sm.is_blocked(Position::new(96, 117, 7)));
    assert!(sm.has_ground(Position::new(96, 117, 7)));
    assert!(!sm.has_ground(Position::new(1, 1, 7)));
}

#[test]
fn builds_ordered_stack_with_pre_creature_split() {
    let items = ItemsOtb {
        items: vec![
            item(100, 4526),
            top_item(200, 1000, 2),
            top_item(201, 1001, 1),
            item(300, 2000),
        ],
    };
    let map = OtbmMap {
        tiles: vec![tile(95, 117, 7, &[100, 200, 201, 300])],
        towns: vec![town(1, "Thais", 95, 117, 7)],
    };
    let sm = StaticMap::from_formats(&map, &items);
    let st = sm.tile(Position::new(95, 117, 7)).expect("tile present");
    assert_eq!(cids(pre(st)), vec![4526, 1001, 1000]);
    assert_eq!(cids(post(st)), vec![2000]);
    assert_eq!(sm.creature_stackpos(Position::new(95, 117, 7)), 3);
    assert_eq!(sm.creature_stackpos(Position::new(1, 1, 7)), 1);
}

#[test]
fn stack_truncates_to_ten_things() {
    let mut item_defs = vec![item(1, 5000)];
    let mut ids: Vec<u16> = vec![1];
    for sid in 2..=12u16 {
        item_defs.push(item(sid, 6000 + sid));
        ids.push(sid);
    }
    let items = ItemsOtb { items: item_defs };
    let map = OtbmMap {
        tiles: vec![tile(95, 117, 7, &ids)],
        towns: vec![town(1, "Thais", 95, 117, 7)],
    };
    let sm = StaticMap::from_formats(&map, &items);
    let st = sm.tile(Position::new(95, 117, 7)).expect("tile present");
    // Ground stays before creatures; the first 9 down items survive (10 total).
    assert_eq!(cids(pre(st)), vec![5000]);
    assert_eq!(post(st).len(), 9);
    assert_eq!(
        cids(post(st)),
        vec![6002, 6003, 6004, 6005, 6006, 6007, 6008, 6009, 6010]
    );
    assert_eq!(sm.creature_stackpos(Position::new(95, 117, 7)), 1);
}

#[test]
fn more_than_ten_top_items_cap_pre_creature_at_ten() {
    let mut item_defs = vec![item(1, 5000)];
    let mut ids: Vec<u16> = vec![1];
    for sid in 2..=12u16 {
        item_defs.push(top_item(sid, 6000 + sid, 0));
        ids.push(sid);
    }
    let items = ItemsOtb { items: item_defs };
    let map = OtbmMap {
        tiles: vec![tile(95, 117, 7, &ids)],
        towns: vec![town(1, "Thais", 95, 117, 7)],
    };
    let sm = StaticMap::from_formats(&map, &items);
    let st = sm.tile(Position::new(95, 117, 7)).expect("tile present");
    assert_eq!(pre(st).len(), 10); // ground + 9 top items
    assert_eq!(
        cids(pre(st)),
        vec![5000, 6002, 6003, 6004, 6005, 6006, 6007, 6008, 6009, 6010]
    );
    assert!(post(st).is_empty());
    assert_eq!(sm.creature_stackpos(Position::new(95, 117, 7)), 10);
}

#[test]
fn pz_flag_detected_on_flagged_tile() {
    // A tile with the lowest flag set is a protection zone; one without is not.
    let items = ItemsOtb { items: vec![item(100, 1)] };
    let map = OtbmMap {
        tiles: vec![
            MapTile { flags: 1, ..tile(100, 100, 7, &[100]) },
            tile(101, 100, 7, &[100]),
        ],
        towns: vec![town(1, "Thais", 100, 100, 7)],
    };
    let sm = StaticMap::from_formats(&map, &items);
    assert!(sm.is_protection_zone(Position::new(100, 100, 7)), "PZ tile should be PZ");
    assert!(!sm.is_protection_zone(Position::new(101, 100, 7)), "non-PZ tile should not be PZ");
    assert!(!sm.is_protection_zone(Position::new(99, 99, 7)), "absent tile should not be PZ");
}

#[test]
fn temple_for_returns_spawn() {
    let (map, items) = tiny_map();
    let sm = StaticMap::from_formats(&map, &items);
    let spawn = sm.spawn();
    // Everyone respawns at the single town temple (the configured spawn).
    assert_eq!(
        sm.temple_for(Position::new(200, 200, 7)),
        spawn,
        "temple_for always returns spawn"
    );
}

#[test]
fn floor_change_down_resolves_one_floor_below() {
    let down = FloorChange { down: true, ..FloorChange::none() };
    // server 100 = ground; server 300 = a floorchange-down stair item.
    let items = ItemsOtb {
        items: vec![item(100, 1), ItemType { floor_change: down, ..item(300, 2) }],
    };
    let map = OtbmMap {
        tiles: vec![tile(100, 100, 7, &[100, 300]), tile(100, 100, 8, &[100])],
        towns: vec![town(1, "Thais", 100, 100, 7)],
    };
    let sm = StaticMap::from_formats(&map, &items);
    assert_eq!(sm.floor_change_at(100, 100, 7), down);
    assert_eq!(
        sm.resolve_floor_change(Position::new(100, 100, 7)),
        Some(Position::new(100, 100, 8))
    );
    assert_eq!(sm.resolve_floor_change(Position::new(100, 100, 8)), None);
}

#[test]
fn floor_change_north_leads_up_and_north() {
    let north = FloorChange { north: true, ..FloorChange::none() };
    let items = ItemsOtb {
        items: vec![item(100, 1), ItemType { floor_change: north, ..item(300, 2) }],
    };
    let map = OtbmMap {
        tiles: vec![tile(100, 100, 7, &[100, 300]), tile(100, 99, 6, &[100])],
        towns: vec![town(1, "Thais", 100, 100, 7)],
    };
    let sm = StaticMap::from_formats(&map, &items);
    assert_eq!(
        sm.resolve_floor_change(Position::new(100, 100, 7)),
        Some(Position::new(100, 99, 6))
    );
    assert!(sm.floor_change_at(-1, 0, 7).is_empty());
}

#[test]
fn triggers_up_needs_height_three() {
    let h = |sid| ItemType { has_height: true, ..item(sid, sid) };
    let items = ItemsOtb { items: vec![item(100, 1), h(301), h(302), h(303)] };
    let map = OtbmMap {
        tiles: vec![
            tile(100, 100, 7, &[100, 301, 302]),      // height 2 -> no
            tile(101, 100, 7, &[100, 301, 302, 303]), // height 3 -> yes
        ],
        towns: vec![town(1, "Thais", 100, 100, 7)],
    };
    let sm = StaticMap::from_formats(&map, &items);
    assert!(!sm.triggers_up(Position::new(100, 100, 7)), "height 2 does not trigger");
    assert!(sm.triggers_up(Position::new(101, 100, 7)), "height 3 triggers");
    assert_eq!(sm.tile_height(Position::new(101, 100, 7)), 3);
}

/// A wall that blocks projectiles at (101,100,7), between (100,100,7) and (102,100,7). Ground
/// one floor higher at both ends keeps the line of sight from going over the wall.
fn throw_map() -> StaticMap {
    let items = ItemsOtb {
        items: vec![item(100, 1), ItemType { block_projectile: true, ..item(200, 2) }],
    };
    let map = OtbmMap {
        tiles: vec![
            tile(100, 100, 7, &[100]),
            tile(101, 100, 7, &[100, 200]),
            tile(102, 100, 7, &[100]),
            tile(100, 100, 6, &[100]),
            tile(102, 100, 6, &[100]),
        ],
        towns: vec![town(1, "Thais", 100, 100, 7)],
    };
    StaticMap::from_formats(&map, &items)
}

#[test]
fn can_throw_blocked_through_block_projectile_tile() {
    let sm = throw_map();
    let from = Position::new(100, 100, 7);
    let to = Position::new(102, 100, 7);
    assert!(
        !sm.can_throw_object_to(from, to),
        "throw must be blocked by the wall with the way over it closed"
    );
}

#[test]
fn can_throw_true_on_clear_adjacent_line() {
    let sm = throw_map();
    let from = Position::new(100, 100, 7);
    let to = Position::new(101, 100, 7); // the wall tile itself — adjacent
    assert!(sm.can_throw_object_to(from, to), "adjacent throw must be clear");
}

#[test]
fn adjacency_is_always_clear_regardless_of_block_projectile() {
    let sm = throw_map();
    let from = Position::new(100, 100, 7);
    let wall = Position::new(101, 100, 7); // block-projectile tile
    assert!(
        sm.can_throw_object_to(from, wall),
        "adjacent (ddx<2, ddy<2) must always be sight-clear"
    );
    assert!(sm.can_throw_object_to(wall, from));
}

#[test]
fn can_throw_false_when_dx_exceeds_range() {
    let sm = throw_map();
    let from = Position::new(100, 100, 7);
    let to = Position::new(109, 100, 7); // dx = 9
    assert!(!sm.can_throw_object_to(from, to), "dx > 8 must return false (out of throw range)");
}

#[test]
fn sight_is_mutual_past_the_wall() {
    let sm = throw_map();
    let a = Position::new(100, 100, 7);
    let b = Position::new(102, 100, 7);
    assert_eq!(sm.is_sight_clear(a, b, true), sm.is_sight_clear(b, a, true));
    assert!(!sm.is_tile_clear(101, 100, 7, false));
    assert!(sm.is_tile_clear(100, 100, 7, false));
    assert!(!sm.is_tile_clear(100, 100, 7, true));
}

#[test]
fn keys_tell_positions_apart() {
    let a = key_of(Position::new(1, 2, 3));
    assert_ne!(a, key_of(Position::new(2, 1, 3)));
    assert_ne!(a, key_of(Position::new(1, 2, 4)));
    assert_eq!(to_position(1, 2, 3), Some(Position::new(1, 2, 3)));
    assert_eq!(to_position(65536, 2, 3), None);
    assert_eq!(to_position(1, 2, 256), None);
}

#[test]
fn plurals_are_given_or_made() {
    let mut m = ItemMeta { name: "coin".to_string(), show_count: true, ..ItemMeta::default() };
    assert_eq!(m.plural_name(), "coins");
    m.plural = "many coins".to_string();
    assert_eq!(m.plural_name(), "many coins");
}

fn coin(count: u8) -> StackThing {
    StackThing {
        item: WireItem { client_id: 2148, subtype: Some(count), animated: false },
        server_id: 300,
        count: Some(count),
    }
}

fn ground_with(things: Vec<StackThing>) -> TileStack {
    let mut all = vec![StackThing {
        item: WireItem { client_id: 4526, subtype: None, animated: false },
        server_id: 100,
        count: None,
    }];
    all.extend(things);
    TileStack { things: all, pre_creature_len: 1 }
}

#[test]
fn taking_and_placing_keep_every_coin() {
    let mut st = ground_with(vec![coin(10)]);
    let (moved, gone) = st.take(1, 4, true);
    assert_eq!((moved, gone), (4, false));
    assert_eq!(st.things[1].count, Some(6));
    let (merged, added) = st.place(300, 2148, 98, false, true);
    assert!(merged.is_some() && added.is_some());
    let counts: Vec<Option<u8>> = st.things.iter().skip(1).map(|t| t.count).collect();
    assert_eq!(counts, vec![Some(4), Some(100)]);
    let (moved, gone) = st.take(1, 200, true);
    assert_eq!((moved, gone), (4, true));
    assert_eq!(st.things.len(), 2);
}

#[test]
fn tile_queries_read_the_stack_in_order() {
    let otb = ItemsOtb { items: vec![item(100, 4526), top_item(200, 2, 1), item(300, 3)] };
    let mut coins = tile(5, 6, 7, &[100, 300, 200]);
    coins.items[1].count = Some(9);
    let map = OtbmMap { tiles: vec![coins], towns: vec![town(1, "Thais", 5, 6, 7)] };
    let sm = StaticMap::from_formats(&map, &otb);
    let pos = Position::new(5, 6, 7);
    let bare = Position::new(6, 6, 7);
    let n = sm.tile_pre_creature_len(pos);
    assert_eq!(sm.tile_pre_creature_len(bare), 0);
    let st = sm.tile(pos).unwrap();
    assert_eq!(n, 2);
    assert_eq!(sm.tile_item_server_id(pos, st.things.len()), None);
    assert_eq!(sm.tile_item_count(pos, st.things.len()), None);
    assert_eq!(sm.tile_item_server_id(bare, 0), None);
    assert_eq!(sm.tile_item_count(bare, 0), None);
    let ids: Vec<u16> =
        (0..st.things.len()).map(|i| sm.tile_item_server_id(pos, i).unwrap()).collect();
    assert_eq!(ids, vec![100, 200, 300]);
    for (i, &id) in ids.iter().enumerate() {
        let count = if id == 300 { Some(9) } else { None };
        assert_eq!(sm.tile_item_count(pos, i), count);
    }
}

#[test]
fn creatures_walk_only_where_no_other_stands() {
    let (map, items) = tiny_map();
    let sm = StaticMap::from_formats(&map, &items);
    let pos = Position::new(95, 117, 7);
    assert!(sm.can_creature_walk_to(1, pos, &[]));
    assert!(sm.can_creature_walk_to(1, pos, &[(95, 117, 1), (96, 117, 2)]));
    assert!(!sm.can_creature_walk_to(1, pos, &[(95, 117, 2)]));
    assert!(!sm.can_creature_walk_to(1, Position::new(96, 117, 7), &[]));
}

/// The rows that a line from `(x0, y0)` to `(x1, y1)`, walked along x, crosses between its ends.
fn rows_in_single_precision(x0: u16, y0: u16, x1: u16, y1: u16) -> Vec<(u16, u16)> {
    let slope = (f32::from(y1) - f32::from(y0)) / (f32::from(x1) - f32::from(x0));
    let mut yi = f32::from(y0) + slope;
    let mut rows = Vec::new();
    for x in x0 + 1..x1 {
        rows.push((x, (yi + 0.1).floor() as u16));
        yi += slope;
    }
    rows
}

fn walled_map(walls: &[(u16, u16)]) -> StaticMap {
    let items = ItemsOtb { items: vec![ItemType { block_projectile: true, ..item(200, 2) }] };
    let map = OtbmMap {
        tiles: walls.iter().map(|&(x, y)| tile(x, y, 7, &[200])).collect(),
        towns: vec![town(1, "Thais", 1, 1, 7)],
    };
    StaticMap::from_formats(&map, &items)
}

/// The line is clear where everything around it is walled, and stopped by a wall on it.
fn assert_line(x0: u16, y0: u16, x1: u16, y1: u16) {
    let rows = rows_in_single_precision(x0, y0, x1, y1);
    let mut around = Vec::new();
    for &(x, y) in &rows {
        for d in [1u16, 2] {
            if y >= d {
                around.push((x, y - d));
            }
            if y <= 65535 - d {
                around.push((x, y + d));
            }
        }
    }
    let (a, b) = (Position::new(x0, y0, 7), Position::new(x1, y1, 7));
    let open = walled_map(&around);
    assert!(open.is_sight_clear(a, b, true), "{a:?} {b:?}");
    assert!(open.is_sight_clear(b, a, true), "{b:?} {a:?}");
    let swap = |p: (u16, u16)| (p.1, p.0);
    let steep = walled_map(&around.into_iter().map(swap).collect::<Vec<_>>());
    if x1 - x0 > y0.abs_diff(y1) {
        let (a, b) = (Position::new(y0, x0, 7), Position::new(y1, x1, 7));
        assert!(steep.is_sight_clear(a, b, true), "steep {a:?} {b:?}");
    }
    for i in [0, rows.len() / 2, rows.len() - 1] {
        let shut = walled_map(&rows[i..i + 1]);
        assert!(!shut.is_sight_clear(a, b, true), "{a:?} {b:?} at {:?}", rows[i]);
    }
}

#[test]
fn sight_lines_lose_what_single_precision_loses() {
    // The sums fall short of the tenth row that an exact line would reach in column 9.
    assert_eq!(rows_in_single_precision(0, 100, 10, 101)[8], (9, 100));
    let (a, b) = (Position::new(0, 100, 7), Position::new(10, 101, 7));
    assert!(!walled_map(&[(9, 100)]).is_sight_clear(a, b, true));
    assert!(walled_map(&[(9, 101)]).is_sight_clear(a, b, true));
    // Not even a start at zero goes below the edge of the map.
    assert_line(0, 300, 300, 0);
}

#[test]
fn sight_lines_follow_single_precision() {
    for (n, y0) in [0u16, 1, 7, 100, 1000, 4095, 32000, 40000, 65535].into_iter().enumerate() {
        for d in [2u16, 3, 5, 7, 8, 10, 13, 60, 333] {
            for e in [0u16, 1, 2, 3, 6, 9, 59, 332] {
                if e <= d {
                    let x0 = 100 * n as u16;
                    if y0 <= 65535 - e {
                        assert_line(x0, y0, x0 + d, y0 + e);
                    }
                    if y0 >= e {
                        assert_line(x0, y0, x0 + d, y0 - e);
                    }
                }
            }
        }
    }
}

#[test]
fn long_sight_lines_follow_single_precision() {
    assert_line(0, 65000, 20000, 50001);
    assert_line(0, 3, 30000, 29000);
    assert_line(0, 65535, 60000, 65534);
    assert_line(0, 20000, 30001, 7);
}
