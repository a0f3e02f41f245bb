use std::collections::{HashMap, HashSet, VecDeque};

use world::{Direction, Position};
use world::game::{Game, MSG_INFO_DESCR, MSG_STATUS_SMALL};
use world::game::restore::restore_containers;
use world::game::session::export_container_items;
use world::game::state::{ContainerSource, InvItem, OpenContainer, PlayerState, RaceType};
use world::map::{
    FloorChange, ItemAttrs, ItemType, ItemsOtb, ItemsXml, MapItem, MapTile, OtbmMap, TileStack,
    Town,
};
use world::map::grid::{StaticMap, key_of};
use world::wire::{Outfit, Packet, push_channel};

/// An item kind with nothing special about it.
fn item(server_id: u16, client_id: u16) -> ItemType {
    ItemType {
        server_id,
        client_id,
        flags: 0,
        always_on_top: false,
        top_order: 0,
        has_height: false,
        floor_change: FloorChange::none(),
        stackable: false,
        fluid_or_splash: false,
        animated: false,
        pickupable: false,
        moveable: false,
        block_projectile: false,
        container: false,
    }
}

fn attrs(name: &str, article: &str, plural: &str, weight: u32) -> ItemAttrs {
    ItemAttrs {
        name: name.to_string(),
        article: article.to_string(),
        plural: plural.to_string(),
        description: String::new(),
        weight,
        show_count: false,
        slot_type: String::new(),
        weapon_type: String::new(),
        container_size: 0,
    }
}

fn tile(x: u16, y: u16, z: u8, ids: &[u16]) -> MapTile {
    MapTile { x, y, z, flags: 0, items: ids.iter().map(|&id| MapItem { id, count: None }).collect() }
}

fn towns(x: u16, y: u16, z: u8) -> Vec<Town> {
    vec![Town { id: 1, name: "Thais".to_string(), x, y, z }]
}

/// A stone at (101,100,7) and fifty gold coins at (102,100,7).
fn look_map() -> StaticMap {
    let otb = ItemsOtb {
        items: vec![
            item(100, 4526),
            ItemType { pickupable: true, ..item(200, 1987) },
            ItemType { pickupable: true, stackable: true, ..item(300, 2148) },
        ],
    };
    let xml = ItemsXml {
        items: HashMap::from([
            (200, attrs("stone", "a", "stones", 110)),
            (300, ItemAttrs { show_count: true, ..attrs("gold coin", "a", "gold coins", 10) }),
        ]),
    };
    let mut coins = tile(102, 100, 7, &[100, 300]);
    coins.items[1].count = Some(50);
    let map = OtbmMap {
        tiles: vec![
            tile(100, 100, 7, &[100]),
            tile(101, 100, 7, &[100, 200]),
            coins,
            tile(103, 100, 7, &[100]),
            tile(99, 100, 7, &[100]),
        ],
        towns: towns(100, 100, 7),
    };
    let mut sm = StaticMap::from_formats(&map, &otb);
    sm.load_item_metadata(&otb, &xml);
    sm
}

/// Things to move on floor 7: a stone (200) at (101,100), ten gold coins (300) at (102,100), a
/// decoration (400) that stays at (103,100), a helmet (500) at (106,100) and a backpack (600)
/// at (100,110). There is no tile at (104,100).
fn move_map() -> StaticMap {
    let otb = ItemsOtb {
        items: vec![
            item(100, 4526),
            ItemType { moveable: true, ..item(200, 1987) },
            ItemType { moveable: true, stackable: true, pickupable: true, ..item(300, 2148) },
            item(400, 999),
            ItemType { moveable: true, pickupable: true, ..item(500, 5741) },
            ItemType { moveable: true, pickupable: true, container: true, ..item(600, 1988) },
        ],
    };
    let xml = ItemsXml {
        items: HashMap::from([
            (200, attrs("stone", "a", "stones", 110)),
            (300, ItemAttrs { show_count: true, ..attrs("gold coin", "a", "gold coins", 10) }),
            (400, attrs("decoration", "a", "decorations", 0)),
            (500, ItemAttrs { slot_type: "head".to_string(), ..attrs("helmet", "a", "", 0) }),
            (600, ItemAttrs { container_size: 20, ..attrs("backpack", "a", "", 0) }),
        ]),
    };
    let mut coins = tile(102, 100, 7, &[100, 300]);
    coins.items[1].count = Some(10);
    let map = OtbmMap {
        tiles: vec![
            tile(100, 100, 7, &[100]),
            tile(101, 100, 7, &[100, 200]),
            coins,
            tile(103, 100, 7, &[100, 400]),
            tile(105, 100, 7, &[100]),
            tile(106, 100, 7, &[100, 500]),
            tile(100, 110, 7, &[100, 600]),
            tile(100, 111, 7, &[100]),
            tile(100, 112, 7, &[100]),
            tile(100, 113, 7, &[100]),
        ],
        towns: towns(100, 100, 7),
    };
    let mut sm = StaticMap::from_formats(&map, &otb);
    sm.load_item_metadata(&otb, &xml);
    sm
}

fn knight() -> Outfit {
    Outfit { look_type: 128, head: 78, body: 69, legs: 58, feet: 76, addons: 0, mount: 0 }
}

fn player_at(pos: Position) -> PlayerState {
    PlayerState {
        name: "Tester".to_string(),
        position: pos,
        direction: Direction::South,
        outfit: knight(),
        session: push_channel(),
        known: HashSet::new(),
        health: 150,
        max_health: 150,
        max_melee: 8,
        attacking: None,
        last_attack_ms: 0,
        sex: 1, // male
        gamemaster: false,
        race: RaceType::Blood,
        is_ghost: false,
        prev_outfit: None,
        noclip: false,
        speed: 220,
        inventory: [None; 10],
        open_containers: std::array::from_fn(|_| None),
        follow_target: None,
        go_to_position: None,
        failed_repaths: None,
        list_walk_dir: VecDeque::new(),
        last_walk_ms: 0,
        conditions: Vec::new(),
    }
}

fn insert_player(g: &mut Game, p: PlayerState) -> u32 {
    let id = g.next_id;
    g.next_id += 1;
    g.players.insert(id, p);
    id
}

/// Put a player at `pos`, past the greetings of a login.
fn add_player(g: &mut Game, pos: Position) -> u32 {
    insert_player(g, player_at(pos))
}

fn player_of(g: &Game, id: u32) -> &PlayerState {
    g.players.get(id).expect("the player is there")
}

fn player_mut(g: &mut Game, id: u32) -> &mut PlayerState {
    g.players.get_mut(id).expect("the player is there")
}

/// All messages that wait for a player, also for one who has left.
fn drain(g: &mut Game, id: u32) -> Vec<Packet> {
    if let Some(p) = g.players.get_mut(id) {
        return p.session.drain();
    }
    for (who, session) in g.left.iter_mut() {
        if *who == id {
            return session.drain();
        }
    }
    Vec::new()
}

/// The byte that a message starts with.
fn op(p: &Packet) -> u8 {
    match p {
        Packet::AddTileCreature { .. } | Packet::AddTileItem { .. } => 0x6A,
        Packet::UpdateTileItem { .. } | Packet::CreatureTurn { .. } => 0x6B,
        Packet::RemoveCreature { .. } | Packet::RemoveTileThing { .. } => 0x6C,
        Packet::CreatureMove { .. } | Packet::WalkUpdate { .. } => 0x6D,
        Packet::OpenContainer { .. } => 0x6E,
        Packet::CloseContainer { .. } => 0x6F,
        Packet::AddContainerItem { .. } => 0x70,
        Packet::RemoveContainerItem { .. } => 0x72,
        Packet::InventorySet { .. } => 0x78,
        Packet::InventoryEmpty { .. } => 0x79,
        Packet::MagicEffect { .. } => 0x83,
        Packet::CreatureHealth { .. } => 0x8C,
        Packet::CreatureOutfit { .. } => 0x8E,
        Packet::Stats { .. } => 0xA0,
        Packet::CreatureSay { .. } => 0xAA,
        Packet::TextMessage { .. } | Packet::DamageText { .. } => 0xB4,
        Packet::CancelWalk { .. } => 0xB5,
        Packet::OutfitWindow { .. } => 0xC8,
        Packet::DeathWindow => 0x28,
    }
}

fn ops(packets: &[Packet]) -> Vec<u8> {
    packets.iter().map(op).collect()
}

fn has_op(packets: &[Packet], byte: u8) -> bool {
    packets.iter().any(|p| op(p) == byte)
}

/// The text of the first text message, with its mode.
fn text_of(packets: &[Packet]) -> (u8, String) {
    for p in packets {
        if let Packet::TextMessage { mode, text } = p {
            return (*mode, String::from_utf8(text.clone()).expect("valid UTF-8"));
        }
    }
    panic!("no text message in {packets:?}");
}

/// The description that was sent to a player who looked at something.
fn look_text(g: &mut Game, id: u32) -> String {
    let (mode, text) = text_of(&drain(g, id));
    assert_eq!(mode, MSG_INFO_DESCR, "must be a description");
    text
}

/// Where equipment slot `slot` is addressed.
fn inv_pos(slot: u8) -> Position {
    Position::new(0xFFFF, u16::from(slot), 0)
}

/// The changed stack of a tile.
fn stack_at(g: &Game, pos: Position) -> Option<&TileStack> {
    g.dynamic.get(&key_of(pos))
}

fn sids(st: &TileStack) -> Vec<u16> {
    st.things.iter().map(|t| t.server_id).collect()
}

fn count_sid_in_overlays(g: &Game, sid: u16) -> usize {
    g.dynamic.values().map(|st| sids(st).iter().filter(|&&s| s == sid).count()).sum()
}

fn bag(source: ContainerSource, items: Vec<InvItem>) -> OpenContainer {
    OpenContainer {
        server_id: 600,
        client_id: 1988,
        capacity: 20,
        name: "backpack".to_string(),
        items,
        source,
        is_open: true,
    }
}

fn backpack() -> InvItem {
    InvItem { server_id: 600, client_id: 1988, count: None, animated: false }
}

fn stone() -> InvItem {
    InvItem { server_id: 200, client_id: 1987, count: None, animated: false }
}

// ---------------------------------------------------------------------------
// Moving things on the ground
// ---------------------------------------------------------------------------

#[test]
fn do_move_thing_multi_hop_never_duplicates_including_on_tile() {
    // Drag the stone (sid 200) across a chain of tiles, one of them the player's own. After
    // every hop exactly ONE stone must exist.
    let mut g = Game::new(move_map());
    let me = add_player(&mut g, Position::new(102, 100, 7));

    // Hop 1: 101 -> 102 (onto the player's tile).
    g.do_move_thing(me, Position::new(101, 100, 7), 1, Position::new(102, 100, 7), 1);
    assert_eq!(count_sid_in_overlays(&g, 200), 1, "after hop 1 exactly one stone must exist");

    // Hop 2: 102 -> 103. The stone lies below one creature on the ground.
    g.do_move_thing(me, Position::new(102, 100, 7), 2, Position::new(103, 100, 7), 1);
    assert_eq!(count_sid_in_overlays(&g, 200), 1, "after hop 2 exactly one stone must exist");

    // Hop 3: 103 -> 101.
    g.do_move_thing(me, Position::new(103, 100, 7), 1, Position::new(101, 100, 7), 1);
    assert_eq!(count_sid_in_overlays(&g, 200), 1, "after hop 3 exactly one stone must exist");
}

#[test]
fn do_move_thing_from_eq_to_is_noop() {
    let mut g = Game::new(move_map());
    let me = add_player(&mut g, Position::new(100, 100, 7));
    let pos = Position::new(101, 100, 7);
    g.do_move_thing(me, pos, 1, pos, 1);
    assert!(drain(&mut g, me).is_empty(), "from==to must produce no packet");
}

#[test]
fn do_move_thing_non_moveable_is_rejected_with_status_push() {
    let mut g = Game::new(move_map());
    let me = add_player(&mut g, Position::new(102, 100, 7));
    let from = Position::new(103, 100, 7);
    let to = Position::new(105, 100, 7); // valid dest, 2 tiles away (within range)
    g.do_move_thing(me, from, 1, to, 1);

    let pkts = drain(&mut g, me);
    assert!(has_op(&pkts, 0xB4), "non-moveable rejection must push 0xB4; got {pkts:?}");
    assert_eq!(text_of(&pkts).0, MSG_STATUS_SMALL, "must be MSG_STATUS_SMALL (21)");
    let st = g.tile(from).expect("the tile is there");
    assert!(sids(st).contains(&400), "non-moveable item must remain on source tile");
}

#[test]
fn do_move_thing_out_of_reach_is_rejected() {
    let mut g = Game::new(move_map());
    let me = add_player(&mut g, Position::new(100, 100, 7));
    let from = Position::new(103, 100, 7); // dx=3 > 1: too far
    let to = Position::new(105, 100, 7);
    g.do_move_thing(me, from, 1, to, 1);

    let pkts = drain(&mut g, me);
    assert!(has_op(&pkts, 0xB4), "out-of-reach rejection must push 0xB4; got {pkts:?}");
    assert!(stack_at(&g, from).is_none(), "nothing must change for an out-of-reach source");
}

#[test]
fn do_move_thing_full_move_removes_item_from_source() {
    let mut g = Game::new(move_map());
    let me = add_player(&mut g, Position::new(100, 100, 7));
    let from = Position::new(101, 100, 7);
    let to = Position::new(102, 100, 7); // adjacent valid tile
    g.do_move_thing(me, from, 1, to, 1);

    let src = stack_at(&g, from).expect("source must have changed");
    assert!(!sids(src).contains(&200), "stone must be gone from source; sids: {:?}", sids(src));
    let dst = stack_at(&g, to).expect("destination must have changed");
    assert!(sids(dst).contains(&200), "stone must be on destination; sids: {:?}", sids(dst));
    assert_eq!(
        dst.things[dst.pre_creature_len].server_id, 200,
        "stone must be the newest thing; sids: {:?}",
        sids(dst)
    );
    let pkts = drain(&mut g, me);
    assert!(has_op(&pkts, 0x6A), "player must receive 0x6A for destination; {pkts:?}");
    assert!(
        has_op(&pkts, 0x6C) || has_op(&pkts, 0x6B),
        "player must receive 0x6C or 0x6B for source; {pkts:?}"
    );
}

#[test]
fn do_move_thing_stackable_split_source_keeps_remainder() {
    // Move 3 of 10 gold coins from (102,100,7).
    let mut g = Game::new(move_map());
    let me = add_player(&mut g, Position::new(101, 100, 7));
    let from = Position::new(102, 100, 7);
    let to = Position::new(103, 100, 7); // adjacent
    g.do_move_thing(me, from, 1, to, 3);

    let coins = |st: &TileStack| {
        st.things.iter().find(|t| t.server_id == 300).map(|t| t.count.unwrap_or(0))
    };
    let src = stack_at(&g, from).expect("source changed");
    assert_eq!(coins(src), Some(7), "source must retain 7 coins after moving 3");
    let dst = stack_at(&g, to).expect("destination changed");
    assert_eq!(coins(dst), Some(3), "destination must have 3 coins");
    let pkts = drain(&mut g, me);
    assert!(has_op(&pkts, 0x6B), "partial split must produce 0x6B for source; {pkts:?}");
}

#[test]
fn do_move_thing_stackable_clamps_to_available() {
    // Attempt to move 20 of 10 coins: 10 are moved (no duplication).
    let mut g = Game::new(move_map());
    let me = add_player(&mut g, Position::new(101, 100, 7));
    let from = Position::new(102, 100, 7);
    let to = Position::new(103, 100, 7);
    g.do_move_thing(me, from, 1, to, 20);

    let src = stack_at(&g, from).expect("source changed");
    assert!(!sids(src).contains(&300), "all coins moved; sids: {:?}", sids(src));
    let dst = stack_at(&g, to).expect("destination changed");
    let moved = dst.things.iter().find(|t| t.server_id == 300).and_then(|t| t.count);
    assert_eq!(moved, Some(10), "destination must have exactly 10 coins (clamped)");
}

#[test]
fn do_move_thing_spectator_receives_tile_update() {
    let mut g = Game::new(move_map());
    let me = add_player(&mut g, Position::new(100, 100, 7));
    let spec = add_player(&mut g, Position::new(100, 100, 7));
    g.do_move_thing(me, Position::new(101, 100, 7), 1, Position::new(102, 100, 7), 1);
    let pkts = drain(&mut g, spec);
    assert!(
        has_op(&pkts, 0x6A) || has_op(&pkts, 0x6B) || has_op(&pkts, 0x6C),
        "spectator must receive at least one tile-update packet; got {pkts:?}"
    );
}

/// A thing moved onto a tile that already has one lands in front of it, and is announced at the
/// place behind the creatures.
#[test]
fn do_move_thing_dest_insert_front_of_down_items() {
    let mut g = Game::new(move_map());
    let me = add_player(&mut g, Position::new(100, 100, 7));
    let from = Position::new(101, 100, 7);
    let to = Position::new(102, 100, 7);
    g.do_move_thing(me, from, 1, to, 1);

    let dst = stack_at(&g, to).expect("destination must have changed");
    let pre = dst.pre_creature_len;
    assert_eq!(dst.things[pre].server_id, 200, "sids: {:?}", sids(dst));
    assert_eq!(dst.things[pre + 1].server_id, 300, "sids: {:?}", sids(dst));
    let at = drain(&mut g, me)
        .iter()
        .find_map(|p| match p {
            Packet::AddTileItem { stackpos, .. } => Some(*stackpos),
            _ => None,
        })
        .expect("must have a 0x6A add-tile-item packet for destination");
    assert_eq!(at, pre as u8, "broadcast stackpos must equal the number of things before");
}

#[test]
fn coins_are_neither_made_nor_lost() {
    let mut g = Game::new(move_map());
    let me = add_player(&mut g, Position::new(101, 100, 7));
    let pieces = |g: &Game| -> u32 {
        (100u16..=106)
            .filter_map(|x| g.tile(Position::new(x, 100, 7)))
            .flat_map(|st| st.things.iter())
            .filter(|t| t.server_id == 300)
            .map(|t| u32::from(t.count.unwrap_or(1)))
            .sum()
    };
    assert_eq!(pieces(&g), 10);
    g.do_move_thing(me, Position::new(102, 100, 7), 1, Position::new(103, 100, 7), 3);
    assert_eq!(pieces(&g), 10);
    g.do_move_thing(me, Position::new(102, 100, 7), 1, Position::new(103, 100, 7), 4);
    assert_eq!(pieces(&g), 10);
    g.do_move_thing(me, Position::new(102, 100, 7), 1, Position::new(104, 100, 7), 1);
    assert_eq!(pieces(&g), 10, "there is no tile to throw to");
}

// ---------------------------------------------------------------------------
// Equipment
// ---------------------------------------------------------------------------

#[test]
fn equip_ground_item_into_matching_slot() {
    let mut g = Game::new(move_map());
    let me = add_player(&mut g, Position::new(105, 100, 7));
    // The helmet (sid 500) goes from the ground into the head slot (1).
    g.do_move_thing(me, Position::new(106, 100, 7), 1, inv_pos(1), 1);
    let slot = player_of(&g, me).inventory[0];
    assert_eq!(slot.map(|it| it.server_id), Some(500), "helmet must be in head slot");
    assert!(has_op(&drain(&mut g, me), 0x78), "equip must push 0x78");
    assert_eq!(count_sid_in_overlays(&g, 500), 0, "helmet must leave the ground");
}

#[test]
fn equip_into_wrong_slot_is_rejected() {
    let mut g = Game::new(move_map());
    let me = add_player(&mut g, Position::new(105, 100, 7));
    // Try to put the helmet (head item) into the feet slot (8).
    g.do_move_thing(me, Position::new(106, 100, 7), 1, inv_pos(8), 1);
    assert!(player_of(&g, me).inventory[7].is_none(), "feet slot stays empty");
    assert!(player_of(&g, me).inventory.iter().all(|s| s.is_none()), "nothing equipped");
    let pkts = drain(&mut g, me);
    assert!(has_op(&pkts, 0xB4), "wrong-slot equip must push a 0xB4 status message");
    assert!(!has_op(&pkts, 0x78), "no inventory set on a rejected equip");
}

#[test]
fn unequip_returns_item_to_the_ground() {
    let mut g = Game::new(move_map());
    let me = add_player(&mut g, Position::new(105, 100, 7));
    g.do_move_thing(me, Position::new(106, 100, 7), 1, inv_pos(1), 1);
    drain(&mut g, me);
    // Back onto the player's own tile.
    g.do_move_thing(me, inv_pos(1), 0, Position::new(105, 100, 7), 1);
    assert!(player_of(&g, me).inventory[0].is_none(), "head slot cleared");
    let pkts = drain(&mut g, me);
    assert!(has_op(&pkts, 0x79), "unequip must push 0x79 clear");
    assert_eq!(count_sid_in_overlays(&g, 500), 1, "helmet back on the ground");
}

#[test]
fn equipment_moves_between_fitting_slots() {
    let mut g = Game::new(move_map());
    let me = add_player(&mut g, Position::new(105, 100, 7));
    g.do_move_thing(me, Position::new(106, 100, 7), 1, inv_pos(1), 1);
    drain(&mut g, me);
    g.do_move_thing(me, inv_pos(1), 0, inv_pos(8), 1);
    assert_eq!(player_of(&g, me).inventory[0].map(|it| it.server_id), Some(500));
    assert!(has_op(&drain(&mut g, me), 0xB4), "a helmet is no boot");
}

// ---------------------------------------------------------------------------
// Containers
// ---------------------------------------------------------------------------

#[test]
fn throwing_open_inventory_container_follows_to_ground_with_contents() {
    let mut g = Game::new(move_map());
    let me = add_player(&mut g, Position::new(100, 100, 7));
    {
        let p = player_mut(&mut g, me);
        p.inventory[2] = Some(backpack());
        p.open_containers[0] = Some(bag(ContainerSource::Slot(3), vec![stone()]));
    }
    // Throw the backpack from slot 3 to a far ground tile (105,100,7).
    g.do_move_inventory(me, inv_pos(3), 0, Position::new(105, 100, 7), 1);

    let windows: Vec<&OpenContainer> =
        player_of(&g, me).open_containers.iter().filter_map(|c| c.as_ref()).collect();
    assert_eq!(windows.len(), 1, "still exactly one container window (no duplicate)");
    assert_eq!(
        windows[0].source,
        ContainerSource::Ground(Position::new(105, 100, 7)),
        "window follows to the ground tile"
    );
    assert!(!windows[0].is_open, "thrown out of range -> window closed");
    assert!(
        windows[0].items.iter().any(|i| i.server_id == 200),
        "contents preserved on the ground container"
    );
    assert!(player_of(&g, me).inventory[2].is_none(), "slot 3 emptied by the throw");
}

#[test]
fn walking_away_closes_ground_container_keeps_inventory_open() {
    let mut g = Game::new(move_map());
    let me = add_player(&mut g, Position::new(102, 100, 7));
    {
        let p = player_mut(&mut g, me);
        p.open_containers[0] =
            Some(bag(ContainerSource::Ground(Position::new(102, 100, 7)), vec![]));
        p.open_containers[1] = Some(bag(ContainerSource::Slot(3), vec![]));
    }
    // One step: the ground container is 1 tile away and stays open.
    g.do_move(me, Direction::West);
    assert!(
        player_of(&g, me).open_containers[0].as_ref().unwrap().is_open,
        "ground container one tile away must stay open"
    );
    // Another: now it is 2 tiles away.
    drain(&mut g, me);
    g.do_move(me, Direction::West);
    let pkts = drain(&mut g, me);
    assert!(has_op(&pkts, 0x6F), "a 0x6F close must be sent; got {pkts:?}");
    assert!(
        !player_of(&g, me).open_containers[0].as_ref().unwrap().is_open,
        "ground container more than one tile away must close"
    );
    assert!(
        player_of(&g, me).open_containers[1].as_ref().unwrap().is_open,
        "inventory container must stay open while walking"
    );
}

#[test]
fn drop_onto_nested_bag_opened_before_parent_shift_is_not_lost() {
    let mut g = Game::new(move_map());
    let me = add_player(&mut g, Position::new(100, 100, 7));
    {
        let p = player_mut(&mut g, me);
        p.inventory[2] = Some(backpack());
        // The outer backpack holds only the inner bag.
        p.open_containers[0] = Some(bag(ContainerSource::Slot(3), vec![backpack()]));
    }
    // Open the inner bag; then a stone at the front of the outer one shifts it down.
    g.do_use_item(me, 0xFFFF, 0x40, 0, 0, 0);
    g.push_item_to_container(me, 0, stone());
    drain(&mut g, me);

    // Drag the stone onto the inner bag.
    g.do_move_container(me, Position::new(0xFFFF, 0x40, 0), 0, Position::new(0xFFFF, 0x40, 1), 1);

    let nested: Vec<&OpenContainer> = player_of(&g, me)
        .open_containers
        .iter()
        .filter_map(|c| c.as_ref())
        .filter(|oc| matches!(oc.source, ContainerSource::Nested { parent_cid: 0, .. }))
        .collect();
    assert_eq!(nested.len(), 1, "exactly one nested window (no shadow duplicate)");
    assert!(
        nested[0].items.iter().any(|i| i.server_id == 200),
        "stone must be inside the inner bag, not stranded; {:?}",
        nested[0].items
    );
    assert!(nested[0].is_open, "inner bag stays open and shows the stone");
}

#[test]
fn drop_item_onto_nested_bag_routes_inside_and_is_retrievable() {
    let mut g = Game::new(move_map());
    let me = add_player(&mut g, Position::new(100, 100, 7));
    {
        let p = player_mut(&mut g, me);
        p.inventory[2] = Some(backpack());
        p.open_containers[0] = Some(bag(ContainerSource::Slot(3), vec![stone(), backpack()]));
    }
    // Drag the stone (slot 0) onto the inner bag (slot 1).
    let from = Position::new(0xFFFF, 0x40, 0);
    let to = Position::new(0xFFFF, 0x40, 1);
    g.do_move_container(me, from, 0, to, 1);

    let parent = player_of(&g, me).open_containers[0].as_ref().unwrap();
    assert_eq!(parent.items.len(), 1, "parent should keep only the inner bag");
    assert_eq!(parent.items[0].server_id, 600, "remaining parent item is the inner bag");

    let nested = (1usize..16)
        .find(|&c| {
            player_of(&g, me).open_containers[c]
                .as_ref()
                .is_some_and(|o| matches!(o.source, ContainerSource::Nested { parent_cid: 0, .. }))
        })
        .expect("a nested window must be allocated for the inner bag");
    let noc = player_of(&g, me).open_containers[nested].as_ref().unwrap();
    assert_eq!(noc.items.len(), 1, "inner bag must hold the routed stone (not lost)");
    assert_eq!(noc.items[0].server_id, 200, "routed item is the stone");

    // Opening the inner bag (now at parent slot 0) shows the stone.
    drain(&mut g, me);
    g.do_use_item(me, 0xFFFF, 0x40, 0, 0, 0);
    let pkts = drain(&mut g, me);
    assert!(has_op(&pkts, 0x6E), "opening the inner bag must push 0x6E; got {pkts:?}");
    let noc = player_of(&g, me).open_containers[nested].as_ref().unwrap();
    assert!(noc.is_open, "inner bag must be open after use");
    assert_eq!(noc.items[0].server_id, 200, "stone must be visible inside the opened bag");
}

#[test]
fn do_use_item_on_open_container_toggles_closed() {
    let mut g = Game::new(move_map());
    let me = add_player(&mut g, Position::new(100, 100, 7));
    player_mut(&mut g, me).inventory[2] = Some(backpack());

    // 1st use: open.
    g.do_use_item(me, 0xFFFF, 3, 0, 0, 0);
    let pkts = drain(&mut g, me);
    assert!(has_op(&pkts, 0x6E), "first use must push 0x6E open; got {pkts:?}");
    let cid = (0usize..16)
        .find(|&c| player_of(&g, me).open_containers[c].is_some())
        .expect("a window must be allocated");
    let open = |g: &Game| player_of(g, me).open_containers[cid].as_ref().unwrap().is_open;
    assert!(open(&g), "container must be open after first use");

    // 2nd use: close.
    g.do_use_item(me, 0xFFFF, 3, 0, 0, 0);
    let pkts = drain(&mut g, me);
    assert!(has_op(&pkts, 0x6F), "second use must push 0x6F close; got {pkts:?}");
    assert!(!has_op(&pkts, 0x6E), "second use must NOT re-send 0x6E open; got {pkts:?}");
    assert!(!open(&g), "container must be closed (but retained) after second use");

    // 3rd use: open again.
    g.do_use_item(me, 0xFFFF, 3, 0, 0, 0);
    let pkts = drain(&mut g, me);
    assert!(has_op(&pkts, 0x6E), "third use must re-open with 0x6E; got {pkts:?}");
    assert!(open(&g), "container must be open again after third use");
}

#[test]
fn throwing_open_ground_container_follows_and_closes_out_of_range() {
    // Backpack on (100,110,7); player next to it; throw it 2 tiles past the player.
    let mut g = Game::new(move_map());
    let me = add_player(&mut g, Position::new(100, 111, 7));
    player_mut(&mut g, me).open_containers[0] =
        Some(bag(ContainerSource::Ground(Position::new(100, 110, 7)), vec![]));
    g.do_move_thing(me, Position::new(100, 110, 7), 1, Position::new(100, 113, 7), 1);
    let oc = player_of(&g, me).open_containers[0].as_ref().expect("window retained");
    assert_eq!(
        oc.source,
        ContainerSource::Ground(Position::new(100, 113, 7)),
        "window follows to the destination tile"
    );
    assert!(!oc.is_open, "container thrown out of range must close");
}

#[test]
fn things_go_into_and_out_of_a_container() {
    let mut g = Game::new(move_map());
    let me = add_player(&mut g, Position::new(100, 100, 7));
    {
        let p = player_mut(&mut g, me);
        p.inventory[2] = Some(backpack());
        p.open_containers[0] = Some(bag(ContainerSource::Slot(3), vec![]));
    }
    // From the ground into the container, where it is the first thing.
    g.do_move_thing(me, Position::new(101, 100, 7), 1, Position::new(0xFFFF, 0x40, 0), 1);
    assert_eq!(player_of(&g, me).open_containers[0].as_ref().unwrap().items, vec![stone()]);
    assert_eq!(count_sid_in_overlays(&g, 200), 0);
    assert!(has_op(&drain(&mut g, me), 0x70));
    // And back onto the ground.
    g.do_move_thing(me, Position::new(0xFFFF, 0x40, 0), 0, Position::new(101, 100, 7), 1);
    assert!(player_of(&g, me).open_containers[0].as_ref().unwrap().items.is_empty());
    assert_eq!(count_sid_in_overlays(&g, 200), 1);
    assert!(has_op(&drain(&mut g, me), 0x72));
}

#[test]
fn windows_are_closed_and_left_upwards() {
    let mut g = Game::new(move_map());
    let me = add_player(&mut g, Position::new(100, 100, 7));
    {
        let p = player_mut(&mut g, me);
        p.inventory[2] = Some(backpack());
        p.open_containers[0] = Some(bag(ContainerSource::Slot(3), vec![backpack()]));
    }
    g.do_use_item(me, 0xFFFF, 0x40, 0, 0, 0);
    drain(&mut g, me);
    g.push_item_to_container(me, 1, stone());
    drain(&mut g, me);
    // Up from the inner window shows the outer bag and closes the inner one, whose contents
    // stay.
    g.do_up_arrow(me, 1);
    assert_eq!(ops(&drain(&mut g, me)), vec![0x6E, 0x6F]);
    let inner = player_of(&g, me).open_containers[1].as_ref().unwrap();
    assert!(!inner.is_open);
    assert_eq!(inner.items, vec![stone()]);
    g.do_close_container(me, 0);
    assert!(has_op(&drain(&mut g, me), 0x6F));
    assert!(!player_of(&g, me).open_containers[0].as_ref().unwrap().is_open);
}

// ---------------------------------------------------------------------------
// Looking
// ---------------------------------------------------------------------------

#[test]
fn do_look_ground_item_adjacent_shows_article_name_and_weight() {
    let mut g = Game::new(look_map());
    let looker = add_player(&mut g, Position::new(100, 100, 7));
    g.do_look(looker, 101, 100, 7, 1);
    let text = look_text(&mut g, looker);
    assert!(text.contains("You see a stone."), "text: {text:?}");
    assert!(text.contains("It weighs 1.10 oz."), "adjacent item must show weight; {text:?}");
}

#[test]
fn do_look_ground_item_far_away_omits_weight() {
    let mut g = Game::new(look_map());
    let looker = add_player(&mut g, Position::new(103, 100, 7));
    g.do_look(looker, 101, 100, 7, 1);
    let text = look_text(&mut g, looker);
    assert!(text.contains("You see a stone."), "text: {text:?}");
    assert!(!text.contains("weighs"), "far look must NOT show weight; text: {text:?}");
}

#[test]
fn do_look_non_pickupable_item_no_weight_line() {
    let mut g = Game::new(look_map());
    let looker = add_player(&mut g, Position::new(100, 100, 7));
    g.do_look(looker, 100, 100, 7, 0);
    let text = look_text(&mut g, looker);
    assert!(!text.contains("weighs"), "non-pickupable item must not show weight; {text:?}");
}

#[test]
fn do_look_stackable_item_with_count_shows_count_and_plural() {
    let mut g = Game::new(look_map());
    let looker = add_player(&mut g, Position::new(100, 100, 7));
    g.do_look(looker, 102, 100, 7, 1);
    let text = look_text(&mut g, looker);
    assert!(text.contains("You see 50 gold coins."), "text: {text:?}");
}

#[test]
fn do_look_other_player_shows_name_level_and_pronoun() {
    let mut g = Game::new(look_map());
    let looker = add_player(&mut g, Position::new(100, 100, 7));
    let alice = PlayerState {
        name: "Alice".to_string(),
        sex: 0, // female
        ..player_at(Position::new(100, 100, 7))
    };
    let target = insert_player(&mut g, alice);
    // On the same tile, after the looker.
    g.do_look(looker, 100, 100, 7, 2);
    let text = look_text(&mut g, looker);
    assert!(text.contains("Alice (Level 1)."), "text: {text:?}");
    assert!(text.contains("She has no vocation."), "female pronoun; text: {text:?}");
    player_mut(&mut g, target).sex = 1;
    g.do_look(looker, 100, 100, 7, 2);
    let text2 = look_text(&mut g, looker);
    assert!(text2.contains("He has no vocation."), "male pronoun; text2: {text2:?}");
}

#[test]
fn do_look_self_shows_yourself() {
    let mut g = Game::new(look_map());
    let looker = add_player(&mut g, Position::new(100, 100, 7));
    g.do_look(looker, 100, 100, 7, 1);
    let text = look_text(&mut g, looker);
    assert!(text.contains("You see yourself."), "text: {text:?}");
    assert!(text.contains("You have no vocation."), "text: {text:?}");
}

#[test]
fn do_look_gamemaster_item_appends_item_id_and_position() {
    let mut g = Game::new(look_map());
    let looker = add_player(&mut g, Position::new(100, 100, 7));
    player_mut(&mut g, looker).gamemaster = true;
    g.do_look(looker, 101, 100, 7, 1);
    let text = look_text(&mut g, looker);
    assert!(
        text.ends_with("\nItem ID: 200\nPosition: 101, 100, 7"),
        "GM look must end with Item ID and Position; text: {text:?}"
    );
}

#[test]
fn do_look_non_gamemaster_no_debug_suffix() {
    let mut g = Game::new(look_map());
    let looker = add_player(&mut g, Position::new(100, 100, 7));
    g.do_look(looker, 101, 100, 7, 1);
    let text = look_text(&mut g, looker);
    assert!(!text.contains("Item ID:"), "non-GM must not see Item ID; text: {text:?}");
    assert!(!text.contains("Position:"), "non-GM must not see Position; text: {text:?}");
}

#[test]
fn do_look_out_of_viewport_pushes_nothing() {
    let mut g = Game::new(look_map());
    let looker = add_player(&mut g, Position::new(100, 100, 7));
    g.do_look(looker, 150, 100, 7, 0);
    assert!(drain(&mut g, looker).is_empty(), "look outside viewport must push nothing");
}

#[test]
fn the_battle_list_shows_players_in_view() {
    let mut g = Game::new(look_map());
    let looker = add_player(&mut g, Position::new(100, 100, 7));
    let alice = PlayerState {
        name: "Alice".to_string(),
        ..player_at(Position::new(101, 100, 7))
    };
    let target = insert_player(&mut g, alice);
    g.do_look_battle(looker, target);
    let text = look_text(&mut g, looker);
    assert_eq!(text, "You see Alice (Level 1). He has no vocation.");
    player_mut(&mut g, target).position = Position::new(150, 100, 7);
    g.do_look_battle(looker, target);
    assert!(drain(&mut g, looker).is_empty());
}

#[test]
fn bags_inside_bags_are_saved_but_come_back_empty() {
    let map = move_map();
    let mut windows: [Option<OpenContainer>; 16] = std::array::from_fn(|_| None);
    windows[0] = Some(bag(ContainerSource::Slot(3), vec![stone(), backpack()]));
    let inner = ContainerSource::Nested { parent_cid: 0, parent_slot: 1 };
    windows[1] = Some(bag(inner, vec![backpack(), stone()]));
    let innermost = ContainerSource::Nested { parent_cid: 1, parent_slot: 0 };
    windows[2] = Some(bag(innermost, vec![stone()]));
    windows[3] = Some(bag(ContainerSource::Ground(Position::new(100, 110, 7)), vec![stone()]));
    let rows = export_container_items(&windows);
    assert_eq!(
        rows,
        vec![
            (3, "0".to_string(), 200, 1),
            (3, "1".to_string(), 600, 1),
            (3, "1/0".to_string(), 600, 1),
            (3, "1/1".to_string(), 200, 1),
            (3, "1/0/0".to_string(), 200, 1),
        ]
    );
    let mut inventory: [Option<InvItem>; 10] = [None; 10];
    inventory[2] = Some(backpack());
    let back = restore_containers(&rows, &inventory, &map);
    assert_eq!(back[0].as_ref().unwrap().items, vec![stone(), backpack()]);
    assert!(back[1].is_none());
}

#[test]
fn contents_survive_closing_and_opening() {
    let mut g = Game::new(move_map());
    let me = add_player(&mut g, Position::new(100, 100, 7));
    {
        let p = player_mut(&mut g, me);
        p.inventory[2] = Some(backpack());
        p.open_containers[0] = Some(bag(ContainerSource::Slot(3), vec![stone()]));
    }
    g.do_use_item(me, 0xFFFF, 3, 0, 0, 0);
    assert!(!player_of(&g, me).open_containers[0].as_ref().unwrap().is_open);
    g.do_use_item(me, 0xFFFF, 3, 0, 0, 0);
    let oc = player_of(&g, me).open_containers[0].as_ref().unwrap();
    assert!(oc.is_open);
    assert_eq!(oc.items, vec![stone()]);
}
