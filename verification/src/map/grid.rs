//! The static map: built once from a map file and an item dictionary, then only read.

use std::collections::HashMap;
use std::collections::HashSet;
use vstd::prelude::*;

use super::EquipSlot;
use super::FLAG_BLOCK_SOLID;
use super::FloorChange;
use super::ItemAttrs;
use super::ItemMeta;
use super::ItemMetaModel;
use super::ItemType;
use super::ItemsOtb;
use super::ItemsXml;
use super::MAX_TILE_THINGS;
use super::MapItem;
use super::MapTile;
use super::OtbmMap;
use super::StackThing;
use super::TILEFLAG_PROTECTIONZONE;
use super::TileModel;
use super::TileStack;
use super::Town;
use crate::text::ascii_lowered;
use crate::text::eq_ignore_ascii_case;
use crate::wire::WireItem;
use crate::Position;

verus! {

broadcast use vstd::std_specs::hash::group_hash_axioms;

/// Where players appear on a map without towns.
pub open spec fn fallback_spawn() -> Position {
    Position { x: 1000, y: 1000, z: 7 }
}

/// The number by which a tile is found.
pub open spec fn tile_key(p: Position) -> u64 {
    (p.x + 0x1_0000 * p.y + 0x1_0000_0000 * p.z) as u64
}

/// Different tiles have different numbers.
pub proof fn law_tile_key_injective(a: Position, b: Position)
    requires
        tile_key(a) == tile_key(b),
    ensures
        a == b,
{
}

/// The number by which the tile at `p` is found.
pub fn key_of(p: Position) -> (k: u64)
    ensures
        k == tile_key(p),
{
    p.x as u64 + 0x1_0000 * (p.y as u64) + 0x1_0000_0000 * (p.z as u64)
}

/// A coordinate triple as a position, where it is in range.
pub open spec fn position_of(x: int, y: int, z: int) -> Option<Position> {
    if 0 <= x <= u16::MAX && 0 <= y <= u16::MAX && 0 <= z <= u8::MAX {
        Some(Position { x: x as u16, y: y as u16, z: z as u8 })
    } else {
        None
    }
}

/// A world coordinate as a `Position`, or `None` if it leaves the valid range.
pub fn to_position(x: i32, y: i32, z: i32) -> (r: Option<Position>)
    ensures
        r == position_of(x as int, y as int, z as int),
{
    if 0 <= x && x <= 0xFFFF && 0 <= y && y <= 0xFFFF && 0 <= z && z <= 0xFF {
        Some(Position { x: x as u16, y: y as u16, z: z as u8 })
    } else {
        None
    }
}

/// The item dictionary by server id; a later entry replaces an earlier one.
pub open spec fn dictionary(items: Seq<ItemType>) -> Map<u16, ItemType>
    decreases items.len(),
{
    if items.len() == 0 {
        Map::empty()
    } else {
        dictionary(items.drop_last()).insert(items.last().server_id, items.last())
    }
}

fn build_dictionary(items: &Vec<ItemType>) -> (d: HashMap<u16, ItemType>)
    ensures
        d@ == dictionary(items@),
{
    let mut d: HashMap<u16, ItemType> = HashMap::new();
    let mut i: usize = 0;
    while i < items.len()
        invariant
            i <= items@.len(),
            d@ == dictionary(items@.take(i as int)),
        decreases items@.len() - i,
    {
        d.insert(items[i].server_id, items[i]);
        assert(items@.take(i + 1).drop_last() =~= items@.take(i as int));
        i = i + 1;
    }
    assert(items@.take(items@.len() as int) =~= items@);
    d
}

/// An item of this type and stack count as the client draws it: stackables carry their
/// count (1 where unspecified or 0), splashes and fluids their fluid type.
pub open spec fn drawn(it: ItemType, count: Option<u8>) -> WireItem {
    WireItem {
        client_id: it.client_id,
        subtype: if it.stackable {
            match count {
                Some(c) if c >= 1 => Some(c),
                _ => Some(1u8),
            }
        } else if it.fluid_or_splash {
            match count {
                Some(c) => Some(c),
                None => Some(0u8),
            }
        } else {
            None
        },
        animated: it.animated,
    }
}

/// Resolve an item type and its stack count into the form the client draws.
pub fn wire_item(it: &ItemType, count: Option<u8>) -> (w: WireItem)
    ensures
        w == drawn(*it, count),
{
    let subtype: Option<u8> = if it.stackable {
        match count {
            Some(c) => if c >= 1 {
                Some(c)
            } else {
                Some(1)
            },
            None => Some(1),
        }
    } else if it.fluid_or_splash {
        match count {
            Some(c) => Some(c),
            None => Some(0),
        }
    } else {
        None
    };
    WireItem { client_id: it.client_id, subtype, animated: it.animated }
}

/// A placed item as an entry of a stack.
pub open spec fn stacked(it: ItemType, mi: MapItem) -> StackThing {
    StackThing { item: drawn(it, mi.count), server_id: mi.id, count: mi.count }
}

/// An entry always on top, with the order it is drawn in.
#[derive(Clone, Copy)]
pub struct TopThing {
    pub order: u8,
    pub thing: StackThing,
}

/// Put `t` behind every entry whose order is not greater.
pub open spec fn insert_by_order(s: Seq<TopThing>, t: TopThing) -> Seq<TopThing>
    decreases s.len(),
{
    if s.len() == 0 || s.last().order <= t.order {
        s.push(t)
    } else {
        insert_by_order(s.drop_last(), t).push(s.last())
    }
}

/// The known items after the first that are always on top, by drawing order, those of
/// equal order as the file lists them.
pub open spec fn tops(items: Seq<MapItem>, dict: Map<u16, ItemType>) -> Seq<TopThing>
    decreases items.len(),
{
    if items.len() <= 1 {
        Seq::empty()
    } else {
        let rest = tops(items.drop_last(), dict);
        let mi = items.last();
        if dict.contains_key(mi.id) && dict[mi.id].always_on_top {
            insert_by_order(
                rest,
                TopThing { order: dict[mi.id].top_order, thing: stacked(dict[mi.id], mi) },
            )
        } else {
            rest
        }
    }
}

/// The known items after the first that are not always on top, as the file lists them.
pub open spec fn downs(items: Seq<MapItem>, dict: Map<u16, ItemType>) -> Seq<StackThing>
    decreases items.len(),
{
    if items.len() <= 1 {
        Seq::empty()
    } else {
        let rest = downs(items.drop_last(), dict);
        let mi = items.last();
        if dict.contains_key(mi.id) && !dict[mi.id].always_on_top {
            rest.push(stacked(dict[mi.id], mi))
        } else {
            rest
        }
    }
}

/// The first ten of `s`, or all of it.
pub open spec fn first_ten(s: Seq<StackThing>) -> Seq<StackThing> {
    s.take(if s.len() <= MAX_TILE_THINGS {
        s.len() as int
    } else {
        MAX_TILE_THINGS as int
    })
}

/// The stack of a tile: its ground, its top items and its other items, ten things at most.
/// A tile whose first item is missing or unknown has none.
pub open spec fn stack_of(items: Seq<MapItem>, dict: Map<u16, ItemType>) -> Option<TileModel> {
    if items.len() == 0 || !dict.contains_key(items[0].id) {
        None
    } else {
        let top = tops(items, dict);
        let below = seq![stacked(dict[items[0].id], items[0])] + top.map_values(
            |t: TopThing| t.thing,
        );
        Some(
            TileModel {
                things: first_ten(below + downs(items, dict)),
                pre: if 1 + top.len() <= MAX_TILE_THINGS {
                    1 + top.len()
                } else {
                    MAX_TILE_THINGS as nat
                },
            },
        )
    }
}

fn insert_top(v: &mut Vec<TopThing>, t: TopThing)
    ensures
        final(v)@ == insert_by_order(old(v)@, t),
{
    let mut i: usize = v.len();
    assert(v@.take(i as int) =~= v@);
    assert(insert_by_order(v@, t) + v@.skip(i as int) =~= insert_by_order(v@, t));
    while i > 0 && v[i - 1].order > t.order
        invariant
            i <= v@.len(),
            v@ == old(v)@,
            insert_by_order(v@, t) == insert_by_order(v@.take(i as int), t) + v@.skip(i as int),
        decreases i,
    {
        let ghost head = v@.take(i as int);
        assert(head.drop_last() =~= v@.take(i - 1));
        assert(insert_by_order(v@.take(i - 1), t).push(v@[i - 1]) + v@.skip(i as int)
            =~= insert_by_order(v@.take(i - 1), t) + v@.skip(i - 1));
        i = i - 1;
    }
    v.insert(i, t);
    assert(v@ =~= old(v)@.take(i as int).push(t) + old(v)@.skip(i as int));
}

fn build_stack(items: &Vec<MapItem>, dict: &HashMap<u16, ItemType>) -> (r: Option<TileStack>)
    ensures
        match r {
            Some(st) => stack_of(items@, dict@) == Some(st@),
            None => stack_of(items@, dict@) is None,
        },
{
    if items.len() == 0 {
        return None;
    }
    let ground: StackThing = match dict.get(&items[0].id) {
        Some(it) => StackThing {
            item: wire_item(it, items[0].count),
            server_id: items[0].id,
            count: items[0].count,
        },
        None => {
            return None;
        },
    };
    let mut top: Vec<TopThing> = Vec::new();
    let mut down: Vec<StackThing> = Vec::new();
    let mut i: usize = 1;
    while i < items.len()
        invariant
            1 <= i <= items@.len(),
            top@ == tops(items@.take(i as int), dict@),
            down@ == downs(items@.take(i as int), dict@),
        decreases items@.len() - i,
    {
        let mi = items[i];
        assert(items@.take(i + 1).drop_last() =~= items@.take(i as int));
        match dict.get(&mi.id) {
            Some(it) => {
                let thing = StackThing {
                    item: wire_item(it, mi.count),
                    server_id: mi.id,
                    count: mi.count,
                };
                if it.always_on_top {
                    insert_top(&mut top, TopThing { order: it.top_order, thing });
                } else {
                    down.push(thing);
                }
            },
            None => {},
        }
        i = i + 1;
    }
    assert(items@.take(items@.len() as int) =~= items@);
    let mut things: Vec<StackThing> = Vec::new();
    things.push(ground);
    let ghost heads = top@.map_values(|t: TopThing| t.thing);
    let mut j: usize = 0;
    while j < top.len()
        invariant
            j <= top@.len(),
            heads == top@.map_values(|t: TopThing| t.thing),
            things@ == seq![ground] + heads.take(j as int),
        decreases top@.len() - j,
    {
        things.push(top[j].thing);
        assert(heads.take(j + 1) =~= heads.take(j as int).push(top@[j as int].thing));
        assert(things@ =~= seq![ground] + heads.take(j + 1));
        j = j + 1;
    }
    assert(heads.take(heads.len() as int) =~= heads);
    let below: usize = things.len();
    let ghost base = things@;
    let mut k: usize = 0;
    while k < down.len()
        invariant
            k <= down@.len(),
            things@ == base + down@.take(k as int),
        decreases down@.len() - k,
    {
        things.push(down[k]);
        assert(down@.take(k + 1) =~= down@.take(k as int).push(down@[k as int]));
        assert(things@ =~= base + down@.take(k + 1));
        k = k + 1;
    }
    assert(down@.take(down@.len() as int) =~= down@);
    things.truncate(MAX_TILE_THINGS);
    assert(things@ =~= first_ten(base + down@));
    let pre_creature_len: usize = if below <= MAX_TILE_THINGS {
        below
    } else {
        MAX_TILE_THINGS
    };
    Some(TileStack { things, pre_creature_len })
}

/// The stack at `p`: that of the last tile there which has one.
pub open spec fn stack_in(
    tiles: Seq<MapTile>,
    dict: Map<u16, ItemType>,
    p: Position,
) -> Option<TileModel>
    decreases tiles.len(),
{
    if tiles.len() == 0 {
        None
    } else if tiles.last().at() == p && stack_of(tiles.last().items@, dict) is Some {
        stack_of(tiles.last().items@, dict)
    } else {
        stack_in(tiles.drop_last(), dict, p)
    }
}

/// Some known item of the tile is block-solid.
pub open spec fn solid(items: Seq<MapItem>, dict: Map<u16, ItemType>) -> bool {
    exists|i: int|
        0 <= i < items.len() && dict.contains_key((#[trigger] items[i]).id) && dict[items[i].id].flags
            & FLAG_BLOCK_SOLID != 0
}

/// Some known item of the tile stops projectiles.
pub open spec fn opaque(items: Seq<MapItem>, dict: Map<u16, ItemType>) -> bool {
    exists|i: int|
        0 <= i < items.len() && dict.contains_key((#[trigger] items[i]).id)
            && dict[items[i].id].block_projectile
}

/// The floor changes of a tile's known items together.
pub open spec fn floor_of(items: Seq<MapItem>, dict: Map<u16, ItemType>) -> FloorChange
    decreases items.len(),
{
    if items.len() == 0 {
        FloorChange::nowhere()
    } else {
        let rest = floor_of(items.drop_last(), dict);
        if dict.contains_key(items.last().id) {
            rest.or(dict[items.last().id].floor_change)
        } else {
            rest
        }
    }
}

/// How many of a tile's known items raise it.
pub open spec fn height_of(items: Seq<MapItem>, dict: Map<u16, ItemType>) -> nat
    decreases items.len(),
{
    if items.len() == 0 {
        0
    } else {
        let rest = height_of(items.drop_last(), dict);
        if dict.contains_key(items.last().id) && dict[items.last().id].has_height {
            rest + 1
        } else {
            rest
        }
    }
}

/// The floor change at `p`: that of the last tile there which leads anywhere.
pub open spec fn floor_in(
    tiles: Seq<MapTile>,
    dict: Map<u16, ItemType>,
    p: Position,
) -> FloorChange
    decreases tiles.len(),
{
    if tiles.len() == 0 {
        FloorChange::nowhere()
    } else if tiles.last().at() == p && floor_of(tiles.last().items@, dict)
        != FloorChange::nowhere() {
        floor_of(tiles.last().items@, dict)
    } else {
        floor_in(tiles.drop_last(), dict, p)
    }
}

/// The height at `p`: that of the last tile there which is raised, 255 at most.
pub open spec fn height_in(tiles: Seq<MapTile>, dict: Map<u16, ItemType>, p: Position) -> u8
    decreases tiles.len(),
{
    if tiles.len() == 0 {
        0
    } else if tiles.last().at() == p && height_of(tiles.last().items@, dict) > 0 {
        let h = height_of(tiles.last().items@, dict);
        if h <= 255 {
            h as u8
        } else {
            255
        }
    } else {
        height_in(tiles.drop_last(), dict, p)
    }
}

/// Some tile at `p` satisfies `f`.
pub open spec fn any_tile(tiles: Seq<MapTile>, p: Position, f: spec_fn(MapTile) -> bool) -> bool {
    exists|i: int| 0 <= i < tiles.len() && (#[trigger] tiles[i]).at() == p && f(tiles[i])
}

/// The first town with this exact name.
pub open spec fn town_named(towns: Seq<Town>, name: Seq<char>) -> Option<Town>
    decreases towns.len(),
{
    if towns.len() == 0 {
        None
    } else if towns[0].name@ == name {
        Some(towns[0])
    } else {
        town_named(towns.drop_first(), name)
    }
}

/// The spawn point: the temple of the named town, else of the first town, else the fallback.
pub open spec fn spawn_of(towns: Seq<Town>, name: Option<Seq<char>>) -> Position {
    match name {
        Some(n) if town_named(towns, n) is Some => town_named(towns, n)->0.temple(),
        _ => if towns.len() > 0 {
            towns[0].temple()
        } else {
            fallback_spawn()
        },
    }
}

/// The catalogue entry of an item type.
pub open spec fn meta_of(it: ItemType, xml: Map<u16, ItemAttrs>) -> ItemMetaModel {
    let known = xml.contains_key(it.server_id);
    let a = xml[it.server_id];
    ItemMetaModel {
        name: if known { a.name@ } else { Seq::empty() },
        article: if known { a.article@ } else { Seq::empty() },
        plural: if known { a.plural@ } else { Seq::empty() },
        description: if known { a.description@ } else { Seq::empty() },
        weight: if known { a.weight } else { 0 },
        show_count: if known { a.show_count } else { true },
        stackable: it.stackable,
        pickupable: it.pickupable,
        client_id: it.client_id,
        animated: it.animated,
        moveable: it.moveable,
        equip_slot: if known { EquipSlot::of_types(a.slot_type@, a.weapon_type@) } else { None },
        is_container: it.container,
        container_capacity: if known { a.container_size } else { 0 },
    }
}

/// The immutable world map and its item catalogue.
#[derive(Debug)]
pub struct StaticMap {
    tiles: HashMap<u64, TileStack>,
    blocked: HashSet<u64>,
    /// Tiles that stop projectiles and the line of sight.
    block_projectile: HashSet<u64>,
    floor_change: HashMap<u64, FloorChange>,
    tile_height: HashMap<u64, u8>,
    protection_zone: HashSet<u64>,
    spawn: Position,
    towns: Vec<Town>,
    /// Empty until `load_item_metadata` runs.
    item_meta: HashMap<u16, ItemMeta>,
}

impl StaticMap {
    /// The stack on the tile at `p`; `None` where there is no ground.
    pub closed spec fn stack_at(&self, p: Position) -> Option<TileModel> {
        if self.tiles@.contains_key(tile_key(p)) {
            Some(self.tiles@[tile_key(p)]@)
        } else {
            None
        }
    }

    pub closed spec fn blocked_at(&self, p: Position) -> bool {
        self.blocked@.contains(tile_key(p))
    }

    pub closed spec fn opaque_at(&self, p: Position) -> bool {
        self.block_projectile@.contains(tile_key(p))
    }

    pub closed spec fn floor_at(&self, p: Position) -> FloorChange {
        if self.floor_change@.contains_key(tile_key(p)) {
            self.floor_change@[tile_key(p)]
        } else {
            FloorChange::nowhere()
        }
    }

    pub closed spec fn height_at(&self, p: Position) -> u8 {
        if self.tile_height@.contains_key(tile_key(p)) {
            self.tile_height@[tile_key(p)]
        } else {
            0
        }
    }

    pub closed spec fn zone_at(&self, p: Position) -> bool {
        self.protection_zone@.contains(tile_key(p))
    }

    pub closed spec fn spawn_point(&self) -> Position {
        self.spawn
    }

    pub closed spec fn town_list(&self) -> Seq<Town> {
        self.towns@
    }

    /// The catalogue entry of item type `server_id`.
    pub closed spec fn meta_at(&self, server_id: u16) -> Option<ItemMetaModel> {
        if self.item_meta@.contains_key(server_id) {
            Some(self.item_meta@[server_id]@)
        } else {
            None
        }
    }

    /// Every stack is split inside its length.
    pub open spec fn wf(&self) -> bool {
        forall|p: Position|
            #![trigger self.stack_at(p)]
            self.stack_at(p) matches Some(st) ==> st.wf() && st.things.len() <= MAX_TILE_THINGS
    }

    /// A tile with ground and nothing solid on it.
    pub open spec fn walkable(&self, p: Position) -> bool {
        self.stack_at(p) is Some && !self.blocked_at(p)
    }

    /// What the tiles of a map file say of the tile at `p`.
    pub open spec fn agrees(&self, tiles: Seq<MapTile>, dict: Map<u16, ItemType>, p: Position) -> bool {
        &&& self.stack_at(p) == stack_in(tiles, dict, p)
        &&& self.blocked_at(p) == any_tile(tiles, p, |t: MapTile| solid(t.items@, dict))
        &&& self.opaque_at(p) == any_tile(tiles, p, |t: MapTile| opaque(t.items@, dict))
        &&& self.floor_at(p) == floor_in(tiles, dict, p)
        &&& self.height_at(p) == height_in(tiles, dict, p)
        &&& self.zone_at(p) == any_tile(
            tiles,
            p,
            |t: MapTile| t.flags & TILEFLAG_PROTECTIONZONE != 0,
        )
    }

    fn empty() -> (m: StaticMap)
        ensures
            forall|p: Position| #![trigger m.stack_at(p)] m.agrees(Seq::empty(), Map::empty(), p),
            m.item_meta@ == Map::<u16, ItemMeta>::empty(),
    {
        let m = StaticMap {
            tiles: HashMap::new(),
            blocked: HashSet::new(),
            block_projectile: HashSet::new(),
            floor_change: HashMap::new(),
            tile_height: HashMap::new(),
            protection_zone: HashSet::new(),
            spawn: Position { x: 1000, y: 1000, z: 7 },
            towns: Vec::new(),
            item_meta: HashMap::new(),
        };
        m
    }

    /// Take over one tile of the map file.
    fn add_tile(&mut self, tile: &MapTile, dict: &HashMap<u16, ItemType>)
        ensures
            final(self).town_list() == old(self).town_list(),
            final(self).item_meta@ == old(self).item_meta@,
            forall|p: Position|
                #![trigger final(self).stack_at(p)]
                final(self).stack_at(p) == (if tile.at() == p && stack_of(tile.items@, dict@) is Some {
                    stack_of(tile.items@, dict@)
                } else {
                    old(self).stack_at(p)
                }),
            forall|p: Position|
                #![trigger final(self).blocked_at(p)]
                final(self).blocked_at(p) == (old(self).blocked_at(p) || (tile.at() == p && solid(
                    tile.items@,
                    dict@,
                ))),
            forall|p: Position|
                #![trigger final(self).opaque_at(p)]
                final(self).opaque_at(p) == (old(self).opaque_at(p) || (tile.at() == p && opaque(
                    tile.items@,
                    dict@,
                ))),
            forall|p: Position|
                #![trigger final(self).floor_at(p)]
                final(self).floor_at(p) == (if tile.at() == p && floor_of(tile.items@, dict@)
                    != FloorChange::nowhere() {
                    floor_of(tile.items@, dict@)
                } else {
                    old(self).floor_at(p)
                }),
            forall|p: Position|
                #![trigger final(self).height_at(p)]
                final(self).height_at(p) == (if tile.at() == p && height_of(tile.items@, dict@) > 0 {
                    if height_of(tile.items@, dict@) <= 255 {
                        height_of(tile.items@, dict@) as u8
                    } else {
                        255
                    }
                } else {
                    old(self).height_at(p)
                }),
            forall|p: Position|
                #![trigger final(self).zone_at(p)]
                final(self).zone_at(p) == (old(self).zone_at(p) || (tile.at() == p && tile.flags
                    & TILEFLAG_PROTECTIONZONE != 0)),
    {
        let at = Position { x: tile.x, y: tile.y, z: tile.z };
        let key = key_of(at);
        proof {
            assert forall|p: Position| tile_key(p) == tile_key(at) implies p == at by {
                law_tile_key_injective(p, at);
            }
        }
        match build_stack(&tile.items, dict) {
            Some(st) => {
                self.tiles.insert(key, st);
            },
            None => {},
        }
        let ghost items = tile.items@;
        let ghost d = dict@;
        let mut is_solid = false;
        let mut is_opaque = false;
        let mut fc = FloorChange::none();
        let mut height: u8 = 0;
        let mut i: usize = 0;
        while i < tile.items.len()
            invariant
                i <= tile.items@.len(),
                items == tile.items@,
                d == dict@,
                is_solid == solid(items.take(i as int), d),
                is_opaque == opaque(items.take(i as int), d),
                fc == floor_of(items.take(i as int), d),
                height as nat == (if height_of(items.take(i as int), d) <= 255 {
                    height_of(items.take(i as int), d)
                } else {
                    255
                }),
            decreases tile.items@.len() - i,
        {
            let mi = tile.items[i];
            let ghost prev = items.take(i as int);
            let ghost next = items.take(i + 1);
            proof {
                assert(next.drop_last() =~= prev);
                assert(next =~= prev.push(mi));
                assert(forall|j: int| 0 <= j < prev.len() ==> prev[j] == #[trigger] next[j]);
                assert(next[i as int] == mi);
                lemma_any_push(prev, mi, d);
            }
            match dict.get(&mi.id) {
                Some(it) => {
                    if it.flags & FLAG_BLOCK_SOLID != 0 {
                        is_solid = true;
                    }
                    fc = fc.union(it.floor_change);
                    if it.has_height {
                        height = height.saturating_add(1);
                    }
                    if it.block_projectile {
                        is_opaque = true;
                    }
                },
                None => {},
            }
            i = i + 1;
        }
        assert(items.take(items.len() as int) =~= items);
        if is_solid {
            self.blocked.insert(key);
        }
        if is_opaque {
            self.block_projectile.insert(key);
        }
        if !fc.is_empty() {
            self.floor_change.insert(key, fc);
        }
        if height > 0 {
            self.tile_height.insert(key, height);
        }
        if tile.flags & TILEFLAG_PROTECTIONZONE != 0 {
            self.protection_zone.insert(key);
        }
    }
}

proof fn lemma_any_push(items: Seq<MapItem>, mi: MapItem, dict: Map<u16, ItemType>)
    ensures
        solid(items.push(mi), dict) == (solid(items, dict) || (dict.contains_key(mi.id)
            && dict[mi.id].flags & FLAG_BLOCK_SOLID != 0)),
        opaque(items.push(mi), dict) == (opaque(items, dict) || (dict.contains_key(mi.id)
            && dict[mi.id].block_projectile)),
{
    let next = items.push(mi);
    assert(forall|j: int| 0 <= j < items.len() ==> #[trigger] items[j] == next[j]);
    assert(next[items.len() as int] == mi);
    if solid(items, dict) {
        let j = choose|j: int|
            0 <= j < items.len() && dict.contains_key((#[trigger] items[j]).id)
                && dict[items[j].id].flags & FLAG_BLOCK_SOLID != 0;
        assert(next[j] == items[j]);
    }
    if opaque(items, dict) {
        let j = choose|j: int|
            0 <= j < items.len() && dict.contains_key((#[trigger] items[j]).id)
                && dict[items[j].id].block_projectile;
        assert(next[j] == items[j]);
    }
    if solid(next, dict) {
        let j = choose|j: int|
            0 <= j < next.len() && dict.contains_key((#[trigger] next[j]).id)
                && dict[next[j].id].flags & FLAG_BLOCK_SOLID != 0;
        if j < items.len() {
            assert(next[j] == items[j]);
        }
    }
    if opaque(next, dict) {
        let j = choose|j: int|
            0 <= j < next.len() && dict.contains_key((#[trigger] next[j]).id)
                && dict[next[j].id].block_projectile;
        if j < items.len() {
            assert(next[j] == items[j]);
        }
    }
}

proof fn lemma_any_tile_push(
    tiles: Seq<MapTile>,
    t: MapTile,
    p: Position,
    f: spec_fn(MapTile) -> bool,
)
    ensures
        any_tile(tiles.push(t), p, f) == (any_tile(tiles, p, f) || (t.at() == p && f(t))),
{
    let next = tiles.push(t);
    assert(forall|j: int| 0 <= j < tiles.len() ==> #[trigger] tiles[j] == next[j]);
    assert(next[tiles.len() as int] == t);
    if any_tile(tiles, p, f) {
        let j = choose|j: int|
            0 <= j < tiles.len() && (#[trigger] tiles[j]).at() == p && f(tiles[j]);
        assert(next[j] == tiles[j]);
    }
    if any_tile(next, p, f) {
        let j = choose|j: int|
            0 <= j < next.len() && (#[trigger] next[j]).at() == p && f(next[j]);
        if j < tiles.len() {
            assert(next[j] == tiles[j]);
        }
    }
}

proof fn lemma_stack_in_wf(tiles: Seq<MapTile>, dict: Map<u16, ItemType>, p: Position)
    ensures
        stack_in(tiles, dict, p) matches Some(st) ==> st.wf() && 0 < st.pre && st.things.len()
            <= MAX_TILE_THINGS,
    decreases tiles.len(),
{
    if tiles.len() > 0 {
        lemma_stack_in_wf(tiles.drop_last(), dict, p);
    }
}

/// The first town with this exact name.
fn find_town(towns: &Vec<Town>, name: &str) -> (r: Option<usize>)
    ensures
        match r {
            Some(i) => i < towns@.len() && town_named(towns@, name@) == Some(towns@[i as int]),
            None => town_named(towns@, name@) is None,
        },
{
    let mut i: usize = 0;
    assert(towns@.skip(0) =~= towns@);
    while i < towns.len()
        invariant
            i <= towns@.len(),
            town_named(towns@, name@) == town_named(towns@.skip(i as int), name@),
        decreases towns@.len() - i,
    {
        let ghost rest = towns@.skip(i as int);
        assert(rest.drop_first() =~= towns@.skip(i + 1));
        if *towns[i].name.as_str() == *name {
            return Some(i);
        }
        i = i + 1;
    }
    None
}

impl StaticMap {
    /// Build from a parsed map and item dictionary, with the spawn at the temple of the
    /// first town (or a fixed fallback). See [`StaticMap::from_formats_with_spawn`] to
    /// target a specific town by name.
    pub fn from_formats(map: &OtbmMap, items: &ItemsOtb) -> (m: StaticMap)
        ensures
            m.wf(),
            forall|p: Position|
                #![trigger m.stack_at(p)]
                m.agrees(map.tiles@, dictionary(items.items@), p),
            m.spawn_point() == spawn_of(map.towns@, None),
            m.town_list() == map.towns@,
            forall|sid: u16| (#[trigger] m.meta_at(sid)) is None,
    {
        StaticMap::from_formats_with_spawn(map, items, None)
    }

    /// Build from a parsed map and item dictionary. Each tile becomes a stack in drawing
    /// order: ground (the first item), then the always-on-top items by their order, then
    /// the other items, capped at ten things.
    ///
    /// `spawn_town` names the town whose temple becomes the spawn point. When it is
    /// `None`, unknown, or the map has no towns, the spawn falls back to the first
    /// town and finally to a fixed position.
    pub fn from_formats_with_spawn(
        map: &OtbmMap,
        items: &ItemsOtb,
        spawn_town: Option<&str>,
    ) -> (m: StaticMap)
        ensures
            m.wf(),
            forall|p: Position|
                #![trigger m.stack_at(p)]
                m.agrees(map.tiles@, dictionary(items.items@), p),
            m.spawn_point() == spawn_of(
                map.towns@,
                match spawn_town {
                    Some(n) => Some(n@),
                    None => None,
                },
            ),
            m.town_list() == map.towns@,
            forall|sid: u16| (#[trigger] m.meta_at(sid)) is None,
    {
        let dict = build_dictionary(&items.items);
        let mut m = StaticMap::empty();
        let ghost d = dict@;
        let mut i: usize = 0;
        while i < map.tiles.len()
            invariant
                i <= map.tiles@.len(),
                d == dict@,
                m.item_meta@ == Map::<u16, ItemMeta>::empty(),
                forall|p: Position|
                    #![trigger m.stack_at(p)]
                    m.agrees(map.tiles@.take(i as int), d, p),
            decreases map.tiles@.len() - i,
        {
            let ghost before = m;
            let ghost prev = map.tiles@.take(i as int);
            let ghost next = map.tiles@.take(i + 1);
            let ghost t = map.tiles@[i as int];
            m.add_tile(&map.tiles[i], &dict);
            proof {
                assert(next.drop_last() =~= prev);
                assert(next =~= prev.push(t));
                assert forall|p: Position| #![trigger m.stack_at(p)] m.agrees(next, d, p) by {
                    assert(before.stack_at(p) == before.stack_at(p));
                    assert(before.agrees(prev, d, p));
                    lemma_any_tile_push(prev, t, p, |t: MapTile| solid(t.items@, d));
                    lemma_any_tile_push(prev, t, p, |t: MapTile| opaque(t.items@, d));
                    lemma_any_tile_push(
                        prev,
                        t,
                        p,
                        |t: MapTile| t.flags & TILEFLAG_PROTECTIONZONE != 0,
                    );
                    assert(m.blocked_at(p) == (before.blocked_at(p) || (t.at() == p && solid(t.items@, d))));
                    assert(m.opaque_at(p) == (before.opaque_at(p) || (t.at() == p && opaque(t.items@, d))));
                }
            }
            i = i + 1;
        }
        assert(map.tiles@.take(map.tiles@.len() as int) =~= map.tiles@);
        let ghost built = m;
        let mut towns: Vec<Town> = Vec::new();
        let mut j: usize = 0;
        while j < map.towns.len()
            invariant
                j <= map.towns@.len(),
                towns@ == map.towns@.take(j as int),
            decreases map.towns@.len() - j,
        {
            towns.push(map.towns[j].copy());
            assert(map.towns@.take(j + 1) =~= map.towns@.take(j as int).push(map.towns@[j as int]));
            j = j + 1;
        }
        assert(map.towns@.take(map.towns@.len() as int) =~= map.towns@);
        let named: Option<usize> = match spawn_town {
            Some(name) => find_town(&towns, name),
            None => None,
        };
        m.spawn = match named {
            Some(k) => Position { x: towns[k].x, y: towns[k].y, z: towns[k].z },
            None => if towns.len() > 0 {
                Position { x: towns[0].x, y: towns[0].y, z: towns[0].z }
            } else {
                Position { x: 1000, y: 1000, z: 7 }
            },
        };
        m.towns = towns;
        proof {
            assert forall|p: Position|
                #![trigger m.stack_at(p)]
                m.agrees(map.tiles@, d, p) && (m.stack_at(p) matches Some(st) ==> st.wf()
                    && st.things.len() <= MAX_TILE_THINGS) by {
                assert(built.stack_at(p) == m.stack_at(p));
                assert(built.agrees(map.tiles@, d, p));
                lemma_stack_in_wf(map.tiles@, d, p);
            }
        }
        m
    }

    /// Fill the item catalogue from the item dictionary and the item attributes.
    pub fn load_item_metadata(&mut self, otb: &ItemsOtb, xml: &ItemsXml)
        requires
            old(self).wf(),
        ensures
            final(self).wf(),
            final(self).spawn_point() == old(self).spawn_point(),
            final(self).town_list() == old(self).town_list(),
            forall|p: Position|
                #![trigger final(self).stack_at(p)]
                final(self).stack_at(p) == old(self).stack_at(p) && final(self).blocked_at(p)
                    == old(self).blocked_at(p) && final(self).opaque_at(p) == old(self).opaque_at(p)
                    && final(self).floor_at(p) == old(self).floor_at(p) && final(self).height_at(p)
                    == old(self).height_at(p) && final(self).zone_at(p) == old(self).zone_at(p),
            forall|sid: u16|
                #![trigger final(self).meta_at(sid)]
                final(self).meta_at(sid) == (if dictionary(otb.items@).contains_key(sid) {
                    Some(meta_of(dictionary(otb.items@)[sid], xml.items@))
                } else {
                    old(self).meta_at(sid)
                }),
    {
        let mut i: usize = 0;
        while i < otb.items.len()
            invariant
                i <= otb.items@.len(),
                self.tiles@ == old(self).tiles@,
                self.blocked@ == old(self).blocked@,
                self.block_projectile@ == old(self).block_projectile@,
                self.floor_change@ == old(self).floor_change@,
                self.tile_height@ == old(self).tile_height@,
                self.protection_zone@ == old(self).protection_zone@,
                self.spawn == old(self).spawn,
                self.towns@ == old(self).towns@,
                forall|sid: u16|
                    #![trigger self.meta_at(sid)]
                    self.meta_at(sid) == (if dictionary(otb.items@.take(i as int)).contains_key(sid) {
                        Some(meta_of(dictionary(otb.items@.take(i as int))[sid], xml.items@))
                    } else {
                        old(self).meta_at(sid)
                    }),
            decreases otb.items@.len() - i,
        {
            let it = otb.items[i];
            assert(otb.items@.take(i + 1).drop_last() =~= otb.items@.take(i as int));
            let meta = match xml.items.get(&it.server_id) {
                Some(a) => ItemMeta {
                    name: a.name.clone(),
                    article: a.article.clone(),
                    plural: a.plural.clone(),
                    description: a.description.clone(),
                    weight: a.weight,
                    show_count: a.show_count,
                    stackable: it.stackable,
                    pickupable: it.pickupable,
                    client_id: it.client_id,
                    animated: it.animated,
                    moveable: it.moveable,
                    equip_slot: EquipSlot::from_xml(a.slot_type.as_str(), a.weapon_type.as_str()),
                    is_container: it.container,
                    container_capacity: a.container_size,
                },
                None => ItemMeta {
                    name: String::new(),
                    article: String::new(),
                    plural: String::new(),
                    description: String::new(),
                    weight: 0,
                    show_count: true,
                    stackable: it.stackable,
                    pickupable: it.pickupable,
                    client_id: it.client_id,
                    animated: it.animated,
                    moveable: it.moveable,
                    equip_slot: None,
                    is_container: it.container,
                    container_capacity: 0,
                },
            };
            assert(meta@ == meta_of(it, xml.items@));
            let ghost before = *self;
            self.item_meta.insert(it.server_id, meta);
            proof {
                assert forall|sid: u16| #![trigger self.meta_at(sid)] self.meta_at(sid) == (if dictionary(
                    otb.items@.take(i + 1),
                ).contains_key(sid) {
                    Some(meta_of(dictionary(otb.items@.take(i + 1))[sid], xml.items@))
                } else {
                    old(self).meta_at(sid)
                }) by {
                    assert(before.meta_at(sid) == before.meta_at(sid));
                }
            }
            i = i + 1;
        }
        assert(otb.items@.take(otb.items@.len() as int) =~= otb.items@);
        proof {
            assert forall|p: Position| #![trigger self.stack_at(p)] self.stack_at(p) == old(
                self,
            ).stack_at(p) && self.blocked_at(p) == old(self).blocked_at(p) && self.opaque_at(p)
                == old(self).opaque_at(p) && self.floor_at(p) == old(self).floor_at(p)
                && self.height_at(p) == old(self).height_at(p) && self.zone_at(p) == old(
                self,
            ).zone_at(p) by {
                assert(old(self).stack_at(p) == old(self).stack_at(p));
            }
        }
    }
}

/// The first town with this id.
pub open spec fn town_with_id(towns: Seq<Town>, id: u32) -> Option<Town>
    decreases towns.len(),
{
    if towns.len() == 0 {
        None
    } else if towns[0].id == id {
        Some(towns[0])
    } else {
        town_with_id(towns.drop_first(), id)
    }
}

/// The first town with this name when ASCII case is ignored.
pub open spec fn town_called(towns: Seq<Town>, name: Seq<char>) -> Option<Town>
    decreases towns.len(),
{
    if towns.len() == 0 {
        None
    } else if ascii_lowered(towns[0].name@) == ascii_lowered(name) {
        Some(towns[0])
    } else {
        town_called(towns.drop_first(), name)
    }
}

impl StaticMap {
    /// The item at stack index `idx` on `p`.
    pub open spec fn thing_at(&self, p: Position, idx: int) -> Option<StackThing> {
        match self.stack_at(p) {
            Some(st) if 0 <= idx < st.things.len() => Some(st.things[idx]),
            _ => None,
        }
    }

    /// How many of a tile's items lie below a creature.
    pub open spec fn pre_at(&self, p: Position) -> nat {
        match self.stack_at(p) {
            Some(st) => st.pre,
            None => 0,
        }
    }

    /// The catalogue entry of `server_id`, or `None` if it is not catalogued.
    pub fn item_meta(&self, server_id: u16) -> (r: Option<&ItemMeta>)
        ensures
            match r {
                Some(m) => self.meta_at(server_id) == Some(m@),
                None => self.meta_at(server_id) is None,
            },
    {
        self.item_meta.get(&server_id)
    }

    /// Temple position of the town with the given case-insensitive name, if any.
    pub fn town_temple_by_name(&self, name: &str) -> (r: Option<Position>)
        ensures
            r == (match town_called(self.town_list(), name@) {
                Some(t) => Some(t.temple()),
                None => None,
            }),
    {
        let mut i: usize = 0;
        assert(self.towns@.skip(0) =~= self.towns@);
        while i < self.towns.len()
            invariant
                i <= self.towns@.len(),
                town_called(self.towns@, name@) == town_called(self.towns@.skip(i as int), name@),
            decreases self.towns@.len() - i,
        {
            assert(self.towns@.skip(i as int).drop_first() =~= self.towns@.skip(i + 1));
            let t = &self.towns[i];
            if eq_ignore_ascii_case(t.name.as_str(), name) {
                return Some(Position { x: t.x, y: t.y, z: t.z });
            }
            i = i + 1;
        }
        None
    }

    /// Temple position of the town with the given id, if any.
    pub fn town_temple_by_id(&self, id: u32) -> (r: Option<Position>)
        ensures
            r == (match town_with_id(self.town_list(), id) {
                Some(t) => Some(t.temple()),
                None => None,
            }),
    {
        let mut i: usize = 0;
        assert(self.towns@.skip(0) =~= self.towns@);
        while i < self.towns.len()
            invariant
                i <= self.towns@.len(),
                town_with_id(self.towns@, id) == town_with_id(self.towns@.skip(i as int), id),
            decreases self.towns@.len() - i,
        {
            assert(self.towns@.skip(i as int).drop_first() =~= self.towns@.skip(i + 1));
            let t = &self.towns[i];
            if t.id == id {
                return Some(Position { x: t.x, y: t.y, z: t.z });
            }
            i = i + 1;
        }
        None
    }

    /// Item type `sid` is catalogued under this name, singular or plural.
    pub open spec fn item_called(&self, sid: u16, name: Seq<char>) -> bool {
        self.meta_at(sid) matches Some(m) && m.called(name)
    }

    /// The lowest item type from `k` on that is catalogued under this name.
    pub open spec fn called_from(&self, name: Seq<char>, k: int) -> Option<u16>
        decreases 0x1_0000 - k,
    {
        if k < 0 || k > 0xFFFF {
            None
        } else if self.item_called(k as u16, name) {
            Some(k as u16)
        } else {
            self.called_from(name, k + 1)
        }
    }

    /// Find an item's server id by case-insensitive name (singular or plural).
    /// Returns the lowest matching server id when several items share a name.
    pub fn find_item_id_by_name(&self, name: &str) -> (r: Option<u16>)
        ensures
            match r {
                Some(sid) => self.item_called(sid, name@) && forall|k: u16|
                    k < sid ==> !self.item_called(k, name@),
                None => forall|k: u16| !self.item_called(k, name@),
            },
            r == self.called_from(name@, 0),
    {
        let mut sid: u32 = 0;
        while sid <= 0xFFFF
            invariant
                sid <= 0x1_0000,
                forall|k: u16| k < sid ==> !self.item_called(k, name@),
                self.called_from(name@, 0) == self.called_from(name@, sid as int),
            decreases 0x1_0000 - sid,
        {
            match self.item_meta.get(&(sid as u16)) {
                Some(m) => {
                    if eq_ignore_ascii_case(m.name.as_str(), name) || eq_ignore_ascii_case(
                        m.plural_name().as_str(),
                        name,
                    ) {
                        return Some(sid as u16);
                    }
                },
                None => {},
            }
            sid = sid + 1;
        }
        None
    }

    /// How many of a tile's items render below a creature (ground and top items).
    pub fn tile_pre_creature_len(&self, pos: Position) -> (n: usize)
        ensures
            n == self.pre_at(pos),
    {
        match self.tiles.get(&key_of(pos)) {
            Some(st) => st.pre_creature_len,
            None => 0,
        }
    }

    /// The server id of the item at index `idx` in a tile's stack, or `None`.
    pub fn tile_item_server_id(&self, pos: Position, idx: usize) -> (r: Option<u16>)
        ensures
            r == (match self.thing_at(pos, idx as int) {
                Some(t) => Some(t.server_id),
                None => None,
            }),
    {
        match self.tiles.get(&key_of(pos)) {
            Some(st) => if idx < st.things.len() {
                Some(st.things[idx].server_id)
            } else {
                None
            },
            None => None,
        }
    }

    /// The stack count of the item at index `idx` (`None` if unspecified).
    pub fn tile_item_count(&self, pos: Position, idx: usize) -> (r: Option<u8>)
        ensures
            r == (match self.thing_at(pos, idx as int) {
                Some(t) => t.count,
                None => None,
            }),
    {
        match self.tiles.get(&key_of(pos)) {
            Some(st) => if idx < st.things.len() {
                st.things[idx].count
            } else {
                None
            },
            None => None,
        }
    }

    /// The spawn point.
    pub fn spawn(&self) -> (p: Position)
        ensures
            p == self.spawn_point(),
    {
        self.spawn
    }

    /// A tile is walkable if it has a ground stack and no block-solid item.
    pub fn is_walkable(&self, pos: Position) -> (r: bool)
        ensures
            r == self.walkable(pos),
    {
        let k = key_of(pos);
        self.tiles.contains_key(&k) && !self.blocked.contains(&k)
    }

    /// Does this tile have a ground item (is it a real, steppable tile)?
    pub fn has_ground(&self, pos: Position) -> (r: bool)
        ensures
            r == (self.stack_at(pos) is Some),
    {
        self.tiles.contains_key(&key_of(pos))
    }

    /// Is this tile flagged block-solid?
    pub fn is_blocked(&self, pos: Position) -> (r: bool)
        ensures
            r == self.blocked_at(pos),
    {
        self.blocked.contains(&key_of(pos))
    }

    /// The floor change at a coordinate that may lie outside the map.
    pub open spec fn floor_around(&self, x: int, y: int, z: int) -> FloorChange {
        match position_of(x, y, z) {
            Some(p) => self.floor_at(p),
            None => FloorChange::nowhere(),
        }
    }

    /// Floor-change flags on a tile (none if absent or out of range).
    pub fn floor_change_at(&self, x: i32, y: i32, z: i32) -> (r: FloorChange)
        ensures
            r == self.floor_around(x as int, y as int, z as int),
    {
        match to_position(x, y, z) {
            Some(p) => match self.floor_change.get(&key_of(p)) {
                Some(fc) => *fc,
                None => FloorChange::none(),
            },
            None => FloorChange::none(),
        }
    }

    /// Cumulative item height on a tile (0 if none).
    pub fn tile_height(&self, pos: Position) -> (h: u8)
        ensures
            h == self.height_at(pos),
    {
        match self.tile_height.get(&key_of(pos)) {
            Some(h) => *h,
            None => 0,
        }
    }

    /// Is there an item on this tile that stops projectiles?
    pub fn is_block_projectile(&self, pos: Position) -> (r: bool)
        ensures
            r == self.opaque_at(pos),
    {
        self.block_projectile.contains(&key_of(pos))
    }

    /// Does the tile lie in a protection zone, where combat is forbidden?
    pub fn is_protection_zone(&self, pos: Position) -> (r: bool)
        ensures
            r == self.zone_at(pos),
    {
        self.protection_zone.contains(&key_of(pos))
    }

    /// The temple a player who dies at `_pos` returns to: the one spawn point.
    pub fn temple_for(&self, _pos: Position) -> (p: Position)
        ensures
            p == self.spawn_point(),
    {
        self.spawn
    }

    /// Is this tile raised enough to step up onto?
    pub fn triggers_up(&self, pos: Position) -> (r: bool)
        ensures
            r == (self.height_at(pos) >= 3),
    {
        self.tile_height(pos) >= 3
    }

    /// Where someone who descends at `from` lands: one floor down, moved off the stairs
    /// that lead back up there.
    pub open spec fn landing_below(&self, from: Position) -> Option<Position> {
        let x = from.x as int;
        let y = from.y as int;
        let z = from.z + 1;
        if self.floor_around(x, y - 1, z).south_alt {
            position_of(x, y - 2, z)
        } else if self.floor_around(x - 1, y, z).east_alt {
            position_of(x - 2, y, z)
        } else {
            let fc = self.floor_around(x, y, z);
            let dx = (if fc.west { 1int } else { 0 }) - (if fc.east { 1int } else { 0 })
                - (if fc.east_alt { 2int } else { 0 });
            let dy = (if fc.north { 1int } else { 0 }) - (if fc.south { 1int } else { 0 })
                - (if fc.south_alt { 2int } else { 0 });
            position_of(x + dx, y + dy, z)
        }
    }

    /// Where someone who climbs at `from` lands: one floor up, in the stairs' directions.
    pub open spec fn landing_above(&self, from: Position) -> Option<Position> {
        let fc = self.floor_at(from);
        let dx = (if fc.east { 1int } else { 0 }) - (if fc.west { 1int } else { 0 })
            + (if fc.east_alt { 2int } else { 0 });
        let dy = (if fc.south { 1int } else { 0 }) - (if fc.north { 1int } else { 0 })
            + (if fc.south_alt { 2int } else { 0 });
        position_of(from.x + dx, from.y + dy, from.z - 1)
    }

    /// Where the stairs on `from` lead; `None` where there are none.
    pub open spec fn landing(&self, from: Position) -> Option<Position> {
        let fc = self.floor_at(from);
        if fc == FloorChange::nowhere() {
            None
        } else if fc.down {
            self.landing_below(from)
        } else {
            self.landing_above(from)
        }
    }

    /// Given a tile that leads to another floor, compute the landing position one floor
    /// down or, for plain directions, up. `None` for a tile without stairs or when the
    /// coordinates leave range.
    pub fn resolve_floor_change(&self, from: Position) -> (r: Option<Position>)
        ensures
            r == self.landing(from),
    {
        let mut dx: i32 = from.x as i32;
        let mut dy: i32 = from.y as i32;
        let fc = self.floor_change_at(dx, dy, from.z as i32);
        if fc.is_empty() {
            return None;
        }
        if fc.down {
            let dz: i32 = from.z as i32 + 1;
            if self.floor_change_at(dx, dy - 1, dz).south_alt {
                dy = dy - 2;
            } else if self.floor_change_at(dx - 1, dy, dz).east_alt {
                dx = dx - 2;
            } else {
                let down = self.floor_change_at(dx, dy, dz);
                if down.north {
                    dy = dy + 1;
                }
                if down.south {
                    dy = dy - 1;
                }
                if down.south_alt {
                    dy = dy - 2;
                }
                if down.east {
                    dx = dx - 1;
                }
                if down.east_alt {
                    dx = dx - 2;
                }
                if down.west {
                    dx = dx + 1;
                }
            }
            return to_position(dx, dy, dz);
        }
        let dz: i32 = from.z as i32 - 1;
        if fc.north {
            dy = dy - 1;
        }
        if fc.south {
            dy = dy + 1;
        }
        if fc.east {
            dx = dx + 1;
        }
        if fc.west {
            dx = dx - 1;
        }
        if fc.south_alt {
            dy = dy + 2;
        }
        if fc.east_alt {
            dx = dx + 2;
        }
        to_position(dx, dy, dz)
    }

    /// A copy of a tile's full stack. `None` if the tile has no ground.
    pub fn tile_stack_clone(&self, pos: Position) -> (r: Option<TileStack>)
        ensures
            match r {
                Some(st) => self.stack_at(pos) == Some(st@),
                None => self.stack_at(pos) is None,
            },
    {
        match self.tiles.get(&key_of(pos)) {
            Some(st) => Some(st.copy()),
            None => None,
        }
    }

    /// A tile's stack. `None` if the tile has no ground.
    pub fn tile(&self, pos: Position) -> (r: Option<&TileStack>)
        ensures
            match r {
                Some(st) => self.stack_at(pos) == Some(st@),
                None => self.stack_at(pos) is None,
            },
    {
        self.tiles.get(&key_of(pos))
    }

    /// The stack position of a creature on a tile of its own: above the ground and the top
    /// items, and 1 where there is no tile.
    pub open spec fn creature_base(&self, p: Position) -> nat {
        match self.stack_at(p) {
            Some(st) => st.pre,
            None => 1,
        }
    }

    /// The stack position of a creature that stands on `pos` alone.
    pub fn creature_stackpos(&self, pos: Position) -> (r: u8)
        requires
            self.wf(),
        ensures
            r == self.creature_base(pos),
    {
        match self.tiles.get(&key_of(pos)) {
            Some(st) => {
                assert(self.stack_at(pos) == Some(st@));
                st.pre_creature_len as u8
            },
            None => 1,
        }
    }

    /// Some creature other than `self_id` stands on `pos`'s column and row.
    pub open spec fn taken(creatures: Seq<(u16, u16, u32)>, self_id: u32, pos: Position) -> bool {
        exists|i: int|
            0 <= i < creatures.len() && (#[trigger] creatures[i]).2 != self_id && creatures[i].0
                == pos.x && creatures[i].1 == pos.y
    }

    /// Check whether a creature can walk onto `pos`, given other creature positions.
    /// `self_id` is excluded from the creature occupancy check.
    pub fn can_creature_walk_to(
        &self,
        self_id: u32,
        pos: Position,
        creatures: &[(u16, u16, u32)],
    ) -> (r: bool)
        ensures
            r == (self.walkable(pos) && !StaticMap::taken(creatures@, self_id, pos)),
    {
        if !self.is_walkable(pos) {
            return false;
        }
        let mut i: usize = 0;
        while i < creatures.len()
            invariant
                i <= creatures@.len(),
                forall|j: int|
                    0 <= j < i ==> !((#[trigger] creatures@[j]).2 != self_id && creatures@[j].0 == pos.x
                        && creatures@[j].1 == pos.y),
            decreases creatures@.len() - i,
        {
            let c = creatures[i];
            if c.2 != self_id && c.0 == pos.x && c.1 == pos.y {
                assert(creatures@[i as int].2 != self_id);
                return false;
            }
            i = i + 1;
        }
        true
    }
}

/// Stairs that lead north and nowhere else.
pub open spec fn leads_north() -> FloorChange {
    FloorChange { north: true, ..FloorChange::nowhere() }
}

/// Stairs that lead south and nowhere else.
pub open spec fn leads_south() -> FloorChange {
    FloorChange { south: true, ..FloorChange::nowhere() }
}

/// Stairs that lead east and nowhere else.
pub open spec fn leads_east() -> FloorChange {
    FloorChange { east: true, ..FloorChange::nowhere() }
}

/// Stairs that lead west and nowhere else.
pub open spec fn leads_west() -> FloorChange {
    FloorChange { west: true, ..FloorChange::nowhere() }
}

/// Stairs lead one floor down or, where they do not lead down, one floor up; a tile without stairs
/// leads nowhere.
pub proof fn law_stairs_change_one_floor(m: &StaticMap, from: Position)
    ensures
        m.landing(from) matches Some(to) ==> {
            &&& m.floor_at(from).down ==> to.z == from.z + 1
            &&& !m.floor_at(from).down ==> to.z == from.z - 1
        },
        m.floor_at(from) == FloorChange::nowhere() ==> m.landing(from) is None,
{
}

/// Stairs that lead up in one direction end on the tile next to them in that direction, one floor
/// up.
pub proof fn law_stairs_lead_up(m: &StaticMap, from: Position, to: Position)
    requires
        to.z == from.z - 1,
        ({
            let fc = m.floor_at(from);
            ||| fc == leads_north() && to.x == from.x && to.y == from.y - 1
            ||| fc == leads_south() && to.x == from.x && to.y == from.y + 1
            ||| fc == leads_east() && to.x == from.x + 1 && to.y == from.y
            ||| fc == leads_west() && to.x == from.x - 1 && to.y == from.y
        }),
    ensures
        m.landing(from) == Some(to),
{
}

/// Whoever descends above stairs lands on the other side of them than the one they lead to, so
/// that they can be climbed again; above no stairs it lands right below.
pub proof fn law_holes_lead_beside_stairs(m: &StaticMap, from: Position, below: Position, to: Position)
    requires
        m.floor_at(from).down,
        below == (Position { x: from.x, y: from.y, z: (from.z + 1) as u8 }),
        from.z < 255,
        to.z == below.z,
        !m.floor_around(below.x as int, below.y - 1, below.z as int).south_alt,
        !m.floor_around(below.x - 1, below.y as int, below.z as int).east_alt,
        ({
            let fc = m.floor_at(below);
            ||| fc == leads_north() && to.x == below.x && to.y == below.y + 1
            ||| fc == leads_south() && to.x == below.x && to.y == below.y - 1
            ||| fc == leads_east() && to.x == below.x - 1 && to.y == below.y
            ||| fc == leads_west() && to.x == below.x + 1 && to.y == below.y
            ||| fc == FloorChange::nowhere() && to == below
        }),
    ensures
        m.landing(from) == Some(to),
{
    assert(position_of(below.x as int, below.y as int, below.z as int) == Some(below));
    assert(m.floor_around(below.x as int, below.y as int, below.z as int) == m.floor_at(below));
}

/// A tile can be walked on if and only if it has a ground and nothing solid is on it.
pub proof fn law_walkable_tiles(m: &StaticMap, p: Position)
    ensures
        m.walkable(p) <==> m.stack_at(p) is Some && !m.blocked_at(p),
{
}

} // verus!
