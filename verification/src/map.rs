//! The immutable world map: a stack of items per tile, what each tile blocks or leads to,
//! and the catalogue of item types.

use std::collections::HashMap;
use vstd::prelude::*;

use crate::text::ascii_lowered;
use crate::wire::WireItem;
use crate::Position;

pub mod grid;
pub mod sight;
pub mod stack;

verus! {

/// How many things (items and creatures) a client draws on one tile.
pub const MAX_TILE_THINGS: usize = 10;

/// The block-solid bit of an item type's flags.
pub const FLAG_BLOCK_SOLID: u32 = 1;

/// The protection-zone bit of a tile's flags.
pub const TILEFLAG_PROTECTIONZONE: u32 = 1;

/// Which equipment slot(s) an item may occupy.
#[derive(Debug, Clone, Copy, PartialEq, Eq, Structural)]
pub enum EquipSlot {
    Head,
    Necklace,
    Backpack,
    Armor,
    Hand,
    Legs,
    Feet,
    Ring,
    Ammo,
}

impl EquipSlot {
    /// The slot that a weapon type alone implies.
    pub open spec fn of_weapon(weapon_type: Seq<char>) -> Option<EquipSlot> {
        if weapon_type == "sword"@ || weapon_type == "axe"@ || weapon_type == "club"@ || weapon_type
            == "distance"@ || weapon_type == "wand"@ || weapon_type == "shield"@ {
            Some(EquipSlot::Hand)
        } else if weapon_type == "ammunition"@ {
            Some(EquipSlot::Ammo)
        } else {
            None
        }
    }

    /// The slot of an item with this slot type and weapon type. The slot type decides; the
    /// weapon type counts only where the slot type names no slot.
    pub open spec fn of_types(slot_type: Seq<char>, weapon_type: Seq<char>) -> Option<EquipSlot> {
        if slot_type == "head"@ {
            Some(EquipSlot::Head)
        } else if slot_type == "necklace"@ {
            Some(EquipSlot::Necklace)
        } else if slot_type == "backpack"@ {
            Some(EquipSlot::Backpack)
        } else if slot_type == "body"@ {
            Some(EquipSlot::Armor)
        } else if slot_type == "legs"@ {
            Some(EquipSlot::Legs)
        } else if slot_type == "feet"@ {
            Some(EquipSlot::Feet)
        } else if slot_type == "ring"@ {
            Some(EquipSlot::Ring)
        } else if slot_type == "ammo"@ {
            Some(EquipSlot::Ammo)
        } else if slot_type == "two-handed"@ {
            Some(EquipSlot::Hand)
        } else {
            EquipSlot::of_weapon(weapon_type)
        }
    }

    /// The 1-based inventory slots that take an item of this kind.
    pub open spec fn fits(self, slot: u8) -> bool {
        match self {
            EquipSlot::Head => slot == 1,
            EquipSlot::Necklace => slot == 2,
            EquipSlot::Backpack => slot == 3,
            EquipSlot::Armor => slot == 4,
            EquipSlot::Hand => slot == 5 || slot == 6,
            EquipSlot::Legs => slot == 7,
            EquipSlot::Feet => slot == 8,
            EquipSlot::Ring => slot == 9,
            EquipSlot::Ammo => slot == 10,
        }
    }

    /// Map an item's slot type and weapon type to an equip slot.
    /// `None`: the item is not equippable.
    pub fn from_xml(slot_type: &str, weapon_type: &str) -> (r: Option<EquipSlot>)
        ensures
            r == EquipSlot::of_types(slot_type@, weapon_type@),
    {
        if *slot_type == *"head" {
            Some(EquipSlot::Head)
        } else if *slot_type == *"necklace" {
            Some(EquipSlot::Necklace)
        } else if *slot_type == *"backpack" {
            Some(EquipSlot::Backpack)
        } else if *slot_type == *"body" {
            Some(EquipSlot::Armor)
        } else if *slot_type == *"legs" {
            Some(EquipSlot::Legs)
        } else if *slot_type == *"feet" {
            Some(EquipSlot::Feet)
        } else if *slot_type == *"ring" {
            Some(EquipSlot::Ring)
        } else if *slot_type == *"ammo" {
            Some(EquipSlot::Ammo)
        } else if *slot_type == *"two-handed" {
            Some(EquipSlot::Hand)
        } else if *weapon_type == *"sword" || *weapon_type == *"axe" || *weapon_type == *"club"
            || *weapon_type == *"distance" || *weapon_type == *"wand" || *weapon_type
            == *"shield" {
            Some(EquipSlot::Hand)
        } else if *weapon_type == *"ammunition" {
            Some(EquipSlot::Ammo)
        } else {
            None
        }
    }

    /// True if an item of this kind may be placed in the given 1-based inventory slot.
    pub fn admits(self, slot: u8) -> (r: bool)
        ensures
            r == self.fits(slot),
    {
        match self {
            EquipSlot::Head => slot == 1,
            EquipSlot::Necklace => slot == 2,
            EquipSlot::Backpack => slot == 3,
            EquipSlot::Armor => slot == 4,
            EquipSlot::Hand => slot == 5 || slot == 6,
            EquipSlot::Legs => slot == 7,
            EquipSlot::Feet => slot == 8,
            EquipSlot::Ring => slot == 9,
            EquipSlot::Ammo => slot == 10,
        }
    }
}

/// What is known of one item type: its texts, its weight and what may be done with it.
#[derive(Debug)]
pub struct ItemMeta {
    pub name: String,
    pub article: String,
    pub plural: String,
    pub description: String,
    /// Weight in hundredths of an oz.
    pub weight: u32,
    pub show_count: bool,
    pub stackable: bool,
    pub pickupable: bool,
    /// Client sprite id.
    pub client_id: u16,
    pub animated: bool,
    /// Whether a player may move the item.
    pub moveable: bool,
    /// Which equipment slot the item admits, or `None` if it is not equippable.
    pub equip_slot: Option<EquipSlot>,
    pub is_container: bool,
    /// How many items the container holds (0 for anything else).
    pub container_capacity: u8,
}

#[verifier::ext_equal]
pub ghost struct ItemMetaModel {
    pub name: Seq<char>,
    pub article: Seq<char>,
    pub plural: Seq<char>,
    pub description: Seq<char>,
    pub weight: u32,
    pub show_count: bool,
    pub stackable: bool,
    pub pickupable: bool,
    pub client_id: u16,
    pub animated: bool,
    pub moveable: bool,
    pub equip_slot: Option<EquipSlot>,
    pub is_container: bool,
    pub container_capacity: u8,
}

impl View for ItemMeta {
    type V = ItemMetaModel;

    open spec fn view(&self) -> ItemMetaModel {
        ItemMetaModel {
            name: self.name@,
            article: self.article@,
            plural: self.plural@,
            description: self.description@,
            weight: self.weight,
            show_count: self.show_count,
            stackable: self.stackable,
            pickupable: self.pickupable,
            client_id: self.client_id,
            animated: self.animated,
            moveable: self.moveable,
            equip_slot: self.equip_slot,
            is_container: self.is_container,
            container_capacity: self.container_capacity,
        }
    }
}

impl ItemMetaModel {
    /// The plural: the explicit one where set, else the name with an `s` where counts are
    /// shown, else the bare name.
    pub open spec fn plural_of(self) -> Seq<char> {
        if self.plural.len() > 0 {
            self.plural
        } else if self.show_count {
            self.name.push('s')
        } else {
            self.name
        }
    }

    /// Is this an item's name, singular or plural, when ASCII case is ignored?
    pub open spec fn called(self, name: Seq<char>) -> bool {
        ascii_lowered(self.name) == ascii_lowered(name) || ascii_lowered(self.plural_of())
            == ascii_lowered(name)
    }
}

impl Default for ItemMeta {
    fn default() -> (m: ItemMeta)
        ensures
            m@ == (ItemMetaModel {
                name: Seq::empty(),
                article: Seq::empty(),
                plural: Seq::empty(),
                description: Seq::empty(),
                weight: 0,
                show_count: false,
                stackable: false,
                pickupable: false,
                client_id: 0,
                animated: false,
                moveable: false,
                equip_slot: None,
                is_container: false,
                container_capacity: 0,
            }),
    {
        ItemMeta {
            name: String::new(),
            article: String::new(),
            plural: String::new(),
            description: String::new(),
            weight: 0,
            show_count: false,
            stackable: false,
            pickupable: false,
            client_id: 0,
            animated: false,
            moveable: false,
            equip_slot: None,
            is_container: false,
            container_capacity: 0,
        }
    }
}

impl ItemMeta {
    /// Plural form for a stack of more than one: the explicit plural when set, else
    /// `name + "s"` when counts are shown, else the bare name.
    pub fn plural_name(&self) -> (r: String)
        ensures
            r@ == self@.plural_of(),
    {
        if !self.plural.as_str().is_empty() {
            self.plural.clone()
        } else if self.show_count {
            let mut s = self.name.clone();
            s.push('s');
            s
        } else {
            self.name.clone()
        }
    }
}

/// The ways in which a tile leads to another floor.
#[derive(Debug, Clone, Copy, PartialEq, Eq, Structural)]
pub struct FloorChange {
    pub down: bool,
    pub north: bool,
    pub south: bool,
    pub east: bool,
    pub west: bool,
    pub south_alt: bool,
    pub east_alt: bool,
}

impl FloorChange {
    /// Leads nowhere.
    pub open spec fn nowhere() -> FloorChange {
        FloorChange {
            down: false,
            north: false,
            south: false,
            east: false,
            west: false,
            south_alt: false,
            east_alt: false,
        }
    }

    pub open spec fn or(self, other: FloorChange) -> FloorChange {
        FloorChange {
            down: self.down || other.down,
            north: self.north || other.north,
            south: self.south || other.south,
            east: self.east || other.east,
            west: self.west || other.west,
            south_alt: self.south_alt || other.south_alt,
            east_alt: self.east_alt || other.east_alt,
        }
    }

    /// No floor change.
    pub fn none() -> (r: FloorChange)
        ensures
            r == FloorChange::nowhere(),
    {
        FloorChange {
            down: false,
            north: false,
            south: false,
            east: false,
            west: false,
            south_alt: false,
            east_alt: false,
        }
    }

    pub fn is_empty(self) -> (r: bool)
        ensures
            r == (self == FloorChange::nowhere()),
    {
        !(self.down || self.north || self.south || self.east || self.west || self.south_alt
            || self.east_alt)
    }

    /// Both sets of ways together.
    pub fn union(self, other: FloorChange) -> (r: FloorChange)
        ensures
            r == self.or(other),
    {
        FloorChange {
            down: self.down || other.down,
            north: self.north || other.north,
            south: self.south || other.south,
            east: self.east || other.east,
            west: self.west || other.west,
            south_alt: self.south_alt || other.south_alt,
            east_alt: self.east_alt || other.east_alt,
        }
    }
}

/// One entry of the item dictionary.
#[derive(Debug, Clone, Copy)]
pub struct ItemType {
    pub server_id: u16,
    pub client_id: u16,
    pub flags: u32,
    pub always_on_top: bool,
    pub top_order: u8,
    pub has_height: bool,
    pub floor_change: FloorChange,
    pub stackable: bool,
    pub fluid_or_splash: bool,
    pub animated: bool,
    pub pickupable: bool,
    pub moveable: bool,
    pub block_projectile: bool,
    pub container: bool,
}

/// The item dictionary.
#[derive(Debug)]
pub struct ItemsOtb {
    pub items: Vec<ItemType>,
}

/// The texts and attributes of one item type.
#[derive(Debug)]
pub struct ItemAttrs {
    pub name: String,
    pub article: String,
    pub plural: String,
    pub description: String,
    pub weight: u32,
    pub show_count: bool,
    pub slot_type: String,
    pub weapon_type: String,
    pub container_size: u8,
}

/// Item attributes by server id.
#[derive(Debug)]
pub struct ItemsXml {
    pub items: HashMap<u16, ItemAttrs>,
}

/// One item as the map file places it.
#[derive(Debug, Clone, Copy)]
pub struct MapItem {
    pub id: u16,
    pub count: Option<u8>,
}

/// One tile as the map file places it; the first item is its ground.
#[derive(Debug)]
pub struct MapTile {
    pub x: u16,
    pub y: u16,
    pub z: u8,
    pub flags: u32,
    pub items: Vec<MapItem>,
}

/// A town and the position of its temple.
#[derive(Debug)]
pub struct Town {
    pub id: u32,
    pub name: String,
    pub x: u16,
    pub y: u16,
    pub z: u8,
}

/// A map file.
#[derive(Debug)]
pub struct OtbmMap {
    pub tiles: Vec<MapTile>,
    pub towns: Vec<Town>,
}

impl MapTile {
    pub open spec fn at(&self) -> Position {
        Position { x: self.x, y: self.y, z: self.z }
    }
}

impl Town {
    pub open spec fn temple(&self) -> Position {
        Position { x: self.x, y: self.y, z: self.z }
    }

    fn copy(&self) -> (t: Town)
        ensures
            t == *self,
    {
        Town { id: self.id, name: self.name.clone(), x: self.x, y: self.y, z: self.z }
    }
}

/// One item in a tile's stack.
#[derive(Debug, Clone, Copy)]
pub struct StackThing {
    pub item: WireItem,
    pub server_id: u16,
    /// Stack count, `None` where unspecified.
    pub count: Option<u8>,
}

/// A tile's items in drawing order: the ground, the items always on top, then the others.
/// The first `pre_creature_len` lie below a creature on the tile.
#[derive(Debug)]
pub struct TileStack {
    pub things: Vec<StackThing>,
    pub pre_creature_len: usize,
}

#[verifier::ext_equal]
pub ghost struct TileModel {
    pub things: Seq<StackThing>,
    pub pre: nat,
}

impl TileModel {
    /// The split lies inside the stack.
    pub open spec fn wf(self) -> bool {
        self.pre <= self.things.len()
    }
}

impl View for TileStack {
    type V = TileModel;

    open spec fn view(&self) -> TileModel {
        TileModel { things: self.things@, pre: self.pre_creature_len as nat }
    }
}

impl TileStack {
    /// A copy of this stack.
    pub fn copy(&self) -> (r: TileStack)
        ensures
            r@ == self@,
    {
        let mut things: Vec<StackThing> = Vec::new();
        let mut i: usize = 0;
        while i < self.things.len()
            invariant
                i <= self.things@.len(),
                things@ == self.things@.take(i as int),
            decreases self.things@.len() - i,
        {
            things.push(self.things[i]);
            assert(self.things@.take(i + 1) =~= self.things@.take(i as int).push(
                self.things@[i as int],
            ));
            i = i + 1;
        }
        assert(self.things@.take(self.things@.len() as int) =~= self.things@);
        TileStack { things, pre_creature_len: self.pre_creature_len }
    }
}

} // verus!
