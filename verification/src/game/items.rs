//! Items on the ground and in equipment slots, and moves between them.

use vstd::prelude::*;

use super::model::ascending;
use super::model::lemma_set_player;
use super::model::sees;
use super::model::World;
use super::queries::sort_ids;
use super::state::InvItem;
use super::state::PlayerModel;
use super::Game;
use crate::map::grid::law_tile_key_injective;
use crate::map::grid::tile_key;
use crate::map::StackThing;
use crate::map::TileModel;
use crate::registry::lemma_filter_step;
use crate::wire::Packet;
use crate::wire::PacketModel;
use crate::wire::WireItem;
use crate::Position;

verus! {

/// The stack position of a client's tile, 9 at most.
pub open spec fn wire_slot(n: int) -> u8 {
    if n <= 9 {
        n as u8
    } else {
        9
    }
}

impl World {
    /// Everyone who sees `pos` (whoever stands on it does), by ascending id.
    pub open spec fn audience(self, pos: Position) -> Seq<u32> {
        ascending(self.players.order.filter(self.onlooker(pos)))
    }

    pub open spec fn onlooker(self, pos: Position) -> spec_fn(u32) -> bool {
        |id: u32| sees(self.players.at(id).position, pos)
    }

    /// The item index that a client means by stack position `sp` of `pos`: creatures stand
    /// between the items below them and the rest. `None` where it means a creature.
    pub open spec fn item_index(self, pos: Position, sp: u8) -> Option<int> {
        let n = self.creatures_on(pos).len();
        if sp < self.pre(pos) {
            Some(sp as int)
        } else if sp < self.pre(pos) + n {
            None
        } else {
            Some(sp - n)
        }
    }

    /// The stack position at which a client draws item `idx` of `pos`.
    pub open spec fn item_slot(self, pos: Position, idx: int) -> u8 {
        wire_slot(
            if idx < self.pre(pos) {
                idx
            } else {
                idx + self.creatures_on(pos).len()
            },
        )
    }

    /// The stack position at which a client draws the first item above the creatures.
    pub open spec fn front_slot(self, pos: Position) -> u8 {
        wire_slot((self.pre(pos) + self.creatures_on(pos).len()) as int)
    }

    /// `want` pieces of item `idx` taken from `pos`.
    pub open spec fn ground_taken(
        self,
        pos: Position,
        idx: int,
        want: u8,
        stackable: bool,
    ) -> World {
        match self.stack(pos) {
            Some(st) => self.with_stack(pos, st.taken(idx, want, stackable)),
            None => self,
        }
    }

    /// `moved` pieces put on `pos`.
    pub open spec fn ground_placed(
        self,
        pos: Position,
        server_id: u16,
        client_id: u16,
        moved: u8,
        animated: bool,
        stackable: bool,
    ) -> World {
        match self.stack(pos) {
            Some(st) => self.with_stack(
                pos,
                st.placed(server_id, client_id, moved, animated, stackable),
            ),
            None => self,
        }
    }

    /// `t` put in front of the items above the creatures on `pos`.
    pub open spec fn topped_with(self, pos: Position, t: StackThing) -> World {
        match self.stack(pos) {
            Some(st) => self.with_stack(pos, st.with_front(t)),
            None => self,
        }
    }

    /// Everyone who sees `pos` is told of the change that taking from item `idx` made there:
    /// the entry at `sp` is gone, or has fewer pieces.
    pub open spec fn told_taken(self, pos: Position, sp: u8, gone: bool, idx: int) -> World {
        if gone {
            self.push_all(
                self.audience(pos),
                PacketModel::RemoveTileThing { position: pos, stackpos: sp },
            )
        } else {
            match self.changed(pos) {
                Some(st) if 0 <= idx < st.things.len() => self.push_all(
                    self.audience(pos),
                    PacketModel::UpdateTileItem {
                        position: pos,
                        stackpos: self.item_slot(pos, idx),
                        item: st.things[idx].item,
                    },
                ),
                _ => self,
            }
        }
    }

    /// Everyone who sees `pos` is told of an item at `sp` there, new or changed.
    pub open spec fn told_item(self, pos: Position, sp: u8, item: WireItem, change: bool) -> World {
        self.push_all(
            self.audience(pos),
            if change {
                PacketModel::UpdateTileItem { position: pos, stackpos: sp, item }
            } else {
                PacketModel::AddTileItem { position: pos, stackpos: sp, item }
            },
        )
    }

    /// `moved` pieces put on `pos` and everyone who sees it told: first of the stack that
    /// grew, then of the entry that came on top.
    pub open spec fn dropped(
        self,
        pos: Position,
        server_id: u16,
        client_id: u16,
        moved: u8,
        animated: bool,
        stackable: bool,
    ) -> World {
        match self.stack(pos) {
            Some(st) => {
                let w = self.ground_placed(pos, server_id, client_id, moved, animated, stackable);
                let slot = w.front_slot(pos);
                let u = match st.grown(server_id, moved, stackable) {
                    Some(item) => w.told_item(pos, slot, item, true),
                    None => w,
                };
                match st.topped(server_id, client_id, moved, animated, stackable) {
                    Some(t) => u.told_item(pos, slot, t.item, false),
                    None => u,
                }
            },
            None => self,
        }
    }

    /// Nothing can be put on `pos`: it is off the map, or something solid is there.
    pub open spec fn no_room(self, pos: Position) -> bool {
        self.map.stack_at(pos) is None || self.map.blocked_at(pos)
    }

    /// Player `id` is told what equipment slot `slot` holds.
    pub open spec fn slot_told(self, id: u32, slot: u8) -> World {
        if self.players.has(id) {
            self.push(
                id,
                match self.players.at(id).inventory[slot - 1] {
                    Some(it) => PacketModel::InventorySet { slot, item: it.drawn() },
                    None => PacketModel::InventoryEmpty { slot },
                },
            )
        } else {
            self
        }
    }

    /// Equipment slot `slot` of player `id` holds `it`.
    pub open spec fn equipped(self, id: u32, slot: u8, it: Option<InvItem>) -> World {
        if self.players.has(id) {
            self.set_player(
                id,
                PlayerModel {
                    inventory: self.players.at(id).inventory.update(slot - 1, it),
                    ..self.players.at(id)
                },
            )
        } else {
            self
        }
    }

    /// Items of type `server_id` may be worn in equipment slot `slot`.
    pub open spec fn wearable(self, server_id: u16, slot: u8) -> bool {
        self.map.meta_at(server_id) matches Some(m) && (m.equip_slot matches Some(eq) && eq.fits(
            slot,
        ))
    }

    /// Items of type `server_id` come in stacks.
    pub open spec fn stacks(self, server_id: u16) -> bool {
        self.map.meta_at(server_id) matches Some(m) && m.stackable
    }
}

/// Whoever stands on a tile sees it.
pub proof fn law_own_tile_seen(pos: Position)
    ensures
        sees(pos, pos),
{
}

/// Putting a stack back leaves all other tiles as they are.
pub proof fn law_with_stack(w: World, pos: Position, st: TileModel, other: Position)
    ensures
        w.with_stack(pos, st).stack(pos) == Some(st),
        other != pos ==> w.with_stack(pos, st).stack(other) == w.stack(other),
{
    if other != pos && tile_key(other) == tile_key(pos) {
        law_tile_key_injective(pos, other);
    }
}

impl Game {
    /// Ids of everyone who sees `pos`, in ascending order.
    pub fn audience(&self, pos: Position) -> (r: Vec<u32>)
        requires
            self.wf(),
        ensures
            r@ == self@.audience(pos),
    {
        let ghost order = self.players@.order;
        let ghost f = self@.onlooker(pos);
        let mut ids: Vec<u32> = Vec::new();
        assert(order.take(0).filter(f) =~= Seq::empty()) by {
            reveal(Seq::filter);
        }
        let mut i: usize = 0;
        while i < self.players.len()
            invariant
                self.wf(),
                i <= order.len(),
                order == self.players@.order,
                f == self@.onlooker(pos),
                ids@ == order.take(i as int).filter(f),
            decreases order.len() - i,
        {
            let id = self.players.id_at(i);
            let p = self.players.entry_at(i);
            proof {
                lemma_filter_step(order, i as int, f);
            }
            if Game::can_see(p.position, pos) {
                ids.push(id);
            }
            i = i + 1;
        }
        assert(order.take(order.len() as int) =~= order);
        sort_ids(&ids)
    }

    /// The item index that a client means by stack position `sp` of `pos`.
    pub fn item_index(&self, pos: Position, sp: u8) -> (r: Option<usize>)
        requires
            self.wf(),
        ensures
            self@.item_index(pos, sp) == (match r {
                Some(i) => Some(i as int),
                None => None,
            }),
    {
        let n: usize = self.creatures_on(pos).len();
        let pre: usize = self.merged_pre_creature_len(pos);
        let s: usize = sp as usize;
        if s < pre {
            Some(s)
        } else if s - pre < n {
            None
        } else {
            Some(s - n)
        }
    }

    /// The stack position at which a client draws item `idx` of `pos`, 9 at most.
    fn item_wire_stackpos(&self, pos: Position, idx: usize) -> (r: u8)
        requires
            self.wf(),
        ensures
            r == self@.item_slot(pos, idx as int),
    {
        let n: usize = self.creatures_on(pos).len();
        let pre: usize = self.merged_pre_creature_len(pos);
        if idx < pre {
            if idx <= 9 {
                idx as u8
            } else {
                9
            }
        } else if idx > 9 || n > 9 || idx + n > 9 {
            9
        } else {
            (idx + n) as u8
        }
    }

    /// The stack position at which a client draws the first item above the creatures.
    pub fn front_wire_stackpos(&self, pos: Position) -> (r: u8)
        requires
            self.wf(),
        ensures
            r == self@.front_slot(pos),
    {
        let n: usize = self.creatures_on(pos).len();
        let pre: usize = self.merged_pre_creature_len(pos);
        if pre > 9 || n > 9 || pre + n > 9 {
            9
        } else {
            (pre + n) as u8
        }
    }

    /// Take up to `want` pieces of item `src_idx` from `from`. Returns how many were taken
    /// and whether the entry is gone; `None` if the tile has no stack.
    pub fn take_from_ground(
        &mut self,
        from: Position,
        src_idx: usize,
        want: u8,
        stackable: bool,
    ) -> (r: Option<(u8, bool)>)
        requires
            old(self).wf(),
            old(self)@.stack(from) is Some ==> src_idx < old(self)@.stack(from)->0.things.len(),
        ensures
            final(self).wf(),
            final(self)@ == old(self)@.ground_taken(from, src_idx as int, want, stackable),
            match r {
                Some((moved, gone)) => old(self)@.stack(from) matches Some(st) && moved == st.moved(
                    src_idx as int,
                    want,
                    stackable,
                ) && gone == !st.leaves_some(src_idx as int, want, stackable),
                None => old(self)@.stack(from) is None,
            },
    {
        if !self.materialize(from) {
            return None;
        }
        match self.take_stack(from) {
            Some(mut st) => {
                let r = st.take(src_idx, want, stackable);
                self.put_stack(from, st);
                assert(self@.overlay =~= old(self)@.ground_taken(
                    from,
                    src_idx as int,
                    want,
                    stackable,
                ).overlay);
                Some(r)
            },
            None => None,
        }
    }

    /// Put `moved` pieces of an item on `to`, in front of the items above the creatures,
    /// joining a stack of the same type there. Returns the stack that grew and the entry
    /// that came on top; `None` if the tile has no stack.
    pub fn add_to_ground_front(
        &mut self,
        to: Position,
        src_sid: u16,
        client_id: u16,
        moved: u8,
        animated: bool,
        stackable: bool,
    ) -> (r: Option<(Option<WireItem>, Option<WireItem>)>)
        requires
            old(self).wf(),
        ensures
            final(self).wf(),
            final(self)@ == old(self)@.ground_placed(
                to,
                src_sid,
                client_id,
                moved,
                animated,
                stackable,
            ),
            match r {
                Some((grown, top)) => old(self)@.stack(to) matches Some(st) && grown == st.grown(
                    src_sid,
                    moved,
                    stackable,
                ) && top == (match st.topped(src_sid, client_id, moved, animated, stackable) {
                    Some(t) => Some(t.item),
                    None => None,
                }),
                None => old(self)@.stack(to) is None,
            },
    {
        if !self.materialize(to) {
            return None;
        }
        match self.take_stack(to) {
            Some(mut st) => {
                let r = st.place(src_sid, client_id, moved, animated, stackable);
                self.put_stack(to, st);
                assert(self@.overlay =~= old(self)@.ground_placed(
                    to,
                    src_sid,
                    client_id,
                    moved,
                    animated,
                    stackable,
                ).overlay);
                Some(r)
            },
            None => None,
        }
    }

    /// Put `t` in front of the items above the creatures on `pos`, where it has a stack.
    pub fn put_on_top(&mut self, pos: Position, t: StackThing)
        requires
            old(self).wf(),
        ensures
            final(self).wf(),
            final(self)@ == old(self)@.topped_with(pos, t),
    {
        if !self.materialize(pos) {
            return;
        }
        match self.take_stack(pos) {
            Some(mut st) => {
                st.insert_front(t);
                self.put_stack(pos, st);
                assert(self@.overlay =~= old(self)@.topped_with(pos, t).overlay);
            },
            None => {},
        }
    }

    /// Tell everyone who sees `pos` of an item at stack position `sp` there: an added one,
    /// or a change of the one there.
    pub fn broadcast_dest(&mut self, pos: Position, sp: u8, item: WireItem, is_update: bool)
        requires
            old(self).wf(),
        ensures
            final(self).wf(),
            final(self)@ == old(self)@.told_item(pos, sp, item, is_update),
            old(self)@.only_told(final(self)@),
    {
        let targets = self.audience(pos);
        let packet = if is_update {
            Packet::UpdateTileItem { position: pos, stackpos: sp, item }
        } else {
            Packet::AddTileItem { position: pos, stackpos: sp, item }
        };
        self.push_all(&targets, &packet);
    }

    /// Tell everyone who sees `pos` that the entry at `from_stackpos` is gone, or that the
    /// item at `src_idx` has fewer pieces.
    pub fn broadcast_source(
        &mut self,
        pos: Position,
        from_stackpos: u8,
        removed_fully: bool,
        src_idx: usize,
    )
        requires
            old(self).wf(),
        ensures
            final(self).wf(),
            final(self)@ == old(self)@.told_taken(pos, from_stackpos, removed_fully, src_idx as int),
    {
        let targets = self.audience(pos);
        let packet = if removed_fully {
            Packet::RemoveTileThing { position: pos, stackpos: from_stackpos }
        } else {
            let sp: u8 = self.item_wire_stackpos(pos, src_idx);
            match self.changed_stack(pos) {
                Some(st) => {
                    if src_idx >= st.things.len() {
                        return;
                    }
                    Packet::UpdateTileItem {
                        position: pos,
                        stackpos: sp,
                        item: st.things[src_idx].item,
                    }
                },
                None => {
                    return;
                },
            }
        };
        self.push_all(&targets, &packet);
    }

    /// Put `moved` pieces of an item on `pos` and tell everyone who sees it.
    pub fn drop_on_ground(
        &mut self,
        pos: Position,
        server_id: u16,
        client_id: u16,
        moved: u8,
        animated: bool,
        stackable: bool,
    )
        requires
            old(self).wf(),
        ensures
            final(self).wf(),
            final(self)@ == old(self)@.dropped(
                pos,
                server_id,
                client_id,
                moved,
                animated,
                stackable,
            ),
    {
        match self.add_to_ground_front(pos, server_id, client_id, moved, animated, stackable) {
            Some((grown, top)) => {
                let slot: u8 = self.front_wire_stackpos(pos);
                match grown {
                    Some(item) => self.broadcast_dest(pos, slot, item, true),
                    None => {},
                }
                match top {
                    Some(item) => self.broadcast_dest(pos, slot, item, false),
                    None => {},
                }
            },
            None => {},
        }
    }

    /// Can nothing be put on `pos`, because it is off the map or something solid is there?
    pub fn is_no_room(&self, pos: Position) -> (r: bool)
        requires
            self.wf(),
        ensures
            r == self@.no_room(pos),
    {
        match self.map.tile(pos) {
            Some(_) => self.map.is_blocked(pos),
            None => true,
        }
    }

    /// Tell player `id` what equipment slot `slot` holds.
    pub fn push_inventory_slot(&mut self, id: u32, slot: u8)
        requires
            old(self).wf(),
            1 <= slot <= 10,
        ensures
            final(self).wf(),
            final(self)@ == old(self)@.slot_told(id, slot),
    {
        let packet = match self.players.get(id) {
            Some(p) => match p.inventory[(slot - 1) as usize] {
                Some(it) => Packet::InventorySet { slot, item: it.wire() },
                None => Packet::InventoryEmpty { slot },
            },
            None => {
                return;
            },
        };
        self.push(id, packet);
    }

    /// Make equipment slot `slot` of player `id` hold `it`.
    pub fn set_slot(&mut self, id: u32, slot: u8, it: Option<InvItem>)
        requires
            old(self).wf(),
            1 <= slot <= 10,
        ensures
            final(self).wf(),
            final(self)@ == old(self)@.equipped(id, slot, it),
    {
        proof {
            if self@.players.has(id) {
                lemma_set_player(
                    self@,
                    id,
                    PlayerModel {
                        inventory: self@.players.at(id).inventory.update(slot - 1, it),
                        ..self@.players.at(id)
                    },
                );
            }
        }
        match self.players.get_mut(id) {
            Some(p) => {
                p.inventory[(slot - 1) as usize] = it;
            },
            None => {},
        }
    }

    /// What equipment slot `slot` of player `id` holds.
    pub fn slot_item(&self, id: u32, slot: u8) -> (r: Option<InvItem>)
        requires
            self.wf(),
            1 <= slot <= 10,
        ensures
            r == (if self@.players.has(id) {
                self@.players.at(id).inventory[slot - 1]
            } else {
                None
            }),
    {
        match self.players.get(id) {
            Some(p) => p.inventory[(slot - 1) as usize],
            None => None,
        }
    }

    /// May items of type `server_id` be worn in equipment slot `slot`?
    pub fn is_wearable(&self, server_id: u16, slot: u8) -> (r: bool)
        requires
            self.wf(),
        ensures
            r == self@.wearable(server_id, slot),
    {
        match self.map.item_meta(server_id) {
            Some(m) => match m.equip_slot {
                Some(eq) => eq.admits(slot),
                None => false,
            },
            None => false,
        }
    }

    /// Do items of type `server_id` come in stacks?
    pub fn is_stackable(&self, server_id: u16) -> (r: bool)
        requires
            self.wf(),
        ensures
            r == self@.stacks(server_id),
    {
        match self.map.item_meta(server_id) {
            Some(m) => m.stackable,
            None => false,
        }
    }
}

} // verus!
