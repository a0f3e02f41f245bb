//! Moving items between tiles, equipment slots and containers.

use vstd::prelude::*;

use super::containers::lemma_window_named;
use super::containers::names_slot;
use super::containers::names_window;
use super::containers::window_named;
use super::model::World;
use super::state::ContainerSource;
use super::state::InvItem;
use super::windows::close;
use super::windows::in_close_range;
use super::Game;
use crate::Position;

verus! {

/// An item on a tile that a player has pointed at, with what the catalogue says of it.
#[derive(Debug, Clone, Copy)]
pub struct Picked {
    pub idx: usize,
    pub server_id: u16,
    pub client_id: u16,
    pub stackable: bool,
    pub animated: bool,
    pub moveable: bool,
    pub is_container: bool,
}

/// How many pieces an item stands for: its count, 1 where it has none or 0.
pub open spec fn pieces_of(it: InvItem) -> u8 {
    match it.count {
        Some(c) if c >= 1 => c,
        _ => 1,
    }
}

fn count_pieces(it: InvItem) -> (n: u8)
    ensures
        n == pieces_of(it),
{
    match it.count {
        Some(c) => if c >= 1 {
            c
        } else {
            1
        },
        None => 1,
    }
}

impl World {
    /// The item that a client means by stack position `sp` of `pos`, where the catalogue
    /// knows it.
    pub open spec fn picked(self, pos: Position, sp: u8) -> Option<Picked> {
        match self.item_index(pos, sp) {
            Some(idx) => match self.thing(pos, idx) {
                Some(t) => match self.map.meta_at(t.server_id) {
                    Some(m) => Some(
                        Picked {
                            idx: idx as usize,
                            server_id: t.server_id,
                            client_id: m.client_id,
                            stackable: m.stackable,
                            animated: m.animated,
                            moveable: m.moveable,
                            is_container: m.is_container,
                        },
                    ),
                    None => None,
                },
                None => None,
            },
            None => None,
        }
    }

    /// How many pieces of a picked item are taken when `count` are asked for.
    pub open spec fn pieces_taken(self, pos: Position, k: Picked, count: u8) -> u8 {
        self.stack(pos)->0.moved(k.idx as int, count, k.stackable)
    }

    /// The picked item goes as a whole when `count` pieces are asked for.
    pub open spec fn picked_gone(self, pos: Position, k: Picked, count: u8) -> bool {
        !self.stack(pos)->0.leaves_some(k.idx as int, count, k.stackable)
    }

    /// The picked item as it is carried, `count` pieces asked for.
    pub open spec fn carried(self, pos: Position, k: Picked, count: u8) -> InvItem {
        InvItem {
            server_id: k.server_id,
            client_id: k.client_id,
            count: if k.stackable {
                Some(self.pieces_taken(pos, k, count))
            } else {
                None
            },
            animated: k.animated,
        }
    }

    /// The picked item taken from the ground and everyone who sees it told.
    pub open spec fn lifted(self, pos: Position, sp: u8, k: Picked, count: u8) -> World {
        self.ground_taken(pos, k.idx as int, count, k.stackable).told_taken(
            pos,
            sp,
            self.picked_gone(pos, k, count),
            k.idx as int,
        )
    }

    /// From tile to tile. The item must be within reach, the way to throw it clear, and the
    /// other tile able to take it. A container takes its window along.
    pub open spec fn moved_on_ground(
        self,
        id: u32,
        from: Position,
        sp: u8,
        to: Position,
        count: u8,
    ) -> World {
        if from == to || !self.players.has(id) {
            self
        } else if !close(self.players.at(id).position, from) {
            self.status(id, "You are too far away."@)
        } else if !self.map.throwable(from, to) {
            self.status(id, "You cannot throw there."@)
        } else {
            match self.picked(from, sp) {
                None => self,
                Some(k) => if !k.moveable {
                    self.status(id, "You cannot move this object."@)
                } else if self.no_room(to) {
                    self.status(id, "You cannot put that there."@)
                } else {
                    let w = self.ground_taken(from, k.idx as int, count, k.stackable).dropped(
                        to,
                        k.server_id,
                        k.client_id,
                        self.pieces_taken(from, k, count),
                        k.animated,
                        k.stackable,
                    ).told_taken(from, sp, self.picked_gone(from, k, count), k.idx as int);
                    if k.is_container {
                        w.window_rekeyed(
                            id,
                            ContainerSource::Ground(from),
                            ContainerSource::Ground(to),
                        ).reach_checked(id)
                    } else {
                        w
                    }
                },
            }
        }
    }

    /// From a tile into an empty equipment slot that takes the item.
    pub open spec fn worn(
        self,
        id: u32,
        from: Position,
        sp: u8,
        slot: u8,
        count: u8,
    ) -> World {
        if !self.players.has(id) {
            self
        } else if self.players.at(id).inventory[slot - 1] is Some {
            self.status(id, "You cannot equip this object."@)
        } else if !close(self.players.at(id).position, from) {
            self.status(id, "You are too far away."@)
        } else {
            match self.picked(from, sp) {
                None => self,
                Some(k) => if !k.moveable {
                    self.status(id, "You cannot move this object."@)
                } else if !self.wearable(k.server_id, slot) {
                    self.status(id, "You cannot equip this object."@)
                } else {
                    self.lifted(from, sp, k, count).equipped(
                        id,
                        slot,
                        Some(self.carried(from, k, count)),
                    ).slot_told(id, slot).window_rekeyed(
                        id,
                        ContainerSource::Ground(from),
                        ContainerSource::Slot(slot),
                    )
                },
            }
        }
    }

    /// From an equipment slot to a tile in throwing range.
    pub open spec fn thrown(self, id: u32, slot: u8, to: Position) -> World {
        if !self.players.has(id) {
            self
        } else {
            match self.players.at(id).inventory[slot - 1] {
                None => self,
                Some(it) => if self.players.at(id).position.z != to.z || !self.map.throwable(
                    self.players.at(id).position,
                    to,
                ) {
                    self.status(id, "You cannot throw there."@)
                } else if self.no_room(to) {
                    self.status(id, "You cannot put that there."@)
                } else {
                    self.equipped(id, slot, None).slot_told(id, slot).dropped(
                        to,
                        it.server_id,
                        it.client_id,
                        pieces_of(it),
                        it.animated,
                        self.stacks(it.server_id),
                    ).window_rekeyed(
                        id,
                        ContainerSource::Slot(slot),
                        ContainerSource::Ground(to),
                    ).reach_checked(id)
                },
            }
        }
    }

    /// From one equipment slot to another, changing places with the item there. Both must
    /// fit where they go.
    pub open spec fn swapped(self, id: u32, src: u8, dst: u8) -> World {
        if src == dst || !self.players.has(id) {
            self
        } else {
            let inv = self.players.at(id).inventory;
            match inv[src - 1] {
                None => self,
                Some(moving) => if !self.wearable(moving.server_id, dst) || (inv[dst
                    - 1] matches Some(d) && !self.wearable(d.server_id, src)) {
                    self.status(id, "You cannot equip this object."@)
                } else {
                    self.equipped(id, dst, Some(moving)).equipped(id, src, inv[dst - 1]).slot_told(
                        id,
                        src,
                    ).slot_told(id, dst)
                },
            }
        }
    }

    /// A move with an equipment slot at one end or both. Slots are numbered 1 to 10; a move
    /// with any other number is ignored.
    pub open spec fn moved_with_slots(
        self,
        id: u32,
        from: Position,
        sp: u8,
        to: Position,
        count: u8,
    ) -> World {
        let from_slot = from.x == 0xFFFF;
        let to_slot = to.x == 0xFFFF;
        if (from_slot && !(1 <= from.y <= 10)) || (to_slot && !(1 <= to.y <= 10)) {
            self
        } else if from_slot && to_slot {
            self.swapped(id, from.y as u8, to.y as u8)
        } else if from_slot {
            self.thrown(id, from.y as u8, to)
        } else if to_slot {
            self.worn(id, from, sp, to.y as u8, count)
        } else {
            self
        }
    }

    /// From container to container. An item dropped on a container goes into it, unless it
    /// is a container itself. Where there is no room it goes back to the front of its own.
    pub open spec fn repacked(self, id: u32, fc: u8, fs: u8, tc: u8, ts: u8) -> World {
        if fc == tc && fs == ts {
            self
        } else {
            let bag = self.item_in(id, fc, fs as int) matches Some(it) && self.is_bag(
                it.server_id,
            );
            let dest = match self.inner_window(id, tc, ts) {
                Some(c) if !bag => c,
                _ => tc,
            };
            let w = if bag {
                self
            } else {
                self.inner_tracked(id, tc, ts)
            };
            match w.item_in(id, fc, fs as int) {
                None => w,
                Some(item) => {
                    let u = w.item_popped(id, fc, fs).orphan_shut(id, fc, fs as int);
                    match u.fullness(id, dest) {
                        None => u,
                        Some(true) => u.item_put(id, fc, item),
                        Some(false) => u.item_put(id, dest, item),
                    }
                },
            }
        }
    }

    /// From a tile into a container.
    pub open spec fn packed(self, id: u32, from: Position, sp: u8, tc: u8, count: u8) -> World {
        if !self.players.has(id) {
            self
        } else if !close(self.players.at(id).position, from) {
            self.status(id, "You are too far away."@)
        } else {
            match self.picked(from, sp) {
                None => self,
                Some(k) => if !k.moveable {
                    self.status(id, "You cannot move this object."@)
                } else if self.fullness(id, tc) != Some(false) {
                    self
                } else {
                    self.lifted(from, sp, k, count).item_put(id, tc, self.carried(from, k, count))
                },
            }
        }
    }

    /// From a container to a tile in throwing range.
    pub open spec fn unpacked(self, id: u32, fc: u8, fs: u8, to: Position) -> World {
        if !self.players.has(id) {
            self
        } else if self.players.at(id).position.z != to.z || !self.map.throwable(
            self.players.at(id).position,
            to,
        ) {
            self.status(id, "You cannot throw there."@)
        } else if self.no_room(to) {
            self.status(id, "You cannot put that there."@)
        } else {
            match self.item_in(id, fc, fs as int) {
                None => self,
                Some(it) => self.item_popped(id, fc, fs).orphan_shut(id, fc, fs as int).dropped(
                    to,
                    it.server_id,
                    it.client_id,
                    pieces_of(it),
                    it.animated,
                    self.stacks(it.server_id),
                ),
            }
        }
    }

    /// From an equipment slot into a container with room.
    pub open spec fn stowed(self, id: u32, slot: u8, tc: u8) -> World {
        if !(1 <= slot <= 10) || !self.players.has(id) {
            self
        } else {
            match self.players.at(id).inventory[slot - 1] {
                Some(it) if self.fullness(id, tc) == Some(false) => self.equipped(
                    id,
                    slot,
                    None,
                ).slot_told(id, slot).item_put(id, tc, it),
                _ => self,
            }
        }
    }

    /// From a container into an empty equipment slot. An item that the slot does not take is
    /// gone.
    pub open spec fn drawn_out(self, id: u32, fc: u8, fs: u8, slot: u8) -> World {
        if !(1 <= slot <= 10) || !self.players.has(id) || self.players.at(id).inventory[slot
            - 1] is Some {
            self
        } else {
            match self.item_in(id, fc, fs as int) {
                None => self,
                Some(it) => {
                    let w = self.item_popped(id, fc, fs).orphan_shut(id, fc, fs as int);
                    if self.wearable(it.server_id, slot) {
                        w.equipped(id, slot, Some(it)).slot_told(id, slot)
                    } else {
                        w
                    }
                },
            }
        }
    }

    /// A move with a container at one end or both.
    pub open spec fn moved_with_containers(
        self,
        id: u32,
        from: Position,
        sp: u8,
        to: Position,
        count: u8,
    ) -> World {
        if names_window(from) && names_window(to) {
            self.repacked(id, window_named(from), from.z, window_named(to), to.z)
        } else if names_window(to) && names_slot(from) {
            self.stowed(id, from.y as u8, window_named(to))
        } else if names_window(to) {
            self.packed(id, from, sp, window_named(to), count)
        } else if names_window(from) && names_slot(to) {
            self.drawn_out(id, window_named(from), from.z, to.y as u8)
        } else if names_window(from) {
            self.unpacked(id, window_named(from), from.z, to)
        } else {
            self
        }
    }

    /// Player `id` moves `count` pieces of a thing from one place to another.
    #[verifier::opaque]
    pub open spec fn thing_moved(
        self,
        id: u32,
        from: Position,
        sp: u8,
        to: Position,
        count: u8,
    ) -> World {
        if names_window(from) || names_window(to) {
            self.moved_with_containers(id, from, sp, to, count)
        } else if from.x == 0xFFFF || to.x == 0xFFFF {
            self.moved_with_slots(id, from, sp, to, count)
        } else {
            self.moved_on_ground(id, from, sp, to, count)
        }
    }
}

impl Game {
    /// The item that a client means by stack position `sp` of `pos`.
    pub fn pick(&self, pos: Position, sp: u8) -> (r: Option<Picked>)
        requires
            self.wf(),
        ensures
            r == self@.picked(pos, sp),
            r matches Some(k) ==> self@.stack(pos) is Some && k.idx < self@.stack(
                pos,
            )->0.things.len(),
    {
        let idx: usize = match self.item_index(pos, sp) {
            Some(i) => i,
            None => {
                return None;
            },
        };
        let server_id: u16 = match self.merged_server_id(pos, idx) {
            Some(s) => s,
            None => {
                return None;
            },
        };
        match self.map.item_meta(server_id) {
            Some(m) => Some(
                Picked {
                    idx,
                    server_id,
                    client_id: m.client_id,
                    stackable: m.stackable,
                    animated: m.animated,
                    moveable: m.moveable,
                    is_container: m.is_container,
                },
            ),
            None => None,
        }
    }

    /// Take `count` pieces of a picked item from the ground and tell everyone who sees it.
    /// Returns the item as it is carried.
    fn lift(&mut self, pos: Position, sp: u8, k: Picked, count: u8) -> (it: InvItem)
        requires
            old(self).wf(),
            old(self)@.stack(pos) is Some,
            k.idx < old(self)@.stack(pos)->0.things.len(),
        ensures
            final(self).wf(),
            final(self)@ == old(self)@.lifted(pos, sp, k, count),
            it == old(self)@.carried(pos, k, count),
    {
        let (moved, gone) = match self.take_from_ground(pos, k.idx, count, k.stackable) {
            Some(r) => r,
            None => (0, false),
        };
        self.broadcast_source(pos, sp, gone, k.idx);
        InvItem {
            server_id: k.server_id,
            client_id: k.client_id,
            count: if k.stackable {
                Some(moved)
            } else {
                None
            },
            animated: k.animated,
        }
    }

    /// Move `count` pieces of a thing from one place to another. Places are tiles, equipment
    /// slots (x is `0xFFFF`, y the slot) and containers (x is `0xFFFF`, y the window with
    /// bit 6 set, z the place in it).
    pub fn do_move_thing(
        &mut self,
        id: u32,
        from: Position,
        from_stackpos: u8,
        to: Position,
        count: u8,
    )
        requires
            old(self).wf(),
        ensures
            final(self).wf(),
            final(self)@ == old(self)@.thing_moved(id, from, from_stackpos, to, count),
    {
        proof {
            reveal(World::thing_moved);
        }
        if (from.x == 0xFFFF && from.y & 0x40 != 0) || (to.x == 0xFFFF && to.y & 0x40 != 0) {
            self.do_move_container(id, from, from_stackpos, to, count);
            return;
        }
        if from.x == 0xFFFF || to.x == 0xFFFF {
            self.do_move_inventory(id, from, from_stackpos, to, count);
            return;
        }
        if from == to {
            return;
        }
        let near = match self.players.get(id) {
            Some(p) => in_close_range(p.position, from),
            None => {
                return;
            },
        };
        if !near {
            self.push_cannot_move(id, "You are too far away.");
            return;
        }
        if !self.map.can_throw_object_to(from, to) {
            self.push_cannot_move(id, "You cannot throw there.");
            return;
        }
        let k = match self.pick(from, from_stackpos) {
            Some(k) => k,
            None => {
                return;
            },
        };
        if !k.moveable {
            self.push_cannot_move(id, "You cannot move this object.");
            return;
        }
        if self.is_no_room(to) {
            self.push_cannot_move(id, "You cannot put that there.");
            return;
        }
        let (moved, gone) = match self.take_from_ground(from, k.idx, count, k.stackable) {
            Some(r) => r,
            None => {
                return;
            },
        };
        self.drop_on_ground(to, k.server_id, k.client_id, moved, k.animated, k.stackable);
        self.broadcast_source(from, from_stackpos, gone, k.idx);
        if k.is_container {
            self.rekey_container_source(
                id,
                ContainerSource::Ground(from),
                ContainerSource::Ground(to),
            );
            self.auto_close_ground_containers(id);
        }
    }

    /// A move with an equipment slot at one end or both: put on, take off, or change places.
    pub fn do_move_inventory(
        &mut self,
        id: u32,
        from: Position,
        from_stackpos: u8,
        to: Position,
        count: u8,
    )
        requires
            old(self).wf(),
        ensures
            final(self).wf(),
            final(self)@ == old(self)@.moved_with_slots(id, from, from_stackpos, to, count),
    {
        if from.x == 0xFFFF && (from.y < 1 || from.y > 10) {
            return;
        }
        if to.x == 0xFFFF && (to.y < 1 || to.y > 10) {
            return;
        }
        if from.x == 0xFFFF && to.x == 0xFFFF {
            self.swap_slots(id, from.y as u8, to.y as u8);
        } else if from.x == 0xFFFF {
            self.take_off(id, from.y as u8, to);
        } else if to.x == 0xFFFF {
            self.put_on(id, from, from_stackpos, to.y as u8, count);
        }
    }

    fn put_on(&mut self, id: u32, from: Position, sp: u8, slot: u8, count: u8)
        requires
            old(self).wf(),
            1 <= slot <= 10,
        ensures
            final(self).wf(),
            final(self)@ == old(self)@.worn(id, from, sp, slot, count),
    {
        let (taken, near) = match self.players.get(id) {
            Some(p) => (
                match p.inventory[(slot - 1) as usize] {
                    Some(_) => true,
                    None => false,
                },
                in_close_range(p.position, from),
            ),
            None => {
                return;
            },
        };
        if taken {
            self.push_cannot_move(id, "You cannot equip this object.");
            return;
        }
        if !near {
            self.push_cannot_move(id, "You are too far away.");
            return;
        }
        let k = match self.pick(from, sp) {
            Some(k) => k,
            None => {
                return;
            },
        };
        if !k.moveable {
            self.push_cannot_move(id, "You cannot move this object.");
            return;
        }
        if !self.is_wearable(k.server_id, slot) {
            self.push_cannot_move(id, "You cannot equip this object.");
            return;
        }
        let it = self.lift(from, sp, k, count);
        self.set_slot(id, slot, Some(it));
        self.push_inventory_slot(id, slot);
        self.rekey_container_source(
            id,
            ContainerSource::Ground(from),
            ContainerSource::Slot(slot),
        );
    }

    fn take_off(&mut self, id: u32, slot: u8, to: Position)
        requires
            old(self).wf(),
            1 <= slot <= 10,
        ensures
            final(self).wf(),
            final(self)@ == old(self)@.thrown(id, slot, to),
    {
        let (it, in_reach) = match self.players.get(id) {
            Some(p) => match p.inventory[(slot - 1) as usize] {
                Some(it) => (
                    it,
                    p.position.z == to.z && self.map.can_throw_object_to(p.position, to),
                ),
                None => {
                    return;
                },
            },
            None => {
                return;
            },
        };
        if !in_reach {
            self.push_cannot_move(id, "You cannot throw there.");
            return;
        }
        if self.is_no_room(to) {
            self.push_cannot_move(id, "You cannot put that there.");
            return;
        }
        let stackable = self.is_stackable(it.server_id);
        self.set_slot(id, slot, None);
        self.push_inventory_slot(id, slot);
        self.drop_on_ground(
            to,
            it.server_id,
            it.client_id,
            count_pieces(it),
            it.animated,
            stackable,
        );
        self.rekey_container_source(id, ContainerSource::Slot(slot), ContainerSource::Ground(to));
        self.auto_close_ground_containers(id);
    }

    fn swap_slots(&mut self, id: u32, src: u8, dst: u8)
        requires
            old(self).wf(),
            1 <= src <= 10,
            1 <= dst <= 10,
        ensures
            final(self).wf(),
            final(self)@ == old(self)@.swapped(id, src, dst),
    {
        if src == dst {
            return;
        }
        let moving = match self.slot_item(id, src) {
            Some(it) => it,
            None => {
                return;
            },
        };
        let displaced = self.slot_item(id, dst);
        let fits_back = match displaced {
            Some(d) => self.is_wearable(d.server_id, src),
            None => true,
        };
        if !self.is_wearable(moving.server_id, dst) || !fits_back {
            self.push_cannot_move(id, "You cannot equip this object.");
            return;
        }
        self.set_slot(id, dst, Some(moving));
        self.set_slot(id, src, displaced);
        self.push_inventory_slot(id, src);
        self.push_inventory_slot(id, dst);
    }

    /// A move with a container at one end or both.
    pub fn do_move_container(
        &mut self,
        id: u32,
        from: Position,
        from_stackpos: u8,
        to: Position,
        count: u8,
    )
        requires
            old(self).wf(),
        ensures
            final(self).wf(),
            final(self)@ == old(self)@.moved_with_containers(id, from, from_stackpos, to, count),
    {
        proof {
            lemma_window_named(from);
            lemma_window_named(to);
        }
        let from_container = from.x == 0xFFFF && from.y & 0x40 != 0;
        let to_container = to.x == 0xFFFF && to.y & 0x40 != 0;
        let fc: u8 = (from.y & 0x0F) as u8;
        let tc: u8 = (to.y & 0x0F) as u8;
        if from_container && to_container {
            self.repack(id, fc, from.z, tc, to.z);
        } else if to_container && from.x == 0xFFFF {
            self.stow(id, from.y as u8, tc);
        } else if to_container {
            self.pack(id, from, from_stackpos, tc, count);
        } else if from_container && to.x == 0xFFFF {
            self.draw_out(id, fc, from.z, to.y as u8);
        } else if from_container {
            self.unpack(id, fc, from.z, to);
        }
    }

    fn repack(&mut self, id: u32, fc: u8, fs: u8, tc: u8, ts: u8)
        requires
            old(self).wf(),
            fc < 16,
            tc < 16,
        ensures
            final(self).wf(),
            final(self)@ == old(self)@.repacked(id, fc, fs, tc, ts),
    {
        if fc == tc && fs == ts {
            return;
        }
        let bag = match self.item_in(id, fc, fs) {
            Some(it) => self.is_container(it.server_id),
            None => false,
        };
        let dest: u8 = if bag {
            tc
        } else {
            match self.nested_dest_cid(id, tc, ts) {
                Some(c) => c,
                None => tc,
            }
        };
        let item = match self.pop_item_from_container(id, fc, fs) {
            Some(i) => i,
            None => {
                return;
            },
        };
        self.close_orphaned_nested_container(id, fc, fs as usize);
        match self.window_full(id, dest) {
            Some(true) => self.push_item_to_container(id, fc, item),
            Some(false) => self.push_item_to_container(id, dest, item),
            None => {},
        }
    }

    fn pack(&mut self, id: u32, from: Position, sp: u8, tc: u8, count: u8)
        requires
            old(self).wf(),
            tc < 16,
        ensures
            final(self).wf(),
            final(self)@ == old(self)@.packed(id, from, sp, tc, count),
    {
        let near = match self.players.get(id) {
            Some(p) => in_close_range(p.position, from),
            None => {
                return;
            },
        };
        if !near {
            self.push_cannot_move(id, "You are too far away.");
            return;
        }
        let k = match self.pick(from, sp) {
            Some(k) => k,
            None => {
                return;
            },
        };
        if !k.moveable {
            self.push_cannot_move(id, "You cannot move this object.");
            return;
        }
        match self.window_full(id, tc) {
            Some(false) => {},
            _ => {
                return;
            },
        }
        let it = self.lift(from, sp, k, count);
        self.push_item_to_container(id, tc, it);
    }

    fn unpack(&mut self, id: u32, fc: u8, fs: u8, to: Position)
        requires
            old(self).wf(),
            fc < 16,
        ensures
            final(self).wf(),
            final(self)@ == old(self)@.unpacked(id, fc, fs, to),
    {
        let in_reach = match self.players.get(id) {
            Some(p) => p.position.z == to.z && self.map.can_throw_object_to(p.position, to),
            None => {
                return;
            },
        };
        if !in_reach {
            self.push_cannot_move(id, "You cannot throw there.");
            return;
        }
        if self.is_no_room(to) {
            self.push_cannot_move(id, "You cannot put that there.");
            return;
        }
        let stackable = match self.item_in(id, fc, fs) {
            Some(it) => self.is_stackable(it.server_id),
            None => false,
        };
        let it = match self.pop_item_from_container(id, fc, fs) {
            Some(i) => i,
            None => {
                return;
            },
        };
        self.close_orphaned_nested_container(id, fc, fs as usize);
        self.drop_on_ground(
            to,
            it.server_id,
            it.client_id,
            count_pieces(it),
            it.animated,
            stackable,
        );
    }

    fn stow(&mut self, id: u32, slot: u8, tc: u8)
        requires
            old(self).wf(),
            tc < 16,
        ensures
            final(self).wf(),
            final(self)@ == old(self)@.stowed(id, slot, tc),
    {
        if slot < 1 || slot > 10 {
            return;
        }
        let it = match self.slot_item(id, slot) {
            Some(it) => it,
            None => {
                return;
            },
        };
        match self.window_full(id, tc) {
            Some(false) => {},
            _ => {
                return;
            },
        }
        self.set_slot(id, slot, None);
        self.push_inventory_slot(id, slot);
        self.push_item_to_container(id, tc, it);
    }

    fn draw_out(&mut self, id: u32, fc: u8, fs: u8, slot: u8)
        requires
            old(self).wf(),
            fc < 16,
        ensures
            final(self).wf(),
            final(self)@ == old(self)@.drawn_out(id, fc, fs, slot),
    {
        if slot < 1 || slot > 10 {
            return;
        }
        match self.slot_item(id, slot) {
            Some(_) => {
                return;
            },
            None => {},
        }
        let fits = match self.item_in(id, fc, fs) {
            Some(it) => self.is_wearable(it.server_id, slot),
            None => false,
        };
        let it = match self.pop_item_from_container(id, fc, fs) {
            Some(i) => i,
            None => {
                return;
            },
        };
        self.close_orphaned_nested_container(id, fc, fs as usize);
        if fits {
            self.set_slot(id, slot, Some(it));
            self.push_inventory_slot(id, slot);
        }
    }
}

} // verus!
