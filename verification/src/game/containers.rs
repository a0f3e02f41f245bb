//! Container windows: using, closing and browsing them, and moves that involve them.

use vstd::prelude::*;

use super::lua::handled;
use super::lua::GameAction;
use super::lua::LuaArgs;
use super::lua::LuaCall;
use super::lua::LuaError;
use super::lua::ScriptResult;
use super::model::lemma_set_player;
use super::model::World;
use super::state::window_view;
use super::state::ContainerModel;
use super::state::ContainerSource;
use super::state::InvItem;
use super::state::OpenContainer;
use super::state::PlayerModel;
use super::state::PlayerState;
use super::windows::close;
use super::windows::comes_from;
use super::windows::in_close_range;
use super::windows::lemma_first_from;
use super::Game;
use crate::wire::Packet;
use crate::wire::PacketModel;
use crate::wire::WireItem;
use crate::Position;

verus! {

/// The position stands for a container window, not for a tile or an equipment slot.
pub open spec fn names_window(p: Position) -> bool {
    p.x == 0xFFFF && p.y & 0x40 != 0
}

/// The position stands for an equipment slot.
pub open spec fn names_slot(p: Position) -> bool {
    p.x == 0xFFFF && p.y & 0x40 == 0
}

/// The window that a position stands for.
pub open spec fn window_named(p: Position) -> u8 {
    (p.y & 0x0F) as u8
}

/// Items as a client draws them.
pub open spec fn drawn_items(items: Seq<InvItem>) -> Seq<WireItem> {
    items.map_values(|i: InvItem| i.drawn())
}

impl PlayerModel {
    /// The item at `slot` of window `cid`.
    pub open spec fn window_item(self, cid: u8, slot: int) -> Option<InvItem> {
        match self.windows[cid as int] {
            Some(oc) if 0 <= slot < oc.items.len() => Some(oc.items[slot]),
            _ => None,
        }
    }
}

impl World {
    /// Player `id` is shown window `cid`, where there is one.
    pub open spec fn window_told(self, id: u32, cid: u8) -> World {
        if !self.players.has(id) {
            self
        } else {
            match self.players.at(id).windows[cid as int] {
                Some(oc) => self.push(
                    id,
                    PacketModel::OpenContainer {
                        cid,
                        bag: WireItem {
                            client_id: oc.client_id,
                            subtype: None,
                            animated: self.map.meta_at(oc.server_id) matches Some(m) && m.animated,
                        },
                        name: oc.name,
                        capacity: oc.capacity,
                        has_parent: oc.source is Nested,
                        items: drawn_items(oc.items),
                    },
                ),
                None => self,
            }
        }
    }

    /// Window `cid` of player `id` closed, its contents kept, with no one told.
    pub open spec fn window_shut(self, id: u32, cid: u8) -> World {
        if self.players.has(id) {
            self.set_player(id, self.players.at(id).with_shut(cid as int))
        } else {
            self
        }
    }

    /// Window `cid` of player `id` replaced.
    pub open spec fn window_set(self, id: u32, cid: u8, w: Option<ContainerModel>) -> World {
        if self.players.has(id) {
            self.set_player(id, self.players.at(id).with_window(cid as int, w))
        } else {
            self
        }
    }

    /// Window `cid` and all windows that lie in it closed, innermost first, and the player
    /// told of each. Sixteen windows nest at most sixteen deep; `depth` is what is left of
    /// that, so that a window which lies in itself ends the search too.
    pub open spec fn tree_shut(self, id: u32, cid: u8, depth: nat) -> World
        decreases depth, 0nat,
    {
        if !self.players.has(id) || depth == 0 {
            self
        } else {
            self.trees_shut(id, self.players.at(id).children(cid, 16), (depth - 1) as nat).window_shut(
                id,
                cid,
            ).push(id, PacketModel::CloseContainer { cid })
        }
    }

    /// Each of `cids` closed with all windows that lie in it.
    pub open spec fn trees_shut(self, id: u32, cids: Seq<u8>, depth: nat) -> World
        decreases depth, 1 + cids.len(),
    {
        if cids.len() == 0 {
            self
        } else {
            self.tree_shut(id, cids[0], depth).trees_shut(id, cids.drop_first(), depth)
        }
    }

    /// The item at `removed` of window `cid` is gone: windows that show containers behind it
    /// follow them, and the window that showed it is closed.
    pub open spec fn orphan_shut(self, id: u32, cid: u8, removed: int) -> World {
        if !self.players.has(id) {
            self
        } else {
            let p = self.players.at(id);
            let w = self.set_player(id, p.pulled_up(cid, removed));
            match p.orphan(cid, removed, 16) {
                Some(c) => w.tree_shut(id, c, 16),
                None => w,
            }
        }
    }

    /// The window of player `id` from `old` stands for `new` now.
    pub open spec fn window_rekeyed(
        self,
        id: u32,
        old_source: ContainerSource,
        new: ContainerSource,
    ) -> World {
        if self.players.has(id) {
            self.set_player(id, self.players.at(id).rekeyed(old_source, new))
        } else {
            self
        }
    }

    /// The windows of player `id` that show containers on tiles out of reach closed.
    pub open spec fn reach_checked(self, id: u32) -> World {
        if self.players.has(id) {
            self.trees_shut(id, self.players.at(id).out_of_reach(16), 16)
        } else {
            self
        }
    }

    /// `item` put in front of window `cid` where it has room. The player is told if the
    /// window is open.
    pub open spec fn item_put(self, id: u32, cid: u8, item: InvItem) -> World {
        if !self.players.has(id) {
            self
        } else {
            match self.players.at(id).windows[cid as int] {
                Some(oc) if !oc.is_full() => {
                    let w = self.set_player(id, self.players.at(id).with_item(cid, item));
                    if oc.is_open {
                        w.push(
                            id,
                            PacketModel::AddContainerItem { cid, index: 0, item: item.drawn() },
                        )
                    } else {
                        w
                    }
                },
                _ => self,
            }
        }
    }

    /// What player `id` has at `slot` of window `cid`.
    pub open spec fn item_in(self, id: u32, cid: u8, slot: int) -> Option<InvItem> {
        if self.players.has(id) {
            self.players.at(id).window_item(cid, slot)
        } else {
            None
        }
    }

    /// The item at `slot` of window `cid` taken out and the player told, where there is one.
    pub open spec fn item_popped(self, id: u32, cid: u8, slot: u8) -> World {
        if self.item_in(id, cid, slot as int) is Some {
            self.set_player(id, self.players.at(id).without_item(cid, slot as int)).push(
                id,
                PacketModel::RemoveContainerItem { cid, index: slot as u16 },
            )
        } else {
            self
        }
    }

    /// Items of type `server_id` are containers.
    pub open spec fn is_bag(self, server_id: u16) -> bool {
        self.map.meta_at(server_id) matches Some(m) && m.is_container
    }

    /// A window for a container of type `server_id`, which exists in the catalogue.
    pub open spec fn new_window(
        self,
        server_id: u16,
        source: ContainerSource,
        is_open: bool,
    ) -> ContainerModel {
        let m = self.map.meta_at(server_id)->0;
        ContainerModel {
            server_id,
            client_id: m.client_id,
            capacity: if m.container_capacity >= 1 { m.container_capacity } else { 1 },
            name: m.name,
            items: Seq::empty(),
            source,
            is_open,
        }
    }

    /// The window that tracks the container at `slot` of window `cid`, a free one where none
    /// does. `None` where there is no container at that place, or no window is free.
    pub open spec fn inner_window(self, id: u32, cid: u8, slot: u8) -> Option<u8> {
        match self.item_in(id, cid, slot as int) {
            Some(it) if self.is_bag(it.server_id) => {
                let p = self.players.at(id);
                match p.window_of(
                    ContainerSource::Nested { parent_cid: cid, parent_slot: slot },
                ) {
                    Some(c) => Some(c as u8),
                    None => match p.free_window() {
                        Some(c) => Some(c as u8),
                        None => None,
                    },
                }
            },
            _ => None,
        }
    }

    /// The container at `slot` of window `cid` has a window that tracks it.
    pub open spec fn inner_tracked(self, id: u32, cid: u8, slot: u8) -> World {
        let source = ContainerSource::Nested { parent_cid: cid, parent_slot: slot };
        match self.item_in(id, cid, slot as int) {
            Some(it) if self.is_bag(it.server_id) && self.players.at(id).window_of(source) is None
                && self.players.at(id).free_window() is Some => self.window_set(
                id,
                self.players.at(id).free_window()->0 as u8,
                Some(self.new_window(it.server_id, source, false)),
            ),
            _ => self,
        }
    }
}

impl PlayerState {
    /// The container in window `c`.
    pub fn window(&self, c: u8) -> (r: Option<&OpenContainer>)
        requires
            c < 16,
        ensures
            self@.windows[c as int] == (match r {
                Some(oc) => Some(oc@),
                None => None,
            }),
    {
        let i: usize = c as usize;
        assert(self@.windows[i as int] == window_view(self.open_containers@[i as int]));
        match &self.open_containers[i] {
            Some(oc) => Some(oc),
            None => None,
        }
    }
}

fn draw_items(items: &Vec<InvItem>) -> (r: Vec<WireItem>)
    ensures
        r@ == drawn_items(items@),
{
    let mut r: Vec<WireItem> = Vec::new();
    let mut i: usize = 0;
    while i < items.len()
        invariant
            i <= items@.len(),
            r@ == drawn_items(items@).take(i as int),
        decreases items@.len() - i,
    {
        let w = items[i].wire();
        r.push(w);
        assert(r@ =~= drawn_items(items@).take(i + 1));
        i = i + 1;
    }
    assert(drawn_items(items@).take(items@.len() as int) =~= drawn_items(items@));
    r
}

impl Game {
    /// Show player `id` window `cid`, where there is one.
    pub fn push_open_container(&mut self, id: u32, cid: u8)
        requires
            old(self).wf(),
            cid < 16,
        ensures
            final(self).wf(),
            final(self)@ == old(self)@.window_told(id, cid),
    {
        let packet = match self.players.get(id) {
            Some(p) => match p.window(cid) {
                Some(oc) => {
                    let animated = match self.map.item_meta(oc.server_id) {
                        Some(m) => m.animated,
                        None => false,
                    };
                    let has_parent = match oc.source {
                        ContainerSource::Nested { .. } => true,
                        _ => false,
                    };
                    Packet::OpenContainer {
                        cid,
                        bag: WireItem { client_id: oc.client_id, subtype: None, animated },
                        name: oc.name.clone(),
                        capacity: oc.capacity,
                        has_parent,
                        items: draw_items(&oc.items),
                    }
                },
                None => {
                    return;
                },
            },
            None => {
                return;
            },
        };
        self.push(id, packet);
    }

    /// Close window `cid` and keep its contents, telling no one.
    fn shut_window(&mut self, id: u32, cid: u8)
        requires
            old(self).wf(),
            cid < 16,
        ensures
            final(self).wf(),
            final(self)@ == old(self)@.window_shut(id, cid),
    {
        proof {
            if self@.players.has(id) {
                lemma_set_player(self@, id, self@.players.at(id).with_shut(cid as int));
            }
        }
        match self.players.get_mut(id) {
            Some(p) => {
                p.shut_window(cid as usize);
            },
            None => {},
        }
    }

    /// Replace window `cid`.
    fn set_window(&mut self, id: u32, cid: u8, w: Option<OpenContainer>)
        requires
            old(self).wf(),
            cid < 16,
        ensures
            final(self).wf(),
            final(self)@ == old(self)@.window_set(id, cid, window_view(w)),
    {
        proof {
            if self@.players.has(id) {
                lemma_set_player(
                    self@,
                    id,
                    self@.players.at(id).with_window(cid as int, window_view(w)),
                );
            }
        }
        match self.players.get_mut(id) {
            Some(p) => {
                p.set_window(cid as usize, w);
            },
            None => {},
        }
    }

    /// Close `cid` and every window that lies in it, innermost first.
    fn close_container_tree(&mut self, id: u32, cid: u8, depth: u8)
        requires
            old(self).wf(),
            cid < 16,
        ensures
            final(self).wf(),
            final(self)@ == old(self)@.tree_shut(id, cid, depth as nat),
        decreases depth, 0nat,
    {
        if depth == 0 {
            return;
        }
        let children = match self.players.get(id) {
            Some(p) => p.children_of(cid),
            None => {
                return;
            },
        };
        self.close_container_trees(id, &children, depth - 1);
        self.shut_window(id, cid);
        self.push(id, Packet::CloseContainer { cid });
    }

    /// Close each of `cids` with every window that lies in it.
    fn close_container_trees(&mut self, id: u32, cids: &Vec<u8>, depth: u8)
        requires
            old(self).wf(),
            forall|i: int| 0 <= i < cids@.len() ==> (#[trigger] cids@[i]) < 16,
        ensures
            final(self).wf(),
            final(self)@ == old(self)@.trees_shut(id, cids@, depth as nat),
        decreases depth, 1nat,
    {
        let mut i: usize = 0;
        assert(cids@.skip(0) =~= cids@);
        while i < cids.len()
            invariant
                i <= cids@.len(),
                self.wf(),
                forall|i: int| 0 <= i < cids@.len() ==> (#[trigger] cids@[i]) < 16,
                old(self)@.trees_shut(id, cids@, depth as nat) == self@.trees_shut(
                    id,
                    cids@.skip(i as int),
                    depth as nat,
                ),
            decreases cids@.len() - i,
        {
            assert(cids@.skip(i as int).drop_first() =~= cids@.skip(i + 1));
            self.close_container_tree(id, cids[i], depth);
            i = i + 1;
        }
    }

    /// The item at `removed_slot` of `parent_cid` is gone: close the window that showed it,
    /// with everything in it, and let the windows of containers behind it follow them.
    pub fn close_orphaned_nested_container(&mut self, id: u32, parent_cid: u8, removed_slot: usize)
        requires
            old(self).wf(),
        ensures
            final(self).wf(),
            final(self)@ == old(self)@.orphan_shut(id, parent_cid, removed_slot as int),
    {
        proof {
            if self@.players.has(id) {
                lemma_set_player(
                    self@,
                    id,
                    self@.players.at(id).pulled_up(parent_cid, removed_slot as int),
                );
            }
        }
        let orphan = match self.players.get_mut(id) {
            Some(p) => p.pull_up(parent_cid, removed_slot),
            None => {
                return;
            },
        };
        match orphan {
            Some(c) => self.close_container_tree(id, c, 16),
            None => {},
        }
    }

    /// Close a window. Its contents stay, and are there when it is opened again.
    pub fn do_close_container(&mut self, id: u32, cid: u8)
        requires
            old(self).wf(),
        ensures
            final(self).wf(),
            final(self)@ == old(self)@.container_closed(id, cid),
    {
        if cid >= 16 {
            return;
        }
        match self.players.get(id) {
            Some(p) => match p.window(cid) {
                Some(_) => {},
                None => {
                    return;
                },
            },
            None => {
                return;
            },
        }
        self.shut_window(id, cid);
        self.push(id, Packet::CloseContainer { cid });
    }

    /// Go from a window to the one it lies in: show that one and close this one. Windows that
    /// lie in no other stay.
    pub fn do_up_arrow(&mut self, id: u32, cid: u8)
        requires
            old(self).wf(),
        ensures
            final(self).wf(),
            final(self)@ == old(self)@.gone_up(id, cid),
    {
        proof {
            reveal(World::gone_up);
        }
        if cid >= 16 {
            return;
        }
        let parent = match self.players.get(id) {
            Some(p) => match p.window(cid) {
                Some(oc) => match oc.source {
                    ContainerSource::Nested { parent_cid, .. } => parent_cid,
                    _ => {
                        return;
                    },
                },
                None => {
                    return;
                },
            },
            None => {
                return;
            },
        };
        if parent < 16 {
            self.push_open_container(id, parent);
        }
        self.do_close_container(id, cid);
    }

    /// Put `item` in front of window `cid` where it has room. The player is told only where
    /// the window is open: a client has no place to show it otherwise.
    pub fn push_item_to_container(&mut self, id: u32, cid: u8, item: InvItem)
        requires
            old(self).wf(),
            cid < 16,
        ensures
            final(self).wf(),
            final(self)@ == old(self)@.item_put(id, cid, item),
    {
        proof {
            if self@.players.has(id) {
                lemma_set_player(self@, id, self@.players.at(id).with_item(cid, item));
            }
        }
        let shown = match self.players.get_mut(id) {
            Some(p) => p.insert_item(cid, item),
            None => {
                return;
            },
        };
        match shown {
            Some(true) => {
                let w = item.wire();
                self.push(id, Packet::AddContainerItem { cid, index: 0, item: w });
            },
            Some(false) => {},
            None => {
                assert(self@ =~= old(self)@);
            },
        }
    }

    /// Take the item at `slot` out of window `cid` and tell the player.
    pub fn pop_item_from_container(&mut self, id: u32, cid: u8, slot: u8) -> (r: Option<InvItem>)
        requires
            old(self).wf(),
            cid < 16,
        ensures
            final(self).wf(),
            final(self)@ == old(self)@.item_popped(id, cid, slot),
            r == old(self)@.item_in(id, cid, slot as int),
    {
        proof {
            if self@.players.has(id) {
                lemma_set_player(self@, id, self@.players.at(id).without_item(cid, slot as int));
            }
        }
        let removed = match self.players.get_mut(id) {
            Some(p) => p.remove_item(cid, slot as usize),
            None => {
                return None;
            },
        };
        match removed {
            Some(_) => {
                self.push(id, Packet::RemoveContainerItem { cid, index: slot as u16 });
            },
            None => {
                assert(self@ =~= old(self)@);
            },
        }
        removed
    }

    /// What player `id` has at `slot` of window `cid`.
    pub fn item_in(&self, id: u32, cid: u8, slot: u8) -> (r: Option<InvItem>)
        requires
            self.wf(),
            cid < 16,
        ensures
            r == self@.item_in(id, cid, slot as int),
    {
        match self.players.get(id) {
            Some(p) => match p.window(cid) {
                Some(oc) => {
                    let i: usize = slot as usize;
                    if i < oc.items.len() {
                        Some(oc.items[i])
                    } else {
                        None
                    }
                },
                None => None,
            },
            None => None,
        }
    }

    /// Are items of type `server_id` containers?
    pub fn is_container(&self, server_id: u16) -> (r: bool)
        requires
            self.wf(),
        ensures
            r == self@.is_bag(server_id),
    {
        match self.map.item_meta(server_id) {
            Some(m) => m.is_container,
            None => false,
        }
    }

    /// Is window `cid` of player `id` full? `None` where there is no such window.
    pub fn window_full(&self, id: u32, cid: u8) -> (r: Option<bool>)
        requires
            self.wf(),
            cid < 16,
        ensures
            r == self@.fullness(id, cid),
    {
        match self.players.get(id) {
            Some(p) => match p.window(cid) {
                Some(oc) => Some(oc.items.len() >= oc.capacity as usize),
                None => None,
            },
            None => None,
        }
    }

    /// A window for a container of type `server_id`, which must be in the catalogue.
    fn make_window(&self, server_id: u16, source: ContainerSource, is_open: bool) -> (r:
        OpenContainer)
        requires
            self.wf(),
            self@.map.meta_at(server_id) is Some,
        ensures
            r@ == self@.new_window(server_id, source, is_open),
    {
        match self.map.item_meta(server_id) {
            Some(m) => OpenContainer {
                server_id,
                client_id: m.client_id,
                capacity: if m.container_capacity >= 1 {
                    m.container_capacity
                } else {
                    1
                },
                name: m.name.clone(),
                items: Vec::new(),
                source,
                is_open,
            },
            None => OpenContainer {
                server_id,
                client_id: 0,
                capacity: 1,
                name: String::new(),
                items: Vec::new(),
                source,
                is_open,
            },
        }
    }

    /// The window that tracks the container at `slot` of window `parent_cid`: the one that
    /// does already, or a free one from now on. `None` where that place holds no container,
    /// or no window is free.
    pub fn nested_dest_cid(&mut self, id: u32, parent_cid: u8, slot: u8) -> (r: Option<u8>)
        requires
            old(self).wf(),
            parent_cid < 16,
        ensures
            final(self).wf(),
            final(self)@ == old(self)@.inner_tracked(id, parent_cid, slot),
            r == old(self)@.inner_window(id, parent_cid, slot),
            r matches Some(c) ==> c < 16,
    {
        let sid: u16 = match self.item_in(id, parent_cid, slot) {
            Some(it) => it.server_id,
            None => {
                return None;
            },
        };
        if !self.is_container(sid) {
            return None;
        }
        let source = ContainerSource::Nested { parent_cid, parent_slot: slot };
        let free = match self.players.get(id) {
            Some(p) => {
                match p.window_of(source) {
                    Some(c) => {
                        return Some(c as u8);
                    },
                    None => {},
                }
                p.next_free_cid()
            },
            None => {
                return None;
            },
        };
        match free {
            Some(c) => {
                let oc = self.make_window(sid, source, false);
                self.set_window(id, c, Some(oc));
                Some(c)
            },
            None => None,
        }
    }

    /// Let the window from `old_source` stand for `new`, so that a container's contents
    /// follow it when it moves.
    pub fn rekey_container_source(
        &mut self,
        id: u32,
        old_source: ContainerSource,
        new: ContainerSource,
    )
        requires
            old(self).wf(),
        ensures
            final(self).wf(),
            final(self)@ == old(self)@.window_rekeyed(id, old_source, new),
    {
        proof {
            if self@.players.has(id) {
                lemma_first_from(self@.players.at(id).windows, comes_from(old_source), 0);
                lemma_set_player(self@, id, self@.players.at(id).rekeyed(old_source, new));
            }
        }
        match self.players.get_mut(id) {
            Some(p) => {
                p.rekey(old_source, new);
            },
            None => {},
        }
    }

    /// Close every window that shows a container on a tile out of reach. Containers that the
    /// player carries travel along.
    pub fn auto_close_ground_containers(&mut self, id: u32)
        requires
            old(self).wf(),
        ensures
            final(self).wf(),
            final(self)@ == old(self)@.reach_checked(id),
    {
        let cids = match self.players.get(id) {
            Some(p) => p.windows_out_of_reach(),
            None => {
                return;
            },
        };
        self.close_container_trees(id, &cids, 16);
    }
}

impl World {
    /// Window `cid` closed on the player's wish.
    pub open spec fn container_closed(self, id: u32, cid: u8) -> World {
        if cid < 16 && self.players.has(id) && self.players.at(id).windows[cid as int] is Some {
            self.window_shut(id, cid).push(id, PacketModel::CloseContainer { cid })
        } else {
            self
        }
    }

    /// From window `cid` to the one it lies in.
    #[verifier::opaque]
    pub open spec fn gone_up(self, id: u32, cid: u8) -> World {
        if cid < 16 && self.players.has(id) {
            match self.players.at(id).windows[cid as int] {
                Some(oc) => match oc.source {
                    ContainerSource::Nested { parent_cid, .. } => {
                        let w = if parent_cid < 16 {
                            self.window_told(id, parent_cid)
                        } else {
                            self
                        };
                        w.container_closed(id, cid)
                    },
                    _ => self,
                },
                None => self,
            }
        } else {
            self
        }
    }

    /// Whether window `cid` of player `id` is full; `None` where there is none.
    pub open spec fn fullness(self, id: u32, cid: u8) -> Option<bool> {
        if self.players.has(id) {
            match self.players.at(id).windows[cid as int] {
                Some(oc) => Some(oc.is_full()),
                None => None,
            }
        } else {
            None
        }
    }
}

impl World {
    /// What player `id` means by stack position `stackpos` of `pos`: the type of the item,
    /// and where a window would find it. On the ground it must be within reach.
    pub open spec fn use_target(self, id: u32, pos: Position, stackpos: u8) -> Option<
        (u16, ContainerSource),
    > {
        if !self.players.has(id) {
            None
        } else if names_window(pos) {
            match self.item_in(id, window_named(pos), pos.z as int) {
                Some(it) => Some(
                    (
                        it.server_id,
                        ContainerSource::Nested {
                            parent_cid: window_named(pos),
                            parent_slot: pos.z,
                        },
                    ),
                ),
                None => None,
            }
        } else if names_slot(pos) {
            let slot = pos.y as u8;
            if 1 <= slot <= 10 {
                match self.players.at(id).inventory[slot - 1] {
                    Some(it) => Some((it.server_id, ContainerSource::Slot(slot))),
                    None => None,
                }
            } else {
                None
            }
        } else if close(self.players.at(id).position, pos) {
            match self.item_index(pos, stackpos) {
                Some(idx) => match self.thing(pos, idx) {
                    Some(t) => Some((t.server_id, ContainerSource::Ground(pos))),
                    None => None,
                },
                None => None,
            }
        } else {
            None
        }
    }

    /// The window for a container that has none yet: the one the client asks for where it is
    /// unused, else a free one.
    pub open spec fn window_for(self, id: u32, index: u8) -> Option<int> {
        if index < 16 && self.players.at(id).windows[index as int] is None {
            Some(index as int)
        } else {
            self.players.at(id).free_window()
        }
    }

    /// A container of type `server_id` at `source` used: its window is closed if it is open,
    /// opened again if it was closed, and a new one if it had none.
    pub open spec fn bag_used(
        self,
        id: u32,
        server_id: u16,
        source: ContainerSource,
        index: u8,
    ) -> World {
        let p = self.players.at(id);
        match p.window_of(source) {
            Some(c) => {
                let oc = p.windows[c]->0;
                if oc.is_open {
                    self.container_closed(id, c as u8)
                } else {
                    let fresh = self.new_window(server_id, source, true);
                    self.window_set(
                        id,
                        c as u8,
                        Some(
                            ContainerModel {
                                is_open: true,
                                name: fresh.name,
                                capacity: fresh.capacity,
                                client_id: fresh.client_id,
                                ..oc
                            },
                        ),
                    ).window_told(id, c as u8)
                }
            },
            None => match self.window_for(id, index) {
                Some(c) => self.window_set(
                    id,
                    c as u8,
                    Some(self.new_window(server_id, source, true)),
                ).window_told(id, c as u8),
                None => self,
            },
        }
    }

    /// An item used. Containers open and close; anything else is left to scripts.
    #[verifier::opaque]
    pub open spec fn item_used(self, id: u32, pos: Position, stackpos: u8, index: u8) -> World {
        match self.use_target(id, pos, stackpos) {
            Some((server_id, source)) if self.is_bag(server_id) => self.bag_used(
                id,
                server_id,
                source,
                index,
            ),
            _ => self,
        }
    }

    /// What the item's script is told, where scripts run and the item has one.
    #[verifier::opaque]
    pub open spec fn item_script(self, id: u32, pos: Position, stackpos: u8) -> Option<LuaArgs> {
        match self.use_target(id, pos, stackpos) {
            Some((server_id, _)) if self.map.meta_at(server_id) is Some && !self.is_bag(server_id)
                && self.lua is Some && self.actions.contains_key(server_id) => Some(
                LuaArgs {
                    player_id: id,
                    item_id: server_id,
                    pos_x: pos.x,
                    pos_y: pos.y,
                    pos_z: pos.z,
                    stackpos,
                },
            ),
            _ => None,
        }
    }
}

/// What went wrong in a script, by what came of calling it.
pub open spec fn fault_in(answer: Result<ScriptResult, LuaError>) -> Option<LuaError> {
    match answer {
        Ok(_) => None,
        Err(fault) => Some(fault),
    }
}

impl World {
    /// The game once the script of an item was called with `args`, and then what it and others
    /// before it had asked for was taken from the interpreter.
    pub open spec fn script_run(
        self,
        args: LuaArgs,
        answer: Result<ScriptResult, LuaError>,
        asked: Seq<GameAction>,
    ) -> World {
        let called = LuaCall::Called { name: self.actions[args.item_id], args, answer };
        World { lua: Some(self.lua->0.noted(called).noted(LuaCall::Drained { asked })), ..self }
    }

    /// The call of an item's script with `args` may come to `answer`, and the list of requests
    /// may then hold `asked`.
    pub open spec fn script_may_run(
        self,
        args: LuaArgs,
        answer: Result<ScriptResult, LuaError>,
        asked: Vec<GameAction>,
    ) -> bool {
        let name = self.actions[args.item_id];
        &&& self.lua matches Some(lua)
        &&& self.actions.contains_key(args.item_id)
        &&& lua.item_may_answer(name, args, answer)
        &&& lua.noted(LuaCall::Called { name, args, answer }).may_have_asked(asked)
    }

    /// Using an item may lead to `after`, with `fault` in its script. Where it has a script, that
    /// is run and what has then been asked for is done; else nothing can go wrong.
    pub open spec fn use_may_lead(
        self,
        id: u32,
        pos: Position,
        stackpos: u8,
        index: u8,
        fault: Option<LuaError>,
        after: World,
    ) -> bool {
        match self.item_script(id, pos, stackpos) {
            Some(args) => exists|answer: Result<ScriptResult, LuaError>, asked: Vec<GameAction>|
                #[trigger] self.script_may_run(args, answer, asked) && fault == fault_in(answer)
                    && after == self.script_run(args, answer, asked@).all_obeyed(asked@),
            None => fault is None && after == self.item_used(id, pos, stackpos, index),
        }
    }
}

/// A window number read off a position is one of the sixteen.
pub proof fn lemma_window_named(p: Position)
    ensures
        window_named(p) < 16,
{
    let y = p.y;
    assert((y & 0x0F) < 16) by (bit_vector);
}

impl Game {
    /// What player `id` means by stack position `stackpos` of `pos`.
    fn used_thing(&self, id: u32, pos: Position, stackpos: u8) -> (r: Option<(u16, ContainerSource)>)
        requires
            self.wf(),
        ensures
            r == self@.use_target(id, pos, stackpos),
    {
        let p = match self.players.get(id) {
            Some(p) => p,
            None => {
                return None;
            },
        };
        if pos.x == 0xFFFF {
            if pos.y & 0x40 != 0 {
                proof {
                    lemma_window_named(pos);
                }
                let cid: u8 = (pos.y & 0x0F) as u8;
                match self.item_in(id, cid, pos.z) {
                    Some(it) => Some(
                        (
                            it.server_id,
                            ContainerSource::Nested { parent_cid: cid, parent_slot: pos.z },
                        ),
                    ),
                    None => None,
                }
            } else {
                let slot: u8 = pos.y as u8;
                if slot < 1 || slot > 10 {
                    return None;
                }
                match p.inventory[(slot - 1) as usize] {
                    Some(it) => Some((it.server_id, ContainerSource::Slot(slot))),
                    None => None,
                }
            }
        } else {
            if !in_close_range(p.position, pos) {
                return None;
            }
            match self.item_index(pos, stackpos) {
                Some(idx) => match self.merged_server_id(pos, idx) {
                    Some(sid) => Some((sid, ContainerSource::Ground(pos))),
                    None => None,
                },
                None => None,
            }
        }
    }

    /// What the script of the used item is told, where scripts run and the item has one.
    pub fn find_script(&self, id: u32, pos_x: u16, pos_y: u16, pos_z: u8, stackpos: u8) -> (r: Option<
        LuaArgs,
    >)
        requires
            self.wf(),
        ensures
            r == self@.item_script(id, (Position { x: pos_x, y: pos_y, z: pos_z }), stackpos),
    {
        proof {
            reveal(World::item_script);
        }
        let pos = Position::new(pos_x, pos_y, pos_z);
        let (server_id, source) = self.used_thing(id, pos, stackpos)?;
        let is_container = self.map.item_meta(server_id)?.is_container;
        if is_container || self.lua.is_none() {
            return None;
        }
        match self.registry.lookup(server_id) {
            Some(_) => Some(
                LuaArgs { player_id: id, item_id: server_id, pos_x, pos_y, pos_z, stackpos },
            ),
            None => None,
        }
    }

    /// Use an item that is no business of scripts: open the window of a container, or close it
    /// if it is open.
    pub fn use_bag(&mut self, id: u32, pos: Position, stackpos: u8, index: u8)
        requires
            old(self).wf(),
        ensures
            final(self).wf(),
            final(self)@ == old(self)@.item_used(id, pos, stackpos, index),
    {
        proof {
            reveal(World::item_used);
        }
        match self.used_thing(id, pos, stackpos) {
            Some((server_id, source)) => {
                let is_container = match self.map.item_meta(server_id) {
                    Some(m) => m.is_container,
                    None => false,
                };
                if is_container {
                    self.use_container(id, server_id, source, index);
                }
            },
            None => {},
        }
    }

    /// Use an item. A container's window is opened, or closed if it is open. The script of
    /// anything else is run, where it has one, and what it asks for is done. The result is what
    /// went wrong in the script.
    pub fn do_use_item(
        &mut self,
        id: u32,
        pos_x: u16,
        pos_y: u16,
        pos_z: u8,
        stackpos: u8,
        index: u8,
    ) -> (fault: Option<LuaError>)
        requires
            old(self).wf(),
        ensures
            final(self).wf(),
            old(self)@.use_may_lead(
                id,
                (Position { x: pos_x, y: pos_y, z: pos_z }),
                stackpos,
                index,
                fault,
                final(self)@,
            ),
    {
        let args = match self.find_script(id, pos_x, pos_y, pos_z, stackpos) {
            Some(args) => args,
            None => {
                self.use_bag(id, Position::new(pos_x, pos_y, pos_z), stackpos, index);
                return None;
            },
        };
        proof {
            reveal(World::item_script);
        }
        let ghost w = self@;
        match (&mut self.lua, self.registry.lookup(args.item_id)) {
            (Some(lua), Some(script)) => {
                let ghost before = *lua;
                let r = lua.dispatch_item(script, &args);
                let ghost answer = choose|answer: Result<ScriptResult, LuaError>| #[trigger]
                    before.item_may_answer(script@, args, answer) && r == handled(answer) && *lua
                        == before.noted(LuaCall::Called { name: script@, args, answer });
                let asked = lua.drain_actions();
                assert(w.script_may_run(args, answer, asked));
                assert(self@ == w.script_run(args, answer, asked@));
                self.do_script_actions(&asked);
                match r {
                    Ok(_) => None,
                    Err(fault) => Some(fault),
                }
            },
            _ => None,
        }
    }

    /// Use a container of type `server_id` at `source`.
    fn use_container(&mut self, id: u32, server_id: u16, source: ContainerSource, index: u8)
        requires
            old(self).wf(),
            old(self)@.players.has(id),
            old(self)@.map.meta_at(server_id) is Some,
        ensures
            final(self).wf(),
            final(self)@ == old(self)@.bag_used(id, server_id, source, index),
    {
        let mut oc = self.make_window(server_id, source, true);
        let p = match self.players.get(id) {
            Some(p) => p,
            None => {
                return;
            },
        };
        proof {
            lemma_first_from(p@.windows, comes_from(source), 0);
        }
        match p.window_of(source) {
            Some(c) => {
                let cid: u8 = c as u8;
                match p.window(cid) {
                    Some(was) => {
                        if was.is_open {
                            self.do_close_container(id, cid);
                            return;
                        }
                        oc.server_id = was.server_id;
                        oc.source = was.source;
                        oc.items = copy_items(&was.items);
                    },
                    None => {
                        return;
                    },
                }
                self.set_window(id, cid, Some(oc));
                self.push_open_container(id, cid);
            },
            None => {
                let asked = index < 16 && match p.window(if index < 16 {
                    index
                } else {
                    0
                }) {
                    Some(_) => false,
                    None => true,
                };
                let cid: u8 = if asked {
                    index
                } else {
                    match p.next_free_cid() {
                        Some(c) => c,
                        None => {
                            return;
                        },
                    }
                };
                self.set_window(id, cid, Some(oc));
                self.push_open_container(id, cid);
            },
        }
    }
}

fn copy_items(items: &Vec<InvItem>) -> (r: Vec<InvItem>)
    ensures
        r@ == items@,
{
    let mut r: Vec<InvItem> = Vec::new();
    let mut i: usize = 0;
    while i < items.len()
        invariant
            i <= items@.len(),
            r@ == items@.take(i as int),
        decreases items@.len() - i,
    {
        r.push(items[i]);
        assert(r@ =~= items@.take(i + 1));
        i = i + 1;
    }
    assert(items@.take(items@.len() as int) =~= items@);
    r
}

} // verus!
