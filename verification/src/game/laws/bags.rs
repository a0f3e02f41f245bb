//! Windows of containers: opening them, closing them, and going from one to the one around it.

use vstd::prelude::*;

use super::lemma_window_told;
use super::super::commands::Command;
use super::super::containers::drawn_items;
use super::super::model::law_push;
use super::super::model::lemma_keeps_players_trans;
use super::super::model::World;
use super::super::state::ContainerModel;
use super::super::state::ContainerSource;
use super::super::state::PlayerModel;
use super::super::windows::comes_from;
use super::super::windows::lemma_first_from;
use super::things::is_in_window;
use super::things::is_slot;
use super::things::lemma_places;
use super::told::hears;
use super::told::law_messages_arrive;
use super::told::lemma_hears_earlier;
use super::told::lemma_hears_later;
use super::walks::others_stay;
use crate::registry::law_set;
use crate::wire::PacketModel;
use crate::Position;

verus! {

/// `p` shows window `cid` with the name, the room and the contents of `oc`.
pub open spec fn shows_window(p: PacketModel, cid: u8, oc: ContainerModel) -> bool {
    p matches PacketModel::OpenContainer { cid: c, name, capacity, has_parent, items, bag } && {
        &&& c == cid
        &&& name == oc.name
        &&& capacity == oc.capacity
        &&& has_parent == (oc.source is Nested)
        &&& bag.client_id == oc.client_id
        &&& items == drawn_items(oc.items)
    }
}

/// Of player `id` nothing but window `cid` is new, and of the others nothing is.
pub open spec fn only_window(w: World, later: World, id: u32, cid: int) -> bool {
    &&& w.keeps_players(later)
    &&& others_stay(w, later, id)
    &&& later.players.has(id) ==> later.players.at(id) == (PlayerModel {
        session: later.players.at(id).session,
        known: later.players.at(id).known,
        windows: w.players.at(id).windows.update(cid, later.players.at(id).windows[cid]),
        ..w.players.at(id)
    })
    &&& later.monsters == w.monsters
    &&& later.overlay == w.overlay
}

proof fn lemma_closed(w: World, id: u32, cid: u8)
    requires
        w.wf(),
        w.players.has(id),
        cid < 16,
        w.players.at(id).windows[cid as int] is Some,
    ensures
        ({
            let oc = w.players.at(id).windows[cid as int]->0;
            let later = w.container_closed(id, cid);
            &&& only_window(w, later, id, cid as int)
            &&& later.players.has(id) ==> later.players.at(id).windows[cid as int] == Some(
                ContainerModel { is_open: false, ..oc },
            )
            &&& hears(w, later, id, PacketModel::CloseContainer { cid })
        }),
{
    let p = w.players.at(id);
    let q = p.with_shut(cid as int);
    law_set(w.players, id, q);
    let a = w.window_shut(id, cid);
    let m = PacketModel::CloseContainer { cid };
    law_push(a, id, m);
    law_messages_arrive(a, id, m);
    assert(w.keeps_players(a));
    lemma_keeps_players_trans(w, a, a.push(id, m));
    if a.push(id, m).players.has(id) {
        assert(q.windows =~= p.windows.update(cid as int, q.windows[cid as int]));
    }
}

/// A window that is closed keeps its contents and is no longer open, and the player is told.
pub proof fn law_windows_close(w: World, id: u32, cid: u8)
    requires
        w.wf(),
        w.players.has(id),
        cid < 16,
        w.players.at(id).windows[cid as int] is Some,
    ensures
        ({
            let oc = w.players.at(id).windows[cid as int]->0;
            let later = w.handled(Command::CloseContainer { id, cid }).0;
            &&& only_window(w, later, id, cid as int)
            &&& later.players.has(id) ==> later.players.at(id).windows[cid as int] == Some(
                ContainerModel { is_open: false, ..oc },
            )
            &&& hears(w, later, id, PacketModel::CloseContainer { cid })
        }),
{
    reveal(World::container_closed);
    lemma_closed(w, id, cid);
}

/// Whoever goes up from a window to the one around it is shown that one, with what is in it, and
/// the first is closed.
pub proof fn law_windows_lead_up(w: World, id: u32, cid: u8, parent: u8, slot: u8)
    requires
        w.wf(),
        w.players.has(id),
        cid < 16,
        parent < 16,
        w.players.at(id).windows[cid as int] matches Some(oc) && oc.source
            == (ContainerSource::Nested { parent_cid: parent, parent_slot: slot }),
        w.players.at(id).windows[parent as int] is Some,
    ensures
        ({
            let p = w.players.at(id);
            let later = w.handled(Command::UpArrow { id, cid }).0;
            &&& only_window(w, later, id, cid as int)
            &&& later.players.has(id) ==> later.players.at(id).windows[cid as int] == Some(
                ContainerModel { is_open: false, ..p.windows[cid as int]->0 },
            )
            &&& hears(w, later, id, PacketModel::CloseContainer { cid })
            &&& exists|m: PacketModel|
                shows_window(m, parent, p.windows[parent as int]->0) && #[trigger] hears(
                    w,
                    later,
                    id,
                    m,
                )
        }),
{
    reveal(World::gone_up);
    reveal(World::container_closed);
    let m = lemma_shown(w, id, parent);
    let a = w.window_told(id, parent);
    lemma_window_told(w, id, parent);
    let later = w.handled(Command::UpArrow { id, cid }).0;
    assert(later == a.container_closed(id, cid));
    if a.players.has(id) {
        super::super::model::lemma_only_told_wf(w, a);
        lemma_closed(a, id, cid);
        lemma_keeps_players_trans(w, a, later);
        let c = PacketModel::CloseContainer { cid };
        assert(super::told::remembers(a, later)) by {
            let q = a.players.at(id).with_shut(cid as int);
            law_set(a.players, id, q);
            law_push(a.window_shut(id, cid), id, c);
        }
        lemma_hears_earlier(w, a, later, id, c);
        lemma_hears_later(w, a, later, id, m);
    }
    assert(shows_window(m, parent, w.players.at(id).windows[parent as int]->0) && hears(
        w,
        later,
        id,
        m,
    ));
}

proof fn lemma_shown(w: World, id: u32, cid: u8) -> (m: PacketModel)
    requires
        w.players.wf(),
        w.players.has(id),
        w.players.at(id).windows[cid as int] is Some,
    ensures
        shows_window(m, cid, w.players.at(id).windows[cid as int]->0),
        hears(w, w.window_told(id, cid), id, m),
{
    let oc = w.players.at(id).windows[cid as int]->0;
    let m = PacketModel::OpenContainer {
        cid,
        bag: crate::wire::WireItem {
            client_id: oc.client_id,
            subtype: None,
            animated: w.map.meta_at(oc.server_id) matches Some(m) && m.animated,
        },
        name: oc.name,
        capacity: oc.capacity,
        has_parent: oc.source is Nested,
        items: drawn_items(oc.items),
    };
    law_messages_arrive(w, id, m);
    m
}

/// `pos` stands for a container of type `sid` that player `id` wears, or that lies in a window.
pub open spec fn is_own_bag(
    w: World,
    id: u32,
    pos: Position,
    cid: u8,
    sid: u16,
    source: ContainerSource,
) -> bool {
    &&& w.is_bag(sid)
    &&& {
        ||| is_slot(pos) && source == ContainerSource::Slot(pos.y as u8) && (w.players.at(
            id,
        ).inventory[pos.y - 1] matches Some(it) && it.server_id == sid)
        ||| is_in_window(pos, cid) && source == (ContainerSource::Nested {
            parent_cid: cid,
            parent_slot: pos.z,
        }) && (w.players.at(id).windows[cid as int] matches Some(oc) && pos.z < oc.items.len()
            && oc.items[pos.z as int].server_id == sid)
    }
}

proof fn lemma_used(
    w: World,
    id: u32,
    pos: Position,
    sp: u8,
    index: u8,
    cid: u8,
    sid: u16,
    source: ContainerSource,
)
    requires
        w.players.has(id),
        is_own_bag(w, id, pos, cid, sid, source),
    ensures
        w.item_used(id, pos, sp, index) == w.bag_used(id, sid, source, index),
{
    reveal(World::item_used);
    lemma_places(pos, cid);
}

/// No window of player `p` shows a container from `source`.
pub open spec fn has_no_window(p: PlayerModel, source: ContainerSource) -> bool {
    forall|c: int|
        0 <= c < 16 ==> !(#[trigger] p.windows[c] matches Some(oc) && oc.source == source)
}

/// Using a container that has no window yet opens one, empty, in the place that was asked for
/// where that is unused, and the player is shown it.
pub proof fn law_new_windows_open(
    w: World,
    id: u32,
    pos: Position,
    sp: u8,
    index: u8,
    cid: u8,
    sid: u16,
    source: ContainerSource,
)
    requires
        w.wf(),
        w.players.has(id),
        is_own_bag(w, id, pos, cid, sid, source),
        has_no_window(w.players.at(id), source),
        index < 16,
        w.players.at(id).windows[index as int] is None,
    ensures
        ({
            let later = w.item_used(id, pos, sp, index);
            let meta = w.map.meta_at(sid)->0;
            let fresh = ContainerModel {
                server_id: sid,
                client_id: meta.client_id,
                capacity: if meta.container_capacity >= 1 {
                    meta.container_capacity
                } else {
                    1
                },
                name: meta.name,
                items: Seq::empty(),
                source,
                is_open: true,
            };
            &&& only_window(w, later, id, index as int)
            &&& later.players.has(id) ==> later.players.at(id).windows[index as int] == Some(fresh)
            &&& exists|m: PacketModel|
                shows_window(m, index, fresh) && #[trigger] hears(w, later, id, m)
        }),
{
    lemma_used(w, id, pos, sp, index, cid, sid, source);
    let p = w.players.at(id);
    lemma_first_from(p.windows, comes_from(source), 0);
    let fresh = w.new_window(sid, source, true);
    lemma_window_shown(w, id, index, fresh);
    assert(w.item_used(id, pos, sp, index) == w.window_set(id, index, Some(fresh)).window_told(
        id,
        index,
    ));
}

proof fn lemma_window_shown(w: World, id: u32, cid: u8, oc: ContainerModel)
    requires
        w.wf(),
        w.players.has(id),
        cid < 16,
    ensures
        ({
            let later = w.window_set(id, cid, Some(oc)).window_told(id, cid);
            &&& only_window(w, later, id, cid as int)
            &&& later.players.has(id) ==> later.players.at(id).windows[cid as int] == Some(oc)
            &&& exists|m: PacketModel| shows_window(m, cid, oc) && #[trigger] hears(w, later, id, m)
        }),
{
    let p = w.players.at(id);
    let q = p.with_window(cid as int, Some(oc));
    law_set(w.players, id, q);
    let a = w.window_set(id, cid, Some(oc));
    lemma_window_told(a, id, cid);
    let m = lemma_shown(a, id, cid);
    let later = a.window_told(id, cid);
    assert(w.keeps_players(a));
    lemma_keeps_players_trans(w, a, later);
    assert(shows_window(m, cid, oc) && hears(w, later, id, m));
    if later.players.has(id) {
        assert(q.windows =~= p.windows.update(cid as int, q.windows[cid as int]));
    }
}

/// Using a container whose window is closed opens it again with what was in it, and using one
/// whose window is open closes it.
pub proof fn law_known_windows_open_and_close(
    w: World,
    id: u32,
    pos: Position,
    sp: u8,
    index: u8,
    cid: u8,
    sid: u16,
    source: ContainerSource,
    c: u8,
)
    requires
        w.wf(),
        w.players.has(id),
        is_own_bag(w, id, pos, cid, sid, source),
        c < 16,
        w.players.at(id).windows[c as int] matches Some(oc) && oc.source == source,
        forall|i: int|
            0 <= i < 16 && i != c ==> !(#[trigger] w.players.at(id).windows[i] matches Some(oc)
                && oc.source == source),
    ensures
        ({
            let oc = w.players.at(id).windows[c as int]->0;
            let later = w.item_used(id, pos, sp, index);
            let q = later.players.at(id).windows[c as int];
            &&& only_window(w, later, id, c as int)
            &&& later.players.has(id) ==> (q matches Some(now) && now.is_open == !oc.is_open
                && now.items == oc.items && now.source == source)
            &&& oc.is_open ==> hears(w, later, id, PacketModel::CloseContainer { cid: c })
            &&& !oc.is_open ==> exists|m: PacketModel, now: ContainerModel|
                now.items == oc.items && #[trigger] shows_window(m, c, now) && #[trigger] hears(
                    w,
                    later,
                    id,
                    m,
                )
        }),
{
    reveal(World::container_closed);
    lemma_used(w, id, pos, sp, index, cid, sid, source);
    let p = w.players.at(id);
    lemma_first_from(p.windows, comes_from(source), 0);
    let _ = p.windows[c as int];
    assert(p.window_of(source) == Some(c as int));
    let oc = p.windows[c as int]->0;
    if oc.is_open {
        lemma_closed(w, id, c);
    } else {
        let fresh = w.new_window(sid, source, true);
        let now = ContainerModel {
            is_open: true,
            name: fresh.name,
            capacity: fresh.capacity,
            client_id: fresh.client_id,
            ..oc
        };
        lemma_window_shown(w, id, c, now);
    }
}

} // verus!
