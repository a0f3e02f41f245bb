//! Things that are moved are neither made nor lost, wherever they are carried: they leave one
//! place and are in the other.

use vstd::prelude::*;

use super::fits;
use super::lemma_dropped;
use super::lemma_first_in;
use super::lemma_reach_only_shut;
use super::lemma_slot_told;
use super::lemma_stack_wf;
use super::lemma_told_taken;
use super::lemma_tree_only_shut;
use super::same_contents;
use super::super::containers::names_slot;
use super::super::containers::names_window;
use super::super::containers::window_named;
use super::super::items::law_with_stack;
use super::super::model::law_push;
use super::super::model::lemma_keeps_players_trans;
use super::super::model::lemma_only_told_trans;
use super::super::model::World;
use super::super::moves::pieces_of;
use super::super::state::ContainerModel;
use super::super::state::ContainerSource;
use super::super::state::InvItem;
use super::super::state::PlayerModel;
use super::super::windows::close;
use super::super::windows::comes_from;
use super::super::windows::lemma_first_from;
use super::super::windows::unused;
use super::told::hears;
use super::told::law_messages_arrive;
use super::told::lemma_hears_earlier;
use super::told::lemma_hears_later;
use super::told::lemma_remembers_trans;
use super::told::remembers;
use crate::map::stack::law_place_conserves;
use crate::map::stack::law_take_conserves;
use crate::registry::law_set;
use crate::wire::PacketModel;
use crate::Position;

verus! {

// -------------------------------------------------------------------------------------
// Counting what a player has
// -------------------------------------------------------------------------------------

/// How many pieces of `sid` an item is.
pub open spec fn pieces_in(it: Option<InvItem>, sid: u16) -> int {
    match it {
        Some(x) if x.server_id == sid => pieces_of(x) as int,
        _ => 0,
    }
}

/// How many pieces of `sid` are among equipment.
pub open spec fn worn_pieces(inv: Seq<Option<InvItem>>, sid: u16) -> int
    decreases inv.len(),
{
    if inv.len() == 0 {
        0
    } else {
        worn_pieces(inv.drop_last(), sid) + pieces_in(inv.last(), sid)
    }
}

/// How many pieces of `sid` are among items.
pub open spec fn packed_pieces(items: Seq<InvItem>, sid: u16) -> int
    decreases items.len(),
{
    if items.len() == 0 {
        0
    } else {
        packed_pieces(items.drop_last(), sid) + pieces_in(Some(items.last()), sid)
    }
}

/// How many pieces of `sid` are in containers.
pub open spec fn window_pieces(windows: Seq<Option<ContainerModel>>, sid: u16) -> int
    decreases windows.len(),
{
    if windows.len() == 0 {
        0
    } else {
        window_pieces(windows.drop_last(), sid) + match windows.last() {
            Some(oc) => packed_pieces(oc.items, sid),
            None => 0,
        }
    }
}

/// How many pieces of `sid` a player wears and has in containers.
pub open spec fn held(p: PlayerModel, sid: u16) -> int {
    worn_pieces(p.inventory, sid) + window_pieces(p.windows, sid)
}

pub proof fn lemma_worn_update(inv: Seq<Option<InvItem>>, i: int, it: Option<InvItem>, sid: u16)
    requires
        0 <= i < inv.len(),
    ensures
        worn_pieces(inv.update(i, it), sid) == worn_pieces(inv, sid) - pieces_in(inv[i], sid)
            + pieces_in(it, sid),
    decreases inv.len(),
{
    let now = inv.update(i, it);
    if i == inv.len() - 1 {
        assert(now.drop_last() =~= inv.drop_last());
    } else {
        assert(now.drop_last() =~= inv.drop_last().update(i, it));
        lemma_worn_update(inv.drop_last(), i, it, sid);
    }
}

proof fn lemma_packed_insert(items: Seq<InvItem>, it: InvItem, sid: u16)
    ensures
        packed_pieces(items.insert(0, it), sid) == packed_pieces(items, sid) + pieces_in(
            Some(it),
            sid,
        ),
    decreases items.len(),
{
    let now = items.insert(0, it);
    if items.len() == 0 {
        assert(now.drop_last() =~= items);
        assert(now.last() == it);
    } else {
        assert(now.drop_last() =~= items.drop_last().insert(0, it));
        assert(now.last() == items.last());
        lemma_packed_insert(items.drop_last(), it, sid);
    }
}

proof fn lemma_packed_remove(items: Seq<InvItem>, i: int, sid: u16)
    requires
        0 <= i < items.len(),
    ensures
        packed_pieces(items.remove(i), sid) == packed_pieces(items, sid) - pieces_in(
            Some(items[i]),
            sid,
        ),
    decreases items.len(),
{
    let now = items.remove(i);
    if i == items.len() - 1 {
        assert(now =~= items.drop_last());
    } else {
        assert(now.drop_last() =~= items.drop_last().remove(i));
        assert(now.last() == items.last());
        lemma_packed_remove(items.drop_last(), i, sid);
    }
}

/// Two rows of windows hold the same things.
pub open spec fn same_items(
    a: Seq<Option<ContainerModel>>,
    b: Seq<Option<ContainerModel>>,
) -> bool {
    &&& a.len() == b.len()
    &&& forall|c: int|
        #![trigger a[c]]
        #![trigger b[c]]
        0 <= c < a.len() ==> contents_of(a[c]) == contents_of(b[c])
}

/// What is in a window, if it is in use.
pub open spec fn contents_of(w: Option<ContainerModel>) -> Option<Seq<InvItem>> {
    match w {
        Some(oc) => Some(oc.items),
        None => None,
    }
}

proof fn lemma_same_items(
    a: Seq<Option<ContainerModel>>,
    b: Seq<Option<ContainerModel>>,
    sid: u16,
)
    requires
        same_items(a, b),
    ensures
        window_pieces(a, sid) == window_pieces(b, sid),
    decreases a.len(),
{
    if a.len() > 0 {
        assert(contents_of(a[a.len() - 1]) == contents_of(b[a.len() - 1]));
        assert forall|c: int|
            #![trigger a.drop_last()[c]]
            #![trigger b.drop_last()[c]]
            0 <= c < a.len() - 1 implies contents_of(a.drop_last()[c]) == contents_of(
            b.drop_last()[c],
        ) by {
            assert(a.drop_last()[c] == a[c]);
            assert(b.drop_last()[c] == b[c]);
        }
        lemma_same_items(a.drop_last(), b.drop_last(), sid);
    }
}

proof fn lemma_window_update(
    windows: Seq<Option<ContainerModel>>,
    c: int,
    w: Option<ContainerModel>,
    sid: u16,
)
    requires
        0 <= c < windows.len(),
    ensures
        window_pieces(windows.update(c, w), sid) == window_pieces(windows, sid) - (
        match windows[c] {
            Some(oc) => packed_pieces(oc.items, sid),
            None => 0,
        }) + (match w {
            Some(oc) => packed_pieces(oc.items, sid),
            None => 0,
        }),
    decreases windows.len(),
{
    let now = windows.update(c, w);
    if c == windows.len() - 1 {
        assert(now.drop_last() =~= windows.drop_last());
    } else {
        assert(now.drop_last() =~= windows.drop_last().update(c, w));
        lemma_window_update(windows.drop_last(), c, w, sid);
    }
}

// -------------------------------------------------------------------------------------
// The steps that moves are made of
// -------------------------------------------------------------------------------------

/// From `a` to `b` nothing changes but messages and what player `id` has in its containers: the
/// ground, all creatures, what is worn and what others have stay as they are.
pub open spec fn only_packs(a: World, b: World, id: u32) -> bool {
    &&& b == (World { players: b.players, saves: b.saves, left: b.left, ..a })
    &&& b.players.wf()
    &&& remembers(a, b)
    &&& a.keeps_players(b)
    &&& forall|k: u32|
        #![trigger b.players.at(k)]
        b.players.has(k) ==> {
            &&& b.players.at(k) == (PlayerModel {
                session: b.players.at(k).session,
                known: b.players.at(k).known,
                windows: b.players.at(k).windows,
                ..a.players.at(k)
            })
            &&& b.players.at(k).windows.len() == a.players.at(k).windows.len()
            &&& k != id ==> same_items(a.players.at(k).windows, b.players.at(k).windows)
        }
}

pub proof fn lemma_packs_trans(a: World, b: World, c: World, id: u32)
    requires
        only_packs(a, b, id),
        only_packs(b, c, id),
    ensures
        only_packs(a, c, id),
{
    lemma_remembers_trans(a, b, c);
    lemma_keeps_players_trans(a, b, c);
    assert forall|k: u32| #![trigger c.players.at(k)] c.players.has(k) implies {
        &&& c.players.at(k) == (PlayerModel {
            session: c.players.at(k).session,
            known: c.players.at(k).known,
            windows: c.players.at(k).windows,
            ..a.players.at(k)
        })
        &&& c.players.at(k).windows.len() == a.players.at(k).windows.len()
        &&& k != id ==> same_items(a.players.at(k).windows, c.players.at(k).windows)
    } by {
        assert(b.players.has(k));
        if k != id {
            let x = a.players.at(k).windows;
            let y = b.players.at(k).windows;
            let z = c.players.at(k).windows;
            assert forall|i: int| #![trigger x[i]] #![trigger z[i]] 0 <= i < x.len() implies contents_of(
                x[i],
            ) == contents_of(z[i]) by {
                let _ = y[i];
            }
        }
    }
}

proof fn lemma_told_packs(a: World, b: World, id: u32)
    requires
        a.only_told(b),
    ensures
        only_packs(a, b, id),
        b.players.has(id) ==> b.players.at(id).windows == a.players.at(id).windows,
{
}

pub proof fn lemma_shut_packs(a: World, b: World, id: u32)
    requires
        a.only_shut(b, id),
    ensures
        only_packs(a, b, id),
        b.players.has(id) ==> same_items(a.players.at(id).windows, b.players.at(id).windows),
{
    assert forall|k: u32| #![trigger b.players.at(k)] b.players.has(k) implies same_items(
        a.players.at(k).windows,
        b.players.at(k).windows,
    ) by {
        lemma_contents_items(a.players.at(k).windows, b.players.at(k).windows);
    }
}

proof fn lemma_contents_items(
    a: Seq<Option<ContainerModel>>,
    b: Seq<Option<ContainerModel>>,
)
    requires
        same_contents(a, b),
    ensures
        same_items(a, b),
{
    assert forall|c: int| #![trigger a[c]] #![trigger b[c]] 0 <= c < a.len() implies contents_of(
        a[c],
    ) == contents_of(b[c]) by {}
}

/// Putting an item into a container with room puts it in front there, and does nothing else.
pub proof fn lemma_item_put(w: World, id: u32, cid: u8, it: InvItem, sid: u16)
    requires
        w.players.wf(),
        w.players.has(id),
        w.players.at(id).windows.len() == 16,
        cid < 16,
        w.players.at(id).windows[cid as int] matches Some(oc) && oc.items.len() < oc.capacity,
    ensures
        ({
            let later = w.item_put(id, cid, it);
            let oc = w.players.at(id).windows[cid as int]->0;
            &&& only_packs(w, later, id)
            &&& later.players.has(id) ==> {
                let q = later.players.at(id);
                &&& q.windows[cid as int] matches Some(now) && now.items == oc.items.insert(0, it)
                &&& forall|c: int|
                    #![trigger q.windows[c]]
                    0 <= c < 16 && c != cid ==> contents_of(q.windows[c]) == contents_of(
                        w.players.at(id).windows[c],
                    )
                &&& window_pieces(q.windows, sid) == window_pieces(
                    w.players.at(id).windows,
                    sid,
                ) + pieces_in(Some(it), sid)
            }
            &&& oc.is_open ==> hears(
                w,
                later,
                id,
                PacketModel::AddContainerItem { cid, index: 0, item: it.drawn() },
            )
        }),
{
    let p = w.players.at(id);
    let oc = p.windows[cid as int]->0;
    let filled = ContainerModel { items: oc.items.insert(0, it), ..oc };
    let mid = p.with_window(cid as int, Some(filled));
    let q = p.with_item(cid, it);
    assert(q == mid.pushed_down(cid));
    lemma_packed_insert(oc.items, it, sid);
    lemma_window_update(p.windows, cid as int, Some(filled), sid);
    assert(same_items(mid.windows, q.windows));
    lemma_same_items(mid.windows, q.windows, sid);
    law_set(w.players, id, q);
    let a = w.set_player(id, q);
    assert(only_packs(w, a, id));
    if oc.is_open {
        let packet = PacketModel::AddContainerItem { cid, index: 0, item: it.drawn() };
        law_push(a, id, packet);
        law_messages_arrive(a, id, packet);
        lemma_told_packs(a, a.push(id, packet), id);
        lemma_packs_trans(w, a, a.push(id, packet), id);
        lemma_hears_earlier(w, a, a.push(id, packet), id, packet);
    }
}

/// Taking an item out of a container takes that one out, and does nothing else.
pub proof fn lemma_item_popped(w: World, id: u32, cid: u8, slot: u8, sid: u16)
    requires
        w.players.wf(),
        w.players.has(id),
        w.players.at(id).windows.len() == 16,
        cid < 16,
        w.players.at(id).windows[cid as int] matches Some(oc) && slot < oc.items.len(),
    ensures
        ({
            let later = w.item_popped(id, cid, slot);
            let oc = w.players.at(id).windows[cid as int]->0;
            &&& only_packs(w, later, id)
            &&& later.players.has(id) ==> {
                let q = later.players.at(id);
                &&& q.windows[cid as int] matches Some(now) && now.items == oc.items.remove(
                    slot as int,
                ) && now.capacity == oc.capacity
                &&& forall|c: int|
                    #![trigger q.windows[c]]
                    0 <= c < 16 && c != cid ==> q.windows[c] == w.players.at(id).windows[c]
                &&& window_pieces(q.windows, sid) == window_pieces(
                    w.players.at(id).windows,
                    sid,
                ) - pieces_in(Some(oc.items[slot as int]), sid)
            }
            &&& hears(
                w,
                later,
                id,
                PacketModel::RemoveContainerItem { cid, index: slot as u16 },
            )
        }),
{
    let p = w.players.at(id);
    let oc = p.windows[cid as int]->0;
    let emptied = ContainerModel { items: oc.items.remove(slot as int), ..oc };
    let q = p.without_item(cid, slot as int);
    assert(q == p.with_window(cid as int, Some(emptied)));
    lemma_packed_remove(oc.items, slot as int, sid);
    lemma_window_update(p.windows, cid as int, Some(emptied), sid);
    law_set(w.players, id, q);
    let a = w.set_player(id, q);
    assert(only_packs(w, a, id));
    let packet = PacketModel::RemoveContainerItem { cid, index: slot as u16 };
    law_push(a, id, packet);
    law_messages_arrive(a, id, packet);
    lemma_told_packs(a, a.push(id, packet), id);
    lemma_packs_trans(w, a, a.push(id, packet), id);
    lemma_hears_earlier(w, a, a.push(id, packet), id, packet);
}

/// The windows that follow an item which was taken out keep what is in them.
pub proof fn lemma_orphan_shut(w: World, id: u32, cid: u8, removed: int, sid: u16)
    requires
        w.players.wf(),
        w.players.has(id) ==> w.players.at(id).windows.len() == 16,
    ensures
        ({
            let later = w.orphan_shut(id, cid, removed);
            &&& only_packs(w, later, id)
            &&& later.players.has(id) ==> {
                let q = later.players.at(id);
                &&& same_items(w.players.at(id).windows, q.windows)
                &&& window_pieces(q.windows, sid) == window_pieces(w.players.at(id).windows, sid)
                &&& forall|c: int|
                    #![trigger q.windows[c]]
                    0 <= c < 16 ==> (q.windows[c] matches Some(now) ==> w.players.at(
                        id,
                    ).windows[c] is Some && now.capacity == w.players.at(
                        id,
                    ).windows[c]->0.capacity)
            }
        }),
{
    if w.players.has(id) {
        let p = w.players.at(id);
        let q = p.pulled_up(cid, removed);
        assert(same_items(p.windows, q.windows));
        law_set(w.players, id, q);
        let a = w.set_player(id, q);
        assert(only_packs(w, a, id));
        let later = w.orphan_shut(id, cid, removed);
        match p.orphan(cid, removed, 16) {
            Some(c) => {
                lemma_orphan_small(p, cid, removed, 16);
                lemma_tree_only_shut(a, id, c, 16);
                lemma_shut_packs(a, later, id);
                lemma_packs_trans(w, a, later, id);
            },
            None => {},
        }
        if later.players.has(id) {
            let z = later.players.at(id).windows;
            assert forall|i: int| #![trigger p.windows[i]] #![trigger z[i]] 0 <= i < 16 implies contents_of(
                p.windows[i],
            ) == contents_of(z[i]) by {
                let _ = q.windows[i];
            }
            lemma_same_items(p.windows, z, sid);
            assert forall|i: int| #![trigger z[i]] 0 <= i < 16 implies (z[i] matches Some(now)
                ==> p.windows[i] is Some && now.capacity == p.windows[i]->0.capacity) by {
                let _ = q.windows[i];
            }
        }
    }
}

proof fn lemma_orphan_small(p: PlayerModel, cid: u8, removed: int, n: int)
    requires
        n <= 16,
        p.orphan(cid, removed, n) is Some,
    ensures
        p.orphan(cid, removed, n)->0 < 16,
    decreases n,
{
    if n > 0 {
        match p.windows[n - 1] {
            Some(oc) if oc.inside(cid) && oc.source->parent_slot == removed => {},
            _ => lemma_orphan_small(p, cid, removed, n - 1),
        }
    }
}

/// What a slot holds is changed, and the player told, and nothing else.
pub proof fn lemma_slot_changed(w: World, id: u32, slot: u8, it: Option<InvItem>, sid: u16)
    requires
        w.players.wf(),
        w.players.has(id),
        w.players.at(id).inventory.len() == 10,
        1 <= slot <= 10,
    ensures
        ({
            let later = w.equipped(id, slot, it).slot_told(id, slot);
            let p = w.players.at(id);
            &&& later == (World {
                players: later.players,
                saves: later.saves,
                left: later.left,
                ..w
            })
            &&& later.players.wf()
            &&& remembers(w, later)
            &&& later.players.has(id) ==> {
                let q = later.players.at(id);
                &&& q == (PlayerModel {
                    session: q.session,
                    known: q.known,
                    inventory: p.inventory.update(slot - 1, it),
                    ..p
                })
                &&& worn_pieces(q.inventory, sid) == worn_pieces(p.inventory, sid) - pieces_in(
                    p.inventory[slot - 1],
                    sid,
                ) + pieces_in(it, sid)
            }
            &&& hears(
                w,
                later,
                id,
                match it {
                    Some(x) => PacketModel::InventorySet { slot, item: x.drawn() },
                    None => PacketModel::InventoryEmpty { slot },
                },
            )
            &&& forall|k: u32|
                #![trigger later.players.at(k)]
                k != id && later.players.has(k) ==> later.players.at(k) == (PlayerModel {
                    session: later.players.at(k).session,
                    known: later.players.at(k).known,
                    ..w.players.at(k)
                })
        }),
{
    let p = w.players.at(id);
    let q = PlayerModel { inventory: p.inventory.update(slot - 1, it), ..p };
    law_set(w.players, id, q);
    let a = w.set_player(id, q);
    let packet = match it {
        Some(x) => PacketModel::InventorySet { slot, item: x.drawn() },
        None => PacketModel::InventoryEmpty { slot },
    };
    law_push(a, id, packet);
    law_messages_arrive(a, id, packet);
    let b = a.push(id, packet);
    assert(b == w.equipped(id, slot, it).slot_told(id, slot));
    assert(remembers(w, a));
    lemma_remembers_trans(w, a, b);
    lemma_hears_earlier(w, a, b, id, packet);
    lemma_worn_update(p.inventory, slot - 1, it, sid);
}

// -------------------------------------------------------------------------------------
// The moves
// -------------------------------------------------------------------------------------

/// A place that stands for an equipment slot.
pub open spec fn is_slot(p: Position) -> bool {
    p.x == 0xFFFF && 1 <= p.y <= 10
}

/// A place that stands for something in window `cid`.
pub open spec fn is_in_window(p: Position, cid: u8) -> bool {
    p.x == 0xFFFF && p.y == 0x40 + cid && cid < 16
}

/// A place that stands for a tile.
pub open spec fn is_tile(p: Position) -> bool {
    p.x != 0xFFFF
}

pub proof fn lemma_places(p: Position, cid: u8)
    ensures
        is_slot(p) ==> !names_window(p) && names_slot(p),
        is_in_window(p, cid) ==> names_window(p) && !names_slot(p) && window_named(p) == cid,
        is_tile(p) ==> !names_window(p) && !names_slot(p),
{
    let y = p.y;
    let c = cid as u16;
    assert(1 <= y <= 10 ==> y & 0x40 == 0) by (bit_vector);
    assert(c < 16 && y == 0x40 + c ==> y & 0x40 != 0 && y & 0x0F == c) by (bit_vector);
}

/// What is moved from an equipment slot into a container with room leaves the slot empty, is the
/// first thing in the container, and is neither more nor less than before.
pub proof fn law_stowed_things_are_kept(
    w: World,
    id: u32,
    from: Position,
    sp: u8,
    to: Position,
    count: u8,
    cid: u8,
    sid: u16,
)
    requires
        w.wf(),
        w.players.has(id),
        is_slot(from),
        is_in_window(to, cid),
        w.players.at(id).inventory[from.y - 1] is Some,
        w.players.at(id).windows[cid as int] matches Some(oc) && oc.items.len() < oc.capacity,
    ensures
        ({
            let p = w.players.at(id);
            let it = p.inventory[from.y - 1]->0;
            let later = w.thing_moved(id, from, sp, to, count);
            &&& later.players.has(id) ==> {
                let q = later.players.at(id);
                &&& q.inventory == p.inventory.update(from.y - 1, None)
                &&& q.windows[cid as int] matches Some(oc) && oc.items
                    == p.windows[cid as int]->0.items.insert(0, it)
                &&& forall|c: int|
                    #![trigger q.windows[c]]
                    0 <= c < 16 && c != cid ==> contents_of(q.windows[c]) == contents_of(
                        p.windows[c],
                    )
                &&& held(q, sid) == held(p, sid)
            }
            &&& hears(w, later, id, PacketModel::InventoryEmpty { slot: from.y as u8 })
            &&& later.overlay == w.overlay
            &&& later.monsters == w.monsters
        }),
{
    reveal(World::thing_moved);
    lemma_places(from, cid);
    lemma_places(to, cid);
    let p = w.players.at(id);
    let slot = from.y as u8;
    let it = p.inventory[slot - 1]->0;
    lemma_slot_changed(w, id, slot, None, sid);
    let a = w.equipped(id, slot, None).slot_told(id, slot);
    let later = w.thing_moved(id, from, sp, to, count);
    assert(later == a.item_put(id, cid, it));
    if a.players.has(id) {
        lemma_item_put(a, id, cid, it, sid);
    }
    lemma_hears_later(w, a, later, id, PacketModel::InventoryEmpty { slot });
}

/// What is moved from a container into an empty equipment slot that takes it is worn there, is no
/// longer in the container, and is neither more nor less than before.
pub proof fn law_drawn_things_are_kept(
    w: World,
    id: u32,
    from: Position,
    sp: u8,
    to: Position,
    count: u8,
    cid: u8,
    sid: u16,
)
    requires
        w.wf(),
        w.players.has(id),
        is_in_window(from, cid),
        is_slot(to),
        w.players.at(id).inventory[to.y - 1] is None,
        w.players.at(id).windows[cid as int] matches Some(oc) && from.z < oc.items.len()
            && w.wearable(oc.items[from.z as int].server_id, to.y as u8),
    ensures
        ({
            let p = w.players.at(id);
            let items = p.windows[cid as int]->0.items;
            let later = w.thing_moved(id, from, sp, to, count);
            &&& later.players.has(id) ==> {
                let q = later.players.at(id);
                &&& q.inventory == p.inventory.update(to.y - 1, Some(items[from.z as int]))
                &&& contents_of(q.windows[cid as int]) == Some(items.remove(from.z as int))
                &&& forall|c: int|
                    #![trigger q.windows[c]]
                    0 <= c < 16 && c != cid ==> contents_of(q.windows[c]) == contents_of(
                        p.windows[c],
                    )
                &&& held(q, sid) == held(p, sid)
            }
            &&& later.overlay == w.overlay
            &&& later.monsters == w.monsters
        }),
{
    reveal(World::thing_moved);
    lemma_places(from, cid);
    lemma_places(to, cid);
    let p = w.players.at(id);
    let slot = to.y as u8;
    let it = p.windows[cid as int]->0.items[from.z as int];
    lemma_item_popped(w, id, cid, from.z, sid);
    let a = w.item_popped(id, cid, from.z);
    lemma_orphan_shut(a, id, cid, from.z as int, sid);
    let b = a.orphan_shut(id, cid, from.z as int);
    lemma_packs_trans(w, a, b, id);
    let later = w.thing_moved(id, from, sp, to, count);
    assert(later == b.equipped(id, slot, Some(it)).slot_told(id, slot));
    if b.players.has(id) {
        assert(a.players.has(id));
        lemma_slot_changed(b, id, slot, Some(it), sid);
        if later.players.has(id) {
            let q = later.players.at(id);
            assert(contents_of(a.players.at(id).windows[cid as int]) == contents_of(
                b.players.at(id).windows[cid as int],
            ));
            assert forall|c: int| #![trigger q.windows[c]] 0 <= c < 16 && c != cid implies contents_of(
                q.windows[c],
            ) == contents_of(p.windows[c]) by {
                let _ = a.players.at(id).windows[c];
                let _ = b.players.at(id).windows[c];
            }
        }
    }
}

/// What trades places in the equipment is neither more nor less than before.
pub proof fn law_swapped_things_are_kept(
    w: World,
    id: u32,
    from: Position,
    sp: u8,
    to: Position,
    count: u8,
    sid: u16,
)
    requires
        w.wf(),
        w.players.has(id),
        is_slot(from),
        is_slot(to),
    ensures
        ({
            let later = w.thing_moved(id, from, sp, to, count);
            &&& later.players.has(id) ==> held(later.players.at(id), sid) == held(
                w.players.at(id),
                sid,
            )
            &&& later.overlay == w.overlay
        }),
{
    reveal(World::thing_moved);
    lemma_places(from, 0);
    lemma_places(to, 0);
    let p = w.players.at(id);
    let src = from.y as u8;
    let dst = to.y as u8;
    super::lemma_status(w, id, "You cannot equip this object."@);
    match p.inventory[src - 1] {
        Some(moving) if src != dst && w.wearable(moving.server_id, dst) && !(p.inventory[dst
            - 1] matches Some(d) && !w.wearable(d.server_id, src)) => {
            super::law_swap_trades_places(w, id, src, dst);
            let inv = p.inventory;
            lemma_worn_update(inv, dst - 1, inv[src - 1], sid);
            lemma_worn_update(inv.update(dst - 1, inv[src - 1]), src - 1, inv[dst - 1], sid);
            let q = PlayerModel { inventory: inv.update(dst - 1, inv[src - 1]), ..p };
            law_set(w.players, id, q);
            let a = w.set_player(id, q);
            let r = PlayerModel { inventory: q.inventory.update(src - 1, inv[dst - 1]), ..q };
            law_set(a.players, id, r);
            let b = a.set_player(id, r);
            lemma_slot_told(b, id, src);
            let c = b.slot_told(id, src);
            lemma_slot_told(c, id, dst);
            lemma_only_told_trans(b, c, c.slot_told(id, dst));
        },
        _ => {},
    }
}

/// How many pieces are moved of a thing on the ground when `count` are asked for: of stackables
/// as many as asked and there, at least one, and of anything else one.
pub open spec fn asked_of(pieces: u8, stackable: bool, count: u8) -> u8 {
    if stackable && count > 1 {
        if count <= pieces {
            count
        } else {
            pieces
        }
    } else {
        1
    }
}

proof fn lemma_lifted(w: World, from: Position, sp: u8, count: u8, sid: u16, other: Position)
    requires
        w.wf(),
        w.picked(from, sp) is Some,
        ({
            let k = w.picked(from, sp)->0;
            !k.stackable ==> w.stack(from)->0.things[k.idx as int].pieces() == 1
        }),
        other != from,
    ensures
        ({
            let k = w.picked(from, sp)->0;
            let t = w.stack(from)->0.things[k.idx as int];
            let n = asked_of(t.pieces(), k.stackable, count);
            let it = w.carried(from, k, count);
            let a = w.ground_taken(from, k.idx as int, count, k.stackable);
            let later = w.lifted(from, sp, k, count);
            &&& 0 <= k.idx < w.stack(from)->0.things.len()
            &&& t.server_id == k.server_id
            &&& it.server_id == k.server_id
            &&& pieces_of(it) == n
            &&& 1 <= n
            &&& a.players == w.players
            &&& a.only_told(later)
            &&& later.overlay == a.overlay
            &&& later.monsters == w.monsters
            &&& later.pieces_on(from, sid) == w.pieces_on(from, sid) - pieces_in(Some(it), sid)
            &&& later.stack(other) == w.stack(other)
        }),
{
    let k = w.picked(from, sp)->0;
    let st = w.stack(from)->0;
    let a = w.ground_taken(from, k.idx as int, count, k.stackable);
    law_with_stack(w, from, st.taken(k.idx as int, count, k.stackable), other);
    law_take_conserves(st, k.idx as int, count, k.stackable, sid);
    lemma_told_taken(a, from, sp, w.picked_gone(from, k, count), k.idx as int);
}

/// What is moved from a tile into a container with room is the first thing there, in as many
/// pieces as were asked for and there; and all pieces on the tile and with the player are as many
/// as before.
pub proof fn law_packed_things_are_kept(
    w: World,
    id: u32,
    from: Position,
    sp: u8,
    to: Position,
    count: u8,
    cid: u8,
    sid: u16,
    other: Position,
)
    requires
        w.wf(),
        w.players.has(id),
        is_tile(from),
        is_in_window(to, cid),
        close(w.players.at(id).position, from),
        w.picked(from, sp) matches Some(k) && k.moveable,
        ({
            let k = w.picked(from, sp)->0;
            !k.stackable ==> w.stack(from)->0.things[k.idx as int].pieces() == 1
        }),
        w.players.at(id).windows[cid as int] matches Some(oc) && oc.items.len() < oc.capacity,
        other != from,
    ensures
        ({
            let p = w.players.at(id);
            let k = w.picked(from, sp)->0;
            let t = w.stack(from)->0.things[k.idx as int];
            let later = w.thing_moved(id, from, sp, to, count);
            later.players.has(id) ==> {
                let q = later.players.at(id);
                &&& q.inventory == p.inventory
                &&& q.windows[cid as int] matches Some(oc) && {
                    &&& oc.items.len() == p.windows[cid as int]->0.items.len() + 1
                    &&& oc.items[0].server_id == t.server_id
                    &&& pieces_of(oc.items[0]) == asked_of(t.pieces(), k.stackable, count)
                }
                &&& later.pieces_on(from, sid) + held(q, sid) == w.pieces_on(from, sid) + held(
                    p,
                    sid,
                )
                &&& later.stack(other) == w.stack(other)
            }
        }),
{
    reveal(World::thing_moved);
    lemma_places(from, cid);
    lemma_places(to, cid);
    let k = w.picked(from, sp)->0;
    let it = w.carried(from, k, count);
    lemma_lifted(w, from, sp, count, sid, other);
    let b = w.lifted(from, sp, k, count);
    let later = w.thing_moved(id, from, sp, to, count);
    assert(later == b.item_put(id, cid, it));
    if b.players.has(id) {
        lemma_item_put(b, id, cid, it, sid);
    }
}

/// What is moved from a tile into an empty equipment slot that takes it is worn there, in as many
/// pieces as were asked for and there; and all pieces on the tile and with the player are as many
/// as before.
pub proof fn law_worn_things_are_kept(
    w: World,
    id: u32,
    from: Position,
    sp: u8,
    to: Position,
    count: u8,
    sid: u16,
    other: Position,
)
    requires
        w.wf(),
        w.players.has(id),
        is_tile(from),
        is_slot(to),
        close(w.players.at(id).position, from),
        w.players.at(id).inventory[to.y - 1] is None,
        w.picked(from, sp) matches Some(k) && k.moveable && w.wearable(k.server_id, to.y as u8),
        ({
            let k = w.picked(from, sp)->0;
            !k.stackable ==> w.stack(from)->0.things[k.idx as int].pieces() == 1
        }),
        other != from,
    ensures
        ({
            let p = w.players.at(id);
            let k = w.picked(from, sp)->0;
            let t = w.stack(from)->0.things[k.idx as int];
            let later = w.thing_moved(id, from, sp, to, count);
            later.players.has(id) ==> {
                let q = later.players.at(id);
                &&& q.inventory[to.y - 1] matches Some(it) && it.server_id == t.server_id
                    && pieces_of(it) == asked_of(t.pieces(), k.stackable, count)
                &&& q.inventory == p.inventory.update(to.y - 1, q.inventory[to.y - 1])
                &&& same_items(p.windows, q.windows)
                &&& later.pieces_on(from, sid) + held(q, sid) == w.pieces_on(from, sid) + held(
                    p,
                    sid,
                )
                &&& later.stack(other) == w.stack(other)
            }
        }),
{
    reveal(World::thing_moved);
    lemma_places(from, 0);
    lemma_places(to, 0);
    let p = w.players.at(id);
    let slot = to.y as u8;
    let k = w.picked(from, sp)->0;
    let it = w.carried(from, k, count);
    lemma_lifted(w, from, sp, count, sid, other);
    let b = w.lifted(from, sp, k, count);
    let old_source = ContainerSource::Ground(from);
    let new = ContainerSource::Slot(slot);
    let later = w.thing_moved(id, from, sp, to, count);
    if b.players.has(id) {
        lemma_slot_changed(b, id, slot, Some(it), sid);
        let c = b.equipped(id, slot, Some(it)).slot_told(id, slot);
        assert(later == c.window_rekeyed(id, old_source, new));
        if c.players.has(id) {
            lemma_rekeyed_items(c.players.at(id), old_source, new, sid);
            law_set(c.players, id, c.players.at(id).rekeyed(old_source, new));
        }
    }
}

/// A window that stands for another place keeps what is in it.
pub proof fn lemma_rekeyed_items(
    p: PlayerModel,
    old_source: ContainerSource,
    new: ContainerSource,
    sid: u16,
)
    requires
        p.windows.len() == 16,
    ensures
        p.rekeyed(old_source, new).windows.len() == 16,
        same_items(p.windows, p.rekeyed(old_source, new).windows),
        window_pieces(p.rekeyed(old_source, new).windows, sid) == window_pieces(p.windows, sid),
        p.rekeyed(old_source, new) == (PlayerModel {
            windows: p.rekeyed(old_source, new).windows,
            ..p
        }),
{
    if p.window_of(old_source) is Some {
        lemma_first_in(p.windows, old_source, 0);
    }
    lemma_same_items(p.windows, p.rekeyed(old_source, new).windows, sid);
}

/// A thing that a player has fits onto a tile without a piece being lost.
pub open spec fn lands_whole(w: World, to: Position, it: InvItem) -> bool {
    &&& w.stacks(it.server_id) || pieces_of(it) == 1
    &&& w.stack(to) matches Some(st) && (st.joins(it.server_id, w.stacks(it.server_id))
        ==> st.together(pieces_of(it)) <= 355)
}

proof fn lemma_lands(w: World, to: Position, it: InvItem, sid: u16, other: Position)
    requires
        w.players.wf(),
        lands_whole(w, to, it),
        w.stack(to)->0.wf(),
        other != to,
    ensures
        ({
            let a = w.ground_placed(
                to,
                it.server_id,
                it.client_id,
                pieces_of(it),
                it.animated,
                w.stacks(it.server_id),
            );
            let later = w.dropped(
                to,
                it.server_id,
                it.client_id,
                pieces_of(it),
                it.animated,
                w.stacks(it.server_id),
            );
            &&& a.players == w.players
            &&& a.only_told(later)
            &&& later.pieces_on(to, sid) == w.pieces_on(to, sid) + pieces_in(Some(it), sid)
            &&& later.stack(other) == w.stack(other)
        }),
{
    let st = w.stack(to)->0;
    let stackable = w.stacks(it.server_id);
    let now = st.placed(it.server_id, it.client_id, pieces_of(it), it.animated, stackable);
    law_with_stack(w, to, now, other);
    law_place_conserves(
        st,
        it.server_id,
        it.client_id,
        pieces_of(it),
        it.animated,
        stackable,
        sid,
    );
    lemma_dropped(w, to, it.server_id, it.client_id, pieces_of(it), it.animated, stackable);
}

/// What is moved from an equipment slot to a tile in throwing range leaves the slot empty, and all
/// pieces on the tile and with the player are as many as before.
pub proof fn law_thrown_things_are_kept(
    w: World,
    id: u32,
    from: Position,
    sp: u8,
    to: Position,
    count: u8,
    sid: u16,
    other: Position,
)
    requires
        w.wf(),
        w.players.has(id),
        is_slot(from),
        is_tile(to),
        w.players.at(id).inventory[from.y - 1] matches Some(it) && lands_whole(w, to, it),
        w.players.at(id).position.z == to.z,
        w.map.throwable(w.players.at(id).position, to),
        !w.no_room(to),
        other != to,
    ensures
        ({
            let p = w.players.at(id);
            let it = p.inventory[from.y - 1]->0;
            let later = w.thing_moved(id, from, sp, to, count);
            &&& later.pieces_on(to, sid) == w.pieces_on(to, sid) + pieces_in(Some(it), sid)
            &&& later.stack(other) == w.stack(other)
            &&& later.players.has(id) ==> {
                let q = later.players.at(id);
                &&& q.inventory == p.inventory.update(from.y - 1, None)
                &&& same_items(p.windows, q.windows)
                &&& later.pieces_on(to, sid) + held(q, sid) == w.pieces_on(to, sid) + held(p, sid)
            }
        }),
{
    reveal(World::thing_moved);
    lemma_places(from, 0);
    lemma_places(to, 0);
    let p = w.players.at(id);
    let slot = from.y as u8;
    let it = p.inventory[slot - 1]->0;
    lemma_slot_changed(w, id, slot, None, sid);
    let a = w.equipped(id, slot, None).slot_told(id, slot);
    lemma_stack_wf(w, to);
    assert(a.stack(to) == w.stack(to));
    assert(a.stack(other) == w.stack(other));
    lemma_lands(a, to, it, sid, other);
    let b = a.dropped(
        to,
        it.server_id,
        it.client_id,
        pieces_of(it),
        it.animated,
        a.stacks(it.server_id),
    );
    let old_source = ContainerSource::Slot(slot);
    let new = ContainerSource::Ground(to);
    let c = b.window_rekeyed(id, old_source, new);
    let later = w.thing_moved(id, from, sp, to, count);
    assert(later == c.reach_checked(id));
    if b.players.has(id) {
        assert(a.players.has(id));
        lemma_rekeyed_items(b.players.at(id), old_source, new, sid);
        law_set(b.players, id, b.players.at(id).rekeyed(old_source, new));
    }
    lemma_reach_only_shut(c, id);
    lemma_shut_packs(c, later, id);
    if later.players.has(id) {
        assert(c.players.has(id));
        let x = p.windows;
        let z = later.players.at(id).windows;
        assert forall|i: int| #![trigger x[i]] #![trigger z[i]] 0 <= i < x.len() implies contents_of(
            x[i],
        ) == contents_of(z[i]) by {
            let _ = c.players.at(id).windows[i];
            let _ = b.players.at(id).windows[i];
        }
        lemma_same_items(x, z, sid);
    }
}

/// What is moved from a container to a tile in throwing range is no longer in the container, and
/// all pieces on the tile and with the player are as many as before.
pub proof fn law_unpacked_things_are_kept(
    w: World,
    id: u32,
    from: Position,
    sp: u8,
    to: Position,
    count: u8,
    cid: u8,
    sid: u16,
    other: Position,
)
    requires
        w.wf(),
        w.players.has(id),
        is_in_window(from, cid),
        is_tile(to),
        w.players.at(id).windows[cid as int] matches Some(oc) && from.z < oc.items.len()
            && lands_whole(w, to, oc.items[from.z as int]),
        w.players.at(id).position.z == to.z,
        w.map.throwable(w.players.at(id).position, to),
        !w.no_room(to),
        other != to,
    ensures
        ({
            let p = w.players.at(id);
            let items = p.windows[cid as int]->0.items;
            let it = items[from.z as int];
            let later = w.thing_moved(id, from, sp, to, count);
            &&& later.pieces_on(to, sid) == w.pieces_on(to, sid) + pieces_in(Some(it), sid)
            &&& later.stack(other) == w.stack(other)
            &&& later.players.has(id) ==> {
                let q = later.players.at(id);
                &&& q.inventory == p.inventory
                &&& contents_of(q.windows[cid as int]) == Some(items.remove(from.z as int))
                &&& later.pieces_on(to, sid) + held(q, sid) == w.pieces_on(to, sid) + held(p, sid)
            }
        }),
{
    reveal(World::thing_moved);
    lemma_places(from, cid);
    lemma_places(to, cid);
    let p = w.players.at(id);
    let it = p.windows[cid as int]->0.items[from.z as int];
    lemma_item_popped(w, id, cid, from.z, sid);
    let a = w.item_popped(id, cid, from.z);
    lemma_orphan_shut(a, id, cid, from.z as int, sid);
    let b = a.orphan_shut(id, cid, from.z as int);
    lemma_packs_trans(w, a, b, id);
    lemma_stack_wf(w, to);
    assert(b.stack(to) == w.stack(to));
    assert(b.stack(other) == w.stack(other));
    lemma_lands(b, to, it, sid, other);
    let later = w.thing_moved(id, from, sp, to, count);
    assert(later == b.dropped(
        to,
        it.server_id,
        it.client_id,
        pieces_of(it),
        it.animated,
        b.stacks(it.server_id),
    ));
    if later.players.has(id) {
        assert(b.players.has(id));
        assert(a.players.has(id));
        assert(contents_of(a.players.at(id).windows[cid as int]) == contents_of(
            b.players.at(id).windows[cid as int],
        ));
    }
}

/// Something lies at place `ts` of window `tc` into which things can be put.
pub open spec fn is_onto_bag(w: World, id: u32, tc: u8, ts: u8) -> bool {
    w.item_in(id, tc, ts as int) matches Some(it) && w.is_bag(it.server_id)
}

/// What is moved from one container to another with room, onto no container inside it, is the
/// first thing there and no longer where it was.
pub proof fn law_repacked_things_arrive(
    w: World,
    id: u32,
    from: Position,
    sp: u8,
    to: Position,
    count: u8,
    fc: u8,
    tc: u8,
    sid: u16,
)
    requires
        w.wf(),
        w.players.has(id),
        is_in_window(from, fc),
        is_in_window(to, tc),
        fc != tc,
        w.players.at(id).windows[fc as int] matches Some(oc) && from.z < oc.items.len(),
        w.players.at(id).windows[tc as int] matches Some(oc) && oc.items.len() < oc.capacity,
        !is_onto_bag(w, id, tc, to.z),
    ensures
        ({
            let p = w.players.at(id);
            let items = p.windows[fc as int]->0.items;
            let later = w.thing_moved(id, from, sp, to, count);
            later.players.has(id) ==> {
                let q = later.players.at(id);
                &&& q.inventory == p.inventory
                &&& contents_of(q.windows[fc as int]) == Some(items.remove(from.z as int))
                &&& contents_of(q.windows[tc as int]) == Some(
                    p.windows[tc as int]->0.items.insert(0, items[from.z as int]),
                )
                &&& held(q, sid) == held(p, sid)
                &&& later.overlay == w.overlay
            }
        }),
{
    reveal(World::thing_moved);
    lemma_places(from, fc);
    lemma_places(to, tc);
    let p = w.players.at(id);
    let it = p.windows[fc as int]->0.items[from.z as int];
    lemma_item_popped(w, id, fc, from.z, sid);
    let a = w.item_popped(id, fc, from.z);
    lemma_orphan_shut(a, id, fc, from.z as int, sid);
    let b = a.orphan_shut(id, fc, from.z as int);
    lemma_packs_trans(w, a, b, id);
    let later = w.thing_moved(id, from, sp, to, count);
    if b.players.has(id) {
        assert(a.players.has(id));
        let x = a.players.at(id).windows;
        let y = b.players.at(id).windows;
        assert(contents_of(x[tc as int]) == contents_of(y[tc as int]));
        assert(contents_of(x[fc as int]) == contents_of(y[fc as int]));
        assert(y[tc as int] is Some);
        assert(later == b.item_put(id, tc, it));
        lemma_item_put(b, id, tc, it, sid);
        if later.players.has(id) {
            let _ = later.players.at(id).windows[fc as int];
        }
    }
}

/// The window that tracks the container at place `ts` of window `tc` holds nothing yet where it
/// is a new one.
proof fn lemma_tracked(w: World, id: u32, tc: u8, ts: u8, sid: u16, unused_window: int)
    requires
        w.players.wf(),
        w.players.has(id),
        w.players.at(id).windows.len() == 16,
        tc < 16,
        0 <= unused_window < 16,
        w.players.at(id).windows[unused_window] is None,
    ensures
        ({
            let p = w.players.at(id);
            let u = w.inner_tracked(id, tc, ts);
            let r = u.players.at(id);
            &&& u.players.wf() && u.players.has(id)
            &&& r == (PlayerModel { windows: r.windows, ..p })
            &&& r.windows.len() == 16
            &&& u.overlay == w.overlay
            &&& window_pieces(r.windows, sid) == window_pieces(p.windows, sid)
            &&& forall|i: int| #[trigger]
                p.windows[i] is Some && 0 <= i < 16 ==> r.windows[i] == p.windows[i]
            &&& w.inner_window(id, tc, ts) matches Some(c) ==> c < 16
                && r.windows[c as int] is Some
        }),
{
    let p = w.players.at(id);
    let source = ContainerSource::Nested { parent_cid: tc, parent_slot: ts };
    lemma_first_from(p.windows, unused(), 0);
    lemma_first_from(p.windows, comes_from(source), 0);
    if is_onto_bag(w, id, tc, ts) && p.window_of(source) is None {
        let c = p.free_window()->0;
        let fresh = w.new_window(w.item_in(id, tc, ts as int)->0.server_id, source, false);
        assert(p.windows[c] is None);
        lemma_window_update(p.windows, c, Some(fresh), sid);
        law_set(w.players, id, p.with_window(c, Some(fresh)));
    }
}

/// What is taken out of a container and put into one with room, or back, is neither more nor less.
proof fn lemma_put_elsewhere(u: World, id: u32, fc: u8, fs: u8, dest: u8, sid: u16)
    requires
        u.players.wf(),
        u.players.has(id),
        u.players.at(id).windows.len() == 16,
        fc < 16,
        dest < 16,
        u.item_in(id, fc, fs as int) is Some,
        u.players.at(id).windows[fc as int] matches Some(oc) && oc.items.len() <= oc.capacity,
        u.players.at(id).windows[dest as int] is Some,
    ensures
        ({
            let item = u.item_in(id, fc, fs as int)->0;
            let b = u.item_popped(id, fc, fs).orphan_shut(id, fc, fs as int);
            let later = match b.fullness(id, dest) {
                None => b,
                Some(true) => b.item_put(id, fc, item),
                Some(false) => b.item_put(id, dest, item),
            };
            &&& later.players.has(id) ==> held(later.players.at(id), sid) == held(
                u.players.at(id),
                sid,
            ) && later.players.at(id).inventory == u.players.at(id).inventory
            &&& later.overlay == u.overlay
        }),
{
    let item = u.item_in(id, fc, fs as int)->0;
    lemma_item_popped(u, id, fc, fs, sid);
    let a = u.item_popped(id, fc, fs);
    lemma_orphan_shut(a, id, fc, fs as int, sid);
    let b = a.orphan_shut(id, fc, fs as int);
    lemma_packs_trans(u, a, b, id);
    if b.players.has(id) {
        assert(a.players.has(id));
        let x = a.players.at(id).windows;
        let y = b.players.at(id).windows;
        assert(contents_of(x[dest as int]) == contents_of(y[dest as int]));
        assert(contents_of(x[fc as int]) == contents_of(y[fc as int]));
        assert(x[dest as int] is Some);
        assert(y[fc as int] is Some);
        assert(y[dest as int] is Some);
        if b.fullness(id, dest) == Some(false) {
            lemma_item_put(b, id, dest, item, sid);
        } else {
            lemma_item_put(b, id, fc, item, sid);
        }
    }
}

/// Moving something from container to container, whatever lies where it is put, makes and loses
/// nothing, as long as one window is not in use.
pub proof fn law_repacked_things_are_kept(
    w: World,
    id: u32,
    from: Position,
    sp: u8,
    to: Position,
    count: u8,
    fc: u8,
    tc: u8,
    sid: u16,
    unused_window: int,
)
    requires
        w.wf(),
        w.players.has(id),
        is_in_window(from, fc),
        is_in_window(to, tc),
        w.players.at(id).windows[fc as int] matches Some(oc) ==> oc.items.len() <= oc.capacity,
        w.players.at(id).windows[tc as int] is Some,
        0 <= unused_window < 16,
        w.players.at(id).windows[unused_window] is None,
    ensures
        ({
            let later = w.thing_moved(id, from, sp, to, count);
            &&& later.players.has(id) ==> held(later.players.at(id), sid) == held(
                w.players.at(id),
                sid,
            ) && later.players.at(id).inventory == w.players.at(id).inventory
            &&& later.overlay == w.overlay
        }),
{
    reveal(World::thing_moved);
    lemma_places(from, fc);
    lemma_places(to, tc);
    let p = w.players.at(id);
    assert(w.thing_moved(id, from, sp, to, count) == w.repacked(id, fc, from.z, tc, to.z));
    let bag = w.item_in(id, fc, from.z as int) matches Some(it) && w.is_bag(it.server_id);
    lemma_tracked(w, id, tc, to.z, sid, unused_window);
    let u = if bag {
        w
    } else {
        w.inner_tracked(id, tc, to.z)
    };
    let dest = match w.inner_window(id, tc, to.z) {
        Some(c) if !bag => c,
        _ => tc,
    };
    assert(p.windows[tc as int] is Some);
    assert(u.players.at(id).windows[dest as int] is Some);
    if p.windows[fc as int] is Some {
        assert(u.players.at(id).windows[fc as int] == p.windows[fc as int]);
        if u.item_in(id, fc, from.z as int) is Some {
            lemma_put_elsewhere(u, id, fc, from.z, dest, sid);
        }
    } else {
        assert(w.item_in(id, fc, from.z as int) is None);
    }
}

/// What is moved from a tile within reach to another in throwing range lies there, in as many
/// pieces as were asked for and there, and no longer where it was. No other tile changes, nor what
/// anyone has.
pub proof fn law_ground_things_arrive(
    w: World,
    id: u32,
    from: Position,
    sp: u8,
    to: Position,
    count: u8,
    sid: u16,
    other: Position,
)
    requires
        w.wf(),
        w.players.has(id),
        is_tile(from),
        is_tile(to),
        from != to,
        close(w.players.at(id).position, from),
        w.map.throwable(from, to),
        !w.no_room(to),
        w.stack(to) is Some,
        w.picked(from, sp) matches Some(k) && k.moveable && fits(w, from, to, k, count),
        other != from,
        other != to,
    ensures
        ({
            let k = w.picked(from, sp)->0;
            let t = w.stack(from)->0.things[k.idx as int];
            let n = if sid == t.server_id {
                asked_of(t.pieces(), k.stackable, count) as int
            } else {
                0
            };
            let later = w.thing_moved(id, from, sp, to, count);
            &&& w.keeps_players(later)
            &&& later.pieces_on(from, sid) == w.pieces_on(from, sid) - n
            &&& later.pieces_on(to, sid) == w.pieces_on(to, sid) + n
            &&& later.stack(other) == w.stack(other)
            &&& later.players.has(id) ==> {
                let p = w.players.at(id);
                let q = later.players.at(id);
                &&& q.inventory == p.inventory
                &&& q.position == p.position
                &&& same_items(p.windows, q.windows)
                &&& held(q, sid) == held(p, sid)
            }
            &&& later.monsters == w.monsters
        }),
{
    reveal(World::thing_moved);
    lemma_places(from, 0);
    lemma_places(to, 0);
    let k = w.picked(from, sp)->0;
    let idx = k.idx as int;
    let st = w.stack(from)->0;
    let su = w.stack(to)->0;
    let t = st.things[idx];
    let moved = w.pieces_taken(from, k, count);
    let gone = w.picked_gone(from, k, count);
    let a = w.ground_taken(from, idx, count, k.stackable);
    law_with_stack(w, from, st.taken(idx, count, k.stackable), to);
    law_with_stack(w, from, st.taken(idx, count, k.stackable), other);
    law_take_conserves(st, idx, count, k.stackable, sid);
    assert(a.stack(to) == Some(su));
    let placed = su.placed(k.server_id, k.client_id, moved, k.animated, k.stackable);
    let b = a.ground_placed(to, k.server_id, k.client_id, moved, k.animated, k.stackable);
    law_with_stack(a, to, placed, from);
    law_with_stack(a, to, placed, other);
    lemma_stack_wf(w, to);
    law_place_conserves(su, k.server_id, k.client_id, moved, k.animated, k.stackable, sid);
    lemma_dropped(a, to, k.server_id, k.client_id, moved, k.animated, k.stackable);
    let c = a.dropped(to, k.server_id, k.client_id, moved, k.animated, k.stackable);
    lemma_told_taken(c, from, sp, gone, idx);
    let d = c.told_taken(from, sp, gone, idx);
    lemma_only_told_trans(b, c, d);
    lemma_told_packs(b, d, id);
    assert(w.keeps_players(d));
    let later = w.thing_moved(id, from, sp, to, count);
    let old_source = ContainerSource::Ground(from);
    let new = ContainerSource::Ground(to);
    if k.is_container {
        lemma_window_moves_along(d, id, old_source, new, sid);
        let e = d.window_rekeyed(id, old_source, new).reach_checked(id);
        assert(later == e);
        lemma_keeps_players_trans(w, d, later);
    } else {
        assert(later == d);
    }
    if later.players.has(id) {
        let x = w.players.at(id).windows;
        let z = later.players.at(id).windows;
        assert forall|i: int| #![trigger x[i]] #![trigger z[i]] 0 <= i < x.len() implies contents_of(
            x[i],
        ) == contents_of(z[i]) by {
            let _ = d.players.at(id).windows[i];
        }
        lemma_same_items(x, z, sid);
    }
}

/// A window that goes along with its container, and windows that are then shut, keep what is in
/// them.
proof fn lemma_window_moves_along(
    w: World,
    id: u32,
    old_source: ContainerSource,
    new: ContainerSource,
    sid: u16,
)
    requires
        w.players.wf(),
        w.players.has(id) ==> w.players.at(id).windows.len() == 16,
    ensures
        ({
            let later = w.window_rekeyed(id, old_source, new).reach_checked(id);
            &&& only_packs(w, later, id)
            &&& later.players.has(id) ==> same_items(
                w.players.at(id).windows,
                later.players.at(id).windows,
            )
        }),
{
    let c = w.window_rekeyed(id, old_source, new);
    if w.players.has(id) {
        lemma_rekeyed_items(w.players.at(id), old_source, new, sid);
        law_set(w.players, id, w.players.at(id).rekeyed(old_source, new));
    }
    lemma_reach_only_shut(c, id);
    let later = c.reach_checked(id);
    lemma_shut_packs(c, later, id);
    assert(only_packs(w, c, id));
    lemma_packs_trans(w, c, later, id);
    if later.players.has(id) {
        assert(c.players.has(id));
        let x = w.players.at(id).windows;
        let z = later.players.at(id).windows;
        assert forall|i: int| #![trigger x[i]] #![trigger z[i]] 0 <= i < x.len() implies contents_of(
            x[i],
        ) == contents_of(z[i]) by {
            let _ = c.players.at(id).windows[i];
        }
    }
}

} // verus!
