//! What holds across the commands of the game.

use vstd::prelude::*;
use vstd::utf8::encode_utf8;

use super::combat::health_after;
use super::combat::splash;
use super::combat::Outcome;
use super::containers::drawn_items;
use super::gm::command_line;
use super::gm::position_in;
use super::gm::words_of;
use super::gm::GmVerb;
use super::gm_commands::around;
use super::model::container_rows;
use super::model::count_or_one;
use super::model::extends;
use super::model::inventory_rows;
use super::model::item_rows;
use super::model::law_gone_told;
use super::model::law_push;
use super::model::law_push_all;
use super::model::law_shown_to;
use super::model::lemma_forget;
use super::model::lemma_introduced;
use super::model::lemma_keeps_players_trans;
use super::model::lemma_offer;
use super::model::lemma_only_told_trans;
use super::model::lemma_only_told_wf;
use super::model::lemma_set_player;
use super::model::puff;
use super::model::root_of;
use super::model::rows_of_first;
use super::model::World;
use super::moves::pieces_of;
use super::moves::Picked;
use super::restore::contents;
use super::restore::equipment;
use super::restore::insert_stored;
use super::restore::item_of_row;
use super::restore::leads_deeper;
use super::restore::place_of;
use super::restore::stored_in;
use super::restore::Stored;
use super::session::newcomer;
use super::state::ContainerModel;
use super::state::ContainerSource;
use super::state::InitialState;
use super::state::InvItem;
use super::state::MonsterDrop;
use super::state::MonsterModel;
use super::state::PlayerModel;
use super::state::SpawnModel;
use super::windows::close;
use super::windows::comes_from;
use super::windows::first_from;
use super::GHOST_LOOKTYPE;
use super::ITEM_FULLSPLASH;
use crate::map::grid::law_tile_key_injective;
use crate::map::grid::tile_key;
use crate::map::grid::town_called;
use crate::map::grid::town_with_id;
use crate::map::grid::StaticMap;
use crate::map::stack::law_place_conserves;
use crate::map::stack::law_take_conserves;
use crate::map::StackThing;
use crate::registry::law_add_last;
use crate::registry::law_set;
use crate::registry::law_without;
use crate::registry::lemma_filter_from;
use crate::text::capped;
use crate::text::decimal;
use crate::text::digit;
use crate::text::law_decimal_reads_back;
use crate::text::lowercase;
use crate::text::unsigned_value;
use crate::wire::Outfit;
use crate::wire::PacketModel;
use crate::wire::SessionModel;
use crate::wire::WireItem;
use crate::Direction;
use crate::Position;

pub mod bags;
pub mod fights;
pub mod masters;
pub mod people;
pub mod places;
pub mod spoils;
pub mod things;
pub mod told;
pub mod walks;
pub mod ways;
pub mod words;

verus! {

// -------------------------------------------------------------------------------------
// Who is told leaves the ground as it is
// -------------------------------------------------------------------------------------

impl World {
    /// `later` has the same map, the same things on the ground and a well-formed set of
    /// players.
    pub open spec fn same_ground(self, later: World) -> bool {
        later.map == self.map && later.overlay == self.overlay && later.players.wf()
    }

    /// How many pieces of `sid` lie on `pos`.
    pub open spec fn pieces_on(self, pos: Position, sid: u16) -> int {
        match self.stack(pos) {
            Some(st) => st.units(sid),
            None => 0,
        }
    }
}

proof fn lemma_told_taken(w: World, pos: Position, sp: u8, gone: bool, idx: int)
    requires
        w.players.wf(),
    ensures
        w.only_told(w.told_taken(pos, sp, gone, idx)),
{
    if gone {
        law_push_all(
            w,
            w.audience(pos),
            PacketModel::RemoveTileThing { position: pos, stackpos: sp },
        );
    } else {
        match w.changed(pos) {
            Some(st) if 0 <= idx < st.things.len() => law_push_all(
                w,
                w.audience(pos),
                PacketModel::UpdateTileItem {
                    position: pos,
                    stackpos: w.item_slot(pos, idx),
                    item: st.things[idx].item,
                },
            ),
            _ => {},
        }
    }
}

proof fn lemma_told_item(w: World, pos: Position, sp: u8, item: WireItem, change: bool)
    requires
        w.players.wf(),
    ensures
        w.only_told(w.told_item(pos, sp, item, change)),
{
    law_push_all(
        w,
        w.audience(pos),
        if change {
            PacketModel::UpdateTileItem { position: pos, stackpos: sp, item }
        } else {
            PacketModel::AddTileItem { position: pos, stackpos: sp, item }
        },
    );
}

proof fn lemma_tree_shut(w: World, id: u32, cid: u8, depth: nat)
    requires
        w.players.wf(),
    ensures
        w.same_ground(w.tree_shut(id, cid, depth)),
    decreases depth, 0nat,
{
    if w.players.has(id) && depth > 0 {
        let kids = w.players.at(id).children(cid, 16);
        lemma_trees_shut(w, id, kids, (depth - 1) as nat);
        let a = w.trees_shut(id, kids, (depth - 1) as nat);
        let b = a.window_shut(id, cid);
        if a.players.has(id) {
            law_set(a.players, id, a.players.at(id).with_shut(cid as int));
        }
        law_push(b, id, PacketModel::CloseContainer { cid });
    }
}

proof fn lemma_trees_shut(w: World, id: u32, cids: Seq<u8>, depth: nat)
    requires
        w.players.wf(),
    ensures
        w.same_ground(w.trees_shut(id, cids, depth)),
    decreases depth, 1 + cids.len(),
{
    if cids.len() > 0 {
        lemma_tree_shut(w, id, cids[0], depth);
        lemma_trees_shut(w.tree_shut(id, cids[0], depth), id, cids.drop_first(), depth);
    }
}

proof fn lemma_rekeyed(w: World, id: u32, a: ContainerSource, b: ContainerSource)
    requires
        w.players.wf(),
    ensures
        w.same_ground(w.window_rekeyed(id, a, b)),
{
    if w.players.has(id) {
        law_set(w.players, id, w.players.at(id).rekeyed(a, b));
    }
}

proof fn lemma_reach_checked(w: World, id: u32)
    requires
        w.players.wf(),
    ensures
        w.same_ground(w.reach_checked(id)),
{
    if w.players.has(id) {
        lemma_trees_shut(w, id, w.players.at(id).out_of_reach(16), 16);
    }
}

proof fn lemma_dropped(
    w: World,
    pos: Position,
    sid: u16,
    cid: u16,
    moved: u8,
    animated: bool,
    stackable: bool,
)
    requires
        w.players.wf(),
    ensures
        w.ground_placed(pos, sid, cid, moved, animated, stackable).same_ground(
            w.dropped(pos, sid, cid, moved, animated, stackable),
        ),
        w.ground_placed(pos, sid, cid, moved, animated, stackable).only_told(
            w.dropped(pos, sid, cid, moved, animated, stackable),
        ),
{
    match w.stack(pos) {
        Some(st) => {
            let u = w.ground_placed(pos, sid, cid, moved, animated, stackable);
            let slot = u.front_slot(pos);
            let a = match st.grown(sid, moved, stackable) {
                Some(item) => u.told_item(pos, slot, item, true),
                None => u,
            };
            match st.grown(sid, moved, stackable) {
                Some(item) => lemma_told_item(u, pos, slot, item, true),
                None => {},
            }
            match st.topped(sid, cid, moved, animated, stackable) {
                Some(t) => {
                    lemma_told_item(a, pos, slot, t.item, false);
                    lemma_only_told_trans(u, a, a.told_item(pos, slot, t.item, false));
                },
                None => {},
            }
        },
        None => {},
    }
}

/// The picked item can be moved from `from` to `to` without a piece being lost: what is not
/// stackable is one piece, and a stack that it joins does not overflow twice.
pub open spec fn fits(w: World, from: Position, to: Position, k: Picked, count: u8) -> bool {
    &&& w.stack(from) matches Some(st) ==> (!k.stackable ==> st.things[k.idx as int].pieces() == 1)
    &&& w.stack(to) matches Some(st) ==> (st.joins(k.server_id, k.stackable) ==> st.together(
        w.pieces_taken(from, k, count),
    ) <= 355)
}

/// The ground after a picked item went from `from` to `to`.
spec fn carried_over(w: World, from: Position, to: Position, k: Picked, count: u8) -> World {
    w.ground_taken(from, k.idx as int, count, k.stackable).ground_placed(
        to,
        k.server_id,
        k.client_id,
        w.pieces_taken(from, k, count),
        k.animated,
        k.stackable,
    )
}

proof fn lemma_carried_over(
    w: World,
    from: Position,
    sp: u8,
    to: Position,
    k: Picked,
    count: u8,
    sid: u16,
    other: Position,
)
    requires
        w.wf(),
        from != to,
        w.picked(from, sp) == Some(k),
        w.stack(to) is Some,
        fits(w, from, to, k, count),
        other != from,
        other != to,
    ensures
        ({
            let later = carried_over(w, from, to, k, count);
            &&& later.pieces_on(from, sid) + later.pieces_on(to, sid) == w.pieces_on(from, sid)
                + w.pieces_on(to, sid)
            &&& later.stack(other) == w.stack(other)
        }),
{
    let idx = k.idx as int;
    let st = w.stack(from)->0;
    let su = w.stack(to)->0;
    assert(0 <= idx < st.things.len());
    let moved = w.pieces_taken(from, k, count);
    let a = w.ground_taken(from, idx, count, k.stackable);
    if tile_key(from) == tile_key(to) {
        law_tile_key_injective(from, to);
    }
    if tile_key(other) == tile_key(to) {
        law_tile_key_injective(other, to);
    }
    if tile_key(from) == tile_key(other) {
        law_tile_key_injective(from, other);
    }
    assert(a.stack(to) == Some(su));
    assert(a.stack(from) == Some(st.taken(idx, count, k.stackable)));
    let b = carried_over(w, from, to, k, count);
    law_take_conserves(st, idx, count, k.stackable, sid);
    lemma_stack_wf(w, to);
    law_place_conserves(su, k.server_id, k.client_id, moved, k.animated, k.stackable, sid);
    assert(b.stack(to) == Some(
        su.placed(k.server_id, k.client_id, moved, k.animated, k.stackable),
    ));
    assert(b.stack(from) == a.stack(from));
}

/// The moves that are made only differ in their messages and windows from the bare change on
/// the ground.
proof fn lemma_move_made(w: World, id: u32, from: Position, sp: u8, to: Position, k: Picked, count: u8)
    requires
        w.wf(),
        w.picked(from, sp) == Some(k),
    ensures
        ({
            let later = w.moved_on_ground(id, from, sp, to, count);
            w.same_ground(later) || carried_over(w, from, to, k, count).same_ground(later)
        }),
{
    if from == to || !w.players.has(id) {
    } else if !super::windows::close(w.players.at(id).position, from) {
        lemma_status(w, id, "You are too far away."@);
    } else if !w.map.throwable(from, to) {
        lemma_status(w, id, "You cannot throw there."@);
    } else if !k.moveable {
        lemma_status(w, id, "You cannot move this object."@);
    } else if w.no_room(to) {
        lemma_status(w, id, "You cannot put that there."@);
    } else {
        let idx = k.idx as int;
        let moved = w.pieces_taken(from, k, count);
        let gone = w.picked_gone(from, k, count);
        let a = w.ground_taken(from, idx, count, k.stackable);
        lemma_dropped(a, to, k.server_id, k.client_id, moved, k.animated, k.stackable);
        let c = a.dropped(to, k.server_id, k.client_id, moved, k.animated, k.stackable);
        lemma_told_taken(c, from, sp, gone, idx);
        let d = c.told_taken(from, sp, gone, idx);
        lemma_rekeyed(d, id, ContainerSource::Ground(from), ContainerSource::Ground(to));
        let e = d.window_rekeyed(id, ContainerSource::Ground(from), ContainerSource::Ground(to));
        lemma_reach_checked(e, id);
    }
}

proof fn lemma_status(w: World, id: u32, text: Seq<char>)
    requires
        w.players.wf(),
    ensures
        w.only_told(w.status(id, text)),
{
    law_push(w, id, PacketModel::TextMessage { mode: 21, text: encode_utf8(text) });
}

/// Moving a thing from tile to tile neither makes nor loses pieces, of its own type or of any
/// other, and leaves all other tiles as they are.
pub proof fn law_ground_move_conserves(
    w: World,
    id: u32,
    from: Position,
    sp: u8,
    to: Position,
    count: u8,
    sid: u16,
    other: Position,
)
    requires
        w.wf(),
        from != to,
        w.picked(from, sp) matches Some(k) ==> fits(w, from, to, k, count),
        other != from,
        other != to,
    ensures
        ({
            let later = w.moved_on_ground(id, from, sp, to, count);
            &&& later.pieces_on(from, sid) + later.pieces_on(to, sid) == w.pieces_on(from, sid)
                + w.pieces_on(to, sid)
            &&& later.stack(other) == w.stack(other)
        }),
{
    let later = w.moved_on_ground(id, from, sp, to, count);
    match w.picked(from, sp) {
        Some(k) => {
            if w.stack(to) is Some {
                lemma_carried_over(w, from, sp, to, k, count, sid, other);
                lemma_move_made(w, id, from, sp, to, k, count);
            } else {
                lemma_move_refused(w, id, from, sp, to, count);
            }
        },
        None => {
            lemma_move_refused(w, id, from, sp, to, count);
        },
    }
}

/// What is thrown out of an equipment slot lands on the tile, piece for piece, and the slot is
/// empty.
pub proof fn law_thrown_things_land(w: World, id: u32, slot: u8, to: Position, sid: u16)
    requires
        w.wf(),
        w.players.has(id),
        1 <= slot <= 10,
        w.players.at(id).inventory[slot - 1] is Some,
        w.players.at(id).position.z == to.z,
        w.map.throwable(w.players.at(id).position, to),
        !w.no_room(to),
        ({
            let it = w.players.at(id).inventory[slot - 1]->0;
            &&& w.stacks(it.server_id) || pieces_of(it) == 1
            &&& w.stack(to) matches Some(st) && (st.joins(it.server_id, w.stacks(it.server_id))
                ==> st.together(pieces_of(it)) <= 355)
        }),
    ensures
        ({
            let it = w.players.at(id).inventory[slot - 1]->0;
            let later = w.thrown(id, slot, to);
            &&& later.pieces_on(to, sid) == w.pieces_on(to, sid) + if sid == it.server_id {
                pieces_of(it) as int
            } else {
                0
            }
            &&& later.players.has(id) ==> later.players.at(id).inventory[slot - 1] is None
        }),
{
    let p = w.players.at(id);
    let it = p.inventory[slot - 1]->0;
    let stackable = w.stacks(it.server_id);
    let q = PlayerModel { inventory: p.inventory.update(slot - 1, None), ..p };
    lemma_set_player(w, id, q);
    law_set(w.players, id, q);
    let a = w.set_player(id, q);
    lemma_slot_told(a, id, slot);
    let b = a.slot_told(id, slot);
    lemma_only_told_wf(a, b);
    lemma_dropped(b, to, it.server_id, it.client_id, pieces_of(it), it.animated, stackable);
    let c = b.dropped(to, it.server_id, it.client_id, pieces_of(it), it.animated, stackable);
    lemma_stack_wf(w, to);
    law_place_conserves(
        w.stack(to)->0,
        it.server_id,
        it.client_id,
        pieces_of(it),
        it.animated,
        stackable,
        sid,
    );
    lemma_rekeyed(c, id, ContainerSource::Slot(slot), ContainerSource::Ground(to));
    let e = c.window_rekeyed(id, ContainerSource::Slot(slot), ContainerSource::Ground(to));
    lemma_reach_checked(e, id);
    if c.players.has(id) {
        assert(b.players.has(id));
        assert(c.players.at(id).windows.len() == 16);
        if c.players.at(id).window_of(ContainerSource::Slot(slot)) is Some {
            lemma_first_in(c.players.at(id).windows, ContainerSource::Slot(slot), 0);
        }
        law_set(
            c.players,
            id,
            c.players.at(id).rekeyed(ContainerSource::Slot(slot), ContainerSource::Ground(to)),
        );
    }
    lemma_reach_only_shut(e, id);
}

proof fn lemma_move_refused(w: World, id: u32, from: Position, sp: u8, to: Position, count: u8)
    requires
        w.wf(),
        w.picked(from, sp) is None || w.no_room(to),
    ensures
        w.same_ground(w.moved_on_ground(id, from, sp, to, count)),
{
    lemma_status(w, id, "You are too far away."@);
    lemma_status(w, id, "You cannot throw there."@);
    lemma_status(w, id, "You cannot move this object."@);
    lemma_status(w, id, "You cannot put that there."@);
}

proof fn lemma_stack_wf(w: World, pos: Position)
    requires
        w.wf(),
    ensures
        w.stack(pos) matches Some(st) ==> st.wf(),
{
    if w.overlay.contains_key(tile_key(pos)) {
        assert(w.overlay[tile_key(pos)].wf());
    }
}

// -------------------------------------------------------------------------------------
// What is saved comes back
// -------------------------------------------------------------------------------------

/// The item is as the catalogue describes its type; stackables have a count.
pub open spec fn genuine(map: StaticMap, it: InvItem) -> bool {
    map.meta_at(it.server_id) matches Some(m) && it.client_id == m.client_id && it.animated
        == m.animated && (if m.stackable {
        it.count matches Some(c) && c >= 1
    } else {
        it.count is None
    })
}

proof fn lemma_genuine(map: StaticMap, it: InvItem, least: u8)
    requires
        genuine(map, it),
        least <= 1,
    ensures
        item_of_row(map, it.server_id, count_or_one(it.count), least) == Some(it),
{
}

proof fn lemma_equipment_back(map: StaticMap, inv: Seq<Option<InvItem>>, n: int)
    requires
        inv.len() == 10,
        0 <= n <= 10,
        forall|i: int| 0 <= i < 10 ==> (#[trigger] inv[i] matches Some(it) ==> genuine(map, it)),
    ensures
        equipment(map, inventory_rows(inv.take(n))) == Seq::new(
            10,
            |i: int|
                if i < n {
                    inv[i]
                } else {
                    None
                },
        ),
    decreases n,
{
    let goal = Seq::new(
        10,
        |i: int|
            if i < n {
                inv[i]
            } else {
                None
            },
    );
    if n == 0 {
        assert(equipment(map, inventory_rows(inv.take(0))) =~= goal);
    } else {
        lemma_equipment_back(map, inv, n - 1);
        assert(inv.take(n).drop_last() =~= inv.take(n - 1));
        assert(inv.take(n).last() == inv[n - 1]);
        let rest = inventory_rows(inv.take(n - 1));
        match inv[n - 1] {
            Some(it) => {
                lemma_genuine(map, it, 1);
                let row = (n as u8, it.server_id, count_or_one(it.count));
                assert(rest.push(row).drop_last() =~= rest);
                assert(equipment(map, rest.push(row)) =~= goal);
            },
            None => {
                assert(equipment(map, rest) =~= goal);
            },
        }
    }
}

/// The equipment of a player who leaves is what it wears when it comes back.
pub proof fn law_saved_equipment_returns(map: StaticMap, inv: Seq<Option<InvItem>>)
    requires
        inv.len() == 10,
        forall|i: int| 0 <= i < 10 ==> (#[trigger] inv[i] matches Some(it) ==> genuine(map, it)),
    ensures
        equipment(map, inventory_rows(inv)) == inv,
{
    lemma_equipment_back(map, inv, 10);
    assert(inv.take(10) =~= inv);
    assert(equipment(map, inventory_rows(inv)) =~= inv);
}

proof fn lemma_decimal_starts(n: nat)
    ensures
        decimal(n).len() > 0,
        decimal(n)[0] != '+',
    decreases n,
{
    if n >= 10 {
        lemma_decimal_starts(n / 10);
    } else {
        assert(digit(n as int) as int == 48 + n);
    }
}

proof fn lemma_place_of(n: nat)
    requires
        n <= 0xFFFF_FFFF_FFFF_FFFF,
    ensures
        place_of(decimal(n)) == n,
{
    lemma_decimal_starts(n);
    law_decimal_reads_back(n);
}

/// A number in decimal has no slash in it.
proof fn lemma_decimal_flat(n: nat)
    ensures
        !leads_deeper(decimal(n)),
    decreases n,
{
    if n >= 10 {
        lemma_decimal_flat(n / 10);
        let rest = decimal(n / 10);
        assert forall|k: int| 0 <= k < decimal(n).len() implies decimal(n)[k] != '/' by {
            if k < rest.len() {
                assert(decimal(n)[k] == rest[k]);
                assert(rest.contains(rest[k]));
            }
        }
    }
}

/// The path into a container in a slot is empty, and one into a container inside another has a
/// slash in it.
proof fn lemma_root(windows: Seq<Option<ContainerModel>>, c: int, depth: nat)
    requires
        root_of(windows, c, depth) is Some,
    ensures
        match windows[c]->0.source {
            ContainerSource::Slot(s) => root_of(windows, c, depth) == Some(
                (s, Seq::<char>::empty()),
            ) && s >= 1,
            ContainerSource::Nested { .. } => root_of(windows, c, depth) matches Some(r)
                && leads_deeper(r.1),
            ContainerSource::Ground(_) => false,
        },
{
    match windows[c]->0.source {
        ContainerSource::Nested { .. } => {
            let r = root_of(windows, c, depth)->0;
            assert(r.1[r.1.len() - 1] == '/');
        },
        _ => {},
    }
}

/// Rows of other slots, and of containers inside others, do not matter.
proof fn lemma_stored_skip(a: Seq<(u8, Seq<char>, u16, u8)>, b: Seq<(u8, Seq<char>, u16, u8)>, slot: u8)
    requires
        forall|i: int|
            0 <= i < b.len() ==> (#[trigger] b[i]).0 != slot || leads_deeper(b[i].1),
    ensures
        stored_in(a + b, slot) == stored_in(a, slot),
    decreases b.len(),
{
    if b.len() == 0 {
        assert(a + b =~= a);
    } else {
        assert((a + b).drop_last() =~= a + b.drop_last());
        assert((a + b).last() == b[b.len() - 1]);
        lemma_stored_skip(a, b.drop_last(), slot);
    }
}

/// The items of a container, each with its place.
pub open spec fn as_stored(items: Seq<InvItem>) -> Seq<Stored> {
    Seq::new(
        items.len(),
        |i: int|
            Stored {
                place: i as u64,
                server_id: items[i].server_id,
                count: count_or_one(items[i].count),
            },
    )
}

proof fn lemma_stored_rows(
    a: Seq<(u8, Seq<char>, u16, u8)>,
    slot: u8,
    items: Seq<InvItem>,
    n: int,
)
    requires
        0 <= n <= items.len(),
        items.len() <= 0xFFFF_FFFF_FFFF_FFFF,
        stored_in(a, slot) == Seq::<Stored>::empty(),
    ensures
        stored_in(a + item_rows(slot, Seq::empty(), items).take(n), slot) == as_stored(items).take(n),
    decreases n,
{
    let rows = item_rows(slot, Seq::empty(), items);
    if n == 0 {
        assert(a + rows.take(0) =~= a);
        assert(as_stored(items).take(0) =~= Seq::<Stored>::empty());
    } else {
        lemma_stored_rows(a, slot, items, n - 1);
        let all = a + rows.take(n);
        assert(all.drop_last() =~= a + rows.take(n - 1));
        assert(all.last() == rows[n - 1]);
        lemma_place_of((n - 1) as nat);
        lemma_decimal_flat((n - 1) as nat);
        assert(rows[n - 1].1 =~= decimal((n - 1) as nat));
        let rest = as_stored(items).take(n - 1);
        let t = as_stored(items)[n - 1];
        assert(t.place == n - 1);
        if n > 1 {
            assert(rest.last() == as_stored(items)[n - 2]);
        }
        assert(insert_stored(rest, t) == rest.push(t));
        assert(rest.push(t) =~= as_stored(items).take(n));
    }
}

proof fn lemma_contents_back(map: StaticMap, items: Seq<InvItem>, n: int)
    requires
        0 <= n <= items.len(),
        forall|i: int| 0 <= i < items.len() ==> genuine(map, #[trigger] items[i]),
    ensures
        contents(map, as_stored(items).take(n)) == items.take(n),
    decreases n,
{
    let s = as_stored(items);
    if n > 0 {
        lemma_contents_back(map, items, n - 1);
        assert(s.take(n).drop_last() =~= s.take(n - 1));
        assert(s.take(n).last() == s[n - 1]);
        assert(genuine(map, items[n - 1]));
        lemma_genuine(map, items[n - 1], 0);
        assert(items.take(n - 1).push(items[n - 1]) =~= items.take(n));
    } else {
        assert(items.take(0) =~= Seq::<InvItem>::empty());
    }
}

proof fn lemma_rows_of_window(windows: Seq<Option<ContainerModel>>, c: int, slot: u8, n: int)
    requires
        0 <= c < windows.len(),
        0 <= n <= windows.len(),
        slot >= 1,
        windows[c] matches Some(oc) && oc.source == ContainerSource::Slot(slot),
        forall|k: int|
            0 <= k < windows.len() && k != c ==> (#[trigger] windows[k] matches Some(oc)
                ==> oc.source != ContainerSource::Slot(slot)),
        windows[c]->0.items.len() <= 0xFFFF_FFFF_FFFF_FFFF,
    ensures
        stored_in(rows_of_first(windows, n), slot) == (if n > c {
            as_stored(windows[c]->0.items)
        } else {
            Seq::empty()
        }),
    decreases n,
{
    if n > 0 {
        lemma_rows_of_window(windows, c, slot, n - 1);
        let rest = rows_of_first(windows, n - 1);
        match root_of(windows, n - 1, 16) {
            Some((s, prefix)) => {
                lemma_root(windows, n - 1, 16);
                let items = windows[n - 1]->0.items;
                let rows = item_rows(s, prefix, items);
                if n - 1 == c {
                    let k = items.len() as int;
                    lemma_stored_rows(rest, slot, items, k);
                    assert(rows.take(k) =~= rows);
                    assert(as_stored(items).take(k) =~= as_stored(items));
                } else {
                    assert forall|i: int| 0 <= i < rows.len() implies (#[trigger] rows[i]).0 != slot
                        || leads_deeper(rows[i].1) by {
                        if windows[n - 1]->0.source is Nested {
                            let j = prefix.index_of('/');
                            assert(rows[i].1[j] == prefix[j]);
                        }
                    }
                    lemma_stored_skip(rest, rows, slot);
                }
            },
            None => {},
        }
    }
}

/// The contents of a container in an equipment slot are in it again when its owner comes back.
pub proof fn law_saved_contents_return(
    map: StaticMap,
    windows: Seq<Option<ContainerModel>>,
    c: int,
    slot: u8,
)
    requires
        0 <= c < windows.len(),
        slot >= 1,
        windows[c] matches Some(oc) && oc.source == ContainerSource::Slot(slot),
        forall|k: int|
            0 <= k < windows.len() && k != c ==> (#[trigger] windows[k] matches Some(oc)
                ==> oc.source != ContainerSource::Slot(slot)),
        forall|i: int|
            0 <= i < windows[c]->0.items.len() ==> genuine(map, #[trigger] windows[c]->0.items[i]),
        windows[c]->0.items.len() <= 0xFFFF_FFFF_FFFF_FFFF,
    ensures
        contents(map, stored_in(container_rows(windows), slot)) == windows[c]->0.items,
{
    let items = windows[c]->0.items;
    let n = items.len() as int;
    lemma_rows_of_window(windows, c, slot, windows.len() as int);
    lemma_contents_back(map, items, n);
    assert(as_stored(items).take(n) =~= as_stored(items));
    assert(items.take(n) =~= items);
}

// -------------------------------------------------------------------------------------
// Gamemasters
// -------------------------------------------------------------------------------------

/// Changing an outfit changes nothing else, messages apart.
proof fn lemma_dressed(w: World, id: u32, outfit: Outfit)
    requires
        w.players.wf(),
        w.players.has(id),
    ensures
        w.set_player(id, PlayerModel { outfit, ..w.players.at(id) }).only_told(
            w.dressed(id, outfit),
        ),
{
    reveal(World::dressed);
    let p = PacketModel::CreatureOutfit { id, outfit };
    let a = w.set_player(id, PlayerModel { outfit, ..w.players.at(id) });
    law_set(w.players, id, PlayerModel { outfit, ..w.players.at(id) });
    law_push(a, id, p);
    let b = a.push(id, p);
    let ids = b.spectators(w.players.at(id).position, id);
    law_push_all(b, ids, p);
    lemma_only_told_trans(a, b, b.push_all(ids, p));
}

/// `/ghost` changes how a gamemaster looks and whether it is seen, and nothing else of it.
pub proof fn law_ghost_toggles(w: World, id: u32)
    requires
        w.players.wf(),
        w.players.has(id),
        w.players.at(id).gamemaster,
    ensures
        w.gm_ghost(id).players.wf(),
        ({
            let p = w.players.at(id);
            let later = w.gm_ghost(id);
            let q = later.players.at(id);
            later.players.has(id) ==> q == (if p.is_ghost {
                PlayerModel {
                    is_ghost: false,
                    prev_outfit: None,
                    outfit: match p.prev_outfit {
                        Some(o) => o,
                        None => p.outfit,
                    },
                    session: q.session,
                    known: q.known,
                    ..p
                }
            } else {
                PlayerModel {
                    is_ghost: true,
                    prev_outfit: Some(p.outfit),
                    outfit: Outfit { look_type: GHOST_LOOKTYPE, ..p.outfit },
                    session: q.session,
                    known: q.known,
                    ..p
                }
            })
        }),
{
    let p = w.players.at(id);
    if p.is_ghost {
        let outfit = match p.prev_outfit {
            Some(o) => o,
            None => p.outfit,
        };
        let q = PlayerModel { is_ghost: false, prev_outfit: None, outfit, ..p };
        let a = w.set_player(id, q);
        law_set(w.players, id, q);
        lemma_dressed(a, id, outfit);
        let b = a.dressed(id, outfit);
        assert(a.set_player(id, PlayerModel { outfit, ..a.players.at(id) }) =~= a);
        law_shown_to(b, b.laymen(p.position, id), id, p.position);
        let c = b.shown_to(b.laymen(p.position, id), id, p.position);
        lemma_status(c, id, "Ghost mode OFF."@);
        lemma_only_told_trans(a, b, c);
        lemma_only_told_trans(a, c, w.gm_ghost(id));
    } else {
        let outfit = Outfit { look_type: GHOST_LOOKTYPE, ..p.outfit };
        let q = PlayerModel { is_ghost: true, prev_outfit: Some(p.outfit), outfit, ..p };
        let a = w.set_player(id, q);
        law_set(w.players, id, q);
        lemma_dressed(a, id, outfit);
        let b = a.dressed(id, outfit);
        assert(a.set_player(id, PlayerModel { outfit, ..a.players.at(id) }) =~= a);
        law_gone_told(b, b.laymen(p.position, id), id);
        let c = b.gone_told(b.laymen(p.position, id), id);
        lemma_status(c, id, "Ghost mode ON."@);
        lemma_only_told_trans(a, b, c);
        lemma_only_told_trans(a, c, w.gm_ghost(id));
    }
}

/// `/ghost` twice gives back the outfit, for a gamemaster who is still there.
pub proof fn law_ghost_twice(w: World, id: u32)
    requires
        w.wf(),
        w.players.has(id),
        w.players.at(id).gamemaster,
        !w.players.at(id).is_ghost,
        w.gm_ghost(id).players.has(id),
        w.gm_ghost(id).gm_ghost(id).players.has(id),
    ensures
        w.gm_ghost(id).gm_ghost(id).players.at(id).outfit == w.players.at(id).outfit,
        !w.gm_ghost(id).gm_ghost(id).players.at(id).is_ghost,
        w.gm_ghost(id).gm_ghost(id).players.at(id).prev_outfit is None,
{
    law_ghost_toggles(w, id);
    law_ghost_toggles(w.gm_ghost(id), id);
}

/// `/noclip` turns walking through everything on and off, and does nothing else to a
/// gamemaster.
pub proof fn law_noclip_toggles(w: World, id: u32)
    requires
        w.wf(),
        w.players.has(id),
        w.players.at(id).gamemaster,
    ensures
        ({
            let q = w.gm_noclip(id).players.at(id);
            w.gm_noclip(id).players.has(id) ==> q == (PlayerModel {
                noclip: !w.players.at(id).noclip,
                session: q.session,
                known: q.known,
                ..w.players.at(id)
            })
        }),
{
    let on = !w.players.at(id).noclip;
    let q = PlayerModel { noclip: on, ..w.players.at(id) };
    law_set(w.players, id, q);
    lemma_status(
        w.set_player(id, q),
        id,
        if on {
            "Noclip ON."@
        } else {
            "Noclip OFF."@
        },
    );
}

/// The lines of players who are no gamemasters are dropped.
pub proof fn law_commands_need_gamemasters(w: World, id: u32, text: Seq<char>)
    requires
        !w.players.has(id) || !w.players.at(id).gamemaster,
    ensures
        w.commanded(id, text) == w,
{
    reveal(World::commanded);
}

impl World {
    /// What the command `v` of player `id` needs is there: arguments that can be read, and the
    /// players, items and places that they name.
    pub open spec fn can_follow(self, id: u32, v: GmVerb, args: Seq<Seq<char>>) -> bool {
        match v {
            GmVerb::Item => args.len() > 0 && (self.item_asked(args) matches Ok((sid, _))
                && self.map.meta_at(sid) is Some) && (self.stack(
                self.players.at(id).position,
            ) matches Some(st) && st.things.len() < 10),
            GmVerb::Goto => match position_in(args) {
                Some(pos) => self.map.stack_at(pos) is Some,
                None => args.len() == 1 && self.player_named(args[0]) is Some,
            },
            GmVerb::Temple => args.len() > 0 ==> match unsigned_value(args[0], 0xFFFF_FFFF) {
                Some(n) => town_with_id(self.map.town_list(), n as u32) is Some,
                None => town_called(self.map.town_list(), args[0]) is Some,
            },
            GmVerb::Teleport => args.len() > 0 && (position_in(args.skip(1)) matches Some(pos)
                && self.map.stack_at(pos) is Some) && self.player_named(args[0]) is Some,
            GmVerb::TeleportTo | GmVerb::Bring => args.len() > 0 && self.player_named(
                args[0],
            ) is Some,
            GmVerb::ChangeSex => args.len() >= 2 && (lowercase(args[1]) == "male"@ || lowercase(
                args[1],
            ) == "female"@) && self.player_named(args[0]) is Some,
            GmVerb::SetLookType => 1 <= args.len() <= 2 && unsigned_value(
                args.last(),
                0xFFFF,
            ) is Some && (args.len() == 2 ==> self.player_named(args[0]) is Some),
            GmVerb::Monster => args.len() > 0 && self.deserted_beside(
                self.players.at(id).position,
                0,
            ) is Some,
            GmVerb::Speed => 1 <= args.len() <= 2 && (args.len() == 2 ==> self.player_named(
                args[0],
            ) is Some) && (unsigned_value(args.last(), 0xFFFF) matches Some(n) && 10 <= n
                <= 2500),
            GmVerb::Help | GmVerb::ReloadLua | GmVerb::GhostMode | GmVerb::Noclip => true,
        }
    }
}

/// A command that cannot be followed only tells the gamemaster so: it leaves the game as it was.
pub proof fn law_failed_commands_change_nothing(
    w: World,
    id: u32,
    v: GmVerb,
    args: Seq<Seq<char>>,
)
    requires
        w.wf(),
        w.players.has(id),
        !w.can_follow(id, v, args),
    ensures
        exists|text: Seq<char>| w.ordered(id, v, args) == #[trigger] w.status(id, text),
        w.only_told(w.ordered(id, v, args)),
{
    let text = choose|text: Seq<char>| w.ordered(id, v, args) == #[trigger] w.status(id, text);
    lemma_status(w, id, text);
}

/// A line whose first word is no command only tells the gamemaster so.
pub proof fn law_unknown_commands_change_nothing(w: World, id: u32, text: Seq<char>)
    requires
        w.wf(),
        w.asked(id, text) is None,
    ensures
        w.only_told(w.commanded(id, text)),
{
    reveal(World::commanded);
    let words = words_of(command_line(text));
    if words.len() > 0 {
        lemma_status(w, id, around("Unknown command: /"@, words[0], ". Type /help."@));
    }
}

// -------------------------------------------------------------------------------------
// Coming, going and walking
// -------------------------------------------------------------------------------------

/// The third search in a row that finds no way ends a walk to a place, for whoever is still
/// there.
pub proof fn law_third_search_ends_walk(w: World, id: u32)
    requires
        w.wf(),
        w.players.has(id),
        w.players.at(id).go_to_position is Some,
        w.players.at(id).failed_repaths is None,
    ensures
        ({
            let twice = w.search_failed(id).search_failed(id);
            let later = twice.search_failed(id);
            &&& twice.players.at(id).go_to_position == w.players.at(id).go_to_position
            &&& later.players.has(id) ==> later.players.at(id).go_to_position is None
            &&& later.players.has(id) ==> later.players.at(id).walk.len() == 0
        }),
{
    let p = w.players.at(id);
    let a = w.search_failed(id);
    law_set(w.players, id, PlayerModel { failed_repaths: Some(1u32), ..p });
    let b = a.search_failed(id);
    law_set(a.players, id, PlayerModel { failed_repaths: Some(2u32), ..p });
    let q = PlayerModel { go_to_position: None, failed_repaths: None, walk: Seq::empty(), ..p };
    law_set(b.players, id, q);
    lemma_status(b.set_player(id, q), id, "There is no way."@);
}

proof fn lemma_first_same(
    a: Seq<Option<ContainerModel>>,
    b: Seq<Option<ContainerModel>>,
    source: ContainerSource,
    i: int,
)
    requires
        a.len() == b.len(),
        0 <= i,
        forall|k: int|
            #![trigger a[k]]
            0 <= k < a.len() ==> comes_from(source)(a[k]) == comes_from(source)(b[k]),
    ensures
        first_from(a, comes_from(source), i) == first_from(b, comes_from(source), i),
    decreases a.len() - i,
{
    if i < a.len() {
        assert(comes_from(source)(a[i]) == comes_from(source)(b[i]));
        lemma_first_same(a, b, source, i + 1);
    }
}

proof fn lemma_first_in(windows: Seq<Option<ContainerModel>>, source: ContainerSource, i: int)
    requires
        0 <= i,
        first_from(windows, comes_from(source), i) is Some,
    ensures
        ({
            let c = first_from(windows, comes_from(source), i)->0;
            i <= c < windows.len() && comes_from(source)(windows[c])
        }),
    decreases windows.len() - i,
{
    if i < windows.len() && !comes_from(source)(windows[i]) {
        lemma_first_in(windows, source, i + 1);
    }
}

/// Using a container whose window is open closes the window, and using it again opens the same
/// window, with the contents that it had.
pub proof fn law_contents_survive_closing(
    w: World,
    id: u32,
    server_id: u16,
    source: ContainerSource,
    index: u8,
    c: int,
)
    requires
        w.wf(),
        w.players.has(id),
        w.players.at(id).window_of(source) == Some(c),
        w.players.at(id).windows[c]->0.is_open,
    ensures
        ({
            let shut = w.bag_used(id, server_id, source, index);
            let open = shut.bag_used(id, server_id, source, index);
            let items = w.players.at(id).windows[c]->0.items;
            &&& shut.players.has(id) ==> {
                &&& shut.players.at(id).windows[c] matches Some(oc) && !oc.is_open && oc.items
                    == items
                &&& open.players.has(id) ==> (open.players.at(id).windows[c] matches Some(oc)
                    && oc.is_open && oc.items == items)
            }
        }),
{
    let p = w.players.at(id);
    lemma_first_in(p.windows, source, 0);
    let q = p.with_shut(c);
    law_set(w.players, id, q);
    let a = w.set_player(id, q);
    let closing = PacketModel::CloseContainer { cid: c as u8 };
    law_push(a, id, closing);
    let shut = w.bag_used(id, server_id, source, index);
    if shut.players.has(id) {
        let s = shut.players.at(id);
        assert(s.windows == q.windows);
        lemma_first_same(p.windows, s.windows, source, 0);
        let fresh = shut.new_window(server_id, source, true);
        let oc = s.windows[c]->0;
        let r = s.with_window(
            c,
            Some(
                ContainerModel {
                    is_open: true,
                    name: fresh.name,
                    capacity: fresh.capacity,
                    client_id: fresh.client_id,
                    ..oc
                },
            ),
        );
        law_set(shut.players, id, r);
        let b = shut.set_player(id, r);
        lemma_window_told(b, id, c as u8);
    }
}

proof fn lemma_window_told(w: World, id: u32, cid: u8)
    requires
        w.players.wf(),
    ensures
        w.only_told(w.window_told(id, cid)),
{
    if w.players.has(id) {
        match w.players.at(id).windows[cid as int] {
            Some(oc) => law_push(
                w,
                id,
                PacketModel::OpenContainer {
                    cid,
                    bag: WireItem {
                        client_id: oc.client_id,
                        subtype: None,
                        animated: w.map.meta_at(oc.server_id) matches Some(m) && m.animated,
                    },
                    name: oc.name,
                    capacity: oc.capacity,
                    has_parent: oc.source is Nested,
                    items: drawn_items(oc.items),
                },
            ),
            None => {},
        }
    }
}

/// Two things that trade places in the equipment are where the other was, and all else is worn
/// as before.
pub proof fn law_swap_trades_places(w: World, id: u32, src: u8, dst: u8)
    requires
        w.wf(),
        w.players.has(id),
        1 <= src <= 10,
        1 <= dst <= 10,
        src != dst,
        w.players.at(id).inventory[src - 1] matches Some(it) && w.wearable(it.server_id, dst),
        w.players.at(id).inventory[dst - 1] matches Some(it) ==> w.wearable(it.server_id, src),
    ensures
        ({
            let later = w.swapped(id, src, dst);
            let inv = w.players.at(id).inventory;
            later.players.has(id) ==> later.players.at(id).inventory == inv.update(
                dst - 1,
                inv[src - 1],
            ).update(src - 1, inv[dst - 1])
        }),
{
    let p = w.players.at(id);
    let inv = p.inventory;
    let q = PlayerModel { inventory: inv.update(dst - 1, inv[src - 1]), ..p };
    law_set(w.players, id, q);
    let a = w.set_player(id, q);
    let r = PlayerModel { inventory: q.inventory.update(src - 1, inv[dst - 1]), ..q };
    law_set(a.players, id, r);
    let b = a.set_player(id, r);
    lemma_slot_told(b, id, src);
    let c = b.slot_told(id, src);
    lemma_slot_told(c, id, dst);
    lemma_only_told_trans(b, c, c.slot_told(id, dst));
}

proof fn lemma_slot_told(w: World, id: u32, slot: u8)
    requires
        w.players.wf(),
    ensures
        w.only_told(w.slot_told(id, slot)),
{
    if w.players.has(id) {
        law_push(
            w,
            id,
            match w.players.at(id).inventory[slot - 1] {
                Some(it) => PacketModel::InventorySet { slot, item: it.drawn() },
                None => PacketModel::InventoryEmpty { slot },
            },
        );
    }
}

proof fn lemma_met(w: World, id: u32, other: u32, pos: Position)
    requires
        w.players.wf(),
    ensures
        w.only_told(w.met(id, other, pos)),
{
    lemma_introduced(w, id, other);
    let a = if w.may_see(id, other) {
        w.introduced(id, other)
    } else {
        w
    };
    if a.can_introduce(other, id) {
        lemma_introduced(a, other, id);
        let b = a.introduced(other, id);
        let p = PacketModel::AddTileCreature {
            position: pos,
            stackpos: b.stackpos_on(pos, id),
            creature: a.shown(other, id),
        };
        law_push(b, other, p);
        law_push(b.push(other, p), other, puff(pos));
        lemma_only_told_trans(w, a, b);
        lemma_only_told_trans(w, b, b.push(other, p));
        lemma_only_told_trans(w, b.push(other, p), w.met(id, other, pos));
    }
}

proof fn lemma_all_met(w: World, id: u32, others: Seq<u32>, pos: Position)
    requires
        w.players.wf(),
    ensures
        w.only_told(w.all_met(id, others, pos)),
    decreases others.len(),
{
    if others.len() > 0 {
        lemma_all_met(w, id, others.drop_last(), pos);
        let a = w.all_met(id, others.drop_last(), pos);
        lemma_met(a, id, others.last(), pos);
        lemma_only_told_trans(w, a, w.all_met(id, others, pos));
    }
}

proof fn lemma_all_seen(w: World, id: u32, others: Seq<u32>)
    requires
        w.players.wf(),
    ensures
        w.only_told(w.all_seen(id, others)),
    decreases others.len(),
{
    if others.len() > 0 {
        lemma_all_seen(w, id, others.drop_last());
        let a = w.all_seen(id, others.drop_last());
        lemma_introduced(a, id, others.last());
        lemma_only_told_trans(w, a, w.all_seen(id, others));
    }
}

/// A login adds one player, under a new id and as it was saved, and changes nothing of the
/// others but messages and what their clients know.
pub proof fn law_login_adds_one(w: World, name: Seq<char>, initial: InitialState, session: SessionModel)
    requires
        w.wf(),
        w.next_id < u32::MAX,
    ensures
        w.entered(name, initial, session).only_told(w.logged_in(name, initial, session)),
        !w.players.has(w.next_id),
        w.logged_in(name, initial, session).next_id == w.next_id + 1,
        ({
            let later = w.logged_in(name, initial, session);
            let p = later.players.at(w.next_id);
            later.players.has(w.next_id) ==> p == (PlayerModel {
                session: p.session,
                known: p.known,
                ..newcomer(w.map, name, w.arrival(initial), initial, session)
            })
        }),
{
    reveal(World::logged_in);
    let p = newcomer(w.map, name, w.arrival(initial), initial, session);
    law_add_last(w.players, w.next_id, p);
    let a = w.entered(name, initial, session);
    lemma_all_met(a, w.next_id, w.greeters(initial), w.arrival(initial));
    let b = w.welcomed(name, initial, session);
    let mids = b.monsters_visible_from(w.arrival(initial));
    lemma_all_seen(b, w.next_id, mids);
    lemma_only_told_trans(a, b, w.logged_in(name, initial, session));
}

proof fn lemma_met_sights(w: World, id: u32, others: Seq<u32>, pos: Position, ghost_id: u32)
    requires
        w.players.wf(),
        w.is_ghost(ghost_id),
        !w.monsters.has(ghost_id),
        w.players.has(id) ==> !w.players.at(id).gamemaster,
    ensures
        forall|i: int|
            #![trigger w.met_sights(id, others, pos)[i]]
            0 <= i < w.met_sights(id, others, pos).len() ==> w.met_sights(
                id,
                others,
                pos,
            )[i].creature.id != ghost_id,
    decreases others.len(),
{
    if others.len() > 0 {
        let less = others.drop_last();
        lemma_met_sights(w, id, less, pos, ghost_id);
        lemma_all_met(w, id, less, pos);
        let u = w.all_met(id, less, pos);
        let before = w.met_sights(id, less, pos);
        let after = w.met_sights(id, others, pos);
        assert(u.players.has(ghost_id) ==> u.is_ghost(ghost_id));
        assert(u.players.has(id) ==> !u.players.at(id).gamemaster);
        assert forall|i: int| #![trigger after[i]] 0 <= i < after.len() implies after[i].creature.id
            != ghost_id by {
            if i < before.len() {
                assert(after[i] == before[i]);
            }
        }
    }
}

proof fn lemma_sights(w: World, id: u32, others: Seq<u32>, absent: u32)
    requires
        !others.contains(absent),
    ensures
        forall|i: int|
            #![trigger w.sights(id, others)[i]]
            0 <= i < w.sights(id, others).len() ==> w.sights(id, others)[i].creature.id != absent,
    decreases others.len(),
{
    if others.len() > 0 {
        let less = others.drop_last();
        assert forall|i: int| 0 <= i < less.len() implies less[i] != absent by {
            assert(others[i] == less[i]);
        }
        assert(others[others.len() - 1] != absent);
        lemma_sights(w, id, less, absent);
        let before = w.sights(id, less);
        let after = w.sights(id, others);
        assert forall|i: int| #![trigger after[i]] 0 <= i < after.len() implies after[i].creature.id
            != absent by {
            if i < before.len() {
                assert(after[i] == before[i]);
            }
        }
    }
}

/// A player who enters the game and is no gamemaster is not shown a ghost, whose id no monster
/// has.
pub proof fn law_login_hides_ghosts(
    w: World,
    name: Seq<char>,
    initial: InitialState,
    session: SessionModel,
    ghost_id: u32,
)
    requires
        w.wf(),
        w.next_id < u32::MAX,
        !initial.gamemaster,
        w.is_ghost(ghost_id),
        !w.monsters.has(ghost_id),
    ensures
        forall|i: int|
            #![trigger w.login_sights(name, initial, session)[i]]
            0 <= i < w.login_sights(name, initial, session).len() ==> w.login_sights(
                name,
                initial,
                session,
            )[i].creature.id != ghost_id,
{
    reveal(World::login_sights);
    let id = w.next_id;
    let pos = w.arrival(initial);
    law_add_last(w.players, id, newcomer(w.map, name, pos, initial, session));
    let a = w.entered(name, initial, session);
    let others = w.greeters(initial);
    lemma_met_sights(a, id, others, pos, ghost_id);
    lemma_all_met(a, id, others, pos);
    let b = w.welcomed(name, initial, session);
    let mids = b.monsters_visible_from(pos);
    assert forall|k: int| 0 <= k < mids.len() implies mids[k] != ghost_id by {
        lemma_filter_from(b.monsters.order, b.monster_seen(pos), mids[k]);
    }
    lemma_sights(b, id, mids, ghost_id);
    let first = a.met_sights(id, others, pos);
    let second = b.sights(id, mids);
    assert forall|i: int|
        #![trigger w.login_sights(name, initial, session)[i]]
        0 <= i < w.login_sights(name, initial, session).len() implies w.login_sights(
        name,
        initial,
        session,
    )[i].creature.id != ghost_id by {
        if i < first.len() {
            assert(w.login_sights(name, initial, session)[i] == first[i]);
        } else {
            assert(w.login_sights(name, initial, session)[i] == second[i - first.len()]);
        }
    }
}

proof fn lemma_step_seen(w: World, s: u32, id: u32, from: Position, to: Position)
    requires
        w.players.wf(),
    ensures
        w.only_told(w.step_seen(s, id, from, to)),
{
    if w.players.has(s) {
        let at = w.players.at(s).position;
        if super::model::sees(at, from) && super::model::sees(at, to) {
            law_push(w, s, PacketModel::CreatureMove { id, to });
        } else if super::model::sees(at, to) {
            law_shown_to(w, seq![s], id, to);
        } else {
            law_gone_told(w, seq![s], id);
        }
    }
}

proof fn lemma_step_told(w: World, ids: Seq<u32>, id: u32, from: Position, to: Position)
    requires
        w.players.wf(),
    ensures
        w.only_told(w.step_told(ids, id, from, to)),
    decreases ids.len(),
{
    if ids.len() > 0 {
        lemma_step_seen(w, ids[0], id, from, to);
        let a = w.step_seen(ids[0], id, from, to);
        lemma_step_told(a, ids.drop_first(), id, from, to);
        lemma_only_told_trans(w, a, w.step_told(ids, id, from, to));
    }
}

proof fn lemma_all_forgotten(w: World, id: u32, gone: Seq<u32>)
    requires
        w.players.wf(),
    ensures
        w.only_told(w.all_forgotten(id, gone)),
    decreases gone.len(),
{
    if gone.len() > 0 {
        lemma_forget(w, id, gone[0]);
        let a = w.forget(id, gone[0]);
        lemma_all_forgotten(a, id, gone.drop_first());
        lemma_only_told_trans(w, a, w.all_forgotten(id, gone));
    }
}

impl World {
    /// `later` differs from this no more than in who is told what, and in which windows of
    /// player `id` are open.
    pub open spec fn only_shut(self, later: World, id: u32) -> bool {
        &&& later == World {
            players: later.players,
            saves: later.saves,
            left: later.left,
            ..self
        }
        &&& later.players.wf()
        &&& self.keeps_players(later)
        &&& forall|k: u32|
            #![trigger later.players.has(k)]
            #![trigger later.players.at(k)]
            later.players.has(k) ==> {
                &&& self.players.has(k)
                &&& later.players.at(k) == (PlayerModel {
                    session: later.players.at(k).session,
                    known: later.players.at(k).known,
                    windows: later.players.at(k).windows,
                    ..self.players.at(k)
                })
                &&& k != id ==> later.players.at(k).windows == self.players.at(k).windows
                &&& same_contents(self.players.at(k).windows, later.players.at(k).windows)
                &&& extends(
                    later.players.at(k).session.queue,
                    self.players.at(k).session.queue,
                )
            }
    }
}

/// Two rows of windows differ no more than in which of them are open.
pub open spec fn same_contents(
    a: Seq<Option<ContainerModel>>,
    b: Seq<Option<ContainerModel>>,
) -> bool {
    &&& a.len() == b.len()
    &&& forall|c: int|
        #![trigger a[c]]
        #![trigger b[c]]
        0 <= c < a.len() ==> match (a[c], b[c]) {
            (Some(x), Some(y)) => y == (ContainerModel { is_open: y.is_open, ..x }),
            (None, None) => true,
            _ => false,
        }
}

proof fn lemma_same_contents_trans(
    a: Seq<Option<ContainerModel>>,
    b: Seq<Option<ContainerModel>>,
    c: Seq<Option<ContainerModel>>,
)
    requires
        same_contents(a, b),
        same_contents(b, c),
    ensures
        same_contents(a, c),
{
    assert forall|i: int| #![trigger a[i]] #![trigger c[i]] 0 <= i < a.len() implies match (
        a[i],
        c[i],
    ) {
        (Some(x), Some(y)) => y == (ContainerModel { is_open: y.is_open, ..x }),
        (None, None) => true,
        _ => false,
    } by {
        let _ = b[i];
    }
}

proof fn lemma_only_shut_trans(a: World, b: World, c: World, id: u32)
    requires
        a.only_shut(b, id),
        b.only_shut(c, id),
    ensures
        a.only_shut(c, id),
{
    lemma_keeps_players_trans(a, b, c);
    assert forall|k: u32| #![trigger c.players.has(k)] c.players.has(k) implies {
        &&& a.players.has(k)
        &&& c.players.at(k) == (PlayerModel {
            session: c.players.at(k).session,
            known: c.players.at(k).known,
            windows: c.players.at(k).windows,
            ..a.players.at(k)
        })
        &&& k != id ==> c.players.at(k).windows == a.players.at(k).windows
        &&& same_contents(a.players.at(k).windows, c.players.at(k).windows)
        &&& extends(c.players.at(k).session.queue, a.players.at(k).session.queue)
    } by {
        assert(b.players.has(k));
        let x = b.players.at(k).session.queue;
        let y = c.players.at(k).session.queue;
        assert forall|i: int| #![trigger y[i]] 0 <= i < a.players.at(
            k,
        ).session.queue.len() implies y[i] == a.players.at(k).session.queue[i] by {
            assert(y[i] == x[i]);
        }
        lemma_same_contents_trans(
            a.players.at(k).windows,
            b.players.at(k).windows,
            c.players.at(k).windows,
        );
    }
}

proof fn lemma_told_only_shut(a: World, b: World, id: u32)
    requires
        a.only_told(b),
    ensures
        a.only_shut(b, id),
{
}

proof fn lemma_tree_only_shut(w: World, id: u32, cid: u8, depth: nat)
    requires
        w.players.wf(),
        w.players.has(id) ==> w.players.at(id).windows.len() == 16,
        cid < 16,
    ensures
        w.only_shut(w.tree_shut(id, cid, depth), id),
    decreases depth, 0nat,
{
    if w.players.has(id) && depth > 0 {
        let kids = w.players.at(id).children(cid, 16);
        lemma_children_inside(w.players.at(id), cid, 16);
        lemma_trees_only_shut(w, id, kids, (depth - 1) as nat);
        let a = w.trees_shut(id, kids, (depth - 1) as nat);
        let b = a.window_shut(id, cid);
        if a.players.has(id) {
            law_set(a.players, id, a.players.at(id).with_shut(cid as int));
        }
        assert(a.only_shut(b, id));
        law_push(b, id, PacketModel::CloseContainer { cid });
        lemma_told_only_shut(b, b.push(id, PacketModel::CloseContainer { cid }), id);
        lemma_only_shut_trans(w, a, b, id);
        lemma_only_shut_trans(w, b, b.push(id, PacketModel::CloseContainer { cid }), id);
    }
}

proof fn lemma_trees_only_shut(w: World, id: u32, cids: Seq<u8>, depth: nat)
    requires
        w.players.wf(),
        w.players.has(id) ==> w.players.at(id).windows.len() == 16,
        forall|i: int| 0 <= i < cids.len() ==> #[trigger] cids[i] < 16,
    ensures
        w.only_shut(w.trees_shut(id, cids, depth), id),
    decreases depth, 1 + cids.len(),
{
    if cids.len() > 0 {
        lemma_tree_only_shut(w, id, cids[0], depth);
        let a = w.tree_shut(id, cids[0], depth);
        lemma_trees_only_shut(a, id, cids.drop_first(), depth);
        lemma_only_shut_trans(w, a, w.trees_shut(id, cids, depth), id);
    }
}

proof fn lemma_view_moved(w: World, id: u32, from: Position, to: Position)
    requires
        w.players.wf(),
    ensures
        w.only_told(w.view_moved(id, from, to)),
{
    let lost = w.lost_from_view(id, from, to);
    lemma_all_forgotten(w, id, lost);
    let c = w.all_forgotten(id, lost);
    let others = c.visible_from(to, id);
    lemma_all_seen(c, id, others);
    let e = c.all_seen(id, others);
    let p = PacketModel::WalkUpdate { id, from, to, others: c.sights(id, others) };
    law_push(e, id, p);
    lemma_only_told_trans(w, c, e);
    lemma_only_told_trans(w, e, e.push(id, p));
}

proof fn lemma_reach_only_shut(w: World, id: u32)
    requires
        w.players.wf(),
        w.players.has(id) ==> w.players.at(id).windows.len() == 16,
    ensures
        w.only_shut(w.reach_checked(id), id),
{
    if w.players.has(id) {
        lemma_out_of_reach_all(w.players.at(id), 16);
        lemma_trees_only_shut(w, id, w.players.at(id).out_of_reach(16), 16);
    }
}

/// A step that is possible moves one player, who then faces that way. Nothing else changes but
/// messages, what clients know, and which windows of that player are open: their contents stay.
pub proof fn law_step_moves_one(w: World, id: u32, d: Direction)
    requires
        w.wf(),
        w.players.has(id),
        w.step_to(id, d) is Some,
    ensures
        w.set_player(
            id,
            PlayerModel { direction: d, position: w.step_to(id, d)->0, ..w.players.at(id) },
        ).only_shut(w.stepped(id, d), id),
{
    reveal(World::stepped);
    let from = w.players.at(id).position;
    let to = w.step_to(id, d)->0;
    let q = PlayerModel { direction: d, position: to, ..w.players.at(id) };
    law_set(w.players, id, q);
    let a = w.set_player(id, q);
    let ids = a.step_watchers(id, from, to);
    lemma_step_told(a, ids, id, from, to);
    let b = a.step_told(ids, id, from, to);
    lemma_view_moved(b, id, from, to);
    let f = b.view_moved(id, from, to);
    lemma_only_told_trans(a, b, f);
    lemma_told_only_shut(a, f, id);
    lemma_reach_only_shut(f, id);
    lemma_only_shut_trans(a, f, f.reach_checked(id), id);
}

/// A teleport puts one player elsewhere. Nothing else changes but messages, what clients know,
/// and which windows of that player are open: their contents stay.
pub proof fn law_teleport_moves_one(w: World, id: u32, to: Position)
    requires
        w.wf(),
        w.players.has(id),
    ensures
        w.set_player(id, PlayerModel { position: to, ..w.players.at(id) }).only_shut(
            w.teleported(id, to),
            id,
        ),
{
    reveal(World::teleported);
    let from = w.players.at(id).position;
    let q = PlayerModel { position: to, ..w.players.at(id) };
    law_set(w.players, id, q);
    let a = w.set_player(id, q);
    if from == to {
        assert(a =~= w);
    } else {
        law_gone_told(a, a.spectators(from, id), id);
        let b = a.gone_told(a.spectators(from, id), id);
        law_shown_to(b, b.spectators(to, id), id, to);
        let c = b.shown_to(b.spectators(to, id), id, to);
        lemma_view_moved(c, id, from, to);
        let f = c.view_moved(id, from, to);
        lemma_only_told_trans(a, b, c);
        lemma_only_told_trans(a, c, f);
        lemma_told_only_shut(a, f, id);
        lemma_reach_only_shut(f, id);
        lemma_only_shut_trans(a, f, f.reach_checked(id), id);
    }
}

impl PlayerModel {
    /// Window `c` shows a container that is worn, or one on a tile within reach.
    pub open spec fn at_hand(self, c: int) -> bool {
        self.windows[c] matches Some(oc) && match oc.source {
            ContainerSource::Slot(_) => true,
            ContainerSource::Ground(p) => close(p, self.position),
            ContainerSource::Nested { .. } => false,
        }
    }

    pub open spec fn is_showing(self, c: int) -> bool {
        self.windows[c] matches Some(oc) && oc.is_open
    }
}

/// From `a` to `b` no window of player `id` opens, and those at hand stay as they are.
spec fn keeps_at_hand(a: World, b: World, id: u32) -> bool {
    &&& a.only_shut(b, id)
    &&& b.players.has(id) ==> forall|c: int|
        #![trigger b.players.at(id).windows[c]]
        0 <= c < 16 ==> {
            &&& b.players.at(id).is_showing(c) ==> a.players.at(id).is_showing(c)
            &&& a.players.at(id).at_hand(c) ==> b.players.at(id).windows[c]
                == a.players.at(id).windows[c]
        }
}

proof fn lemma_at_hand_stays(a: World, b: World, id: u32, c: int)
    requires
        a.only_shut(b, id),
        b.players.has(id),
        a.players.at(id).windows.len() == 16,
        0 <= c < 16,
    ensures
        b.players.at(id).at_hand(c) == a.players.at(id).at_hand(c),
{
    assert(same_contents(a.players.at(id).windows, b.players.at(id).windows));
    let _ = a.players.at(id).windows[c];
}

proof fn lemma_keeps_trans(a: World, b: World, c: World, id: u32)
    requires
        a.players.has(id) ==> a.players.at(id).windows.len() == 16,
        keeps_at_hand(a, b, id),
        keeps_at_hand(b, c, id),
    ensures
        keeps_at_hand(a, c, id),
{
    lemma_only_shut_trans(a, b, c, id);
    if c.players.has(id) {
        assert(b.players.has(id));
        assert forall|i: int| #![trigger c.players.at(id).windows[i]] 0 <= i < 16 implies {
            &&& c.players.at(id).is_showing(i) ==> a.players.at(id).is_showing(i)
            &&& a.players.at(id).at_hand(i) ==> c.players.at(id).windows[i]
                == a.players.at(id).windows[i]
        } by {
            let _ = b.players.at(id).windows[i];
            lemma_at_hand_stays(a, b, id, i);
        }
    }
}

proof fn lemma_children_inside(p: PlayerModel, cid: u8, n: int)
    requires
        0 <= n <= 16,
    ensures
        forall|i: int|
            0 <= i < p.children(cid, n).len() ==> (#[trigger] p.children(cid, n)[i]) < n && !p.at_hand(
                p.children(cid, n)[i] as int,
            ),
    decreases n,
{
    if n > 0 {
        lemma_children_inside(p, cid, n - 1);
        let rest = p.children(cid, n - 1);
        assert forall|i: int| 0 <= i < p.children(cid, n).len() implies (#[trigger] p.children(
            cid,
            n,
        )[i]) < n && !p.at_hand(p.children(cid, n)[i] as int) by {
            if i < rest.len() {
                assert(rest[i] < n - 1);
            }
        }
    }
}

proof fn lemma_tree_kept(w: World, id: u32, cid: u8, depth: nat)
    requires
        w.players.wf(),
        w.players.has(id) ==> w.players.at(id).windows.len() == 16 && !w.players.at(id).at_hand(
            cid as int,
        ),
        cid < 16,
    ensures
        keeps_at_hand(w, w.tree_shut(id, cid, depth), id),
        depth > 0 && w.tree_shut(id, cid, depth).players.has(id) ==> !w.tree_shut(
            id,
            cid,
            depth,
        ).players.at(id).is_showing(cid as int),
    decreases depth, 0nat,
{
    lemma_tree_only_shut(w, id, cid, depth);
    if w.players.has(id) && depth > 0 {
        let kids = w.players.at(id).children(cid, 16);
        lemma_children_inside(w.players.at(id), cid, 16);
        lemma_trees_kept(w, id, kids, (depth - 1) as nat);
        let a = w.trees_shut(id, kids, (depth - 1) as nat);
        let b = a.window_shut(id, cid);
        let e = b.push(id, PacketModel::CloseContainer { cid });
        if a.players.has(id) {
            lemma_at_hand_stays(w, a, id, cid as int);
            law_set(a.players, id, a.players.at(id).with_shut(cid as int));
        }
        assert(a.only_shut(b, id));
        assert(keeps_at_hand(a, b, id));
        law_push(b, id, PacketModel::CloseContainer { cid });
        lemma_told_only_shut(b, e, id);
        assert(keeps_at_hand(b, e, id));
        lemma_keeps_trans(w, a, b, id);
        lemma_keeps_trans(w, b, e, id);
    }
}

proof fn lemma_trees_kept(w: World, id: u32, cids: Seq<u8>, depth: nat)
    requires
        w.players.wf(),
        w.players.has(id) ==> w.players.at(id).windows.len() == 16,
        forall|i: int|
            0 <= i < cids.len() ==> (#[trigger] cids[i]) < 16 && (w.players.has(id)
                ==> !w.players.at(id).at_hand(cids[i] as int)),
    ensures
        keeps_at_hand(w, w.trees_shut(id, cids, depth), id),
        depth > 0 && w.trees_shut(id, cids, depth).players.has(id) ==> forall|i: int|
            0 <= i < cids.len() ==> !w.trees_shut(id, cids, depth).players.at(id).is_showing(
                #[trigger] cids[i] as int,
            ),
    decreases depth, 1 + cids.len(),
{
    if cids.len() > 0 {
        lemma_tree_kept(w, id, cids[0], depth);
        let a = w.tree_shut(id, cids[0], depth);
        let rest = cids.drop_first();
        assert forall|i: int| 0 <= i < rest.len() implies (#[trigger] rest[i]) < 16 && (
        a.players.has(id) ==> !a.players.at(id).at_hand(rest[i] as int)) by {
            assert(rest[i] == cids[i + 1]);
            if a.players.has(id) {
                lemma_at_hand_stays(w, a, id, rest[i] as int);
            }
        }
        lemma_trees_kept(a, id, rest, depth);
        let b = w.trees_shut(id, cids, depth);
        lemma_keeps_trans(w, a, b, id);
        if depth > 0 && b.players.has(id) {
            assert forall|i: int| 0 <= i < cids.len() implies !b.players.at(id).is_showing(
                #[trigger] cids[i] as int,
            ) by {
                if i > 0 {
                    assert(rest[i - 1] == cids[i]);
                } else {
                    let _ = b.players.at(id).windows[cids[0] as int];
                }
            }
        }
    }
}

proof fn lemma_out_of_reach_all(p: PlayerModel, n: int)
    requires
        0 <= n <= 16,
    ensures
        forall|i: int|
            0 <= i < p.out_of_reach(n).len() ==> (#[trigger] p.out_of_reach(n)[i]) < 16
                && !p.at_hand(p.out_of_reach(n)[i] as int),
        forall|c: int|
            0 <= c < n && #[trigger] p.is_showing(c) && p.windows[c]->0.source is Ground
                && !p.at_hand(c) ==> p.out_of_reach(n).contains(c as u8),
    decreases n,
{
    if n > 0 {
        lemma_out_of_reach_all(p, n - 1);
        let rest = p.out_of_reach(n - 1);
        let all = p.out_of_reach(n);
        assert forall|i: int| 0 <= i < all.len() implies (#[trigger] all[i]) < 16 && !p.at_hand(
            all[i] as int,
        ) by {
            if i < rest.len() {
                assert(rest[i] < 16);
            }
        }
        assert forall|c: int|
            0 <= c < n && #[trigger] p.is_showing(c) && p.windows[c]->0.source is Ground
                && !p.at_hand(c) implies all.contains(c as u8) by {
            if c < n - 1 {
                let i = rest.index_of(c as u8);
                assert(all[i] == c as u8);
            } else {
                assert(all[all.len() - 1] == c as u8);
            }
        }
    }
}

/// Where a player walks, no window stays open that shows a container on a tile out of reach, and
/// those that show worn containers, or such as are within reach, stay as they are.
pub proof fn law_walking_closes_windows(w: World, id: u32, c: int)
    requires
        w.wf(),
        w.players.has(id),
        w.reach_checked(id).players.has(id),
        0 <= c < 16,
    ensures
        ({
            let q = w.reach_checked(id).players.at(id);
            &&& q.is_showing(c) && q.windows[c]->0.source is Ground ==> q.at_hand(c)
            &&& w.players.at(id).at_hand(c) ==> q.windows[c] == w.players.at(id).windows[c]
        }),
{
    let p = w.players.at(id);
    let cids = p.out_of_reach(16);
    lemma_out_of_reach_all(p, 16);
    lemma_trees_kept(w, id, cids, 16);
    let later = w.reach_checked(id);
    let q = later.players.at(id);
    lemma_at_hand_stays(w, later, id, c);
    assert(same_contents(p.windows, q.windows));
    let _ = q.windows[c];
    if q.is_showing(c) && q.windows[c]->0.source is Ground && !q.at_hand(c) {
        assert(p.is_showing(c));
        let i = cids.index_of(c as u8);
        assert(!q.is_showing(cids[i] as int));
    }
}

/// Talk stays on its floor, and whoever hears a word said hears it yelled too.
pub proof fn law_talk_carries(w: World, pos: Position, speaker: u32, k: u32)
    requires
        w.wf(),
        w.in_range(pos, speaker, 8, 6).contains(k),
    ensures
        w.players.has(k),
        w.players.at(k).position.z == pos.z,
        k != speaker,
        w.in_range(pos, speaker, 18, 14).contains(k),
{
    let f = w.near(pos, speaker, 8, 6);
    let g = w.near(pos, speaker, 18, 14);
    let order = w.players.order;
    lemma_filter_from(order, f, k);
    assert(order.contains(k));
    order.lemma_filter_contains(g, order.index_of(k));
}

/// No message holds more than 255 bytes.
pub proof fn law_messages_are_short(bytes: Seq<u8>)
    ensures
        capped(bytes).len() <= 255,
        bytes.len() <= 255 ==> capped(bytes) == bytes,
        capped(capped(bytes)) == capped(bytes),
{
}

// -------------------------------------------------------------------------------------
// Fights
// -------------------------------------------------------------------------------------

/// A hit never heals, and takes all health exactly if it is worth as much.
pub proof fn law_hits_hurt(health: u32, dmg: i32)
    ensures
        health_after(health, dmg) <= health,
        health_after(health, dmg) == 0 <==> (health == 0 || dmg >= health),
        dmg > 0 && dmg < health ==> health - health_after(health, dmg) == dmg,
{
}

/// A player hits no one out of a protection zone, and no player in one: the fight only ends.
pub proof fn law_zones_protect(w: World, a: u32, t: u32, now: u64, o: Outcome)
    requires
        w.players.has(a),
        w.creature_position(t) is Some,
        w.protected(w.players.at(a).position, t),
    ensures
        w.player_swing(a, t, now, o) == w.set_player(
            a,
            PlayerModel { attacking: None, ..w.players.at(a) },
        ),
{
}

/// A monster hits no one out of a protection zone, and no player in one: the fight only ends.
pub proof fn law_zones_stop_monsters(w: World, a: u32, t: u32, now: u64, o: Outcome)
    requires
        w.monsters.has(a),
        w.creature_position(t) is Some,
        w.protected(w.monsters.at(a).position, t),
    ensures
        w.monster_swing(a, t, now, o) == w.set_monster(
            a,
            MonsterModel { attacking: None, ..w.monsters.at(a) },
        ),
{
}

/// A monster that swung waits for two seconds before the next swing.
pub proof fn law_monsters_wait(w: World, a: u32, t: u32, now: u64, o: Outcome)
    requires
        w.monsters.has(a),
        w.creature_position(t) is Some,
        !w.protected(w.monsters.at(a).position, t),
        now - w.monsters.at(a).last_attack_ms < 2000,
    ensures
        w.monster_swing(a, t, now, o) == w,
{
}

/// A player who swung waits for two seconds before the next swing.
pub proof fn law_swings_wait(w: World, a: u32, t: u32, now: u64, o: Outcome)
    requires
        w.players.has(a),
        w.creature_position(t) is Some,
        !w.protected(w.players.at(a).position, t),
        now - w.players.at(a).last_attack_ms < 2000,
    ensures
        w.player_swing(a, t, now, o) == w,
{
}

/// A target that is out of reach when a swing is due is not hit: the fight only ends.
pub proof fn law_reach_ends_fights(w: World, a: u32, t: u32, now: u64, o: Outcome)
    requires
        w.players.has(a),
        w.creature_position(t) is Some,
        !close(w.players.at(a).position, w.creature_position(t)->0),
        now - w.players.at(a).last_attack_ms >= 2000,
    ensures
        w.player_swing(a, t, now, o) == w.set_player(
            a,
            PlayerModel { attacking: None, ..w.players.at(a) },
        ),
{
}

/// A dead player is gone from the game, and no one fights it any more.
pub proof fn law_death_removes(w: World, victim: u32)
    requires
        w.players.wf(),
    ensures
        !w.died(victim).players.has(victim),
        forall|id: u32|
            #![trigger w.died(victim).players.at(id)]
            w.died(victim).players.has(id) ==> w.died(victim).players.at(id).attacking != Some(
                victim,
            ),
        forall|id: u32|
            #![trigger w.died(victim).monsters.at(id)]
            w.died(victim).monsters.has(id) ==> w.died(victim).monsters.at(id).attacking != Some(
                victim,
            ),
{
    lemma_offer(w, victim, PacketModel::DeathWindow);
    let a = w.offer(victim, PacketModel::DeathWindow);
    let b = a.unfought(victim, true);
    assert(b.players.wf());
    if b.players.has(victim) {
        let p = b.players.at(victim);
        let c = b.pool_left(victim);
        lemma_pool_left(b, victim);
        let ids = c.spectators(p.position, victim);
        law_gone_told(c, ids, victim);
        let e = c.gone_told(ids, victim);
        law_without(e.players, victim);
        let f = w.died(victim);
        assert forall|id: u32| #![trigger f.players.at(id)] f.players.has(id) implies f.players.at(
            id,
        ).attacking != Some(victim) by {
            assert(e.players.has(id));
            assert(c.players.has(id));
            assert(b.players.has(id));
        }
        assert(f.monsters == b.monsters);
    }
}

proof fn lemma_offer_all(w: World, ids: Seq<u32>, p: PacketModel)
    requires
        w.players.wf(),
    ensures
        w.only_told(w.offer_all(ids, p)),
    decreases ids.len(),
{
    if ids.len() > 0 {
        lemma_offer(w, ids[0], p);
        lemma_offer_all(w.offer(ids[0], p), ids.drop_first(), p);
        lemma_only_told_trans(w, w.offer(ids[0], p), w.offer_all(ids, p));
    }
}

proof fn lemma_pool_left(w: World, victim: u32)
    requires
        w.players.wf(),
    ensures
        w.pool_left(victim).players.wf(),
        w.only_told(World { overlay: w.overlay, ..w.pool_left(victim) }),
{
    let p = w.players.at(victim);
    match (p.race.fluid(), w.stack(p.position)) {
        (Some(fluid), Some(_)) => lemma_offer_all(
            w,
            w.spectators(p.position, victim),
            PacketModel::AddTileItem {
                position: p.position,
                stackpos: w.front_slot(p.position),
                item: splash(ITEM_FULLSPLASH, fluid).item,
            },
        ),
        _ => {},
    }
}

/// The record of a dead player puts it into the temple, in full health, with all it carried.
pub proof fn law_death_leads_to_temple(w: World, id: u32)
    requires
        w.players.has(id),
        w.saves is Some,
    ensures
        w.buried(id).saves is Some,
        w.buried(id).saves->0.len() == w.saves->0.len() + 1,
        w.buried(id).saves->0.last().position == w.map.spawn_point(),
        w.buried(id).saves->0.last().health == w.players.at(id).max_health,
        w.buried(id).saves->0.last().inventory == inventory_rows(w.players.at(id).inventory),
        w.buried(id).saves->0.last().container_items == container_rows(w.players.at(id).windows),
{
}

proof fn lemma_loot_dropped(w: World, pos: Position, d: MonsterDrop, dropped: bool)
    requires
        w.players.wf(),
    ensures
        w.loot_dropped(pos, d, dropped).players.wf(),
        w.loot_dropped(pos, d, dropped).spawns == w.spawns,
        w.loot_dropped(pos, d, dropped).monsters == w.monsters,
{
    match (w.stack(pos), w.map.meta_at(d.item_id)) {
        (Some(st), Some(m)) if dropped && st.things.len() < 10 => {
            let count = if m.stackable {
                Some(d.count)
            } else {
                None
            };
            let item = WireItem { client_id: m.client_id, subtype: count, animated: m.animated };
            let u = w.topped_with(pos, StackThing { item, server_id: d.item_id, count });
            lemma_told_item(u, pos, u.front_slot(pos), item, false);
        },
        _ => {},
    }
}

proof fn lemma_looted(w: World, pos: Position, loot: Seq<MonsterDrop>, drops: Seq<bool>)
    requires
        w.players.wf(),
    ensures
        w.looted(pos, loot, drops).players.wf(),
        w.looted(pos, loot, drops).spawns == w.spawns,
        w.looted(pos, loot, drops).monsters == w.monsters,
    decreases loot.len(),
{
    if loot.len() > 0 {
        let n = loot.len() - 1;
        lemma_looted(w, pos, loot.drop_last(), drops);
        lemma_loot_dropped(
            w.looted(pos, loot.drop_last(), drops),
            pos,
            loot[n],
            n < drops.len() && drops[n],
        );
    }
}

proof fn lemma_splashed(w: World, pos: Position, item_id: u16, fluid: u8)
    requires
        w.players.wf(),
    ensures
        w.splashed(pos, item_id, fluid).players.wf(),
        w.splashed(pos, item_id, fluid).spawns == w.spawns,
        w.splashed(pos, item_id, fluid).monsters == w.monsters,
{
    match w.stack(pos) {
        Some(st) if st.things.len() < 10 => {
            let u = w.topped_with(pos, splash(item_id, fluid));
            lemma_told_item(u, pos, u.front_slot(pos), splash(item_id, fluid).item, false);
        },
        _ => {},
    }
}

/// A monster that dies is gone, and the spawn it came from is due its interval later; one without
/// an interval stays as it is.
pub proof fn law_dead_monsters_are_replaced(w: World, victim: u32, now: u64, drops: Seq<bool>)
    requires
        w.wf(),
        w.monsters.has(victim),
    ensures
        !w.monster_died(victim, now, drops).monsters.has(victim),
        w.monsters.at(victim).spawn_id matches Some(sid) ==> (w.spawns.has(sid)
            ==> w.monster_died(victim, now, drops).spawns.at(sid) == (SpawnModel {
            respawn_at_ms: if w.spawns.at(sid).respawn_interval_ms > 0 {
                Some((now + w.spawns.at(sid).respawn_interval_ms) as u64)
            } else {
                w.spawns.at(sid).respawn_at_ms
            },
            ..w.spawns.at(sid)
        })),
{
    let m = w.monsters.at(victim);
    let wet = match w.monster_fluid(victim) {
        Some(fluid) => w.splashed(m.position, ITEM_FULLSPLASH, fluid),
        None => w,
    };
    match w.monster_fluid(victim) {
        Some(fluid) => lemma_splashed(w, m.position, ITEM_FULLSPLASH, fluid),
        None => {},
    }
    let calm = wet.unfought(victim, false);
    assert(calm.players.wf());
    assert(calm.monsters.wf());
    let ids = calm.spectators(m.position, u32::MAX);
    law_gone_told(calm, ids, victim);
    let told = calm.gone_told(ids, victim);
    law_without(told.monsters, victim);
    let gone = World { monsters: told.monsters.without(victim), ..told };
    let due = match m.spawn_id {
        Some(sid) => gone.respawn_due(sid, now),
        None => gone,
    };
    lemma_looted(due, m.position, m.loot, drops);
}

/// A spawn that gives a monster waits for no other, and the monster stands where the spawn is.
pub proof fn law_respawn_gives_one(w: World, sid: u32)
    requires
        w.wf(),
        w.spawns.has(sid),
        w.next_monster_id < u32::MAX,
    ensures
        ({
            let s = w.spawns.at(sid);
            let later = w.respawned(sid);
            &&& later.spawns.at(sid) == (SpawnModel { respawn_at_ms: None, ..s })
            &&& later.monsters == w.monsters.add_last(
                w.next_monster_id,
                s.kind.newborn(s.position, Some(sid)),
            )
            &&& later.monsters.at(w.next_monster_id).position == s.position
            &&& later.next_monster_id == w.next_monster_id + 1
        }),
{
    let s = w.spawns.at(sid);
    let m = s.kind.newborn(s.position, Some(sid));
    law_add_last(w.monsters, w.next_monster_id, m);
    let a = World {
        spawns: w.spawns.set(sid, SpawnModel { respawn_at_ms: None, ..s }),
        ..w
    }.monster_added(m);
    law_shown_to(a, a.spectators(s.position, u32::MAX), w.next_monster_id, s.position);
}

/// A monster that a gamemaster calls appears next to them, where it can walk and no one stood.
pub proof fn law_called_monsters_appear_beside(w: World, at: Position, k: int)
    requires
        0 <= k,
    ensures
        w.deserted_beside(at, k) matches Some(p) ==> {
            &&& p != at
            &&& close(at, p)
            &&& w.map.walkable(p)
            &&& w.creatures_on(p).len() == 0
        },
    decreases 9 - k,
{
    if k < 9 {
        law_called_monsters_appear_beside(w, at, k + 1);
    }
}

} // verus!
