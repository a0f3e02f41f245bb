//! Places and what is there: what one sees, points at and looks at, and what one cannot move.

use vstd::prelude::*;
use vstd::utf8::encode_utf8;

use super::lemma_status;
use super::super::commands::Command;
use super::super::look::item_details;
use super::super::look::item_title;
use super::super::look::position_text;
use super::super::model::law_push;
use super::super::model::percent;
use super::super::model::sees;
use super::super::model::World;
use super::super::session::wardrobe;
use super::super::windows::close;
use super::things::is_in_window;
use super::things::is_slot;
use super::things::is_tile;
use super::things::lemma_places;
use super::told::hears;
use super::told::law_messages_arrive;
use crate::text::capped;
use crate::text::decimal;
use crate::wire::PacketModel;
use crate::Position;

verus! {

/// On its own floor one sees 8 columns to the west and 9 to the east, 6 rows to the north and 7 to
/// the south.
pub proof fn law_own_floor_is_seen(viewer: Position, target: Position)
    requires
        viewer.z == target.z,
    ensures
        sees(viewer, target) <==> viewer.x - 8 <= target.x <= viewer.x + 9 && viewer.y - 6
            <= target.y <= viewer.y + 7,
{
}

/// From the ground or above one sees nothing underground, and from underground nothing more than
/// two floors away.
pub proof fn law_floors_hide(viewer: Position, target: Position)
    requires
        sees(viewer, target),
    ensures
        viewer.z <= 7 ==> target.z <= 7,
        viewer.z > 7 ==> viewer.z - 2 <= target.z <= viewer.z + 2,
{
}

/// Each floor up shifts what is seen by one column and one row.
pub proof fn law_floors_shift(viewer: Position, target: Position)
    requires
        viewer.z <= 7 && target.z <= 7 || viewer.z > 7 && viewer.z - 2 <= target.z <= viewer.z + 2,
    ensures
        sees(viewer, target) <==> {
            let up = viewer.z - target.z;
            viewer.x - 8 + up <= target.x <= viewer.x + 9 + up && viewer.y - 6 + up <= target.y
                <= viewer.y + 7 + up
        },
{
}

/// Health is shown in whole hundredths of the maximum, rounded down.
pub proof fn law_percent_rounds_down(health: u32, max_health: u32)
    requires
        0 < max_health,
        health <= max_health,
    ensures
        percent(health, max_health) * max_health <= health * 100,
        health * 100 < (percent(health, max_health) + 1) * max_health,
        health == max_health ==> percent(health, max_health) == 100,
{
    let h = health * 100;
    let m = max_health as int;
    let q = h / m;
    assert(q * m <= h < (q + 1) * m && q <= 100 && 0 <= q) by (nonlinear_arith)
        requires
            m > 0,
            0 <= h <= 100 * m,
            q == h / m,
    ;
    if health == max_health {
        assert(q == 100) by (nonlinear_arith)
            requires
                m > 0,
                h == m * 100,
                q == h / m,
        ;
    }
}

/// Thing `i` of a tile.
pub open spec fn lies_at(w: World, pos: Position, i: int) -> bool {
    w.stack(pos) matches Some(st) && 0 <= i < st.things.len()
}

/// A client counts the things below the creatures on a tile, then the creatures, then the things
/// above them: what it points at is the thing in that place.
pub proof fn law_pointing_finds_things(w: World, pos: Position, sp: u8, i: int)
    requires
        lies_at(w, pos, i),
        ({
            let st = w.stack(pos)->0;
            let n = w.creatures_on(pos).len();
            ||| i < st.pre && sp == i
            ||| i >= st.pre && sp == i + n
        }),
        w.map.meta_at(w.stack(pos)->0.things[i].server_id) is Some,
        i <= 255,
    ensures
        ({
            let t = w.stack(pos)->0.things[i];
            let m = w.map.meta_at(t.server_id)->0;
            w.picked(pos, sp) matches Some(k) && {
                &&& k.idx == i
                &&& k.server_id == t.server_id
                &&& k.client_id == m.client_id
                &&& k.stackable == m.stackable
                &&& k.moveable == m.moveable
                &&& k.is_container == m.is_container
                &&& k.animated == m.animated
            }
        }),
{
}

/// Whoever looks at a thing on a tile in view is told what it is; from beside it also what it
/// weighs and what is written of it, and gamemasters its number and place.
pub proof fn law_looking_at_things(w: World, id: u32, pos: Position, sp: u8, i: int)
    requires
        w.wf(),
        w.players.has(id),
        sees(w.players.at(id).position, pos),
        lies_at(w, pos, i),
        ({
            let st = w.stack(pos)->0;
            let n = w.creatures_on(pos).len();
            ||| i < st.pre && sp == i
            ||| i >= st.pre && sp == i + n
        }),
        w.map.meta_at(w.stack(pos)->0.things[i].server_id) is Some,
    ensures
        ({
            let p = w.players.at(id);
            let t = w.stack(pos)->0.things[i];
            let m = w.map.meta_at(t.server_id)->0;
            let later = w.handled(
                Command::LookAt { id, x: pos.x, y: pos.y, z: pos.z, stackpos: sp },
            ).0;
            let near = if close(p.position, pos) {
                item_details(m, t.pieces())
            } else {
                Seq::empty()
            };
            let secret = if p.gamemaster {
                "\nItem ID: "@ + decimal(t.server_id as nat) + position_text(pos)
            } else {
                Seq::empty()
            };
            &&& w.only_told(later)
            &&& hears(
                w,
                later,
                id,
                PacketModel::TextMessage {
                    mode: 22,
                    text: capped(
                        encode_utf8(
                            "You see "@ + item_title(m, t.server_id, t.pieces()) + "."@ + near
                                + secret,
                        ),
                    ),
                },
            )
        }),
{
    reveal(World::looked);
    assert(Position { x: pos.x, y: pos.y, z: pos.z } == pos);
    let text = w.look_text(id, pos, sp)->0;
    let m = PacketModel::TextMessage { mode: 22, text: capped(encode_utf8(text)) };
    law_push(w, id, m);
    law_messages_arrive(w, id, m);
}

/// Whoever looks where it sees nothing is told nothing.
pub proof fn law_nothing_is_seen_from_afar(w: World, id: u32, pos: Position, sp: u8)
    requires
        w.players.has(id),
        !sees(w.players.at(id).position, pos),
    ensures
        w.handled(Command::LookAt { id, x: pos.x, y: pos.y, z: pos.z, stackpos: sp }).0 == w,
{
    reveal(World::looked);
    assert(Position { x: pos.x, y: pos.y, z: pos.z } == pos);
}

/// Whoever asks is shown all outfits of its sex, and what it wears.
pub proof fn law_wardrobes_are_shown(w: World, id: u32)
    requires
        w.wf(),
        w.players.has(id),
    ensures
        ({
            let p = w.players.at(id);
            let later = w.handled(Command::RequestOutfit { id }).0;
            &&& w.only_told(later)
            &&& hears(
                w,
                later,
                id,
                PacketModel::OutfitWindow { outfit: p.outfit, available: wardrobe(p.sex) },
            )
        }),
{
    reveal(World::wardrobe_told);
    let p = w.players.at(id);
    let m = PacketModel::OutfitWindow { outfit: p.outfit, available: wardrobe(p.sex) };
    law_push(w, id, m);
    law_messages_arrive(w, id, m);
}

/// Nothing has changed, and player `id` was told `text`.
pub open spec fn only_answered(w: World, later: World, id: u32, text: Seq<char>) -> bool {
    &&& w.only_told(later)
    &&& hears(w, later, id, PacketModel::TextMessage { mode: 21, text: encode_utf8(text) })
}

proof fn lemma_answered(w: World, id: u32, text: Seq<char>)
    requires
        w.players.wf(),
    ensures
        only_answered(w, w.status(id, text), id, text),
{
    lemma_status(w, id, text);
    law_messages_arrive(w, id, PacketModel::TextMessage { mode: 21, text: encode_utf8(text) });
}

/// What lies on a tile that is not beside the player cannot be moved, and what cannot be moved at
/// all stays where it is, wherever it should go; the player is told so.
pub proof fn law_out_of_reach_stays(
    w: World,
    id: u32,
    from: Position,
    sp: u8,
    to: Position,
    count: u8,
    cid: u8,
)
    requires
        w.wf(),
        w.players.has(id),
        is_tile(from),
        from != to,
        is_tile(to) || is_in_window(to, cid) || is_slot(to) && w.players.at(id).inventory[to.y
            - 1] is None,
    ensures
        ({
            let at = w.players.at(id).position;
            let later = w.thing_moved(id, from, sp, to, count);
            let near = close(at, from);
            let fixed = w.picked(from, sp) matches Some(k) && !k.moveable;
            &&& !near ==> only_answered(w, later, id, "You are too far away."@)
            &&& near && fixed && (is_tile(to) ==> w.map.throwable(from, to)) ==> only_answered(
                w,
                later,
                id,
                "You cannot move this object."@,
            )
        }),
{
    reveal(World::thing_moved);
    lemma_places(from, cid);
    lemma_places(to, cid);
    lemma_answered(w, id, "You are too far away."@);
    lemma_answered(w, id, "You cannot move this object."@);
}

/// What a player has cannot be thrown to a tile on another floor or out of throwing range, nor
/// where something solid is.
pub proof fn law_bad_throws_are_refused(
    w: World,
    id: u32,
    from: Position,
    sp: u8,
    to: Position,
    count: u8,
)
    requires
        w.wf(),
        w.players.has(id),
        is_slot(from),
        w.players.at(id).inventory[from.y - 1] is Some,
        is_tile(to),
    ensures
        ({
            let at = w.players.at(id).position;
            let later = w.thing_moved(id, from, sp, to, count);
            let reached = at.z == to.z && w.map.throwable(at, to);
            &&& !reached ==> only_answered(w, later, id, "You cannot throw there."@)
            &&& reached && (w.map.stack_at(to) is None || w.map.blocked_at(to)) ==> only_answered(
                w,
                later,
                id,
                "You cannot put that there."@,
            )
        }),
{
    reveal(World::thing_moved);
    lemma_places(from, 0);
    lemma_places(to, 0);
    lemma_answered(w, id, "You cannot throw there."@);
    lemma_answered(w, id, "You cannot put that there."@);
}

/// What does not belong into an equipment slot, or finds it taken, is not worn there.
pub proof fn law_wrong_slots_are_refused(
    w: World,
    id: u32,
    from: Position,
    sp: u8,
    to: Position,
    count: u8,
)
    requires
        w.wf(),
        w.players.has(id),
        is_tile(from),
        is_slot(to),
        close(w.players.at(id).position, from),
        w.players.at(id).inventory[to.y - 1] is Some || (w.picked(from, sp) matches Some(k)
            && k.moveable && !w.wearable(k.server_id, to.y as u8)),
    ensures
        only_answered(
            w,
            w.thing_moved(id, from, sp, to, count),
            id,
            "You cannot equip this object."@,
        ),
{
    reveal(World::thing_moved);
    lemma_places(from, 0);
    lemma_places(to, 0);
    lemma_answered(w, id, "You cannot equip this object."@);
}

/// `p` is at most `r` columns and rows away from `origin`, on its floor.
pub open spec fn in_ring(origin: Position, p: Position, r: int) -> bool {
    p.z == origin.z && -r <= p.x - origin.x <= r && -r <= p.y - origin.y <= r
}

proof fn lemma_search_near(
    w: World,
    origin: Position,
    exclude: u32,
    r: int,
    dy: int,
    dx: int,
    goal_r: int,
    goal_dy: int,
    goal_dx: int,
)
    requires
        1 <= r <= goal_r <= 5,
        -r <= dy,
        -r <= dx,
        -goal_r <= goal_dy <= goal_r,
        -goal_r <= goal_dx <= goal_r,
        r == goal_r ==> dy <= goal_dy && (dy == goal_dy ==> dx <= goal_dx),
        w.usable(origin, exclude, goal_r, goal_dy, goal_dx),
    ensures
        w.is_free(w.search(origin, exclude, r, dy, dx), exclude),
        in_ring(origin, w.search(origin, exclude, r, dy, dx), goal_r),
    decreases 6 - r, r + 1 - dy, r + 1 - dx,
{
    if dy > r {
        lemma_search_near(
            w,
            origin,
            exclude,
            r + 1,
            -(r + 1),
            -(r + 1),
            goal_r,
            goal_dy,
            goal_dx,
        );
    } else if dx > r {
        lemma_search_near(w, origin, exclude, r, dy + 1, -r, goal_r, goal_dy, goal_dx);
    } else if !w.usable(origin, exclude, r, dy, dx) {
        lemma_search_near(w, origin, exclude, r, dy, dx + 1, goal_r, goal_dy, goal_dx);
    }
}

/// Whoever cannot enter the game where it wanted to does so on a free tile that is as near as any:
/// no farther, in columns and rows, than any free tile at most five away.
pub proof fn law_arrivals_stay_near(w: World, origin: Position, exclude: u32, p: Position, r: int)
    requires
        1 <= r <= 5,
        in_ring(origin, p, r),
        w.map.walkable(p),
        forall|k: u32| #[trigger] w.players.has(k) && k != exclude ==> w.players.at(k).position
            != p,
    ensures
        ({
            let at = w.free_near(origin, exclude);
            &&& in_ring(origin, at, r)
            &&& w.map.walkable(at)
            &&& forall|k: u32| #[trigger]
                w.players.has(k) && k != exclude ==> w.players.at(k).position != at
        }),
{
    let dx = p.x - origin.x;
    let dy = p.y - origin.y;
    assert(origin.shifted(dx, dy) == Some(p));
    assert(w.is_free(p, exclude));
    let a = if dx >= 0 { dx } else { -dx };
    let b = if dy >= 0 { dy } else { -dy };
    let n = if a >= b { a } else { b };
    if !w.is_free(origin, exclude) {
        assert(n >= 1) by {
            if n == 0 {
                assert(p == origin);
            }
        }
        assert(w.usable(origin, exclude, n, dy, dx));
        lemma_search_near(w, origin, exclude, 1, -1, -1, n, dy, dx);
    }
    let at = w.free_near(origin, exclude);
    assert(w.is_free(at, exclude));
    assert forall|k: u32| #[trigger] w.players.has(k) && k != exclude implies w.players.at(
        k,
    ).position != at by {
        if w.players.at(k).position == at {
            assert(w.occupied(at, exclude));
        }
    }
}

} // verus!
