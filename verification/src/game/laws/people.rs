//! What players do among each other: talking, coming and going, changing clothes, getting well.

use vstd::prelude::*;
use vstd::utf8::encode_utf8;

use super::law_login_adds_one;
use super::lemma_all_met;
use super::lemma_all_seen;
use super::lemma_met;
use super::super::commands::Command;
use super::super::condition::ConditionRegeneration;
use super::super::lua::GameAction;
use super::super::model::law_depart;
use super::super::model::law_logout;
use super::super::model::law_push;
use super::super::model::law_push_all;
use super::super::model::lemma_forget;
use super::super::model::lemma_introduced;
use super::super::model::lemma_keeps_players_trans;
use super::super::model::lemma_only_told_trans;
use super::super::model::puff;
use super::super::model::sees;
use super::super::model::World;
use super::super::state::InitialState;
use super::super::state::PlayerModel;
use super::told::hears;
use super::told::law_messages_arrive;
use super::told::law_messages_reach_all;
use super::told::lemma_hears_earlier;
use super::told::lemma_hears_later;
use super::told::lemma_remembers_trans;
use super::told::remembers;
use super::walks::others_stay;
use super::walks::shows_on;
use crate::registry::law_add_last;
use crate::registry::law_set;
use crate::registry::law_without;
use crate::text::capped;
use crate::text::uppercase;
use crate::wire::Outfit;
use crate::wire::PacketModel;
use crate::wire::Session;
use crate::wire::SpeakType;
use crate::wire::Stats;
use crate::Position;

verus! {

/// `a` is on the floor of `b`, at most `cols` columns and `rows` rows away.
pub open spec fn within(a: Position, b: Position, cols: int, rows: int) -> bool {
    a.z == b.z && -cols <= a.x - b.x <= cols && -rows <= a.y - b.y <= rows
}

/// What is heard of `text` that player `id` utters.
pub open spec fn utterance(w: World, id: u32, speak_type: SpeakType, text: Seq<char>) -> PacketModel {
    PacketModel::CreatureSay {
        statement: w.next_statement_id,
        name: w.players.at(id).name,
        level: 1,
        speak_type,
        position: w.players.at(id).position,
        text: capped(encode_utf8(text)),
    }
}

/// The game after the number of an utterance is used up.
spec fn counted(w: World) -> World {
    World {
        next_statement_id: if w.next_statement_id == u32::MAX {
            0
        } else {
            (w.next_statement_id + 1) as u32
        },
        ..w
    }
}

proof fn lemma_near(w: World, pos: Position, id: u32, cols: int, rows: int, k: u32)
    requires
        w.players.has(k),
        w.players.wf(),
        k != id,
        within(w.players.at(k).position, pos, cols, rows),
    ensures
        w.in_range(pos, id, cols, rows).contains(k),
{
    let order = w.players.order;
    assert(order.contains(k));
    order.lemma_filter_contains(w.near(pos, id, cols, rows), order.index_of(k));
}

/// What is said is heard by the speaker, and by everyone on its floor at most 8 columns and 6
/// rows away; what is yelled, in upper case, by everyone at most 18 columns and 14 rows away.
pub proof fn law_speech_is_heard(
    w: World,
    id: u32,
    speak_type: SpeakType,
    text: String,
    k: u32,
)
    requires
        w.wf(),
        w.players.has(id),
        w.players.has(k),
        text@.len() > 0,
        !(speak_type is Whisper),
        ({
            let a = w.players.at(id).position;
            let b = w.players.at(k).position;
            ||| k == id
            ||| speak_type is Say && within(b, a, 8, 6)
            ||| speak_type is Yell && within(b, a, 18, 14)
        }),
    ensures
        ({
            let later = w.handled(Command::Say { id, speak_type, text }).0;
            &&& hears(
                w,
                later,
                k,
                utterance(
                    w,
                    id,
                    speak_type,
                    if speak_type is Yell {
                        uppercase(text@)
                    } else {
                        text@
                    },
                ),
            )
            &&& w.only_told(World { next_statement_id: w.next_statement_id, ..later })
        }),
{
    reveal(World::said);
    let words = if speak_type is Yell {
        uppercase(text@)
    } else {
        text@
    };
    let pos = w.players.at(id).position;
    let m = utterance(w, id, speak_type, words);
    let a = counted(w);
    law_messages_arrive(a, id, m);
    law_push(a, id, m);
    let b = a.push(id, m);
    let ids = if speak_type is Say {
        b.in_range(pos, id, 8, 6)
    } else {
        b.in_range(pos, id, 18, 14)
    };
    law_push_all(b, ids, m);
    let later = b.push_all(ids, m);
    assert(later == w.handled(Command::Say { id, speak_type, text }).0);
    lemma_only_told_trans(a, b, later);
    if k == id {
        lemma_hears_later(a, b, later, k, m);
    } else if b.players.has(k) {
        if speak_type is Say {
            lemma_near(b, pos, id, 8, 6, k);
        } else {
            lemma_near(b, pos, id, 18, 14, k);
        }
        law_messages_reach_all(b, ids, m, k);
        lemma_hears_earlier(a, b, later, k, m);
    }
}

proof fn lemma_whispered(
    w: World,
    ids: Seq<u32>,
    statement: u32,
    name: Seq<char>,
    pos: Position,
    text: Seq<u8>,
    k: u32,
)
    requires
        w.players.wf(),
    ensures
        w.only_told(w.whispered(ids, statement, name, pos, text)),
        ids.contains(k) && w.players.has(k) ==> hears(
            w,
            w.whispered(ids, statement, name, pos, text),
            k,
            PacketModel::CreatureSay {
                statement,
                name,
                level: 1,
                speak_type: SpeakType::Whisper,
                position: pos,
                text: if w.beside(k, pos) {
                    text
                } else {
                    encode_utf8("pspsps"@)
                },
            },
        ),
    decreases ids.len(),
{
    if ids.len() > 0 {
        let c = w.whispered(ids, statement, name, pos, text);
        let s = ids[0];
        let m = PacketModel::CreatureSay {
            statement,
            name,
            level: 1,
            speak_type: SpeakType::Whisper,
            position: pos,
            text: if w.beside(s, pos) {
                text
            } else {
                encode_utf8("pspsps"@)
            },
        };
        let b = if w.players.has(s) {
            w.push(s, m)
        } else {
            w
        };
        law_push(w, s, m);
        law_messages_arrive(w, s, m);
        lemma_whispered(b, ids.drop_first(), statement, name, pos, text, k);
        lemma_only_told_trans(w, b, c);
        if s == k {
            if w.players.has(k) {
                lemma_hears_later(w, b, c, k, m);
            }
        } else if ids.contains(k) && w.players.has(k) {
            let i = ids.index_of(k);
            assert(ids.drop_first()[i - 1] == k);
            let r = PacketModel::CreatureSay {
                statement,
                name,
                level: 1,
                speak_type: SpeakType::Whisper,
                position: pos,
                text: if w.beside(k, pos) {
                    text
                } else {
                    encode_utf8("pspsps"@)
                },
            };
            if b.players.has(k) {
                lemma_hears_earlier(w, b, c, k, r);
            }
        }
    }
}

/// A whisper is heard by the speaker and by everyone within one step of it; of those on its floor
/// at most 8 columns and 6 rows away the others hear that something is whispered.
pub proof fn law_whispers_are_heard(w: World, id: u32, text: String, k: u32)
    requires
        w.wf(),
        w.players.has(id),
        w.players.has(k),
        text@.len() > 0,
        k == id || within(w.players.at(k).position, w.players.at(id).position, 8, 6),
    ensures
        ({
            let later = w.handled(
                Command::Say { id, speak_type: SpeakType::Whisper, text },
            ).0;
            let close_by = k == id || within(
                w.players.at(k).position,
                w.players.at(id).position,
                1,
                1,
            );
            &&& close_by ==> hears(w, later, k, utterance(w, id, SpeakType::Whisper, text@))
            &&& !close_by ==> hears(
                w,
                later,
                k,
                PacketModel::CreatureSay {
                    statement: w.next_statement_id,
                    name: w.players.at(id).name,
                    level: 1,
                    speak_type: SpeakType::Whisper,
                    position: w.players.at(id).position,
                    text: encode_utf8("pspsps"@),
                },
            )
            &&& w.only_told(World { next_statement_id: w.next_statement_id, ..later })
        }),
{
    reveal(World::said);
    let pos = w.players.at(id).position;
    let name = w.players.at(id).name;
    let n = w.next_statement_id;
    let m = utterance(w, id, SpeakType::Whisper, text@);
    let body = capped(encode_utf8(text@));
    let a = counted(w);
    law_messages_arrive(a, id, m);
    law_push(a, id, m);
    let b = a.push(id, m);
    let ids = b.in_range(pos, id, 8, 6);
    lemma_whispered(b, ids, n, name, pos, body, k);
    let later = b.whispered(ids, n, name, pos, body);
    assert(later == w.handled(Command::Say { id, speak_type: SpeakType::Whisper, text }).0);
    lemma_only_told_trans(a, b, later);
    if k == id {
        lemma_hears_later(a, b, later, k, m);
    } else if b.players.has(k) {
        lemma_near(b, pos, id, 8, 6, k);
        let r = PacketModel::CreatureSay {
            statement: n,
            name,
            level: 1,
            speak_type: SpeakType::Whisper,
            position: pos,
            text: if b.beside(k, pos) {
                body
            } else {
                encode_utf8("pspsps"@)
            },
        };
        lemma_hears_earlier(a, b, later, k, r);
    }
}

/// `p` tells that someone left.
pub open spec fn is_departure(p: PacketModel) -> bool {
    ||| p is RemoveCreature
    ||| (p matches PacketModel::MagicEffect { position, .. } && p == puff(position))
}

/// Player `k` was told nothing since `before` but that others left.
pub open spec fn only_departures(before: World, later: World, k: u32) -> bool {
    later.players.has(k) ==> forall|i: int|
        #![trigger later.players.at(k).session.queue[i]]
        before.players.at(k).session.queue.len() <= i < later.players.at(k).session.queue.len()
            ==> is_departure(later.players.at(k).session.queue[i])
}

proof fn lemma_departures_trans(a: World, b: World, c: World, k: u32)
    requires
        remembers(b, c),
        only_departures(a, b, k),
        only_departures(b, c, k),
    ensures
        only_departures(a, c, k),
{
    if c.players.has(k) {
        assert(b.players.has(k));
        let x = b.players.at(k).session.queue;
        let y = c.players.at(k).session.queue;
        assert forall|i: int|
            #![trigger y[i]]
            a.players.at(k).session.queue.len() <= i < y.len() implies is_departure(y[i]) by {
            if i < x.len() {
                assert(y[i] == x[i]);
            }
        }
    }
}

/// Of what others are told a player hears no more than that some of them had to leave.
pub proof fn lemma_push_quiet(w: World, id: u32, p: PacketModel, k: u32)
    requires
        w.players.wf(),
        id != k || is_departure(p),
    ensures
        only_departures(w, w.push(id, p), k),
    decreases w.players.count(), 0nat,
{
    law_push(w, id, p);
    law_messages_arrive(w, id, p);
    if w.players.has(id) {
        if !w.players.at(id).session.accepts() {
            law_without(w.players, id);
            law_logout(w, id);
            let u = w.parted(id);
            assert(w.players.order.contains(id));
            let pos = w.players.at(id).position;
            assert(u.players.count() < w.players.count());
            lemma_depart_quiet(u, w.spectators(pos, id), pos, id, k);
        } else if id == k {
            let q = w.push(id, p).players.at(k).session.queue;
            assert forall|i: int|
                #![trigger q[i]]
                w.players.at(k).session.queue.len() <= i < q.len() implies is_departure(q[i]) by {}
        } else {
            assert(w.push(id, p).players.at(k) == w.players.at(k));
        }
    }
}

proof fn lemma_depart_quiet(w: World, ids: Seq<u32>, pos: Position, gone: u32, k: u32)
    requires
        w.players.wf(),
    ensures
        only_departures(w, w.depart(ids, pos, gone), k),
    decreases w.players.count(), 1 + ids.len(),
{
    law_depart(w, ids, pos, gone);
    if ids.len() > 0 {
        let s = ids[0];
        let m = PacketModel::RemoveCreature { id: gone };
        lemma_push_quiet(w, s, puff(pos), k);
        law_push(w, s, puff(pos));
        let a = w.push(s, puff(pos));
        lemma_push_quiet(a, s, m, k);
        law_push(a, s, m);
        let b = a.push(s, m);
        lemma_forget(b, s, gone);
        let c = b.forget(s, gone);
        let d = c.depart(ids.drop_first(), pos, gone);
        lemma_depart_quiet(c, ids.drop_first(), pos, gone, k);
        law_depart(c, ids.drop_first(), pos, gone);
        lemma_departures_trans(w, a, b, k);
        assert(only_departures(b, c, k));
        lemma_departures_trans(w, b, c, k);
        lemma_departures_trans(w, c, d, k);
    }
}

pub proof fn lemma_push_all_quiet(w: World, ids: Seq<u32>, p: PacketModel, k: u32)
    requires
        w.players.wf(),
        !ids.contains(k),
    ensures
        only_departures(w, w.push_all(ids, p), k),
    decreases ids.len(),
{
    if ids.len() > 0 {
        assert(ids[0] != k);
        law_push(w, ids[0], p);
        lemma_push_quiet(w, ids[0], p, k);
        let a = w.push(ids[0], p);
        let rest = ids.drop_first();
        assert(!rest.contains(k)) by {
            if rest.contains(k) {
                let i = rest.index_of(k);
                assert(ids[i + 1] == k);
            }
        }
        law_push_all(a, rest, p);
        lemma_push_all_quiet(a, rest, p, k);
        lemma_departures_trans(w, a, a.push_all(rest, p), k);
    }
}

/// What is said is not heard on other floors, nor more than 8 columns or 6 rows away; a yell is
/// not heard more than 18 columns or 14 rows away.
pub proof fn law_speech_does_not_carry(
    w: World,
    id: u32,
    speak_type: SpeakType,
    text: String,
    k: u32,
)
    requires
        w.wf(),
        w.players.has(k),
        k != id,
        !(speak_type is Whisper),
        ({
            let a = w.players.at(id).position;
            let b = w.players.at(k).position;
            if speak_type is Say {
                !within(b, a, 8, 6)
            } else {
                !within(b, a, 18, 14)
            }
        }),
    ensures
        only_departures(w, w.handled(Command::Say { id, speak_type, text }).0, k),
{
    reveal(World::said);
    if w.players.has(id) && text@.len() > 0 {
        let words = if speak_type is Yell {
            uppercase(text@)
        } else {
            text@
        };
        let pos = w.players.at(id).position;
        let m = utterance(w, id, speak_type, words);
        let a = counted(w);
        law_push(a, id, m);
        lemma_push_quiet(a, id, m, k);
        let b = a.push(id, m);
        let ids = if speak_type is Say {
            b.in_range(pos, id, 8, 6)
        } else {
            b.in_range(pos, id, 18, 14)
        };
        let f = if speak_type is Say {
            b.near(pos, id, 8, 6)
        } else {
            b.near(pos, id, 18, 14)
        };
        if b.players.has(k) {
            if ids.contains(k) {
                crate::registry::lemma_filter_from(b.players.order, f, k);
            }
            lemma_push_all_quiet(b, ids, m, k);
            law_push_all(b, ids, m);
            let later = b.push_all(ids, m);
            assert(later == w.handled(Command::Say { id, speak_type, text }).0);
            lemma_departures_trans(a, b, later, k);
            assert(only_departures(w, later, k));
        } else {
            law_push_all(b, ids, m);
        }
    }
}

/// Whoever logs out is gone. Where records are kept, the next one is of that player, as it was
/// when it left. Everyone who may see it and does is told, and no one else changes.
pub proof fn law_logout_leaves(w: World, id: u32, k: u32)
    requires
        w.wf(),
        w.players.has(id),
    ensures
        ({
            let p = w.players.at(id);
            let later = w.handled(Command::Logout { id }).0;
            &&& !later.players.has(id)
            &&& w.saves matches Some(s) ==> {
                &&& later.saves matches Some(t) && {
                    &&& s.len() < t.len()
                    &&& t.take(s.len() as int) == s
                    &&& t[s.len() as int].name == p.name
                    &&& t[s.len() as int].position == p.position
                    &&& t[s.len() as int].direction == p.direction
                    &&& t[s.len() as int].outfit == p.outfit
                    &&& t[s.len() as int].health == p.health
                    &&& t[s.len() as int].max_health == p.max_health
                    &&& t[s.len() as int].sex == p.sex
                }
            }
            &&& later.monsters == w.monsters && later.overlay == w.overlay
            &&& others_stay(w, later, id)
            &&& w.players.has(k) && k != id && sees(w.players.at(k).position, p.position) && (
            !p.is_ghost || w.players.at(k).gamemaster) ==> hears(
                w,
                later,
                k,
                PacketModel::RemoveCreature { id },
            )
        }),
{
    let p = w.players.at(id);
    let later = w.logout(id);
    law_logout(w, id);
    law_without(w.players, id);
    let u = w.parted(id);
    let ids = w.spectators(p.position, id);
    assert(u.only_told(later));
    if w.saves is Some {
        let s = w.saves->0;
        let t = later.saves->0;
        let mid = u.saves->0;
        assert(mid.is_prefix_of(t));
        assert(t[s.len() as int] == t.subrange(0, mid.len() as int)[s.len() as int]);
        assert(t.take(s.len() as int) =~= s) by {
            assert forall|i: int| 0 <= i < s.len() implies t[i] == s[i] by {
                assert(t[i] == t.subrange(0, mid.len() as int)[i]);
            }
        }
    }
    if w.players.has(k) && k != id && w.watches(k, p.position, id) {
        let order = w.players.order;
        assert(order.contains(k));
        order.lemma_filter_contains(w.watcher(p.position, id), order.index_of(k));
        lemma_departure_heard(u, ids, p.position, id, k);
        assert(u.players.at(k) == w.players.at(k));
    }
}

proof fn lemma_departure_heard(w: World, ids: Seq<u32>, pos: Position, gone: u32, k: u32)
    requires
        w.players.wf(),
        ids.contains(k),
    ensures
        hears(w, w.depart(ids, pos, gone), k, PacketModel::RemoveCreature { id: gone }),
    decreases ids.len(),
{
    let s = ids[0];
    let m = PacketModel::RemoveCreature { id: gone };
    law_depart(w, ids, pos, gone);
    law_push(w, s, puff(pos));
    let a = w.push(s, puff(pos));
    law_push(a, s, m);
    law_messages_arrive(a, s, m);
    let b = a.push(s, m);
    lemma_forget(b, s, gone);
    let c = b.forget(s, gone);
    let d = c.depart(ids.drop_first(), pos, gone);
    law_depart(c, ids.drop_first(), pos, gone);
    lemma_only_told_trans(w, a, b);
    lemma_only_told_trans(w, b, c);
    lemma_only_told_trans(b, c, d);
    if s == k {
        lemma_hears_later(a, b, d, k, m);
        lemma_only_told_trans(a, b, d);
        lemma_hears_earlier(w, a, d, k, m);
    } else {
        let i = ids.index_of(k);
        assert(ids.drop_first()[i - 1] == k);
        lemma_departure_heard(c, ids.drop_first(), pos, gone, k);
        lemma_hears_earlier(w, c, d, k, m);
    }
}

/// When the game ends each player gets one more record, as it is then, and nothing else changes.
pub proof fn law_shutdown_records_all(w: World, id: u32)
    requires
        w.wf(),
        w.players.has(id),
        w.saves is Some,
    ensures
        ({
            let p = w.players.at(id);
            let s = w.saves->0;
            let later = w.handled(Command::Shutdown).0;
            &&& later == (World { saves: later.saves, ..w })
            &&& later.saves matches Some(t) && {
                &&& t.len() == s.len() + w.players.count()
                &&& t.take(s.len() as int) == s
                &&& exists|i: int|
                    s.len() <= i < t.len() && (#[trigger] t[i]).name == p.name && t[i].position
                        == p.position && t[i].direction == p.direction && t[i].outfit == p.outfit
                        && t[i].health == p.health && t[i].max_health == p.max_health
                        && t[i].sex == p.sex
            }
        }),
{
    let s = w.saves->0;
    let order = w.players.order;
    assert(order.contains(id));
    let later = w.handled(Command::Shutdown).0;
    let t = later.saves->0;
    assert(t.take(s.len() as int) =~= s);
    assert(t[s.len() + order.index_of(id)].name == w.players.at(id).name);
}

/// Whoever comes to a free tile is there, as it was recorded, at full speed and on no one's side.
/// No one else changes.
pub proof fn law_login_restores(
    w: World,
    name: String,
    initial: InitialState,
    session: Session,
    at: Position,
)
    requires
        w.wf(),
        w.next_id < u32::MAX,
        initial.position == Some(at) || initial.position is None && at == w.map.spawn_point(),
        w.map.walkable(at),
        forall|k: u32| #[trigger] w.players.has(k) ==> w.players.at(k).position != at,
    ensures
        ({
            let id = w.next_id;
            let later = w.handled(Command::Login { name, initial, session }).0;
            let p = later.players.at(id);
            &&& !w.players.has(id)
            &&& later.players.has(id) ==> {
                &&& p.name == name@
                &&& p.position == at
                &&& p.direction == initial.direction
                &&& p.outfit == initial.outfit
                &&& p.health == initial.health && p.max_health == initial.max_health
                &&& p.max_melee == initial.max_melee
                &&& p.sex == initial.sex && p.gamemaster == initial.gamemaster
                &&& p.speed == 220
                &&& p.attacking is None && p.follow_target is None && p.go_to_position is None
                &&& !p.is_ghost && !p.noclip
                &&& p.walk.len() == 0 && p.conditions.len() == 0
            }
            &&& later.next_id == id + 1
            &&& others_stay(w, later, id)
            &&& w.keeps_players(later)
            &&& later.monsters == w.monsters && later.overlay == w.overlay
        }),
{
    let id = w.next_id;
    law_login_adds_one(w, name@, initial, session@);
    assert(w.arrival(initial) == at);
    let p = super::super::session::newcomer(w.map, name@, at, initial, session@);
    law_add_last(w.players, id, p);
    let a = w.entered(name@, initial, session@);
    let later = w.logged_in(name@, initial, session@);
    assert(w.keeps_players(a));
    lemma_keeps_players_trans(w, a, later);
}

proof fn lemma_met_heard(w: World, id: u32, k: u32, pos: Position) -> (p: PacketModel)
    requires
        w.players.wf(),
        w.players.has(k),
        w.met(id, k, pos).players.has(id),
        id != k,
    ensures
        shows_on(p, id, pos),
        hears(w, w.met(id, k, pos), k, p),
{
    lemma_met(w, id, k, pos);
    let a = if w.may_see(id, k) {
        w.introduced(id, k)
    } else {
        w
    };
    lemma_introduced(w, id, k);
    assert(w.only_told(a));
    let b = a.introduced(k, id);
    lemma_introduced(a, k, id);
    let p = PacketModel::AddTileCreature {
        position: pos,
        stackpos: b.stackpos_on(pos, id),
        creature: a.shown(k, id),
    };
    law_messages_arrive(b, k, p);
    law_push(b, k, p);
    let c = b.push(k, p);
    law_push(c, k, puff(pos));
    let d = c.push(k, puff(pos));
    assert(w.players.has(id));
    assert(a.players.has(id));
    assert(a.players.has(k)) by {
        if w.can_introduce(id, k) {
            law_set(
                w.players,
                id,
                PlayerModel { known: w.players.at(id).known.insert(k), ..w.players.at(id) },
            );
        }
    }
    assert(w.met(id, k, pos) == d);
    lemma_hears_later(b, c, d, k, p);
    lemma_only_told_trans(w, a, b);
    lemma_only_told_trans(b, c, d);
    lemma_hears_earlier(w, b, d, k, p);
    p
}

proof fn lemma_all_met_heard(w: World, id: u32, others: Seq<u32>, pos: Position, k: u32) -> (p:
    PacketModel)
    requires
        w.players.wf(),
        others.contains(k),
        id != k,
        w.all_met(id, others, pos).players.has(id),
    ensures
        shows_on(p, id, pos),
        hears(w, w.all_met(id, others, pos), k, p),
    decreases others.len(),
{
    let rest = others.drop_last();
    lemma_all_met(w, id, rest, pos);
    let a = w.all_met(id, rest, pos);
    lemma_met(a, id, others.last(), pos);
    let c = w.all_met(id, others, pos);
    assert(a.players.has(id));
    if others.last() == k {
        if a.players.has(k) {
            let p = lemma_met_heard(a, id, k, pos);
            lemma_hears_earlier(w, a, c, k, p);
            p
        } else {
            PacketModel::AddTileCreature {
                position: pos,
                stackpos: 0,
                creature: w.creature_look(id, false),
            }
        }
    } else {
        let i = others.index_of(k);
        assert(rest[i] == k);
        let p = lemma_all_met_heard(w, id, rest, pos, k);
        lemma_hears_later(w, a, c, k, p);
        p
    }
}

/// Everyone who sees where someone enters the game is shown it there, as long as it is there.
pub proof fn law_logins_are_seen(
    w: World,
    name: String,
    initial: InitialState,
    session: Session,
    k: u32,
)
    requires
        w.wf(),
        w.next_id < u32::MAX,
        w.players.has(k),
        sees(w.players.at(k).position, w.arrival(initial)),
        w.handled(Command::Login { name, initial, session }).0.players.has(w.next_id),
    ensures
        exists|p: PacketModel|
            shows_on(p, w.next_id, w.arrival(initial)) && #[trigger] hears(
                w,
                w.handled(Command::Login { name, initial, session }).0,
                k,
                p,
            ),
{
    reveal(World::logged_in);
    let id = w.next_id;
    let pos = w.arrival(initial);
    let n = super::super::session::newcomer(w.map, name@, pos, initial, session@);
    law_add_last(w.players, id, n);
    let a = w.entered(name@, initial, session@);
    let ids = w.greeters(initial);
    let b = w.welcomed(name@, initial, session@);
    let mids = b.monsters_visible_from(pos);
    let later = w.handled(Command::Login { name, initial, session }).0;
    lemma_all_met(a, id, ids, pos);
    lemma_all_seen(b, id, mids);
    assert(later == b.all_seen(id, mids));
    assert(b.players.has(id));
    let order = w.players.order;
    assert(order.contains(k));
    assert(!w.is_ghost(id));
    order.lemma_filter_contains(w.watcher(pos, id), order.index_of(k));
    let p = lemma_all_met_heard(a, id, ids, pos, k);
    lemma_hears_later(a, b, later, k, p);
    assert(shows_on(p, id, pos) && hears(w, later, k, p));
}

/// Whoever changes clothes wears the new ones, and it and everyone who may see it and does is
/// shown them.
pub proof fn law_outfits_are_seen(w: World, id: u32, outfit: Outfit, k: u32)
    requires
        w.wf(),
        w.players.has(id),
        w.players.has(k),
        k == id || sees(w.players.at(k).position, w.players.at(id).position) && (!w.players.at(
            id,
        ).is_ghost || w.players.at(k).gamemaster),
    ensures
        ({
            let later = w.handled(Command::ChangeOutfit { id, outfit }).0;
            &&& w.keeps_players(later)
            &&& later.players.has(id) ==> later.players.at(id) == (PlayerModel {
                outfit,
                session: later.players.at(id).session,
                known: later.players.at(id).known,
                ..w.players.at(id)
            })
            &&& others_stay(w, later, id)
            &&& hears(w, later, k, PacketModel::CreatureOutfit { id, outfit })
        }),
{
    reveal(World::dressed);
    let p = PacketModel::CreatureOutfit { id, outfit };
    let q = PlayerModel { outfit, ..w.players.at(id) };
    let pos = w.players.at(id).position;
    law_set(w.players, id, q);
    let a = w.set_player(id, q);
    law_messages_arrive(a, id, p);
    law_push(a, id, p);
    let b = a.push(id, p);
    let ids = b.spectators(pos, id);
    law_push_all(b, ids, p);
    let later = b.push_all(ids, p);
    assert(later == w.handled(Command::ChangeOutfit { id, outfit }).0);
    lemma_only_told_trans(a, b, later);
    assert(w.keeps_players(a));
    lemma_keeps_players_trans(w, a, later);
    if k == id {
        lemma_hears_later(a, b, later, k, p);
    } else if b.players.has(k) {
        let order = b.players.order;
        assert(order.contains(k));
        order.lemma_filter_contains(b.watcher(pos, id), order.index_of(k));
        law_messages_reach_all(b, ids, p, k);
        lemma_hears_earlier(a, b, later, k, p);
    }
}

/// `b` is `a` after a tick, told of it or not.
spec fn ticked_like(a: PlayerModel, b: PlayerModel, now: u64) -> bool {
    b == (PlayerModel {
        session: b.session,
        known: b.known,
        health: a.recovered(now).health,
        conditions: a.recovered(now).conditions,
        ..a
    })
}

proof fn lemma_player_recovered(w: World, id: u32, now: u64)
    requires
        w.players.wf(),
    ensures
        ({
            let later = w.player_recovered(id, now);
            &&& later.players.wf()
            &&& w.keeps_players(later)
            &&& remembers(w, later)
            &&& later == (World {
                players: later.players,
                saves: later.saves,
                left: later.left,
                ..w
            })
            &&& others_stay(w, later, id)
            &&& later.players.has(id) ==> ticked_like(w.players.at(id), later.players.at(id), now)
            &&& w.players.has(id) && w.players.at(id).healing(now) != 0 ==> hears(
                w,
                later,
                id,
                PacketModel::Stats {
                    stats: Stats::of(
                        w.players.at(id).recovered(now).health,
                        w.players.at(id).max_health,
                        w.players.at(id).speed,
                    ),
                },
            )
        }),
{
    if w.players.has(id) {
        let p = w.players.at(id).recovered(now);
        law_set(w.players, id, p);
        let a = w.set_player(id, p);
        let m = PacketModel::Stats { stats: Stats::of(p.health, p.max_health, p.speed) };
        law_push(a, id, m);
        law_messages_arrive(a, id, m);
        assert(w.keeps_players(a));
        lemma_keeps_players_trans(w, a, a.push(id, m));
    }
}

proof fn lemma_all_recovered(w: World, ids: Seq<u32>, now: u64, k: u32)
    requires
        w.players.wf(),
        ids.no_duplicates(),
    ensures
        ({
            let later = w.all_recovered(ids, now);
            &&& later.players.wf()
            &&& w.keeps_players(later)
            &&& remembers(w, later)
            &&& later == (World {
                players: later.players,
                saves: later.saves,
                left: later.left,
                ..w
            })
            &&& later.players.has(k) && ids.contains(k) ==> ticked_like(
                w.players.at(k),
                later.players.at(k),
                now,
            )
            &&& later.players.has(k) && !ids.contains(k) ==> later.players.at(k) == (PlayerModel {
                session: later.players.at(k).session,
                known: later.players.at(k).known,
                ..w.players.at(k)
            })
            &&& w.players.has(k) && ids.contains(k) && w.players.at(k).healing(now) != 0 ==> hears(
                w,
                later,
                k,
                PacketModel::Stats {
                    stats: Stats::of(
                        w.players.at(k).recovered(now).health,
                        w.players.at(k).max_health,
                        w.players.at(k).speed,
                    ),
                },
            )
        }),
    decreases ids.len(),
{
    if ids.len() > 0 {
        let rest = ids.drop_first();
        lemma_player_recovered(w, ids[0], now);
        let a = w.player_recovered(ids[0], now);
        assert(rest.no_duplicates());
        lemma_all_recovered(a, rest, now, k);
        let c = w.all_recovered(ids, now);
        lemma_keeps_players_trans(w, a, c);
        lemma_remembers_trans(w, a, c);
        if ids.contains(k) && ids[0] != k {
            let i = ids.index_of(k);
            assert(rest[i - 1] == k);
        }
        if rest.contains(k) {
            let i = rest.index_of(k);
            assert(ids[i + 1] == k);
        }
        if w.players.has(k) && ids.contains(k) && w.players.at(k).healing(now) != 0 {
            let m = PacketModel::Stats {
                stats: Stats::of(
                    w.players.at(k).recovered(now).health,
                    w.players.at(k).max_health,
                    w.players.at(k).speed,
                ),
            };
            if ids[0] == k {
                lemma_hears_later(w, a, c, k, m);
            } else if a.players.has(k) {
                lemma_hears_earlier(w, a, c, k, m);
            }
        }
    }
}

/// What one meal heals at a time: its gain, but no more than is left of it, nor more than is
/// missing.
pub open spec fn healed_to(p: PlayerModel, c: ConditionRegeneration) -> int {
    let left = c.total_heal_cap - c.total_heal;
    let n = if c.health_gain <= left {
        c.health_gain as int
    } else {
        left
    };
    if p.health + n <= p.max_health {
        p.health + n
    } else {
        p.max_health as int
    }
}

/// A meal that still works, and whose interval is over, heals: the player has more health then,
/// and is shown it.
pub proof fn law_meals_heal(w: World, id: u32, now: u64, c: ConditionRegeneration)
    requires
        w.wf(),
        w.players.has(id),
        w.players.at(id).conditions == seq![c],
        now < c.expires_at_ms,
        c.health_gain > 0,
        c.total_heal < c.total_heal_cap,
        c.last_health_tick + c.health_interval_ms <= now,
        w.players.at(id).health <= w.players.at(id).max_health,
    ensures
        ({
            let p = w.players.at(id);
            let later = w.handled(Command::RegenerationTick { now_ms: now }).0;
            let q = later.players.at(id);
            &&& w.keeps_players(later)
            &&& later.now_ms == now
            &&& later.players.has(id) ==> {
                &&& q.health == healed_to(p, c)
                &&& q.conditions.len() == 1
                &&& q.conditions[0].last_health_tick == now
                &&& q.conditions[0].total_heal - c.total_heal == (if c.health_gain
                    <= c.total_heal_cap - c.total_heal {
                    c.health_gain as int
                } else {
                    c.total_heal_cap - c.total_heal
                })
                &&& q.conditions[0].expires_at_ms == c.expires_at_ms
                &&& q.position == p.position && q.inventory == p.inventory
            }
            &&& hears(
                w,
                later,
                id,
                PacketModel::Stats {
                    stats: Stats::of(healed_to(p, c) as u32, p.max_health, p.speed),
                },
            )
        }),
{
    lemma_one_meal(w.players.at(id), now, c);
    let a = w.at_time(now);
    assert(w.players.order.contains(id));
    lemma_all_recovered(a, w.players.order, now, id);
}

proof fn lemma_one_meal(p: PlayerModel, now: u64, c: ConditionRegeneration)
    requires
        p.conditions == seq![c],
    ensures
        now < c.expires_at_ms ==> p.healing(now) == c.heals(now) && p.recovered(now).conditions
            == seq![c.ticked(now)],
        now >= c.expires_at_ms ==> p.healing(now) == 0 && p.recovered(now).conditions.len() == 0,
{
    let s = p.conditions;
    assert(s.drop_last() =~= Seq::empty());
    reveal_with_fuel(super::super::upkeep::lasting, 2);
    reveal_with_fuel(super::super::upkeep::healed_by, 2);
    let l = super::super::upkeep::lasting(s, now);
    if now < c.expires_at_ms {
        assert(l =~= seq![c]);
        assert(l.drop_last() =~= Seq::empty());
        assert(p.recovered(now).conditions =~= seq![c.ticked(now)]);
    } else {
        assert(l =~= Seq::empty());
    }
}


/// A meal that is over, or whose interval is not, does not heal, and one that is over is gone.
pub proof fn law_meals_end(w: World, id: u32, now: u64, c: ConditionRegeneration)
    requires
        w.wf(),
        w.players.has(id),
        w.players.at(id).conditions == seq![c],
        now >= c.expires_at_ms || now < c.last_health_tick + c.health_interval_ms
            || c.total_heal >= c.total_heal_cap || c.health_gain <= 0,
        c.health_interval_ms > 0,
    ensures
        ({
            let later = w.handled(Command::RegenerationTick { now_ms: now }).0;
            later.players.has(id) ==> {
                &&& later.players.at(id).health == w.players.at(id).health
                &&& now >= c.expires_at_ms ==> later.players.at(id).conditions.len() == 0
                &&& now < c.expires_at_ms ==> later.players.at(id).conditions == seq![c]
            }
        }),
{
    lemma_one_meal(w.players.at(id), now, c);
    let a = w.at_time(now);
    assert(w.players.order.contains(id));
    lemma_all_recovered(a, w.players.order, now, id);
}

/// Whoever has eaten nothing, or whose meals are over, is fed anew: for the time given, with the
/// gain, interval and limit given.
pub proof fn law_meals_begin(
    w: World,
    id: u32,
    gain: i32,
    interval: u64,
    duration: u64,
    cap: i32,
)
    requires
        w.wf(),
        w.players.has(id),
        w.now_ms + duration <= u64::MAX,
        forall|i: int|
            0 <= i < w.players.at(id).conditions.len() ==> w.now_ms >= (#[trigger] w.players.at(
                id,
            ).conditions[i]).expires_at_ms,
    ensures
        ({
            let later = w.script_obeyed(
                GameAction::Feed {
                    player_id: id,
                    health_gain: gain,
                    interval_ms: interval,
                    duration_ms: duration,
                    total_heal_cap: cap,
                },
            );
            let c = later.players.at(id).conditions.last();
            &&& later.players.has(id)
            &&& later.players.at(id).conditions.len() == w.players.at(id).conditions.len() + 1
            &&& c.expires_at_ms == w.now_ms + duration
            &&& c.health_gain == gain
            &&& c.health_interval_ms == interval
            &&& c.total_heal == 0
            &&& c.total_heal_cap == cap
            &&& c.last_health_tick == w.now_ms
            &&& later.players.at(id).health == w.players.at(id).health
            &&& others_stay(w, later, id)
        }),
{
    let s = w.players.at(id).conditions;
    lemma_none_active(s, w.now_ms, 0);
    let q = PlayerModel {
        conditions: super::super::requests::after_meal(s, w.now_ms, gain, interval, duration, cap),
        ..w.players.at(id)
    };
    law_set(w.players, id, q);
}

proof fn lemma_none_active(s: Seq<ConditionRegeneration>, now: u64, from: int)
    requires
        0 <= from,
        forall|i: int| 0 <= i < s.len() ==> now >= (#[trigger] s[i]).expires_at_ms,
    ensures
        super::super::requests::first_active(s, now, from) is None,
    decreases s.len() - from,
{
    if from < s.len() {
        lemma_none_active(s, now, from + 1);
    }
}

/// Whoever looks at another player in its list of creatures, and sees it, is told who it is; a
/// gamemaster is told where it is as well.
pub proof fn law_looking_at_players(w: World, id: u32, target: u32)
    requires
        w.wf(),
        w.players.has(id),
        w.players.has(target),
        sees(w.players.at(id).position, w.players.at(target).position),
    ensures
        ({
            let t = w.players.at(target);
            let later = w.handled(Command::LookBattle { id, target_id: target }).0;
            let head = if id == target {
                "You see yourself. You have no vocation."@
            } else if t.sex == 0 {
                "You see "@ + t.name + " (Level 1)."@ + " She"@ + " has no vocation."@
            } else {
                "You see "@ + t.name + " (Level 1)."@ + " He"@ + " has no vocation."@
            };
            let tail = if w.players.at(id).gamemaster {
                super::super::look::position_text(t.position)
            } else {
                Seq::empty()
            };
            &&& w.only_told(later)
            &&& hears(
                w,
                later,
                id,
                PacketModel::TextMessage { mode: 22, text: capped(encode_utf8(head + tail)) },
            )
        }),
{
    reveal(World::looked_at_player);
    let text = w.creature_text(id, target, w.players.at(id).gamemaster)->0;
    let p = PacketModel::TextMessage { mode: 22, text: capped(encode_utf8(text)) };
    law_push(w, id, p);
    law_messages_arrive(w, id, p);
}

} // verus!
