//! What the commands of gamemasters do to players, things and monsters.

use vstd::prelude::*;
use vstd::utf8::encode_utf8;

use super::law_called_monsters_appear_beside;
use super::law_ghost_toggles;
use super::lemma_dressed;
use super::lemma_status;
use super::lemma_told_item;
use super::super::commands::Command;
use super::super::gm::command_line;
use super::super::gm::joined;
use super::super::gm::law_words_resolve;
use super::super::gm::words_of;
use super::super::gm::ALL_VERBS;
use super::super::gm::GmVerb;
use super::super::gm_commands::around;
use super::super::gm_commands::coordinates;
use super::super::items::law_with_stack;
use super::super::model::law_gone_told;
use super::super::model::law_push;
use super::super::model::law_shown_to;
use super::super::model::lemma_forget;
use super::super::model::lemma_introduced;
use super::super::model::lemma_keeps_players_trans;
use super::super::model::lemma_only_told_trans;
use super::super::model::puff;
use super::super::model::sees;
use super::super::model::World;
use super::super::state::PlayerModel;
use super::super::windows::close;
use super::super::GHOST_LOOKTYPE;
use super::told::hears;
use super::told::law_messages_arrive;
use super::told::lemma_hears_earlier;
use super::told::lemma_hears_later;
use super::walks::law_teleports_arrive;
use super::walks::lemma_arrival_heard;
use super::walks::lemma_gone_heard;
use super::walks::others_stay;
use super::walks::shows_on;
use crate::map::grid::town_called;
use crate::map::grid::town_with_id;
use crate::map::stack::lemma_units_insert;
use crate::map::StackThing;
use crate::map::Town;
use crate::registry::law_add_last;
use crate::registry::law_set;
use crate::text::ascii_lower;
use crate::text::ascii_lowered;
use crate::text::capped;
use crate::text::decimal;
use crate::text::law_decimal_reads_back;
use crate::text::lowercase;
use crate::text::unsigned_value;
use crate::wire::Outfit;
use crate::wire::PacketModel;
use crate::wire::Stats;
use crate::wire::WireItem;
use crate::Position;

verus! {

/// `b` is the small form of the capital letter `a`.
pub open spec fn small_of(a: char, b: char) -> bool {
    'A' <= a <= 'Z' && b as int == a as int + 32
}

/// Two texts differ no more than in whether letters from A to Z are capital.
pub open spec fn alike(a: Seq<char>, b: Seq<char>) -> bool {
    &&& a.len() == b.len()
    &&& forall|i: int|
        #![trigger a[i]]
        #![trigger b[i]]
        0 <= i < a.len() ==> a[i] == b[i] || small_of(a[i], b[i]) || small_of(b[i], a[i])
}

pub proof fn lemma_alike(a: Seq<char>, b: Seq<char>)
    ensures
        alike(a, b) <==> ascii_lowered(a) == ascii_lowered(b),
{
    let x = ascii_lowered(a);
    let y = ascii_lowered(b);
    if alike(a, b) {
        assert forall|i: int| 0 <= i < a.len() implies x[i] == y[i] by {
            lemma_lower_char(a[i], b[i]);
        }
        assert(x =~= y);
    }
    if x == y {
        assert(a.len() == x.len() && b.len() == y.len());
        assert forall|i: int|
            #![trigger a[i]]
            #![trigger b[i]]
            0 <= i < a.len() implies a[i] == b[i] || small_of(a[i], b[i]) || small_of(
            b[i],
            a[i],
        ) by {
            assert(x[i] == y[i]);
            lemma_lower_char(a[i], b[i]);
        }
    }
}

proof fn lemma_lower_char(a: char, b: char)
    ensures
        ascii_lower(a) == ascii_lower(b) <==> a == b || small_of(a, b) || small_of(b, a),
{
    assert('A' <= a <= 'Z' ==> ascii_lower(a) as int == a as int + 32);
    assert('A' <= b <= 'Z' ==> ascii_lower(b) as int == b as int + 32);
    if ascii_lower(a) == ascii_lower(b) {
        assert(ascii_lower(a) as int == ascii_lower(b) as int);
    }
    if small_of(a, b) {
        assert(ascii_lower(a) as int == b as int);
        assert(ascii_lower(a) == b);
    }
    if small_of(b, a) {
        assert(ascii_lower(b) as int == a as int);
        assert(ascii_lower(b) == a);
    }
}

/// A line of words: the first is `word`, the others are `args`.
pub open spec fn orders(line: String, word: Seq<char>, args: Seq<Seq<char>>) -> bool {
    words_of(command_line(line@)) == seq![word] + args
}

/// Gamemaster `id` is in the game.
pub open spec fn is_master(w: World, id: u32) -> bool {
    w.wf() && w.players.has(id) && w.players.at(id).gamemaster
}

/// Player `id` was told `text` since `before`.
pub open spec fn is_told(before: World, later: World, id: u32, text: Seq<char>) -> bool {
    hears(before, later, id, PacketModel::TextMessage { mode: 21, text: encode_utf8(text) })
}

/// No one but player `who` is elsewhere, and it is on `to` with all it has.
pub open spec fn put_on(w: World, later: World, who: u32, to: Position) -> bool {
    &&& w.keeps_players(later)
    &&& later.players.has(who) ==> {
        &&& later.players.at(who).position == to
        &&& later.players.at(who).inventory == w.players.at(who).inventory
        &&& later.players.at(who).health == w.players.at(who).health
    }
    &&& others_stay(w, later, who)
    &&& later.monsters == w.monsters
    &&& later.overlay == w.overlay
}

proof fn lemma_ordered(w: World, id: u32, line: String, v: GmVerb, word: Seq<char>, args: Seq<Seq<char>>)
    requires
        is_master(w, id),
        orders(line, word, args),
        v.answers_to(word),
    ensures
        w.handled(Command::Gm { id, text: line }).0 == w.ordered(id, v, args),
{
    reveal(World::commanded);
    let words = words_of(command_line(line@));
    assert(words[0] == word);
    assert(words.drop_first() =~= args);
    law_words_resolve(v, word);
}

proof fn lemma_sent(w: World, id: u32, who: u32, to: Position, done: Seq<char>)
    requires
        w.wf(),
        w.players.has(who),
    ensures
        put_on(w, w.sent(id, who, to, done), who, to),
        is_told(w, w.sent(id, who, to, done), id, done),
{
    law_teleports_arrive(w, who, to);
    let a = w.teleported(who, to);
    let later = a.status(id, done);
    let p = PacketModel::TextMessage { mode: 21, text: encode_utf8(done) };
    lemma_status(a, id, done);
    law_messages_arrive(a, id, p);
    lemma_hears_earlier(w, a, later, id, p);
    lemma_keeps_players_trans(w, a, later);
}

/// Town `i` is the first whose name is `name`, letters from A to Z capital or not.
pub open spec fn first_called(towns: Seq<Town>, name: Seq<char>, i: int) -> bool {
    &&& 0 <= i < towns.len()
    &&& alike(towns[i].name@, name)
    &&& forall|j: int| 0 <= j < i ==> !alike(#[trigger] towns[j].name@, name)
}

/// Town `i` is the first with this number.
pub open spec fn first_numbered(towns: Seq<Town>, n: nat, i: int) -> bool {
    &&& 0 <= i < towns.len()
    &&& towns[i].id == n
    &&& forall|j: int| 0 <= j < i ==> (#[trigger] towns[j]).id != n
}

proof fn lemma_town_called(towns: Seq<Town>, name: Seq<char>, i: int)
    requires
        first_called(towns, name, i),
    ensures
        town_called(towns, name) == Some(towns[i]),
    decreases towns.len(),
{
    lemma_alike(towns[0].name@, name);
    if i > 0 {
        let rest = towns.drop_first();
        assert(!alike(towns[0].name@, name));
        assert forall|j: int| 0 <= j < i - 1 implies !alike(#[trigger] rest[j].name@, name) by {
            assert(rest[j] == towns[j + 1]);
        }
        lemma_town_called(rest, name, i - 1);
    }
}

proof fn lemma_town_numbered(towns: Seq<Town>, n: u32, i: int)
    requires
        first_numbered(towns, n as nat, i),
    ensures
        town_with_id(towns, n) == Some(towns[i]),
    decreases towns.len(),
{
    if i > 0 {
        let rest = towns.drop_first();
        assert(towns[0].id != n);
        assert forall|j: int| 0 <= j < i - 1 implies (#[trigger] rest[j]).id != n by {
            assert(rest[j] == towns[j + 1]);
        }
        lemma_town_numbered(rest, n, i - 1);
    }
}

/// `/temple` with the name of a town puts the gamemaster on the temple of that town.
pub proof fn law_temple_of_named_town(
    w: World,
    id: u32,
    line: String,
    args: Seq<Seq<char>>,
    i: int,
)
    requires
        is_master(w, id),
        orders(line, "temple"@, args),
        args.len() > 0,
        unsigned_value(args[0], 0xFFFF_FFFF) is None,
        first_called(w.map.town_list(), args[0], i),
    ensures
        ({
            let t = w.map.town_list()[i];
            let to = Position { x: t.x, y: t.y, z: t.z };
            let later = w.handled(Command::Gm { id, text: line }).0;
            &&& put_on(w, later, id, to)
            &&& is_told(
                w,
                later,
                id,
                "Teleported to temple ("@ + coordinates(to) + ")."@,
            )
        }),
{
    lemma_ordered(w, id, line, GmVerb::Temple, "temple"@, args);
    lemma_town_called(w.map.town_list(), args[0], i);
    let t = w.map.town_list()[i];
    let to = Position { x: t.x, y: t.y, z: t.z };
    lemma_sent(w, id, id, to, around("Teleported to temple ("@, coordinates(to), ")."@));
}

/// `/temple` with a number puts the gamemaster on the temple of the town with that number.
pub proof fn law_temple_of_numbered_town(
    w: World,
    id: u32,
    line: String,
    args: Seq<Seq<char>>,
    n: u32,
    i: int,
)
    requires
        is_master(w, id),
        orders(line, "temple"@, args),
        args.len() > 0,
        args[0] == decimal(n as nat),
        first_numbered(w.map.town_list(), n as nat, i),
    ensures
        ({
            let t = w.map.town_list()[i];
            let to = Position { x: t.x, y: t.y, z: t.z };
            let later = w.handled(Command::Gm { id, text: line }).0;
            &&& put_on(w, later, id, to)
            &&& is_told(
                w,
                later,
                id,
                "Teleported to temple ("@ + coordinates(to) + ")."@,
            )
        }),
{
    lemma_ordered(w, id, line, GmVerb::Temple, "temple"@, args);
    lemma_number_reads(n as nat, 0xFFFF_FFFF);
    lemma_town_numbered(w.map.town_list(), n, i);
    let t = w.map.town_list()[i];
    let to = Position { x: t.x, y: t.y, z: t.z };
    lemma_sent(w, id, id, to, around("Teleported to temple ("@, coordinates(to), ")."@));
}

/// `/temple` alone puts the gamemaster where newcomers arrive.
pub proof fn law_temple_alone(w: World, id: u32, line: String)
    requires
        is_master(w, id),
        orders(line, "temple"@, Seq::empty()),
    ensures
        put_on(w, w.handled(Command::Gm { id, text: line }).0, id, w.map.spawn_point()),
{
    let none: Seq<Seq<char>> = Seq::empty();
    lemma_ordered(w, id, line, GmVerb::Temple, "temple"@, none);
    let to = w.map.spawn_point();
    lemma_sent(w, id, id, to, around("Teleported to temple ("@, coordinates(to), ")."@));
}

proof fn lemma_decimal_digits(n: nat)
    ensures
        decimal(n).len() > 0,
        forall|i: int| 0 <= i < decimal(n).len() ==> '0' <= #[trigger] decimal(n)[i] <= '9',
    decreases n,
{
    if n >= 10 {
        lemma_decimal_digits(n / 10);
        assert forall|i: int| 0 <= i < decimal(n).len() implies '0' <= #[trigger] decimal(n)[i]
            <= '9' by {
            if i < decimal(n).len() - 1 {
                assert(decimal(n)[i] == decimal(n / 10)[i]);
            }
        }
    }
}

/// A number that is written out and not too large is read.
pub proof fn lemma_number_reads(n: nat, max: nat)
    requires
        n <= max,
    ensures
        unsigned_value(decimal(n), max) == Some(n),
{
    lemma_decimal_digits(n);
    law_decimal_reads_back(n);
    assert('0' <= decimal(n)[0]);
}

/// `t` is the one player whose name is `name`, letters from A to Z capital or not.
pub open spec fn is_called(w: World, t: u32, name: Seq<char>) -> bool {
    &&& w.players.has(t)
    &&& alike(w.players.at(t).name, name)
    &&& forall|k: u32| #[trigger]
        w.players.has(k) && k != t ==> !alike(w.players.at(k).name, name)
}

proof fn lemma_called(w: World, t: u32, name: Seq<char>)
    requires
        w.wf(),
        is_called(w, t, name),
    ensures
        w.player_named(name) == Some(t),
{
    assert(w.players.order.contains(t));
    lemma_named_among(w, w.players.order, t, name);
}

proof fn lemma_named_among(w: World, ids: Seq<u32>, t: u32, name: Seq<char>)
    requires
        is_called(w, t, name),
        forall|i: int| 0 <= i < ids.len() ==> w.players.has(#[trigger] ids[i]),
        ids.contains(t),
    ensures
        w.named_among(ids, name) == Some(t),
    decreases ids.len(),
{
    lemma_alike(w.players.at(ids[0]).name, name);
    if ids[0] != t {
        let i = ids.index_of(t);
        assert(ids.drop_first()[i - 1] == t);
        assert(w.players.has(ids[0]));
        lemma_named_among(w, ids.drop_first(), t, name);
    }
}

/// Three numbers written out.
pub open spec fn three_numbers(p: Position) -> Seq<Seq<char>> {
    seq![decimal(p.x as nat), decimal(p.y as nat), decimal(p.z as nat)]
}

/// `/goto x y z` puts the gamemaster on that tile, if the map has it.
pub proof fn law_goto_coordinates(w: World, id: u32, line: String, to: Position)
    requires
        is_master(w, id),
        orders(line, "goto"@, three_numbers(to)),
        w.map.stack_at(to) is Some,
    ensures
        put_on(w, w.handled(Command::Gm { id, text: line }).0, id, to),
{
    let args = three_numbers(to);
    lemma_ordered(w, id, line, GmVerb::Goto, "goto"@, args);
    lemma_number_reads(to.x as nat, 0xFFFF);
    lemma_number_reads(to.y as nat, 0xFFFF);
    lemma_number_reads(to.z as nat, 0xFF);
    lemma_sent(w, id, id, to, around("Teleported to "@, coordinates(to), "."@));
}

/// `/goto` and `/teleportto` with the name of a player put the gamemaster where that player is.
pub proof fn law_goto_player(w: World, id: u32, line: String, word: Seq<char>, name: Seq<char>, t: u32)
    requires
        is_master(w, id),
        word == "goto"@ || word == "teleportto"@,
        orders(line, word, seq![name]),
        is_called(w, t, name),
    ensures
        put_on(
            w,
            w.handled(Command::Gm { id, text: line }).0,
            id,
            w.players.at(t).position,
        ),
{
    let v = if word == "goto"@ {
        GmVerb::Goto
    } else {
        GmVerb::TeleportTo
    };
    lemma_ordered(w, id, line, v, word, seq![name]);
    lemma_called(w, t, name);
    lemma_sent(w, id, id, w.players.at(t).position, around("Teleported to "@, name, "."@));
}

/// `/bring` with the name of a player puts that player where the gamemaster is.
pub proof fn law_bring_player(w: World, id: u32, line: String, name: Seq<char>, t: u32)
    requires
        is_master(w, id),
        orders(line, "bring"@, seq![name]),
        is_called(w, t, name),
    ensures
        put_on(
            w,
            w.handled(Command::Gm { id, text: line }).0,
            t,
            w.players.at(id).position,
        ),
{
    lemma_ordered(w, id, line, GmVerb::Bring, "bring"@, seq![name]);
    lemma_called(w, t, name);
    lemma_sent(w, id, t, w.players.at(id).position, around("Brought "@, name, " to you."@));
}

/// `/teleport` with a name and coordinates puts that player there, if the map has the tile.
pub proof fn law_teleport_player(w: World, id: u32, line: String, name: Seq<char>, t: u32, to: Position)
    requires
        is_master(w, id),
        orders(line, "teleport"@, seq![name] + three_numbers(to)),
        is_called(w, t, name),
        w.map.stack_at(to) is Some,
    ensures
        put_on(w, w.handled(Command::Gm { id, text: line }).0, t, to),
{
    let args = seq![name] + three_numbers(to);
    lemma_ordered(w, id, line, GmVerb::Teleport, "teleport"@, args);
    lemma_called(w, t, name);
    lemma_number_reads(to.x as nat, 0xFFFF);
    lemma_number_reads(to.y as nat, 0xFFFF);
    lemma_number_reads(to.z as nat, 0xFF);
    assert(args.skip(1) =~= three_numbers(to));
    assert(args[0] == name);
    lemma_sent(
        w,
        id,
        t,
        to,
        around(around("Teleported "@, name, " to "@), coordinates(to), "."@),
    );
}

/// `/changesex` makes a player male or female, and nothing else of it is new.
pub proof fn law_changesex(w: World, id: u32, line: String, name: Seq<char>, t: u32, sex: Seq<char>)
    requires
        is_master(w, id),
        orders(line, "changesex"@, seq![name, sex]),
        is_called(w, t, name),
        lowercase(sex) == "male"@ || lowercase(sex) == "female"@,
    ensures
        ({
            let later = w.handled(Command::Gm { id, text: line }).0;
            &&& w.keeps_players(later)
            &&& later.players.has(t) ==> later.players.at(t) == (PlayerModel {
                sex: if lowercase(sex) == "male"@ { 1 } else { 0 },
                session: later.players.at(t).session,
                known: later.players.at(t).known,
                ..w.players.at(t)
            })
            &&& others_stay(w, later, t)
            &&& later.monsters == w.monsters && later.overlay == w.overlay
        }),
{
    let args = seq![name, sex];
    lemma_ordered(w, id, line, GmVerb::ChangeSex, "changesex"@, args);
    lemma_called(w, t, name);
    let male = lowercase(sex) == "male"@;
    let q = PlayerModel {
        sex: if male {
            1
        } else {
            0
        },
        ..w.players.at(t)
    };
    law_set(w.players, t, q);
    let a = w.set_player(t, q);
    let text = around(
        name,
        " is now "@,
        if male {
            "male."@
        } else {
            "female."@
        },
    );
    lemma_status(a, id, text);
    assert(w.keeps_players(a));
    lemma_keeps_players_trans(w, a, a.status(id, text));
}

/// The arguments of a command that works on the gamemaster itself, or on a player that is named.
pub open spec fn aims_at(w: World, id: u32, args: Seq<Seq<char>>, value: Seq<char>, t: u32) -> bool {
    ||| args == seq![value] && t == id
    ||| args.len() == 2 && args[1] == value && is_called(w, t, args[0])
}

/// `/setlooktype` with a number gives the gamemaster, or the player that is named, that look.
pub proof fn law_setlooktype(w: World, id: u32, line: String, args: Seq<Seq<char>>, t: u32, n: u16)
    requires
        is_master(w, id),
        orders(line, "setlooktype"@, args),
        aims_at(w, id, args, decimal(n as nat), t),
    ensures
        ({
            let later = w.handled(Command::Gm { id, text: line }).0;
            &&& w.keeps_players(later)
            &&& later.players.has(t) ==> later.players.at(t) == (PlayerModel {
                outfit: Outfit { look_type: n, ..w.players.at(t).outfit },
                session: later.players.at(t).session,
                known: later.players.at(t).known,
                ..w.players.at(t)
            })
            &&& others_stay(w, later, t)
            &&& later.monsters == w.monsters && later.overlay == w.overlay
        }),
{
    lemma_ordered(w, id, line, GmVerb::SetLookType, "setlooktype"@, args);
    lemma_number_reads(n as nat, 0xFFFF);
    assert(args.last() == decimal(n as nat));
    if args.len() == 2 {
        lemma_called(w, t, args[0]);
    }
    let outfit = Outfit { look_type: n, ..w.players.at(t).outfit };
    let q = PlayerModel { outfit, ..w.players.at(t) };
    law_set(w.players, t, q);
    let a = w.set_player(t, q);
    lemma_dressed(w, t, outfit);
    let b = w.dressed(t, outfit);
    let text = around("Look type set to "@, decimal(n as nat), "."@);
    lemma_status(b, id, text);
    let later = b.status(id, text);
    lemma_only_told_trans(a, b, later);
    assert(w.keeps_players(a));
    lemma_keeps_players_trans(w, a, later);
}

proof fn lemma_refreshed(w: World, s: u32, who: u32, pos: Position)
    requires
        w.players.wf(),
    ensures
        w.only_told(w.refreshed(s, who, pos)),
{
    let p = PacketModel::RemoveCreature { id: who };
    law_push(w, s, p);
    let a = w.push(s, p);
    lemma_forget(a, s, who);
    let b = a.forget(s, who);
    law_shown_to(b, seq![s], who, pos);
    lemma_only_told_trans(w, a, b);
    lemma_only_told_trans(w, b, w.refreshed(s, who, pos));
}

proof fn lemma_all_refreshed(w: World, ids: Seq<u32>, who: u32, pos: Position)
    requires
        w.players.wf(),
    ensures
        w.only_told(w.all_refreshed(ids, who, pos)),
    decreases ids.len(),
{
    if ids.len() > 0 {
        lemma_refreshed(w, ids[0], who, pos);
        let a = w.refreshed(ids[0], who, pos);
        lemma_all_refreshed(a, ids.drop_first(), who, pos);
        lemma_only_told_trans(w, a, w.all_refreshed(ids, who, pos));
    }
}

/// `/speed` with a number from 10 to 2500 makes the gamemaster, or the player that is named, walk
/// at that speed.
pub proof fn law_speed(w: World, id: u32, line: String, args: Seq<Seq<char>>, t: u32, n: u16)
    requires
        is_master(w, id),
        orders(line, "speed"@, args) || orders(line, "spd"@, args),
        aims_at(w, id, args, decimal(n as nat), t),
        10 <= n <= 2500,
    ensures
        ({
            let later = w.handled(Command::Gm { id, text: line }).0;
            &&& w.keeps_players(later)
            &&& later.players.has(t) ==> later.players.at(t) == (PlayerModel {
                speed: n,
                session: later.players.at(t).session,
                known: later.players.at(t).known,
                ..w.players.at(t)
            })
            &&& others_stay(w, later, t)
            &&& later.monsters == w.monsters && later.overlay == w.overlay
        }),
{
    let word = if orders(line, "speed"@, args) {
        "speed"@
    } else {
        "spd"@
    };
    lemma_ordered(w, id, line, GmVerb::Speed, word, args);
    lemma_number_reads(n as nat, 0xFFFF);
    assert(args.last() == decimal(n as nat));
    if args.len() == 2 {
        lemma_called(w, t, args[0]);
    }
    let p = w.players.at(t);
    let q = PlayerModel { speed: n, ..p };
    law_set(w.players, t, q);
    let a = w.set_player(t, q);
    let m = PacketModel::Stats { stats: Stats::of(p.health, p.max_health, n) };
    law_push(a, t, m);
    let b = a.push(t, m);
    let ids = b.spectators(p.position, t);
    lemma_all_refreshed(b, ids, t, p.position);
    let c = b.all_refreshed(ids, t, p.position);
    lemma_refreshed(c, t, t, p.position);
    let e = w.sped(t, n);
    assert(e == c.refreshed(t, t, p.position));
    let text = e.whose(id, t) + " speed set to "@ + decimal(n as nat) + "."@;
    lemma_status(e, id, text);
    let later = e.status(id, text);
    lemma_only_told_trans(a, b, c);
    lemma_only_told_trans(a, c, e);
    lemma_only_told_trans(a, e, later);
    assert(w.keeps_players(a));
    lemma_keeps_players_trans(w, a, later);
}

/// How many pieces `/item` makes: of stackables as many as asked for, at least 1 and at most 100,
/// and of anything else one.
pub open spec fn pieces_made(stackable: bool, count: u16) -> int {
    if !stackable {
        1
    } else if count < 1 {
        1
    } else if count > 100 {
        100
    } else {
        count as int
    }
}

proof fn lemma_item_spawned(
    w: World,
    id: u32,
    sid: u16,
    count: u16,
    other_sid: u16,
    other: Position,
)
    requires
        w.wf(),
        w.players.has(id),
        w.map.meta_at(sid) is Some,
        w.stack(w.players.at(id).position) matches Some(st) && st.things.len() < 10,
        other_sid != sid,
        other != w.players.at(id).position,
    ensures
        ({
            let pos = w.players.at(id).position;
            let later = w.item_spawned(id, pos, sid, count);
            &&& w.only_told(World { overlay: w.overlay, ..later })
            &&& later.pieces_on(pos, sid) == w.pieces_on(pos, sid) + pieces_made(
                w.map.meta_at(sid)->0.stackable,
                count,
            )
            &&& later.pieces_on(pos, other_sid) == w.pieces_on(pos, other_sid)
            &&& later.stack(other) == w.stack(other)
        }),
{
    let pos = w.players.at(id).position;
    let m = w.map.meta_at(sid)->0;
    let st = w.stack(pos)->0;
    super::lemma_stack_wf(w, pos);
    let subtype = if m.stackable {
        Some(pieces_made(true, count) as u8)
    } else {
        None
    };
    let item = WireItem { client_id: m.client_id, subtype, animated: m.animated };
    let t = StackThing { item, server_id: sid, count: subtype };
    let a = w.topped_with(pos, t);
    law_with_stack(w, pos, st.with_front(t), other);
    lemma_units_insert(st.things, st.pre as int, t, sid);
    lemma_units_insert(st.things, st.pre as int, t, other_sid);
    lemma_told_item(a, pos, a.front_slot(pos), item, false);
    let b = a.told_item(pos, a.front_slot(pos), item, false);
    let text = around("Created item "@, decimal(sid as nat), "."@);
    lemma_status(b, id, text);
    lemma_only_told_trans(a, b, b.status(id, text));
}

/// The arguments of `/item`: a number, and a count that is 1 where it is left out.
pub open spec fn asks_for(args: Seq<Seq<char>>, sid: u16, count: u16) -> bool {
    &&& 1 <= args.len() <= 2
    &&& args[0] == decimal(sid as nat)
    &&& if args.len() == 2 {
        args[1] == decimal(count as nat)
    } else {
        count == 1
    }
}

proof fn lemma_item_asked(w: World, args: Seq<Seq<char>>, sid: u16, count: u16)
    requires
        asks_for(args, sid, count),
    ensures
        w.item_asked(args) == Ok::<(u16, u16), Seq<char>>((sid, count)),
{
    lemma_number_reads(sid as nat, 0xFFFF);
    lemma_number_reads(count as nat, 0xFFFF);
}

/// `/item` with a number and a count puts that many pieces on the gamemaster's tile, and leaves
/// everything else as it was.
pub proof fn law_item_appears(
    w: World,
    id: u32,
    line: String,
    args: Seq<Seq<char>>,
    sid: u16,
    count: u16,
    other_sid: u16,
    other: Position,
)
    requires
        is_master(w, id),
        orders(line, "item"@, args) || orders(line, "i"@, args),
        asks_for(args, sid, count),
        w.map.meta_at(sid) is Some,
        w.stack(w.players.at(id).position) matches Some(st) && st.things.len() < 10,
        other_sid != sid,
        other != w.players.at(id).position,
    ensures
        ({
            let pos = w.players.at(id).position;
            let later = w.handled(Command::Gm { id, text: line }).0;
            &&& w.only_told(World { overlay: w.overlay, ..later })
            &&& later.pieces_on(pos, sid) == w.pieces_on(pos, sid) + pieces_made(
                w.map.meta_at(sid)->0.stackable,
                count,
            )
            &&& later.pieces_on(pos, other_sid) == w.pieces_on(pos, other_sid)
            &&& later.stack(other) == w.stack(other)
        }),
{
    let word = if orders(line, "item"@, args) {
        "item"@
    } else {
        "i"@
    };
    lemma_ordered(w, id, line, GmVerb::Item, word, args);
    lemma_item_asked(w, args, sid, count);
    assert(w.ordered(id, GmVerb::Item, args) == w.gm_item(id, args));
    lemma_item_spawned(w, id, sid, count, other_sid, other);
}

proof fn lemma_conjured(w: World, ids: Seq<u32>, who: u32, pos: Position)
    requires
        w.players.wf(),
    ensures
        w.only_told(w.conjured_to(ids, who, pos)),
    decreases ids.len(),
{
    if ids.len() > 0 {
        let s = ids[0];
        if w.can_introduce(s, who) {
            let a = w.introduced(s, who);
            let p = PacketModel::AddTileCreature {
                position: pos,
                stackpos: a.stackpos_on(pos, who),
                creature: w.shown(s, who),
            };
            lemma_introduced(w, s, who);
            law_push(a, s, p);
            let b = a.push(s, p);
            law_push(b, s, puff(pos));
            let c = b.push(s, puff(pos));
            lemma_only_told_trans(w, a, b);
            lemma_only_told_trans(w, b, c);
            lemma_conjured(c, ids.drop_first(), who, pos);
            lemma_only_told_trans(w, c, w.conjured_to(ids, who, pos));
        } else {
            lemma_conjured(w, ids.drop_first(), who, pos);
        }
    }
}

/// `/m` with a name makes one monster of that name, next to the gamemaster, on a tile where it can
/// walk and no one stands; it is as healthy as its kind is. All other monsters stay as they were.
pub proof fn law_called_monster_is_there(w: World, id: u32, line: String, args: Seq<Seq<char>>)
    requires
        is_master(w, id),
        w.next_monster_id < u32::MAX,
        orders(line, "monster"@, args) || orders(line, "m"@, args),
        args.len() > 0,
        w.deserted_beside(w.players.at(id).position, 0) is Some,
    ensures
        ({
            let later = w.handled(Command::Gm { id, text: line }).0;
            let new = w.next_monster_id;
            let m = later.monsters.at(new);
            &&& w.keeps_players(later)
            &&& later.monsters.has(new) && !w.monsters.has(new)
            &&& m.name == joined(args)
            &&& close(w.players.at(id).position, m.position)
            &&& m.position != w.players.at(id).position
            &&& w.map.walkable(m.position)
            &&& w.creatures_on(m.position).len() == 0
            &&& w.types.contains_key(ascii_lowered(joined(args))) ==> {
                let kind = w.types[ascii_lowered(joined(args))];
                m.health == kind.health && m.max_health == kind.max_health && m.attack
                    == kind.attack && m.speed == kind.speed && m.look_type == kind.look_type
            }
            &&& !w.types.contains_key(ascii_lowered(joined(args))) ==> m.health == 100
                && m.max_health == 100 && m.attack == 7 && m.speed == 200 && m.look_type == 100
            &&& forall|k: u32|
                #![trigger later.monsters.has(k)]
                #![trigger later.monsters.at(k)]
                w.monsters.has(k) ==> later.monsters.has(k) && later.monsters.at(k)
                    == w.monsters.at(k)
            &&& others_stay(w, later, id)
            &&& later.overlay == w.overlay
        }),
{
    let word = if orders(line, "monster"@, args) {
        "monster"@
    } else {
        "m"@
    };
    lemma_ordered(w, id, line, GmVerb::Monster, word, args);
    let at = w.players.at(id).position;
    law_called_monsters_appear_beside(w, at, 0);
    let pos = w.deserted_beside(at, 0)->0;
    let m = w.monster_called(joined(args), pos);
    assert(!w.monsters.has(w.next_monster_id));
    law_add_last(w.monsters, w.next_monster_id, m);
    let a = w.monster_added(m);
    let ids = a.spectators(pos, u32::MAX);
    lemma_conjured(a, ids, w.next_monster_id, pos);
    let b = a.conjured_to(ids, w.next_monster_id, pos);
    let text = around("Spawned "@, joined(args), "."@);
    lemma_status(b, id, text);
    let later = b.status(id, text);
    lemma_only_told_trans(a, b, later);
    assert(w.keeps_players(a));
    lemma_keeps_players_trans(w, a, later);
}

/// `/help` shows a gamemaster how each command is written and what it does.
pub proof fn law_help_lists_all(w: World, id: u32, line: String, v: GmVerb)
    requires
        is_master(w, id),
        orders(line, "help"@, Seq::empty()),
    ensures
        w.only_told(w.handled(Command::Gm { id, text: line }).0),
        hears(
            w,
            w.handled(Command::Gm { id, text: line }).0,
            id,
            PacketModel::TextMessage {
                mode: 4,
                text: capped(encode_utf8(v.usage_text() + " - "@ + v.description_text())),
            },
        ),
{
    let none: Seq<Seq<char>> = Seq::empty();
    lemma_ordered(w, id, line, GmVerb::Help, "help"@, none);
    let k: int = match v {
        GmVerb::Help => 0,
        GmVerb::Item => 1,
        GmVerb::Goto => 2,
        GmVerb::Temple => 3,
        GmVerb::Teleport => 4,
        GmVerb::TeleportTo => 5,
        GmVerb::Bring => 6,
        GmVerb::ChangeSex => 7,
        GmVerb::SetLookType => 8,
        GmVerb::ReloadLua => 9,
        GmVerb::Monster => 10,
        GmVerb::GhostMode => 11,
        GmVerb::Noclip => 12,
        GmVerb::Speed => 13,
    };
    assert(ALL_VERBS@[k] == v);
    lemma_helped(w, id, 14, k);
}

proof fn lemma_helped(w: World, id: u32, n: int, k: int)
    requires
        w.players.wf(),
    ensures
        w.only_told(w.helped(id, n)),
        0 <= k < n ==> hears(
            w,
            w.helped(id, n),
            id,
            PacketModel::TextMessage {
                mode: 4,
                text: capped(
                    encode_utf8(
                        ALL_VERBS@[k].usage_text() + " - "@ + ALL_VERBS@[k].description_text(),
                    ),
                ),
            },
        ),
    decreases n,
{
    if n <= 0 {
        law_push(
            w,
            id,
            PacketModel::TextMessage {
                mode: 4,
                text: capped(encode_utf8("Gamemaster commands:"@)),
            },
        );
    } else {
        lemma_helped(w, id, n - 1, k);
        let a = w.helped(id, n - 1);
        let v = ALL_VERBS@[n - 1];
        let p = PacketModel::TextMessage {
            mode: 4,
            text: capped(encode_utf8(v.usage_text() + " - "@ + v.description_text())),
        };
        law_push(a, id, p);
        law_messages_arrive(a, id, p);
        let c = a.push(id, p);
        lemma_only_told_trans(w, a, c);
        if k == n - 1 {
            lemma_hears_earlier(w, a, c, id, p);
        } else if 0 <= k < n {
            let r = PacketModel::TextMessage {
                mode: 4,
                text: capped(
                    encode_utf8(
                        ALL_VERBS@[k].usage_text() + " - "@ + ALL_VERBS@[k].description_text(),
                    ),
                ),
            };
            lemma_hears_later(w, a, c, id, r);
        }
    }
}

/// When a gamemaster becomes a ghost, everyone else who sees where it is and is no gamemaster is
/// told that it is gone; when it is one no more, they are shown it, as long as it is there.
pub proof fn law_ghosts_vanish(w: World, id: u32, line: String, k: u32)
    requires
        is_master(w, id),
        orders(line, "ghost"@, Seq::empty()),
        w.players.has(k),
        k != id,
        !w.players.at(k).gamemaster,
        sees(w.players.at(k).position, w.players.at(id).position),
    ensures
        ({
            let p = w.players.at(id);
            let later = w.handled(Command::Gm { id, text: line }).0;
            &&& later.players.has(id) ==> later.players.at(id).is_ghost == !p.is_ghost
                && later.players.at(id).position == p.position
            &&& !p.is_ghost ==> hears(w, later, k, PacketModel::RemoveCreature { id })
            &&& p.is_ghost && later.players.has(id) ==> exists|m: PacketModel|
                shows_on(m, id, p.position) && #[trigger] hears(w, later, k, m)
        }),
{
    let none: Seq<Seq<char>> = Seq::empty();
    lemma_ordered(w, id, line, GmVerb::GhostMode, "ghost"@, none);
    law_ghost_toggles(w, id);
    let p = w.players.at(id);
    let outfit = if p.is_ghost {
        match p.prev_outfit {
            Some(o) => o,
            None => p.outfit,
        }
    } else {
        Outfit { look_type: GHOST_LOOKTYPE, ..p.outfit }
    };
    let q = if p.is_ghost {
        PlayerModel { is_ghost: false, prev_outfit: None, outfit, ..p }
    } else {
        PlayerModel { is_ghost: true, prev_outfit: Some(p.outfit), outfit, ..p }
    };
    let a = w.set_player(id, q);
    law_set(w.players, id, q);
    lemma_dressed(a, id, outfit);
    let b = a.dressed(id, outfit);
    assert(a.set_player(id, PlayerModel { outfit, ..a.players.at(id) }) =~= a);
    let ids = b.laymen(p.position, id);
    if b.players.has(k) {
        let order = b.players.order;
        assert(order.contains(k));
        order.lemma_filter_contains(b.layman(p.position, id), order.index_of(k));
    }
    let later = w.handled(Command::Gm { id, text: line }).0;
    if p.is_ghost {
        law_shown_to(b, ids, id, p.position);
        let c = b.shown_to(ids, id, p.position);
        lemma_status(c, id, "Ghost mode OFF."@);
        assert(later == c.status(id, "Ghost mode OFF."@));
        lemma_only_told_trans(a, b, c);
        lemma_only_told_trans(b, c, later);
        lemma_only_told_trans(a, c, later);
        if later.players.has(id) {
            assert(c.players.has(id));
            let m = if b.players.has(k) {
                lemma_arrival_heard(b, ids, id, p.position, k)
            } else {
                PacketModel::AddTileCreature {
                    position: p.position,
                    stackpos: 0,
                    creature: w.creature_look(id, false),
                }
            };
            if b.players.has(k) {
                lemma_hears_later(b, c, later, k, m);
                lemma_hears_earlier(a, b, later, k, m);
            }
            assert(shows_on(m, id, p.position) && hears(w, later, k, m));
        }
    } else {
        law_gone_told(b, ids, id);
        let c = b.gone_told(ids, id);
        lemma_status(c, id, "Ghost mode ON."@);
        assert(later == c.status(id, "Ghost mode ON."@));
        lemma_only_told_trans(b, c, later);
        lemma_only_told_trans(a, b, later);
        if b.players.has(k) {
            let m = PacketModel::RemoveCreature { id };
            lemma_gone_heard(b, ids, id, k);
            lemma_hears_later(b, c, later, k, m);
            lemma_hears_earlier(a, b, later, k, m);
        }
    }
}

} // verus!
