//! What the gamemaster commands do.

use std::collections::VecDeque;
use vstd::prelude::*;
use vstd::string::StringExecFns;

use super::gm::command_line;
use super::gm::command_words;
use super::gm::join;
use super::gm::joined;
use super::gm::parse_pos;
use super::gm::position_in;
use super::gm::strings_view;
use super::gm::verb_from;
use super::gm::words_of;
use super::gm::ALL_VERBS;
use super::gm::GmVerb;
use super::model::lemma_set_player;
use super::model::puff;
use super::model::sees;
use super::model::World;
use super::state::MonsterModel;
use super::state::MonsterState;
use super::state::PlayerModel;
use super::state::TypeModel;
use super::GHOST_LOOKTYPE;
use super::Game;
use crate::map::grid::town_called;
use crate::map::grid::town_with_id;
use crate::map::StackThing;
use crate::registry::lemma_filter_step;
use crate::text::ascii_lowered;
use crate::text::decimal;
use crate::text::eq_ignore_ascii_case;
use crate::text::lowercase;
use crate::text::parse_unsigned;
use crate::text::to_ascii_lowercase;
use crate::text::to_decimal;
use crate::text::to_lowercase;
use crate::text::unsigned_value;
use crate::wire::Effect;
use crate::wire::Outfit;
use crate::wire::Packet;
use crate::wire::PacketModel;
use crate::wire::Stats;
use crate::wire::WireItem;
use crate::Direction;
use crate::Position;

verus! {

/// Three coordinates.
pub open spec fn coordinates(p: Position) -> Seq<char> {
    decimal(p.x as nat) + ", "@ + decimal(p.y as nat) + ", "@ + decimal(p.z as nat)
}

fn make_coordinates(p: Position) -> (r: String)
    ensures
        r@ == coordinates(p),
{
    to_decimal(p.x as u64).concat(", ").concat(to_decimal(p.y as u64).as_str()).concat(
        ", ",
    ).concat(to_decimal(p.z as u64).as_str())
}

/// `head`, something in the middle, and `tail`.
pub open spec fn around(head: Seq<char>, middle: Seq<char>, tail: Seq<char>) -> Seq<char> {
    head + middle + tail
}

fn make_around(head: &str, middle: &str, tail: &str) -> (r: String)
    ensures
        r@ == around(head@, middle@, tail@),
{
    head.to_string().concat(middle).concat(tail)
}

impl World {

    /// The answer where no player has this name.
    pub open spec fn no_player(self, id: u32, name: Seq<char>) -> World {
        self.status(id, around("Player '"@, name, "' not found."@))
    }

    /// Player `who` put on `to`, of which gamemaster `id` is told by `done`.
    pub open spec fn sent(self, id: u32, who: u32, to: Position, done: Seq<char>) -> World {
        self.teleported(who, to).status(id, done)
    }

    /// The first of `ids` whose name is `name` when ASCII case is ignored.
    pub open spec fn named_among(self, ids: Seq<u32>, name: Seq<char>) -> Option<u32>
        decreases ids.len(),
    {
        if ids.len() == 0 {
            None
        } else if ascii_lowered(self.players.at(ids[0]).name) == ascii_lowered(name) {
            Some(ids[0])
        } else {
            self.named_among(ids.drop_first(), name)
        }
    }

    /// The player called `name`, ASCII case ignored.
    pub open spec fn player_named(self, name: Seq<char>) -> Option<u32> {
        self.named_among(self.players.order, name)
    }

    /// `/help`: one line for each command.
    pub open spec fn helped(self, id: u32, n: int) -> World
        decreases n,
    {
        if n <= 0 {
            self.console(id, "Gamemaster commands:"@)
        } else {
            let v = ALL_VERBS@[n - 1];
            self.helped(id, n - 1).console(id, v.usage_text() + " - "@ + v.description_text())
        }
    }

    /// `/goto <x> <y> <z>` and `/goto "player"`.
    pub open spec fn gm_goto(self, id: u32, args: Seq<Seq<char>>) -> World {
        match position_in(args) {
            Some(pos) => if self.map.stack_at(pos) is None {
                self.status(id, "There is no tile there."@)
            } else {
                self.sent(id, id, pos, around("Teleported to "@, coordinates(pos), "."@))
            },
            None => if args.len() == 1 {
                match self.player_named(args[0]) {
                    Some(t) => self.sent(
                        id,
                        id,
                        self.players.at(t).position,
                        around("Teleported to "@, args[0], "."@),
                    ),
                    None => self.no_player(id, args[0]),
                }
            } else {
                self.status(id, "Usage: /goto <x> <y> <z> | /goto \"player\""@)
            },
        }
    }

    /// `/temple`, `/temple <id>` and `/temple "name"`.
    pub open spec fn gm_temple(self, id: u32, args: Seq<Seq<char>>) -> World {
        if args.len() == 0 {
            self.sent_to_temple(id, self.map.spawn_point())
        } else {
            match unsigned_value(args[0], 0xFFFF_FFFF) {
                Some(n) => match town_with_id(self.map.town_list(), n as u32) {
                    Some(t) => self.sent_to_temple(id, t.temple()),
                    None => self.status(id, around("No town with id "@, decimal(n), "."@)),
                },
                None => match town_called(self.map.town_list(), args[0]) {
                    Some(t) => self.sent_to_temple(id, t.temple()),
                    None => self.status(id, around("No town named '"@, args[0], "'."@)),
                },
            }
        }
    }

    pub open spec fn sent_to_temple(self, id: u32, to: Position) -> World {
        self.sent(id, id, to, around("Teleported to temple ("@, coordinates(to), ")."@))
    }

    /// The item type and count that `/item` asks for: a type by number or by name, which may
    /// be several words, and a count behind it. The name where no item has it.
    pub open spec fn item_asked(self, args: Seq<Seq<char>>) -> Result<(u16, u16), Seq<char>> {
        match unsigned_value(args[0], 0xFFFF) {
            Some(n) => Ok((n as u16, self.count_asked(args))),
            None => {
                let counted = args.len() > 1 && unsigned_value(args.last(), 0xFFFF) is Some;
                let name = joined(
                    if counted {
                        args.drop_last()
                    } else {
                        args
                    },
                );
                match self.map.called_from(name, 0) {
                    Some(sid) => Ok(
                        (
                            sid,
                            if counted {
                                unsigned_value(args.last(), 0xFFFF)->0 as u16
                            } else {
                                1
                            },
                        ),
                    ),
                    None => Err(name),
                }
            },
        }
    }

    /// The second argument as a count, 1 where it is none.
    pub open spec fn count_asked(self, args: Seq<Seq<char>>) -> u16 {
        if args.len() > 1 {
            match unsigned_value(args[1], 0xFFFF) {
                Some(n) => n as u16,
                None => 1,
            }
        } else {
            1
        }
    }

    /// `/item <id|name> [count]`: an item on the gamemaster's tile.
    pub open spec fn gm_item(self, id: u32, args: Seq<Seq<char>>) -> World {
        if args.len() == 0 {
            self.status(id, "Usage: /item <id|name> [count]"@)
        } else {
            match self.item_asked(args) {
                Ok((sid, count)) => if self.players.has(id) {
                    self.item_spawned(id, self.players.at(id).position, sid, count)
                } else {
                    self
                },
                Err(name) => self.status(id, around("No item named '"@, name, "'."@)),
            }
        }
    }

    /// An item of type `sid` appears on `pos`, and those who see it are told. Stackables come
    /// as 1 to 100 pieces.
    pub open spec fn item_spawned(self, id: u32, pos: Position, sid: u16, count: u16) -> World {
        match self.map.meta_at(sid) {
            None => self.status(id, around("Unknown item id "@, decimal(sid as nat), "."@)),
            Some(m) => match self.stack(pos) {
                None => self.status(id, "You cannot create an item there."@),
                Some(st) => if st.things.len() >= 10 {
                    self.status(id, "This tile is full."@)
                } else {
                    let subtype = if m.stackable {
                        Some(
                            if count < 1 {
                                1u8
                            } else if count > 100 {
                                100u8
                            } else {
                                count as u8
                            },
                        )
                    } else {
                        None
                    };
                    let item = WireItem { client_id: m.client_id, subtype, animated: m.animated };
                    let w = self.topped_with(
                        pos,
                        StackThing { item, server_id: sid, count: subtype },
                    );
                    w.told_item(pos, w.front_slot(pos), item, false).status(
                        id,
                        around("Created item "@, decimal(sid as nat), "."@),
                    )
                },
            },
        }
    }

    /// `/teleport "player" <x> <y> <z>`.
    pub open spec fn gm_teleport(self, id: u32, args: Seq<Seq<char>>) -> World {
        if args.len() == 0 || position_in(args.skip(1)) is None {
            self.status(id, "Usage: /teleport <name> <x> <y> <z>"@)
        } else {
            let pos = position_in(args.skip(1))->0;
            match self.player_named(args[0]) {
                None => self.no_player(id, args[0]),
                Some(t) => if self.map.stack_at(pos) is None {
                    self.status(id, "There is no tile there."@)
                } else {
                    self.sent(
                        id,
                        t,
                        pos,
                        around(around("Teleported "@, args[0], " to "@), coordinates(pos), "."@),
                    )
                },
            }
        }
    }

    /// `/teleportto "player"`.
    pub open spec fn gm_teleportto(self, id: u32, args: Seq<Seq<char>>) -> World {
        if args.len() == 0 {
            self.status(id, "Usage: /teleportto <name>"@)
        } else {
            match self.player_named(args[0]) {
                None => self.no_player(id, args[0]),
                Some(t) => self.sent(
                    id,
                    id,
                    self.players.at(t).position,
                    around("Teleported to "@, args[0], "."@),
                ),
            }
        }
    }

    /// `/bring "player"`.
    pub open spec fn gm_bring(self, id: u32, args: Seq<Seq<char>>) -> World {
        if args.len() == 0 {
            self.status(id, "Usage: /bring <name>"@)
        } else {
            match self.player_named(args[0]) {
                None => self.no_player(id, args[0]),
                Some(t) => if self.players.has(id) {
                    self.sent(
                        id,
                        t,
                        self.players.at(id).position,
                        around("Brought "@, args[0], " to you."@),
                    )
                } else {
                    self
                },
            }
        }
    }

    /// `/changesex "player" <male|female>`.
    pub open spec fn gm_changesex(self, id: u32, args: Seq<Seq<char>>) -> World {
        if args.len() < 2 {
            self.status(id, "Usage: /changesex <name> <male|female>"@)
        } else if lowercase(args[1]) != "male"@ && lowercase(args[1]) != "female"@ {
            self.status(id, "Sex must be 'male' or 'female'."@)
        } else {
            let male = lowercase(args[1]) == "male"@;
            match self.player_named(args[0]) {
                None => self.no_player(id, args[0]),
                Some(t) => self.set_player(
                    t,
                    PlayerModel {
                        sex: if male {
                            1
                        } else {
                            0
                        },
                        ..self.players.at(t)
                    },
                ).status(
                    id,
                    around(
                        args[0],
                        " is now "@,
                        if male {
                            "male."@
                        } else {
                            "female."@
                        },
                    ),
                ),
            }
        }
    }

    /// `/setlooktype <id>` and `/setlooktype "player" <id>`.
    pub open spec fn gm_setlooktype(self, id: u32, args: Seq<Seq<char>>) -> World {
        if !(1 <= args.len() <= 2) || unsigned_value(args.last(), 0xFFFF) is None {
            self.status(id, "Usage: /setlooktype <id> | /setlooktype \"player\" <id>"@)
        } else {
            let look = unsigned_value(args.last(), 0xFFFF)->0 as u16;
            let target = if args.len() == 1 {
                Some(id)
            } else {
                self.player_named(args[0])
            };
            match target {
                None => self.no_player(id, args[0]),
                Some(t) => if self.players.has(t) {
                    let outfit = Outfit { look_type: look, ..self.players.at(t).outfit };
                    self.dressed(t, outfit).status(
                        id,
                        around("Look type set to "@, decimal(look as nat), "."@),
                    )
                } else {
                    self
                },
            }
        }
    }

    /// The monster that `/m` calls: of the type with that name, or a plain one.
    pub open spec fn monster_called(self, name: Seq<char>, pos: Position) -> MonsterModel {
        let key = ascii_lowered(name);
        let plain = TypeModel {
            name,
            look_type: 100,
            health: 100,
            max_health: 100,
            speed: 200,
            attack: 7,
            loot: Seq::empty(),
            target_distance: 0,
            race: None,
        };
        let kind = if self.types.contains_key(key) {
            TypeModel { name, ..self.types[key] }
        } else {
            plain
        };
        kind.newborn(pos, None)
    }

    /// Each of `ids` who can be is shown creature `who` on `pos`, with a puff.
    pub open spec fn conjured_to(self, ids: Seq<u32>, who: u32, pos: Position) -> World
        decreases ids.len(),
    {
        if ids.len() == 0 {
            self
        } else {
            let s = ids[0];
            let w = if self.can_introduce(s, who) {
                self.introduced(s, who).push(
                    s,
                    PacketModel::AddTileCreature {
                        position: pos,
                        stackpos: self.introduced(s, who).stackpos_on(pos, who),
                        creature: self.shown(s, who),
                    },
                ).push(s, puff(pos))
            } else {
                self
            };
            w.conjured_to(ids.drop_first(), who, pos)
        }
    }

    /// `pos` is walkable and no one stands there.
    pub open spec fn is_deserted(self, pos: Position) -> bool {
        self.map.walkable(pos) && self.creatures_on(pos).len() == 0
    }

    /// The first deserted tile next to `at` from the `k`-th on, row by row.
    pub open spec fn deserted_beside(self, at: Position, k: int) -> Option<Position>
        decreases 9 - k,
    {
        if k >= 9 {
            None
        } else {
            match at.shifted(k % 3 - 1, k / 3 - 1) {
                Some(p) if p != at && self.is_deserted(p) => Some(p),
                _ => self.deserted_beside(at, k + 1),
            }
        }
    }

    /// `/m <name>`: a monster on a deserted tile next to the gamemaster.
    pub open spec fn gm_monster(self, id: u32, args: Seq<Seq<char>>) -> World {
        if args.len() == 0 {
            self.status(id, "Usage: /m <name>"@)
        } else if !self.players.has(id) {
            self
        } else {
            match self.deserted_beside(self.players.at(id).position, 0) {
                None => self.status(id, "You cannot spawn a creature there."@),
                Some(pos) => {
                    let w = self.monster_added(self.monster_called(joined(args), pos));
                    w.conjured_to(w.spectators(pos, u32::MAX), self.next_monster_id, pos).status(
                        id,
                        around("Spawned "@, joined(args), "."@),
                    )
                },
            }
        }
    }

    /// Someone other than `id` who is no gamemaster sees `pos`.
    pub open spec fn layman(self, pos: Position, id: u32) -> spec_fn(u32) -> bool {
        |k: u32|
            k != id && !self.players.at(k).gamemaster && sees(self.players.at(k).position, pos)
    }

    /// Those other than `id` who see `pos` and are no gamemasters.
    pub open spec fn laymen(self, pos: Position, id: u32) -> Seq<u32> {
        self.players.order.filter(self.layman(pos, id))
    }

    /// `/ghost`: invisible to all but gamemasters, or visible again.
    pub open spec fn gm_ghost(self, id: u32) -> World {
        if !self.players.has(id) || !self.players.at(id).gamemaster {
            self.status(id, "Only gamemasters can use /ghost."@)
        } else {
            let p = self.players.at(id);
            if p.is_ghost {
                let outfit = match p.prev_outfit {
                    Some(o) => o,
                    None => p.outfit,
                };
                let w = self.set_player(
                    id,
                    PlayerModel { is_ghost: false, prev_outfit: None, outfit, ..p },
                ).dressed(id, outfit);
                w.shown_to(w.laymen(p.position, id), id, p.position).status(
                    id,
                    "Ghost mode OFF."@,
                )
            } else {
                let outfit = Outfit { look_type: GHOST_LOOKTYPE, ..p.outfit };
                let w = self.set_player(
                    id,
                    PlayerModel { is_ghost: true, prev_outfit: Some(p.outfit), outfit, ..p },
                ).dressed(id, outfit);
                w.gone_told(w.laymen(p.position, id), id).status(id, "Ghost mode ON."@)
            }
        }
    }

    /// `/noclip`: walking through everything, or no more.
    pub open spec fn gm_noclip(self, id: u32) -> World {
        if !self.players.has(id) {
            self
        } else if !self.players.at(id).gamemaster {
            self.status(id, "Only gamemasters can use /noclip."@)
        } else {
            let on = !self.players.at(id).noclip;
            self.set_player(id, PlayerModel { noclip: on, ..self.players.at(id) }).status(
                id,
                if on {
                    "Noclip ON."@
                } else {
                    "Noclip OFF."@
                },
            )
        }
    }

    /// Player `s` is told that `who` is gone and is shown it on `pos` anew.
    pub open spec fn refreshed(self, s: u32, who: u32, pos: Position) -> World {
        self.push(s, PacketModel::RemoveCreature { id: who }).forget(s, who).shown_to(
            seq![s],
            who,
            pos,
        )
    }

    /// Each of `ids` is shown `who` on `pos` anew.
    pub open spec fn all_refreshed(self, ids: Seq<u32>, who: u32, pos: Position) -> World
        decreases ids.len(),
    {
        if ids.len() == 0 {
            self
        } else {
            self.refreshed(ids[0], who, pos).all_refreshed(ids.drop_first(), who, pos)
        }
    }

    /// Player `t` walks at `speed`. A client learns the speed of a creature, its own too, only
    /// when it is shown it, so it is shown to everyone anew.
    pub open spec fn sped(self, t: u32, speed: u16) -> World {
        let p = self.players.at(t);
        let w = self.set_player(t, PlayerModel { speed, ..p }).push(
            t,
            PacketModel::Stats { stats: Stats::of(p.health, p.max_health, speed) },
        );
        w.all_refreshed(w.spectators(p.position, t), t, p.position).refreshed(t, t, p.position)
    }

    /// Whose speed was set.
    pub open spec fn whose(self, id: u32, t: u32) -> Seq<char> {
        if t == id {
            "Your"@
        } else if self.players.has(t) {
            self.players.at(t).name + "'s"@
        } else {
            Seq::empty()
        }
    }

    /// `/speed <value>` and `/speed "player" <value>`.
    pub open spec fn gm_speed(self, id: u32, args: Seq<Seq<char>>) -> World {
        if !(1 <= args.len() <= 2) {
            self.status(id, "Usage: /speed <value> | /speed \"player\" <value>"@)
        } else {
            let target = if args.len() == 1 {
                Some(id)
            } else {
                self.player_named(args[0])
            };
            match target {
                None => self.no_player(id, args[0]),
                Some(t) => match unsigned_value(args.last(), 0xFFFF) {
                    None => self.status(
                        id,
                        "Invalid speed value. Must be a number between 10 and 2500."@,
                    ),
                    Some(v) => if !(10 <= v <= 2500) {
                        self.status(id, "Speed out of range. Valid range: 10-2500."@)
                    } else if !self.players.has(t) {
                        self
                    } else {
                        let w = self.sped(t, v as u16);
                        w.status(
                            id,
                            w.whose(id, t) + " speed set to "@ + decimal(v) + "."@,
                        )
                    },
                },
            }
        }
    }

    /// One command.
    pub open spec fn ordered(self, id: u32, v: GmVerb, args: Seq<Seq<char>>) -> World {
        match v {
            GmVerb::Help => self.helped(id, 14),
            GmVerb::Item => self.gm_item(id, args),
            GmVerb::Goto => self.gm_goto(id, args),
            GmVerb::Temple => self.gm_temple(id, args),
            GmVerb::Teleport => self.gm_teleport(id, args),
            GmVerb::TeleportTo => self.gm_teleportto(id, args),
            GmVerb::Bring => self.gm_bring(id, args),
            GmVerb::ChangeSex => self.gm_changesex(id, args),
            GmVerb::SetLookType => self.gm_setlooktype(id, args),
            GmVerb::ReloadLua => self.status(id, "Lua scripts reloaded from disk."@),
            GmVerb::Monster => self.gm_monster(id, args),
            GmVerb::GhostMode => self.gm_ghost(id),
            GmVerb::Noclip => self.gm_noclip(id),
            GmVerb::Speed => self.gm_speed(id, args),
        }
    }

    /// The command in a line of player `id`, who must be a gamemaster.
    pub open spec fn asked(self, id: u32, text: Seq<char>) -> Option<GmVerb> {
        let words = words_of(command_line(text));
        if !self.players.has(id) || !self.players.at(id).gamemaster || words.len() == 0 {
            None
        } else {
            verb_from(words[0], 0)
        }
    }

    /// A line that starts with a slash. Only gamemasters are heard.
    #[verifier::opaque]
    pub open spec fn commanded(self, id: u32, text: Seq<char>) -> World {
        let words = words_of(command_line(text));
        if !self.players.has(id) || !self.players.at(id).gamemaster || words.len() == 0 {
            self
        } else {
            match verb_from(words[0], 0) {
                Some(v) => self.ordered(id, v, words.drop_first()),
                None => self.status(id, around("Unknown command: /"@, words[0], ". Type /help."@)),
            }
        }
    }
}

/// All words but the first.
fn rest_of(words: &Vec<String>) -> (r: Vec<String>)
    requires
        words@.len() > 0,
    ensures
        strings_view(r@) == strings_view(words@).drop_first(),
{
    let ghost all = strings_view(words@).drop_first();
    let mut r: Vec<String> = Vec::new();
    let mut i: usize = 1;
    assert(strings_view(r@) =~= all.take(0));
    while i < words.len()
        invariant
            1 <= i <= words@.len(),
            all == strings_view(words@).drop_first(),
            strings_view(r@) == all.take(i - 1),
        decreases words@.len() - i,
    {
        let ghost before = strings_view(r@);
        r.push(words[i].clone());
        assert(strings_view(r@) =~= before.push(all[i - 1]));
        assert(all.take(i as int) =~= all.take(i - 1).push(all[i - 1]));
        i = i + 1;
    }
    assert(all.take(words@.len() - 1) =~= all);
    r
}

impl Game {
    /// Run a line that starts with a slash. Lines of players who are no gamemasters are
    /// dropped. The result says whether the scripts are to be loaded anew.
    pub fn do_gm_command(&mut self, id: u32, text: String) -> (reload: bool)
        requires
            old(self).wf(),
            old(self)@.next_monster_id < u32::MAX,
        ensures
            final(self).wf(),
            final(self)@ == old(self)@.commanded(id, text@),
            reload == (old(self)@.asked(id, text@) == Some(GmVerb::ReloadLua)),
    {
        proof {
            reveal(World::commanded);
        }
        let gm = match self.players.get(id) {
            Some(p) => p.gamemaster,
            None => false,
        };
        if !gm {
            return false;
        }
        let words = command_words(text.as_str());
        assert(words_of(command_line(text@)).len() == words@.len());
        if words.len() == 0 {
            return false;
        }
        assert(words_of(command_line(text@))[0] == words@[0]@);
        let verb = match GmVerb::from_word(words[0].as_str()) {
            Some(v) => v,
            None => {
                let line = make_around("Unknown command: /", words[0].as_str(), ". Type /help.");
                self.push_status_message(id, line.as_str());
                return false;
            },
        };
        let args = rest_of(&words);
        self.order(id, verb, &args);
        match verb {
            GmVerb::ReloadLua => true,
            _ => false,
        }
    }

    fn order(&mut self, id: u32, verb: GmVerb, args: &Vec<String>)
        requires
            old(self).wf(),
            old(self)@.next_monster_id < u32::MAX,
        ensures
            final(self).wf(),
            final(self)@ == old(self)@.ordered(id, verb, strings_view(args@)),
    {
        match verb {
            GmVerb::Help => self.gm_help(id),
            GmVerb::Item => self.gm_item(id, args),
            GmVerb::Goto => self.gm_goto(id, args),
            GmVerb::Temple => self.gm_temple(id, args),
            GmVerb::Teleport => self.gm_teleport(id, args),
            GmVerb::TeleportTo => self.gm_teleportto(id, args),
            GmVerb::Bring => self.gm_bring(id, args),
            GmVerb::ChangeSex => self.gm_changesex(id, args),
            GmVerb::SetLookType => self.gm_setlooktype(id, args),
            GmVerb::ReloadLua => self.push_status_message(id, "Lua scripts reloaded from disk."),
            GmVerb::Monster => self.gm_monster(id, args),
            GmVerb::GhostMode => self.gm_ghost(id),
            GmVerb::Noclip => self.gm_noclip(id),
            GmVerb::Speed => self.gm_speed(id, args),
        }
    }

    /// List every command.
    pub fn gm_help(&mut self, id: u32)
        requires
            old(self).wf(),
        ensures
            final(self).wf(),
            final(self)@ == old(self)@.helped(id, 14),
            final(self)@.next_monster_id == old(self)@.next_monster_id,
    {
        self.push_console_blue(id, "Gamemaster commands:");
        let mut i: usize = 0;
        while i < 14
            invariant
                i <= 14,
                self.wf(),
                self@ == old(self)@.helped(id, i as int),
                self@.next_monster_id == old(self)@.next_monster_id,
            decreases 14 - i,
        {
            let v = ALL_VERBS[i];
            let line = v.usage().to_string().concat(" - ").concat(v.description());
            self.push_console_blue(id, line.as_str());
            i = i + 1;
        }
    }

    /// The id of the player with this name, ASCII case ignored.
    pub fn find_player_by_name(&self, name: &str) -> (r: Option<u32>)
        requires
            self.wf(),
        ensures
            r == self@.player_named(name@),
            r matches Some(id) ==> self@.players.has(id),
    {
        let ghost order = self.players@.order;
        let mut i: usize = 0;
        assert(order.skip(0) =~= order);
        while i < self.players.len()
            invariant
                self.wf(),
                i <= order.len(),
                order == self.players@.order,
                self@.player_named(name@) == self@.named_among(order.skip(i as int), name@),
            decreases order.len() - i,
        {
            assert(order.skip(i as int).drop_first() =~= order.skip(i + 1));
            let id: u32 = self.players.id_at(i);
            if eq_ignore_ascii_case(self.players.entry_at(i).name.as_str(), name) {
                return Some(id);
            }
            i = i + 1;
        }
        None
    }

    /// Tell the gamemaster that no player has this name.
    fn tell_no_player(&mut self, id: u32, name: &str)
        requires
            old(self).wf(),
        ensures
            final(self).wf(),
            final(self)@ == old(self)@.no_player(id, name@),
    {
        let line = make_around("Player '", name, "' not found.");
        self.push_status_message(id, line.as_str());
    }

    /// Where player `id` stands.
    fn place_of(&self, id: u32) -> (r: Position)
        requires
            self.wf(),
            self@.players.has(id),
        ensures
            r == self@.players.at(id).position,
    {
        match self.players.get(id) {
            Some(p) => p.position,
            None => Position { x: 0, y: 0, z: 0 },
        }
    }

    /// Put player `who` on `to`, and say `done` to gamemaster `id`.
    fn send(&mut self, id: u32, who: u32, to: Position, done: String)
        requires
            old(self).wf(),
        ensures
            final(self).wf(),
            final(self)@ == old(self)@.sent(id, who, to, done@),
    {
        self.do_teleport(who, to);
        self.push_status_message(id, done.as_str());
    }

    fn gm_goto(&mut self, id: u32, args: &Vec<String>)
        requires
            old(self).wf(),
        ensures
            final(self).wf(),
            final(self)@ == old(self)@.gm_goto(id, strings_view(args@)),
    {
        assert(strings_view(args@).skip(0) =~= strings_view(args@));
        match parse_pos(args, 0) {
            Some(to) => {
                if !self.map.has_ground(to) {
                    self.push_status_message(id, "There is no tile there.");
                    return;
                }
                let done = make_around("Teleported to ", make_coordinates(to).as_str(), ".");
                self.send(id, id, to, done)
            },
            None => {
                if args.len() != 1 {
                    self.push_status_message(
                        id,
                        "Usage: /goto <x> <y> <z> | /goto \"player\"",
                    );
                    return;
                }
                match self.find_player_by_name(args[0].as_str()) {
                    Some(t) => {
                        let to = self.place_of(t);
                        let done = make_around("Teleported to ", args[0].as_str(), ".");
                        self.send(id, id, to, done)
                    },
                    None => {
                        self.tell_no_player(id, args[0].as_str());
                    },
                }
            },
        }
    }

    fn gm_temple(&mut self, id: u32, args: &Vec<String>)
        requires
            old(self).wf(),
        ensures
            final(self).wf(),
            final(self)@ == old(self)@.gm_temple(id, strings_view(args@)),
    {
        let to = if args.len() == 0 {
            self.map.spawn()
        } else {
            match parse_unsigned(args[0].as_str(), 0xFFFF_FFFF) {
                Some(n) => match self.map.town_temple_by_id(n as u32) {
                    Some(p) => p,
                    None => {
                        let line = make_around("No town with id ", to_decimal(n).as_str(), ".");
                        self.push_status_message(id, line.as_str());
                        return;
                    },
                },
                None => match self.map.town_temple_by_name(args[0].as_str()) {
                    Some(p) => p,
                    None => {
                        let line = make_around("No town named '", args[0].as_str(), "'.");
                        self.push_status_message(id, line.as_str());
                        return;
                    },
                },
            }
        };
        let done = make_around("Teleported to temple (", make_coordinates(to).as_str(), ").");
        self.send(id, id, to, done)
    }

    fn asked_item(&self, args: &Vec<String>) -> (r: Result<(u16, u16), String>)
        requires
            self.wf(),
            args@.len() > 0,
        ensures
            self@.item_asked(strings_view(args@)) == (match r {
                Ok(x) => Ok::<(u16, u16), Seq<char>>(x),
                Err(s) => Err(s@),
            }),
    {
        let ghost all = strings_view(args@);
        let n: usize = args.len();
        assert(all[0] == args@[0]@);
        assert(all.last() == args@[n - 1]@);
        match parse_unsigned(args[0].as_str(), 0xFFFF) {
            Some(sid) => {
                let count: u16 = if n > 1 {
                    match parse_unsigned(args[1].as_str(), 0xFFFF) {
                        Some(c) => c as u16,
                        None => 1,
                    }
                } else {
                    1
                };
                Ok((sid as u16, count))
            },
            None => {
                let last: Option<u64> = if n > 1 {
                    parse_unsigned(args[n - 1].as_str(), 0xFFFF)
                } else {
                    None
                };
                let (name, count) = match last {
                    Some(c) => {
                        assert(all.drop_last() =~= all.take(n - 1));
                        (join(args, n - 1), c as u16)
                    },
                    None => {
                        assert(all.take(n as int) =~= all);
                        (join(args, n), 1u16)
                    },
                };
                match self.map.find_item_id_by_name(name.as_str()) {
                    Some(sid) => Ok((sid, count)),
                    None => Err(name),
                }
            },
        }
    }

    fn gm_item(&mut self, id: u32, args: &Vec<String>)
        requires
            old(self).wf(),
        ensures
            final(self).wf(),
            final(self)@ == old(self)@.gm_item(id, strings_view(args@)),
    {
        if args.len() == 0 {
            self.push_status_message(id, "Usage: /item <id|name> [count]");
            return;
        }
        match self.asked_item(args) {
            Ok((sid, count)) => {
                let pos = match self.players.get(id) {
                    Some(p) => p.position,
                    None => {
                        return;
                    },
                };
                self.do_spawn_item(id, pos, sid, count);
            },
            Err(name) => {
                let line = make_around("No item named '", name.as_str(), "'.");
                self.push_status_message(id, line.as_str());
            },
        }
    }

    /// Put a new item on `pos`, tell those who see it, and answer to `gm_id`.
    pub fn do_spawn_item(&mut self, gm_id: u32, pos: Position, server_id: u16, count: u16)
        requires
            old(self).wf(),
        ensures
            final(self).wf(),
            final(self)@ == old(self)@.item_spawned(gm_id, pos, server_id, count),
    {
        let t = match self.map.item_meta(server_id) {
            Some(m) => {
                let pieces: u8 = if count < 1 {
                    1
                } else if count > 100 {
                    100
                } else {
                    count as u8
                };
                let subtype: Option<u8> = if m.stackable {
                    Some(pieces)
                } else {
                    None
                };
                StackThing {
                    item: WireItem {
                        client_id: m.client_id,
                        subtype,
                        animated: m.animated,
                    },
                    server_id,
                    count: subtype,
                }
            },
            None => {
                let line = make_around(
                    "Unknown item id ",
                    to_decimal(server_id as u64).as_str(),
                    ".",
                );
                self.push_status_message(gm_id, line.as_str());
                return;
            },
        };
        let full = match self.tile(pos) {
            Some(st) => st.things.len() >= 10,
            None => {
                self.push_status_message(gm_id, "You cannot create an item there.");
                return;
            },
        };
        if full {
            self.push_status_message(gm_id, "This tile is full.");
            return;
        }
        self.put_on_top(pos, t);
        let slot: u8 = self.front_wire_stackpos(pos);
        self.broadcast_dest(pos, slot, t.item, false);
        let line = make_around("Created item ", to_decimal(server_id as u64).as_str(), ".");
        self.push_status_message(gm_id, line.as_str());
    }

    fn gm_teleport(&mut self, id: u32, args: &Vec<String>)
        requires
            old(self).wf(),
        ensures
            final(self).wf(),
            final(self)@ == old(self)@.gm_teleport(id, strings_view(args@)),
    {
        let to = if args.len() == 0 {
            None
        } else {
            parse_pos(args, 1)
        };
        let to = match to {
            Some(p) => p,
            None => {
                self.push_status_message(id, "Usage: /teleport <name> <x> <y> <z>");
                return;
            },
        };
        let who: u32 = match self.find_player_by_name(args[0].as_str()) {
            Some(t) => t,
            None => {
                self.tell_no_player(id, args[0].as_str());
                return;
            },
        };
        if !self.map.has_ground(to) {
            self.push_status_message(id, "There is no tile there.");
            return;
        }
        let head = make_around("Teleported ", args[0].as_str(), " to ");
        let done = make_around(head.as_str(), make_coordinates(to).as_str(), ".");
        self.send(id, who, to, done)
    }

    fn gm_teleportto(&mut self, id: u32, args: &Vec<String>)
        requires
            old(self).wf(),
        ensures
            final(self).wf(),
            final(self)@ == old(self)@.gm_teleportto(id, strings_view(args@)),
    {
        if args.len() == 0 {
            self.push_status_message(id, "Usage: /teleportto <name>");
            return;
        }
        match self.find_player_by_name(args[0].as_str()) {
            Some(t) => {
                let to = self.place_of(t);
                let done = make_around("Teleported to ", args[0].as_str(), ".");
                self.send(id, id, to, done)
            },
            None => {
                self.tell_no_player(id, args[0].as_str());
            },
        }
    }

    fn gm_bring(&mut self, id: u32, args: &Vec<String>)
        requires
            old(self).wf(),
        ensures
            final(self).wf(),
            final(self)@ == old(self)@.gm_bring(id, strings_view(args@)),
    {
        if args.len() == 0 {
            self.push_status_message(id, "Usage: /bring <name>");
            return;
        }
        match self.find_player_by_name(args[0].as_str()) {
            Some(t) => match self.players.get(id) {
                Some(p) => {
                    let to = p.position;
                    let done = make_around("Brought ", args[0].as_str(), " to you.");
                    self.send(id, t, to, done)
                },
                None => {},
            },
            None => {
                self.tell_no_player(id, args[0].as_str());
            },
        }
    }

    fn gm_changesex(&mut self, id: u32, args: &Vec<String>)
        requires
            old(self).wf(),
        ensures
            final(self).wf(),
            final(self)@ == old(self)@.gm_changesex(
                id,
                strings_view(args@),
            ),
    {
        if args.len() < 2 {
            self.push_status_message(id, "Usage: /changesex <name> <male|female>");
            return;
        }
        let wish = to_lowercase(args[1].as_str());
        let male = *wish.as_str() == *"male";
        if !male && *wish.as_str() != *"female" {
            self.push_status_message(id, "Sex must be 'male' or 'female'.");
            return;
        }
        let t: u32 = match self.find_player_by_name(args[0].as_str()) {
            Some(t) => t,
            None => {
                self.tell_no_player(id, args[0].as_str());
                return;
            },
        };
        let sex: u8 = if male {
            1
        } else {
            0
        };
        proof {
            lemma_set_player(self@, t, PlayerModel { sex, ..self@.players.at(t) });
        }
        match self.players.get_mut(t) {
            Some(p) => {
                p.sex = sex;
            },
            None => {},
        }
        let line = make_around(
            args[0].as_str(),
            " is now ",
            if male {
                "male."
            } else {
                "female."
            },
        );
        self.push_status_message(id, line.as_str());
    }

    fn gm_setlooktype(&mut self, id: u32, args: &Vec<String>)
        requires
            old(self).wf(),
        ensures
            final(self).wf(),
            final(self)@ == old(self)@.gm_setlooktype(
                id,
                strings_view(args@),
            ),
    {
        let n: usize = args.len();
        let ghost all = strings_view(args@);
        let look: Option<u64> = if n == 1 || n == 2 {
            assert(all.last() == args@[n - 1]@);
            parse_unsigned(args[n - 1].as_str(), 0xFFFF)
        } else {
            None
        };
        let look: u16 = match look {
            Some(v) => v as u16,
            None => {
                self.push_status_message(
                    id,
                    "Usage: /setlooktype <id> | /setlooktype \"player\" <id>",
                );
                return;
            },
        };
        let t: u32 = if n == 1 {
            id
        } else {
            match self.find_player_by_name(args[0].as_str()) {
                Some(t) => t,
                None => {
                    self.tell_no_player(id, args[0].as_str());
                    return;
                },
            }
        };
        let outfit = match self.players.get(t) {
            Some(p) => Outfit {
                look_type: look,
                head: p.outfit.head,
                body: p.outfit.body,
                legs: p.outfit.legs,
                feet: p.outfit.feet,
                addons: p.outfit.addons,
                mount: p.outfit.mount,
            },
            None => {
                return;
            },
        };
        self.do_change_outfit(t, outfit);
        let line = make_around("Look type set to ", to_decimal(look as u64).as_str(), ".");
        self.push_status_message(id, line.as_str());
    }

    fn call_monster(&self, name: &String, pos: Position) -> (m: MonsterState)
        requires
            self.wf(),
        ensures
            m@ == self@.monster_called(name@, pos),
    {
        let key = to_ascii_lowercase(name.as_str());
        match self.monster_types.get(key.as_str()) {
            Some(t) => {
                let mut m = MonsterState::born(t, pos, None);
                m.name = name.clone();
                m
            },
            None => {
                let m = MonsterState {
                    name: name.clone(),
                    position: pos,
                    direction: Direction::South,
                    health: 100,
                    max_health: 100,
                    speed: 200,
                    look_type: 100,
                    attacking: None,
                    last_attack_ms: 0,
                    attack: 7,
                    loot: Vec::new(),
                    spawn_id: None,
                    list_walk_dir: VecDeque::new(),
                    follow_target: None,
                    target_distance: 0,
                    race: None,
                };
                assert(m@ =~= self@.monster_called(name@, pos));
                m
            },
        }
    }

    fn conjure(&mut self, ids: &Vec<u32>, who: u32, pos: Position)
        requires
            old(self).wf(),
        ensures
            final(self).wf(),
            final(self)@ == old(self)@.conjured_to(ids@, who, pos),
    {
        let mut i: usize = 0;
        assert(ids@.skip(0) =~= ids@);
        while i < ids.len()
            invariant
                i <= ids@.len(),
                self.wf(),
                old(self)@.conjured_to(ids@, who, pos) == self@.conjured_to(
                    ids@.skip(i as int),
                    who,
                    pos,
                ),
            decreases ids@.len() - i,
        {
            assert(ids@.skip(i as int).drop_first() =~= ids@.skip(i + 1));
            let s: u32 = ids[i];
            match self.introduce(s, who) {
                Some(creature) => {
                    let stackpos: u8 = self.creature_stackpos_on(pos, who);
                    self.push(s, Packet::AddTileCreature { position: pos, stackpos, creature });
                    self.push(s, Packet::MagicEffect { position: pos, effect: Effect::Teleport });
                },
                None => {},
            }
            i = i + 1;
        }
    }

    /// The first deserted tile next to `at`, row by row.
    fn find_deserted(&self, at: Position) -> (r: Option<Position>)
        requires
            self.wf(),
        ensures
            r == self@.deserted_beside(at, 0),
    {
        let mut k: i32 = 0;
        while k < 9
            invariant
                self.wf(),
                0 <= k <= 9,
                self@.deserted_beside(at, 0) == self@.deserted_beside(at, k as int),
            decreases 9 - k,
        {
            match at.offset(k % 3 - 1, k / 3 - 1) {
                Some(p) => {
                    if p != at && self.map.is_walkable(p) && self.creatures_on(p).len() == 0 {
                        return Some(p);
                    }
                },
                None => {},
            }
            k = k + 1;
        }
        None
    }

    fn gm_monster(&mut self, id: u32, args: &Vec<String>)
        requires
            old(self).wf(),
            old(self)@.next_monster_id < u32::MAX,
        ensures
            final(self).wf(),
            final(self)@ == old(self)@.gm_monster(id, strings_view(args@)),
    {
        let n: usize = args.len();
        if n == 0 {
            self.push_status_message(id, "Usage: /m <name>");
            return;
        }
        let name = join(args, n);
        assert(strings_view(args@).take(n as int) =~= strings_view(args@));
        let at = match self.players.get(id) {
            Some(p) => p.position,
            None => {
                return;
            },
        };
        let pos = match self.find_deserted(at) {
            Some(p) => p,
            None => {
                self.push_status_message(id, "You cannot spawn a creature there.");
                return;
            },
        };
        let m = self.call_monster(&name, pos);
        let mid: u32 = self.add_monster(m);
        let ids = self.spectators(pos, u32::MAX);
        self.conjure(&ids, mid, pos);
        let line = make_around("Spawned ", name.as_str(), ".");
        self.push_status_message(id, line.as_str());
    }

    fn list_laymen(&self, pos: Position, id: u32) -> (r: Vec<u32>)
        requires
            self.wf(),
        ensures
            r@ == self@.laymen(pos, id),
    {
        let ghost order = self.players@.order;
        let ghost f = self@.layman(pos, id);
        let mut r: Vec<u32> = Vec::new();
        assert(order.take(0).filter(f) =~= Seq::empty()) by {
            reveal(Seq::filter);
        }
        let mut i: usize = 0;
        while i < self.players.len()
            invariant
                self.wf(),
                i <= order.len(),
                order == self.players@.order,
                f == self@.layman(pos, id),
                r@ == order.take(i as int).filter(f),
            decreases order.len() - i,
        {
            let k: u32 = self.players.id_at(i);
            let p = self.players.entry_at(i);
            proof {
                lemma_filter_step(order, i as int, f);
            }
            if k != id && !p.gamemaster && Game::can_see(p.position, pos) {
                r.push(k);
            }
            i = i + 1;
        }
        assert(order.take(order.len() as int) =~= order);
        r
    }

    /// Make a gamemaster invisible to all but gamemasters, or visible again. The outfit from
    /// before comes back with the visibility.
    pub fn gm_ghost(&mut self, id: u32)
        requires
            old(self).wf(),
        ensures
            final(self).wf(),
            final(self)@ == old(self)@.gm_ghost(id),
    {
        let (gm, was_ghost, worn, kept, pos) = match self.players.get(id) {
            Some(p) => (p.gamemaster, p.is_ghost, p.outfit, p.prev_outfit, p.position),
            None => {
                self.push_status_message(id, "Only gamemasters can use /ghost.");
                return;
            },
        };
        if !gm {
            self.push_status_message(id, "Only gamemasters can use /ghost.");
            return;
        }
        let outfit = if was_ghost {
            match kept {
                Some(o) => o,
                None => worn,
            }
        } else {
            Outfit {
                look_type: GHOST_LOOKTYPE,
                head: worn.head,
                body: worn.body,
                legs: worn.legs,
                feet: worn.feet,
                addons: worn.addons,
                mount: worn.mount,
            }
        };
        let prev_outfit = if was_ghost {
            None
        } else {
            Some(worn)
        };
        proof {
            lemma_set_player(
                self@,
                id,
                PlayerModel { is_ghost: !was_ghost, prev_outfit, outfit, ..self@.players.at(id) },
            );
        }
        match self.players.get_mut(id) {
            Some(p) => {
                p.is_ghost = !was_ghost;
                p.prev_outfit = prev_outfit;
                p.outfit = outfit;
            },
            None => {},
        }
        self.do_change_outfit(id, outfit);
        let ids = self.list_laymen(pos, id);
        if was_ghost {
            self.show_creature(&ids, id, pos);
            self.push_status_message(id, "Ghost mode OFF.");
        } else {
            self.tell_gone(&ids, id);
            self.push_status_message(id, "Ghost mode ON.");
        }
    }

    /// Let a gamemaster walk through everything, or no more.
    pub fn gm_noclip(&mut self, id: u32)
        requires
            old(self).wf(),
        ensures
            final(self).wf(),
            final(self)@ == old(self)@.gm_noclip(id),
    {
        let (gm, on) = match self.players.get(id) {
            Some(p) => (p.gamemaster, !p.noclip),
            None => {
                return;
            },
        };
        if !gm {
            self.push_status_message(id, "Only gamemasters can use /noclip.");
            return;
        }
        proof {
            lemma_set_player(self@, id, PlayerModel { noclip: on, ..self@.players.at(id) });
        }
        match self.players.get_mut(id) {
            Some(p) => {
                p.noclip = on;
            },
            None => {},
        }
        if on {
            self.push_status_message(id, "Noclip ON.");
        } else {
            self.push_status_message(id, "Noclip OFF.");
        }
    }

    /// Show player `s` creature `who` on `pos` anew.
    fn refresh(&mut self, s: u32, who: u32, pos: Position)
        requires
            old(self).wf(),
        ensures
            final(self).wf(),
            final(self)@ == old(self)@.refreshed(s, who, pos),
    {
        self.push(s, Packet::RemoveCreature { id: who });
        self.forget(s, who);
        let mut one: Vec<u32> = Vec::new();
        one.push(s);
        assert(one@ =~= seq![s]);
        self.show_creature(&one, who, pos);
    }

    fn refresh_all(&mut self, ids: &Vec<u32>, who: u32, pos: Position)
        requires
            old(self).wf(),
        ensures
            final(self).wf(),
            final(self)@ == old(self)@.all_refreshed(ids@, who, pos),
    {
        let mut i: usize = 0;
        assert(ids@.skip(0) =~= ids@);
        while i < ids.len()
            invariant
                i <= ids@.len(),
                self.wf(),
                old(self)@.all_refreshed(ids@, who, pos) == self@.all_refreshed(
                    ids@.skip(i as int),
                    who,
                    pos,
                ),
            decreases ids@.len() - i,
        {
            assert(ids@.skip(i as int).drop_first() =~= ids@.skip(i + 1));
            self.refresh(ids[i], who, pos);
            i = i + 1;
        }
    }

    fn set_speed(&mut self, t: u32, speed: u16)
        requires
            old(self).wf(),
            old(self)@.players.has(t),
        ensures
            final(self).wf(),
            final(self)@ == old(self)@.sped(t, speed),
    {
        proof {
            lemma_set_player(self@, t, PlayerModel { speed, ..self@.players.at(t) });
        }
        let (stats, pos) = match self.players.get_mut(t) {
            Some(p) => {
                p.speed = speed;
                (Stats::new(p.health, p.max_health, speed), p.position)
            },
            None => {
                return;
            },
        };
        self.push(t, Packet::Stats { stats });
        let ids = self.spectators(pos, t);
        self.refresh_all(&ids, t, pos);
        self.refresh(t, t, pos);
    }

    /// Set how fast a player walks, from 10 to 2500.
    pub fn gm_speed(&mut self, id: u32, args: &Vec<String>)
        requires
            old(self).wf(),
        ensures
            final(self).wf(),
            final(self)@ == old(self)@.gm_speed(id, strings_view(args@)),
    {
        let n: usize = args.len();
        let ghost all = strings_view(args@);
        if n < 1 || n > 2 {
            self.push_status_message(id, "Usage: /speed <value> | /speed \"player\" <value>");
            return;
        }
        assert(all.last() == args@[n - 1]@);
        let t: u32 = if n == 1 {
            id
        } else {
            match self.find_player_by_name(args[0].as_str()) {
                Some(t) => t,
                None => {
                    self.tell_no_player(id, args[0].as_str());
                    return;
                },
            }
        };
        let speed: u64 = match parse_unsigned(args[n - 1].as_str(), 0xFFFF) {
            Some(v) => v,
            None => {
                self.push_status_message(
                    id,
                    "Invalid speed value. Must be a number between 10 and 2500.",
                );
                return;
            },
        };
        if speed < 10 || speed > 2500 {
            self.push_status_message(id, "Speed out of range. Valid range: 10-2500.");
            return;
        }
        if !self.players.contains(t) {
            return;
        }
        self.set_speed(t, speed as u16);
        let who = if t == id {
            "Your".to_string()
        } else {
            match self.players.get(t) {
                Some(p) => p.name.clone().concat("'s"),
                None => {
                    let s = String::new();
                    assert(s@ =~= Seq::empty());
                    s
                },
            }
        };
        let line = who.concat(" speed set to ").concat(to_decimal(speed).as_str()).concat(".");
        self.push_status_message(id, line.as_str());
    }
}

} // verus!
