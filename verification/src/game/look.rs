//! What a player is told of the thing it looks at.

use vstd::prelude::*;
use vstd::string::StringExecFns;

use super::model::sees;
use super::model::World;
use super::Game;
use crate::map::sight::distance;
use crate::map::sight::gap;
use crate::map::ItemMeta;
use crate::map::ItemMetaModel;
use crate::text::decimal;
use crate::text::digit;
use crate::text::to_decimal;
use crate::Position;

verus! {

/// A position as it is shown to gamemasters.
pub open spec fn position_text(p: Position) -> Seq<char> {
    "\nPosition: "@ + decimal(p.x as nat) + ", "@ + decimal(p.y as nat) + ", "@ + decimal(
        p.z as nat,
    )
}

fn make_position_text(p: Position) -> (r: String)
    ensures
        r@ == position_text(p),
{
    "\nPosition: ".to_string().concat(to_decimal(p.x as u64).as_str()).concat(", ").concat(
        to_decimal(p.y as u64).as_str(),
    ).concat(", ").concat(to_decimal(p.z as u64).as_str())
}

/// How far away something is: the greater of the distances on x and y, 15 more on another
/// floor.
pub open spec fn look_distance(a: Position, b: Position) -> int {
    let dx = gap(a.x as int, b.x as int);
    let dy = gap(a.y as int, b.y as int);
    (if dx >= dy {
        dx
    } else {
        dy
    }) + (if a.z != b.z {
        15int
    } else {
        0
    })
}

/// What an item is called: its count and plural where counts are shown, else its article and
/// name, else its number.
pub open spec fn item_title(m: ItemMetaModel, server_id: u16, count: u8) -> Seq<char> {
    if m.stackable && count > 1 && m.show_count {
        decimal(count as nat) + " "@ + m.plural_of()
    } else if m.name.len() > 0 {
        (if m.article.len() > 0 {
            m.article + " "@
        } else {
            Seq::empty()
        }) + m.name
    } else {
        "an item of type "@ + decimal(server_id as nat)
    }
}

fn make_item_title(m: &ItemMeta, server_id: u16, count: u8) -> (r: String)
    ensures
        r@ == item_title(m@, server_id, count),
{
    if m.stackable && count > 1 && m.show_count {
        to_decimal(count as u64).concat(" ").concat(m.plural_name().as_str())
    } else if !m.name.as_str().is_empty() {
        if !m.article.as_str().is_empty() {
            m.article.clone().concat(" ").concat(m.name.as_str())
        } else {
            assert(Seq::empty() + m.name@ =~= m.name@);
            m.name.clone()
        }
    } else {
        "an item of type ".to_string().concat(to_decimal(server_id as u64).as_str())
    }
}

/// A weight in hundredths of an ounce, with two decimals.
pub open spec fn weight_text(total: nat) -> Seq<char> {
    decimal(total / 100) + "."@ + seq![
        digit((total % 100) as int / 10),
        digit((total % 100) as int % 10),
    ] + " oz."@
}

fn make_weight_text(total: u64) -> (r: String)
    ensures
        r@ == weight_text(total as nat),
{
    let cents: u8 = (total % 100) as u8;
    let mut r = to_decimal(total / 100).concat(".");
    let ghost head = r@;
    r.push((48u8 + cents / 10) as char);
    r.push((48u8 + cents % 10) as char);
    assert(r@ =~= head + seq![
        digit((total % 100) as int / 10),
        digit((total % 100) as int % 10),
    ]);
    r.concat(" oz.")
}

/// What one sees of an item only from close by: its weight, where it can be picked up, and
/// its description.
pub open spec fn item_details(m: ItemMetaModel, count: u8) -> Seq<char> {
    (if m.pickupable && m.weight != 0 {
        (if m.stackable && count > 1 {
            "\nThey weigh "@
        } else {
            "\nIt weighs "@
        }) + weight_text((m.weight * count) as nat)
    } else {
        Seq::empty()
    }) + (if m.description.len() > 0 {
        "\n"@ + m.description
    } else {
        Seq::empty()
    })
}

fn make_item_details(m: &ItemMeta, count: u8) -> (r: String)
    ensures
        r@ == item_details(m@, count),
{
    let weight = if m.pickupable && m.weight != 0 {
        let head = if m.stackable && count > 1 {
            "\nThey weigh ".to_string()
        } else {
            "\nIt weighs ".to_string()
        };
        assert(0 <= m.weight * count <= 0xFFFF_FFFF * 255) by (nonlinear_arith)
            requires
                0 <= m.weight <= 0xFFFF_FFFF,
                0 <= count <= 255,
        ;
        let total: u64 = m.weight as u64 * count as u64;
        head.concat(make_weight_text(total).as_str())
    } else {
        let s = String::new();
        assert(s@ =~= Seq::empty());
        s
    };
    if !m.description.as_str().is_empty() {
        let rest = "\n".to_string().concat(m.description.as_str());
        weight.concat(rest.as_str())
    } else {
        assert(weight@ + Seq::empty() =~= weight@);
        weight
    }
}

impl World {
    /// What a player at `from` sees of item `idx` on `pos`. `None` where the catalogue knows
    /// of no item there.
    pub open spec fn item_text(self, pos: Position, idx: int, from: Position, gm: bool) -> Option<
        Seq<char>,
    > {
        match self.thing(pos, idx) {
            Some(t) => match self.map.meta_at(t.server_id) {
                Some(m) => Some(
                    "You see "@ + item_title(m, t.server_id, t.pieces()) + "."@ + (if look_distance(
                        from,
                        pos,
                    ) <= 1 {
                        item_details(m, t.pieces())
                    } else {
                        Seq::empty()
                    }) + (if gm {
                        "\nItem ID: "@ + decimal(t.server_id as nat) + position_text(pos)
                    } else {
                        Seq::empty()
                    }),
                ),
                None => None,
            },
            None => None,
        }
    }

    /// What player `id` sees of player `target`.
    pub open spec fn creature_text(self, id: u32, target: u32, gm: bool) -> Option<Seq<char>> {
        if self.players.has(target) {
            let t = self.players.at(target);
            Some(
                (if id == target {
                    "You see yourself. You have no vocation."@
                } else {
                    "You see "@ + t.name + " (Level 1)."@ + (if t.sex == 0 {
                        " She"@
                    } else {
                        " He"@
                    }) + " has no vocation."@
                }) + (if gm {
                    position_text(t.position)
                } else {
                    Seq::empty()
                }),
            )
        } else {
            None
        }
    }

    /// What player `id` sees at stack position `sp` of `pos`.
    pub open spec fn look_text(self, id: u32, pos: Position, sp: u8) -> Option<Seq<char>> {
        let p = self.players.at(id);
        let pre = self.pre(pos);
        let creatures = self.creatures_on(pos);
        if sp < pre {
            self.item_text(pos, sp as int, p.position, p.gamemaster)
        } else if sp < pre + creatures.len() {
            self.creature_text(id, creatures[sp - pre], p.gamemaster)
        } else {
            self.item_text(pos, sp - creatures.len(), p.position, p.gamemaster)
        }
    }

    /// Player `id` looks at stack position `sp` of `pos`, and is told what it sees there, if
    /// it sees the tile at all.
    #[verifier::opaque]
    pub open spec fn looked(self, id: u32, pos: Position, sp: u8) -> World {
        if self.players.has(id) && sees(self.players.at(id).position, pos) {
            match self.look_text(id, pos, sp) {
                Some(text) => self.describe(id, text),
                None => self,
            }
        } else {
            self
        }
    }

    /// Player `id` looks at player `target` in its list of creatures.
    #[verifier::opaque]
    pub open spec fn looked_at_player(self, id: u32, target: u32) -> World {
        if self.players.has(id) && self.players.has(target) && sees(
            self.players.at(id).position,
            self.players.at(target).position,
        ) {
            self.describe(id, self.creature_text(id, target, self.players.at(id).gamemaster)->0)
        } else {
            self
        }
    }
}

impl Game {
    /// Tell player `id` what it sees at stack position `stackpos` of a tile.
    pub fn do_look(&mut self, id: u32, x: u16, y: u16, z: u8, stackpos: u8)
        requires
            old(self).wf(),
        ensures
            final(self).wf(),
            final(self)@ == old(self)@.looked(id, (Position { x, y, z }), stackpos),
    {
        proof {
            reveal(World::looked);
        }
        let pos = Position::new(x, y, z);
        let (from, gm) = match self.players.get(id) {
            Some(p) => (p.position, p.gamemaster),
            None => {
                return;
            },
        };
        if !Game::can_see(from, pos) {
            return;
        }
        let pre: usize = self.merged_pre_creature_len(pos);
        let creatures = self.creatures_on(pos);
        let sp: usize = stackpos as usize;
        let text = if sp < pre {
            self.describe_tile_item(pos, sp, from, gm)
        } else if sp - pre < creatures.len() {
            self.describe_creature(id, creatures[sp - pre], gm)
        } else {
            self.describe_tile_item(pos, sp - creatures.len(), from, gm)
        };
        match text {
            Some(t) => self.push_info_descr(id, t.as_str()),
            None => {},
        }
    }

    /// Tell player `id` what it sees of player `target_id`, picked in its list of creatures.
    pub fn do_look_battle(&mut self, id: u32, target_id: u32)
        requires
            old(self).wf(),
        ensures
            final(self).wf(),
            final(self)@ == old(self)@.looked_at_player(id, target_id),
    {
        proof {
            reveal(World::looked_at_player);
        }
        let (from, gm) = match self.players.get(id) {
            Some(p) => (p.position, p.gamemaster),
            None => {
                return;
            },
        };
        let at = match self.players.get(target_id) {
            Some(p) => p.position,
            None => {
                return;
            },
        };
        if !Game::can_see(from, at) {
            return;
        }
        match self.describe_creature(id, target_id, gm) {
            Some(t) => self.push_info_descr(id, t.as_str()),
            None => {},
        }
    }

    /// The text for item `idx` of `pos`.
    pub fn describe_tile_item(&self, pos: Position, idx: usize, looker_pos: Position, gm: bool) -> (r:
        Option<String>)
        requires
            self.wf(),
        ensures
            self@.item_text(pos, idx as int, looker_pos, gm) == (match r {
                Some(s) => Some(s@),
                None => None,
            }),
    {
        let server_id: u16 = match self.merged_server_id(pos, idx) {
            Some(s) => s,
            None => {
                return None;
            },
        };
        let count: u8 = match self.merged_count(pos, idx) {
            Some(c) => if c >= 1 {
                c
            } else {
                1
            },
            None => 1,
        };
        let m = match self.map.item_meta(server_id) {
            Some(m) => m,
            None => {
                return None;
            },
        };
        let near = looker_pos.z == pos.z && distance(looker_pos.x, pos.x) <= 1 && distance(
            looker_pos.y,
            pos.y,
        ) <= 1;
        let s = "You see ".to_string().concat(make_item_title(m, server_id, count).as_str()).concat(
            ".",
        );
        let s = if near {
            s.concat(make_item_details(m, count).as_str())
        } else {
            assert(s@ + Seq::empty() =~= s@);
            s
        };
        let s = if gm {
            let more = "\nItem ID: ".to_string().concat(
                to_decimal(server_id as u64).as_str(),
            ).concat(make_position_text(pos).as_str());
            s.concat(more.as_str())
        } else {
            assert(s@ + Seq::empty() =~= s@);
            s
        };
        Some(s)
    }

    /// The text for player `target_id` as `looker_id` sees it. `None` for monsters.
    pub fn describe_creature(&self, looker_id: u32, target_id: u32, gm: bool) -> (r: Option<String>)
        requires
            self.wf(),
        ensures
            self@.creature_text(looker_id, target_id, gm) == (match r {
                Some(s) => Some(s@),
                None => None,
            }),
    {
        let t = match self.players.get(target_id) {
            Some(p) => p,
            None => {
                return None;
            },
        };
        let s = if looker_id == target_id {
            "You see yourself. You have no vocation.".to_string()
        } else {
            let who = if t.sex == 0 {
                " She"
            } else {
                " He"
            };
            "You see ".to_string().concat(t.name.as_str()).concat(" (Level 1).").concat(who).concat(
                " has no vocation.",
            )
        };
        let s = if gm {
            s.concat(make_position_text(t.position).as_str())
        } else {
            assert(s@ + Seq::empty() =~= s@);
            s
        };
        Some(s)
    }
}

} // verus!
