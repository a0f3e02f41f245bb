//! Monster types and spawn points, as their data files describe them.

use std::collections::VecDeque;
use vstd::prelude::*;
use vstd::string::StrSliceExecFns;
use vstd::utf8::encode_utf8;

use super::model::percent;
use super::state::MonsterDrop;
use super::state::MonsterModel;
use super::state::MonsterSpawn;
use super::state::MonsterState;
use super::state::MonsterType;
use super::state::RaceType;
use super::state::SpawnModel;
use super::state::TypeModel;
use crate::text::ascii_lowered;
use crate::text::parse_signed;
use crate::text::parse_unsigned;
use crate::text::signed_value;
use crate::text::to_ascii_lowercase;
use crate::text::unsigned_value;
use crate::xml::document_nodes;
use crate::xml::nodes_view;
use crate::xml::parse_nodes;
use crate::xml::FormatError;
use crate::xml::NodeModel;
use crate::xml::XmlNode;
use crate::Direction;
use crate::Position;

verus! {

/// One of the monster types, under its lower-case name.
#[derive(Debug)]
pub struct NamedType {
    pub key: String,
    pub kind: MonsterType,
}

/// The monster types by lower-case name. A later entry replaces an earlier one.
#[derive(Debug)]
pub struct MonsterTypes {
    entries: Vec<NamedType>,
}

/// Entries as a map.
pub open spec fn table(s: Seq<NamedType>) -> Map<Seq<char>, TypeModel>
    decreases s.len(),
{
    if s.len() == 0 {
        Map::empty()
    } else {
        table(s.drop_last()).insert(s.last().key@, s.last().kind@)
    }
}

/// The type with blood in it, where nothing else is said.
pub open spec fn blooded(t: TypeModel) -> TypeModel {
    TypeModel {
        race: match t.race {
            Some(r) => Some(r),
            None => Some(RaceType::Blood),
        },
        ..t
    }
}

proof fn lemma_table_append(a: Seq<NamedType>, b: Seq<NamedType>)
    ensures
        table(a + b) == table(a).union_prefer_right(table(b)),
    decreases b.len(),
{
    if b.len() == 0 {
        assert(a + b =~= a);
        assert(table(a).union_prefer_right(table(b)) =~= table(a));
    } else {
        assert((a + b).drop_last() =~= a + b.drop_last());
        lemma_table_append(a, b.drop_last());
        assert(table(a + b) =~= table(a).union_prefer_right(table(b)));
    }
}

proof fn lemma_table_blood(a: Seq<NamedType>, b: Seq<NamedType>)
    requires
        a.len() == b.len(),
        forall|k: int|
            #![trigger b[k]]
            0 <= k < a.len() ==> b[k].key == a[k].key && b[k].kind@ == blooded(a[k].kind@),
    ensures
        table(b).dom() == table(a).dom(),
        forall|n: Seq<char>| #[trigger]
            table(a).contains_key(n) ==> table(b)[n] == blooded(table(a)[n]),
    decreases a.len(),
{
    if a.len() > 0 {
        lemma_table_blood(a.drop_last(), b.drop_last());
        assert(b.last() == b[b.len() - 1]);
        assert(table(b).dom() =~= table(a).dom());
    }
}

impl View for MonsterTypes {
    type V = Map<Seq<char>, TypeModel>;

    closed spec fn view(&self) -> Map<Seq<char>, TypeModel> {
        table(self.entries@)
    }
}

impl MonsterTypes {
    pub fn new() -> (r: MonsterTypes)
        ensures
            r@ == Map::<Seq<char>, TypeModel>::empty(),
    {
        MonsterTypes { entries: Vec::new() }
    }

    pub fn insert(&mut self, key: String, kind: MonsterType)
        ensures
            final(self)@ == old(self)@.insert(key@, kind@),
    {
        self.entries.push(NamedType { key, kind });
        assert(self.entries@.drop_last() =~= old(self).entries@);
    }

    /// Add all entries of `more`, which replace those under the same name.
    pub fn extend(&mut self, more: MonsterTypes)
        ensures
            final(self)@ == old(self)@.union_prefer_right(more@),
    {
        let ghost a = self.entries@;
        let ghost b = more.entries@;
        let mut rest = more.entries;
        self.entries.append(&mut rest);
        proof {
            lemma_table_append(a, b);
        }
    }

    /// Let every type without a race have blood.
    pub fn default_race(&mut self)
        ensures
            final(self)@ == old(self)@.map_values(
                |t: TypeModel| blooded(t),
            ),
    {
        let ghost start = self.entries@;
        let n: usize = self.entries.len();
        let mut i: usize = 0;
        while i < n
            invariant
                i <= n,
                n == start.len(),
                self.entries@.len() == n,
                forall|k: int|
                    #![trigger self.entries@[k]]
                    0 <= k < i ==> self.entries@[k].key == start[k].key && self.entries@[k].kind@
                        == blooded(start[k].kind@),
                forall|k: int|
                    #![trigger self.entries@[k]]
                    i <= k < n ==> self.entries@[k] == start[k],
            decreases n - i,
        {
            match self.entries[i].kind.race {
                Some(_) => {},
                None => {
                    self.entries[i].kind.race = Some(RaceType::Blood);
                },
            }
            i = i + 1;
        }
        proof {
            lemma_table_blood(start, self.entries@);
            assert(table(self.entries@) =~= table(start).map_values(
                |t: TypeModel| blooded(t),
            ));
        }
    }

    pub fn get(&self, key: &str) -> (r: Option<&MonsterType>)
        ensures
            match r {
                Some(t) => self@.contains_key(key@) && self@[key@] == t@,
                None => !self@.contains_key(key@),
            },
    {
        let mut i: usize = self.entries.len();
        assert(self.entries@.take(i as int) =~= self.entries@);
        while i > 0
            invariant
                i <= self.entries@.len(),
                self@.contains_key(key@) == table(self.entries@.take(i as int)).contains_key(key@),
                self@.contains_key(key@) ==> self@[key@] == table(
                    self.entries@.take(i as int),
                )[key@],
            decreases i,
        {
            assert(self.entries@.take(i as int).drop_last() =~= self.entries@.take(i - 1));
            if *self.entries[i - 1].key.as_str() == *key {
                return Some(&self.entries[i - 1].kind);
            }
            i = i - 1;
        }
        None
    }
}

/// A copy of a list of drops.
pub fn copy_drops(v: &Vec<MonsterDrop>) -> (r: Vec<MonsterDrop>)
    ensures
        r@ == v@,
{
    let mut r: Vec<MonsterDrop> = Vec::new();
    let mut i: usize = 0;
    while i < v.len()
        invariant
            i <= v@.len(),
            r@ == v@.take(i as int),
        decreases v@.len() - i,
    {
        r.push(v[i]);
        assert(v@.take(i + 1) =~= v@.take(i as int).push(v@[i as int]));
        i = i + 1;
    }
    assert(v@.take(v@.len() as int) =~= v@);
    r
}

impl MonsterType {
    /// A copy of this type.
    pub fn copy(&self) -> (r: MonsterType)
        ensures
            r@ == self@,
    {
        MonsterType {
            name: self.name.clone(),
            look_type: self.look_type,
            health: self.health,
            max_health: self.max_health,
            speed: self.speed,
            attack: self.attack,
            loot: copy_drops(&self.loot),
            target_distance: self.target_distance,
            race: self.race,
        }
    }
}

impl TypeModel {
    /// A monster of this type that has just appeared at `position`.
    pub open spec fn newborn(self, position: Position, spawn_id: Option<u32>) -> MonsterModel {
        MonsterModel {
            name: self.name,
            position,
            direction: Direction::South,
            health: self.health,
            max_health: self.max_health,
            speed: self.speed,
            look_type: self.look_type,
            attacking: None,
            last_attack_ms: 0,
            attack: self.attack,
            loot: self.loot,
            spawn_id,
            walk: Seq::empty(),
            follow_target: None,
            target_distance: self.target_distance,
            race: self.race,
        }
    }
}

impl MonsterState {
    /// A monster of type `kind` that has just appeared at `position`.
    pub fn born(kind: &MonsterType, position: Position, spawn_id: Option<u32>) -> (m: MonsterState)
        ensures
            m@ == kind@.newborn(position, spawn_id),
    {
        let list_walk_dir: VecDeque<Direction> = VecDeque::new();
        assert(list_walk_dir@ =~= Seq::empty());
        MonsterState {
            name: kind.name.clone(),
            position,
            direction: Direction::South,
            health: kind.health,
            max_health: kind.max_health,
            speed: kind.speed,
            look_type: kind.look_type,
            attacking: None,
            last_attack_ms: 0,
            attack: kind.attack,
            loot: copy_drops(&kind.loot),
            spawn_id,
            list_walk_dir,
            follow_target: None,
            target_distance: kind.target_distance,
            race: kind.race,
        }
    }

    /// Health as a percentage, 100 at most.
    pub fn health_percent(&self) -> (r: u8)
        ensures
            r == percent(self.health, self.max_health),
    {
        health_percent_of(self.health, self.max_health)
    }
}

/// `health` as a percentage of `max_health`, 100 at most and 0 where there is no maximum.
pub fn health_percent_of(health: u32, max_health: u32) -> (r: u8)
    ensures
        r == percent(health, max_health),
{
    if max_health == 0 {
        return 0;
    }
    let q: u64 = (health as u64 * 100) / (max_health as u64);
    if q <= 100 {
        q as u8
    } else {
        100
    }
}

/// The 31-polynomial hash of some bytes, in 32 bits.
pub open spec fn hash31(bytes: Seq<u8>) -> u32
    decreases bytes.len(),
{
    if bytes.len() == 0 {
        0
    } else {
        ((31 * hash31(bytes.drop_last()) + bytes.last()) % 0x1_0000_0000) as u32
    }
}

/// A look type in 20..=499 that depends on nothing but the name.
pub open spec fn look_of_name(name: Seq<char>) -> u16 {
    (20 + hash31(encode_utf8(name)) % 480) as u16
}

/// Derive a look type from a name, so that unknown monster types look different from each
/// other.
pub fn name_hash_looktype(name: &str) -> (r: u16)
    ensures
        r == look_of_name(name@),
        20 <= r <= 499,
{
    let bytes = name.as_bytes_vec();
    let mut h: u32 = 0;
    let mut i: usize = 0;
    while i < bytes.len()
        invariant
            i <= bytes@.len(),
            h == hash31(bytes@.take(i as int)),
        decreases bytes@.len() - i,
    {
        assert(bytes@.take(i + 1).drop_last() =~= bytes@.take(i as int));
        let n: u64 = (31 * (h as u64) + bytes[i] as u64) % 0x1_0000_0000;
        h = n as u32;
        i = i + 1;
    }
    assert(bytes@.take(bytes@.len() as int) =~= bytes@);
    20 + (h % 480) as u16
}

/// An unsigned attribute no greater than `max`.
pub open spec fn number(n: NodeModel, name: Seq<char>, max: nat) -> Option<nat> {
    match n.attribute(name) {
        Some(text) => unsigned_value(text, max),
        None => None,
    }
}

/// A signed attribute in `-(max + 1)..=max`, 0 where there is none.
pub open spec fn shift(n: NodeModel, name: Seq<char>, max: nat) -> int {
    match n.attribute(name) {
        Some(text) => match signed_value(text, max) {
            Some(v) => v,
            None => 0,
        },
        None => 0,
    }
}

/// The value, or another where there is none.
pub open spec fn or_else(v: Option<nat>, other: nat) -> nat {
    match v {
        Some(n) => n,
        None => other,
    }
}

pub(crate) fn number_of(n: &XmlNode, name: &str, max: u64) -> (r: Option<u64>)
    ensures
        number(n@, name@, max as nat) == (match r {
            Some(v) => Some(v as nat),
            None => None,
        }),
        r matches Some(v) ==> v <= max,
{
    match n.attribute(name) {
        Some(text) => parse_unsigned(text, max),
        None => None,
    }
}

fn shift_of(n: &XmlNode, name: &str, max: i32) -> (r: i32)
    requires
        0 <= max < i32::MAX,
    ensures
        r == shift(n@, name@, max as nat),
        -(max + 1) <= r <= max,
{
    match n.attribute(name) {
        Some(text) => match parse_signed(text, max) {
            Some(v) => v,
            None => 0,
        },
        None => 0,
    }
}

/// The race that a text names; blood where it names none.
pub open spec fn race_named(text: Option<Seq<char>>) -> RaceType {
    match text {
        None => RaceType::Blood,
        Some(s) => if s == "venom"@ {
            RaceType::Venom
        } else if s == "fire"@ {
            RaceType::Fire
        } else if s == "energy"@ {
            RaceType::Energy
        } else if s == "drown"@ {
            RaceType::Drown
        } else if s == "physical"@ {
            RaceType::Physical
        } else if s == "earth"@ {
            RaceType::Earth
        } else if s == "holy"@ {
            RaceType::Holy
        } else if s == "death"@ {
            RaceType::Death
        } else if s == "undead"@ {
            RaceType::Undead
        } else if s == "diamond"@ {
            RaceType::Diamond
        } else {
            RaceType::Blood
        },
    }
}

pub(crate) fn race_of(n: &XmlNode) -> (r: RaceType)
    ensures
        r == race_named(n@.attribute("race"@)),
{
    match n.attribute("race") {
        None => RaceType::Blood,
        Some(s) => if *s == *"venom" {
            RaceType::Venom
        } else if *s == *"fire" {
            RaceType::Fire
        } else if *s == *"energy" {
            RaceType::Energy
        } else if *s == *"drown" {
            RaceType::Drown
        } else if *s == *"physical" {
            RaceType::Physical
        } else if *s == *"earth" {
            RaceType::Earth
        } else if *s == *"holy" {
            RaceType::Holy
        } else if *s == *"death" {
            RaceType::Death
        } else if *s == *"undead" {
            RaceType::Undead
        } else if *s == *"diamond" {
            RaceType::Diamond
        } else {
            RaceType::Blood
        },
    }
}

/// What a `monster` element of a monsters file says.
pub open spec fn type_of(n: NodeModel) -> Result<TypeModel, Seq<char>> {
    match n.attribute("name"@) {
        None => Err("monster missing name attribute"@),
        Some(name) => match number(n, "looktype"@, 0xFFFF) {
            None => Err("monster missing or invalid looktype attribute"@),
            Some(look) => match number(n, "health"@, 0xFFFF_FFFF) {
                None => Err("monster missing or invalid health attribute"@),
                Some(health) => Ok(
                    TypeModel {
                        name,
                        look_type: look as u16,
                        health: health as u32,
                        max_health: or_else(number(n, "max_health"@, 0xFFFF_FFFF), health) as u32,
                        speed: or_else(number(n, "speed"@, 0xFFFF), 200) as u16,
                        attack: or_else(number(n, "attack"@, 0xFFFF), 7) as u16,
                        loot: Seq::empty(),
                        target_distance: 0,
                        race: Some(race_named(n.attribute("race"@))),
                    },
                ),
            },
        },
    }
}

/// The monster types that a document's `monster` elements describe, by lower-case name; the
/// first element that says nothing sensible is an error.
pub open spec fn types_of(nodes: Seq<NodeModel>) -> Result<Map<Seq<char>, TypeModel>, Seq<char>>
    decreases nodes.len(),
{
    if nodes.len() == 0 {
        Ok(Map::empty())
    } else {
        match types_of(nodes.drop_last()) {
            Err(e) => Err(e),
            Ok(m) => if nodes.last().tag == "monster"@ {
                match type_of(nodes.last()) {
                    Err(e) => Err(e),
                    Ok(t) => Ok(m.insert(ascii_lowered(t.name), t)),
                }
            } else {
                Ok(m)
            },
        }
    }
}

proof fn lemma_types_prefix_err(nodes: Seq<NodeModel>, i: int)
    requires
        0 <= i <= nodes.len(),
        types_of(nodes.take(i)) is Err,
    ensures
        types_of(nodes) == types_of(nodes.take(i)),
    decreases nodes.len() - i,
{
    if i < nodes.len() {
        assert(nodes.take(i + 1).drop_last() =~= nodes.take(i));
        lemma_types_prefix_err(nodes, i + 1);
    } else {
        assert(nodes.take(i) =~= nodes);
    }
}

fn read_type(n: &XmlNode) -> (r: Result<MonsterType, FormatError>)
    ensures
        type_of(n@) == (match r {
            Ok(t) => Ok::<TypeModel, Seq<char>>(t@),
            Err(e) => Err(e.reason()),
        }),
{
    let name = match n.attribute("name") {
        Some(s) => s.to_owned(),
        None => {
            return Err(FormatError::InvalidNode { what: "monster missing name attribute" });
        },
    };
    let look_type: u16 = match number_of(n, "looktype", 0xFFFF) {
        Some(v) => v as u16,
        None => {
            return Err(
                FormatError::InvalidNode { what: "monster missing or invalid looktype attribute" },
            );
        },
    };
    let health: u32 = match number_of(n, "health", 0xFFFF_FFFF) {
        Some(v) => v as u32,
        None => {
            return Err(
                FormatError::InvalidNode { what: "monster missing or invalid health attribute" },
            );
        },
    };
    let max_health: u32 = match number_of(n, "max_health", 0xFFFF_FFFF) {
        Some(v) => v as u32,
        None => health,
    };
    let speed: u16 = match number_of(n, "speed", 0xFFFF) {
        Some(v) => v as u16,
        None => 200,
    };
    let attack: u16 = match number_of(n, "attack", 0xFFFF) {
        Some(v) => v as u16,
        None => 7,
    };
    let loot: Vec<MonsterDrop> = Vec::new();
    Ok(
        MonsterType {
            name,
            look_type,
            health,
            max_health,
            speed,
            attack,
            loot,
            target_distance: 0,
            race: Some(race_of(n)),
        },
    )
}

/// The monster types that a document's nodes describe.
pub fn monster_types_from(nodes: &Vec<XmlNode>) -> (r: Result<MonsterTypes, FormatError>)
    ensures
        types_of(nodes_view(nodes@)) == (match r {
            Ok(t) => Ok::<Map<Seq<char>, TypeModel>, Seq<char>>(t@),
            Err(e) => Err(e.reason()),
        }),
{
    let ghost all = nodes_view(nodes@);
    let mut types = MonsterTypes::new();
    let mut i: usize = 0;
    while i < nodes.len()
        invariant
            i <= nodes@.len(),
            all == nodes_view(nodes@),
            types_of(all.take(i as int)) == Ok::<Map<Seq<char>, TypeModel>, Seq<char>>(types@),
        decreases nodes@.len() - i,
    {
        let n = &nodes[i];
        proof {
            assert(all.take(i + 1).drop_last() =~= all.take(i as int));
            assert(all.take(i + 1).last() == n@);
            if types_of(all.take(i + 1)) is Err {
                lemma_types_prefix_err(all, i + 1);
            }
        }
        if n.has_tag_name("monster") {
            match read_type(n) {
                Ok(t) => {
                    let key = to_ascii_lowercase(t.name.as_str());
                    types.insert(key, t);
                },
                Err(e) => {
                    return Err(e);
                },
            }
        }
        i = i + 1;
    }
    assert(all.take(all.len() as int) =~= all);
    Ok(types)
}

/// Parse a monsters document:
///
/// ```xml
/// <monsters>
///   <monster name="Rat" looktype="100" health="50" max_health="50" speed="200" attack="7"/>
/// </monsters>
/// ```
pub fn parse_monsters_xml(xml: &str) -> (r: Result<MonsterTypes, FormatError>)
    ensures
        match r {
            Ok(t) => document_nodes(xml@) is Some && types_of(document_nodes(xml@)->0) == Ok::<
                Map<Seq<char>, TypeModel>,
                Seq<char>,
            >(t@),
            Err(e) => match document_nodes(xml@) {
                None => e.reason() == "monsters.xml is not well-formed"@,
                Some(nodes) => types_of(nodes) == Err::<Map<Seq<char>, TypeModel>, Seq<char>>(
                    e.reason(),
                ),
            },
        },
{
    match parse_nodes(xml) {
        Ok(nodes) => monster_types_from(&nodes),
        Err(_) => Err(FormatError::InvalidNode { what: "monsters.xml is not well-formed" }),
    }
}

/// A monster of which nothing but the name is known.
pub open spec fn unknown_type(name: Seq<char>) -> TypeModel {
    TypeModel {
        name,
        look_type: look_of_name(name),
        health: 50,
        max_health: 50,
        speed: 200,
        attack: 7,
        loot: Seq::empty(),
        target_distance: 0,
        race: Some(RaceType::Blood),
    }
}

/// What a `monster` element inside a `spawn` element says: a monster that appears at an
/// offset from the spawn's centre. Coordinates wrap around at the edges of their range, and
/// so does an interval of more milliseconds than 64 bits hold.
#[verifier::opaque]
pub open spec fn spawn_of(n: NodeModel, cx: nat, cy: nat, cz: nat) -> Result<SpawnModel, Seq<char>> {
    match n.attribute("name"@) {
        None => Err("monster in spawn missing name"@),
        Some(name) => Ok(
            SpawnModel {
                position: Position {
                    x: ((cx + shift(n, "x"@, 0x7FFF)) % 0x1_0000) as u16,
                    y: ((cy + shift(n, "y"@, 0x7FFF)) % 0x1_0000) as u16,
                    z: ((cz + shift(n, "z"@, 0x7F)) % 0x100) as u8,
                },
                respawn_interval_ms: ((or_else(number(n, "spawntime"@, 0xFFFF_FFFF_FFFF_FFFF), 60)
                    * 1000) % 0x1_0000_0000_0000_0000) as u64,
                respawn_at_ms: None,
                kind: unknown_type(name),
            },
        ),
    }
}

/// The monsters among `nodes` that are children of node `parent`, in order.
pub open spec fn children_spawns(
    nodes: Seq<NodeModel>,
    parent: usize,
    cx: nat,
    cy: nat,
    cz: nat,
) -> Result<Seq<SpawnModel>, Seq<char>>
    decreases nodes.len(),
{
    if nodes.len() == 0 {
        Ok(Seq::empty())
    } else {
        match children_spawns(nodes.drop_last(), parent, cx, cy, cz) {
            Err(e) => Err(e),
            Ok(s) => if nodes.last().parent == Some(parent) && nodes.last().tag == "monster"@ {
                match spawn_of(nodes.last(), cx, cy, cz) {
                    Err(e) => Err(e),
                    Ok(m) => Ok(s.push(m)),
                }
            } else {
                Ok(s)
            },
        }
    }
}

/// What a `spawn` element of the document `all` says: its centre, and its monsters.
pub open spec fn spawns_at(all: Seq<NodeModel>, n: NodeModel) -> Result<
    Seq<SpawnModel>,
    Seq<char>,
> {
    match number(n, "centerx"@, 0xFFFF) {
        None => Err("spawn missing centerx"@),
        Some(cx) => match number(n, "centery"@, 0xFFFF) {
            None => Err("spawn missing centery"@),
            Some(cy) => match number(n, "centerz"@, 0xFF) {
                None => Err("spawn missing centerz"@),
                Some(cz) => children_spawns(all, n.id, cx, cy, cz),
            },
        },
    }
}

/// The spawns of the nodes `prefix` of the document `all`, in order.
pub open spec fn spawns_in(prefix: Seq<NodeModel>, all: Seq<NodeModel>) -> Result<
    Seq<SpawnModel>,
    Seq<char>,
>
    decreases prefix.len(),
{
    if prefix.len() == 0 {
        Ok(Seq::empty())
    } else {
        match spawns_in(prefix.drop_last(), all) {
            Err(e) => Err(e),
            Ok(s) => if prefix.last().tag == "spawn"@ {
                match spawns_at(all, prefix.last()) {
                    Err(e) => Err(e),
                    Ok(t) => Ok(s + t),
                }
            } else {
                Ok(s)
            },
        }
    }
}

/// The spawns that a document describes; the first element that says nothing sensible is an
/// error.
pub open spec fn spawns_of(all: Seq<NodeModel>) -> Result<Seq<SpawnModel>, Seq<char>> {
    spawns_in(all, all)
}

proof fn lemma_spawns_err(prefix: Seq<NodeModel>, all: Seq<NodeModel>, i: int)
    requires
        0 <= i <= prefix.len(),
        spawns_in(prefix.take(i), all) is Err,
    ensures
        spawns_in(prefix, all) == spawns_in(prefix.take(i), all),
    decreases prefix.len() - i,
{
    if i < prefix.len() {
        assert(prefix.take(i + 1).drop_last() =~= prefix.take(i));
        lemma_spawns_err(prefix, all, i + 1);
    } else {
        assert(prefix.take(i) =~= prefix);
    }
}

proof fn lemma_children_err(
    nodes: Seq<NodeModel>,
    parent: usize,
    cx: nat,
    cy: nat,
    cz: nat,
    i: int,
)
    requires
        0 <= i <= nodes.len(),
        children_spawns(nodes.take(i), parent, cx, cy, cz) is Err,
    ensures
        children_spawns(nodes, parent, cx, cy, cz) == children_spawns(
            nodes.take(i),
            parent,
            cx,
            cy,
            cz,
        ),
    decreases nodes.len() - i,
{
    if i < nodes.len() {
        assert(nodes.take(i + 1).drop_last() =~= nodes.take(i));
        lemma_children_err(nodes, parent, cx, cy, cz, i + 1);
    } else {
        assert(nodes.take(i) =~= nodes);
    }
}

/// Spawns, each by its view.
pub open spec fn spawns_view(s: Seq<MonsterSpawn>) -> Seq<SpawnModel> {
    s.map_values(|m: MonsterSpawn| m@)
}

/// `v` wrapped into `0..m`, for `v` at most one turn outside.
fn wrap(v: i32, m: i32) -> (r: i32)
    requires
        0 < m <= 0x1_0000,
        -m <= v < 2 * m,
    ensures
        r == (v as int) % (m as int),
        0 <= r < m,
{
    if v < 0 {
        assert((v as int) % (m as int) == v + m) by (nonlinear_arith)
            requires
                -m <= v < 0,
                m > 0,
        ;
        v + m
    } else if v >= m {
        assert((v as int) % (m as int) == v - m) by (nonlinear_arith)
            requires
                m <= v < 2 * m,
                m > 0,
        ;
        v - m
    } else {
        assert((v as int) % (m as int) == v) by (nonlinear_arith)
            requires
                0 <= v < m,
        ;
        v
    }
}

fn read_spawn(n: &XmlNode, cx: u16, cy: u16, cz: u8) -> (r: Result<MonsterSpawn, FormatError>)
    ensures
        spawn_of(n@, cx as nat, cy as nat, cz as nat) == (match r {
            Ok(s) => Ok::<SpawnModel, Seq<char>>(s@),
            Err(e) => Err(e.reason()),
        }),
{
    proof {
        reveal(spawn_of);
    }
    let name = match n.attribute("name") {
        Some(s) => s.to_owned(),
        None => {
            return Err(FormatError::InvalidNode { what: "monster in spawn missing name" });
        },
    };
    let dx: i32 = shift_of(n, "x", 0x7FFF);
    let dy: i32 = shift_of(n, "y", 0x7FFF);
    let dz: i32 = shift_of(n, "z", 0x7F);
    let seconds: u64 = match number_of(n, "spawntime", 0xFFFF_FFFF_FFFF_FFFF) {
        Some(v) => v,
        None => 60,
    };
    let x: i32 = wrap(cx as i32 + dx, 0x1_0000);
    let y: i32 = wrap(cy as i32 + dy, 0x1_0000);
    let z: i32 = wrap(cz as i32 + dz, 0x100);
    let look_type = name_hash_looktype(name.as_str());
    let loot: Vec<MonsterDrop> = Vec::new();
    let interval: u64 = ((seconds as u128 * 1000) % 0x1_0000_0000_0000_0000) as u64;
    Ok(
        MonsterSpawn {
            position: Position { x: x as u16, y: y as u16, z: z as u8 },
            respawn_interval_ms: interval,
            respawn_at_ms: None,
            kind: MonsterType {
                name,
                look_type,
                health: 50,
                max_health: 50,
                speed: 200,
                attack: 7,
                loot,
                target_distance: 0,
                race: Some(RaceType::Blood),
            },
        },
    )
}

/// Append what a `spawn` element says to `out`.
fn read_spawns_at(
    nodes: &Vec<XmlNode>,
    n: &XmlNode,
    out: &mut Vec<MonsterSpawn>,
) -> (r: Result<(), FormatError>)
    ensures
        match r {
            Ok(_) => spawns_at(nodes_view(nodes@), n@) is Ok && spawns_view(final(out)@)
                == spawns_view(old(out)@) + spawns_at(nodes_view(nodes@), n@)->Ok_0,
            Err(e) => spawns_at(nodes_view(nodes@), n@) == Err::<Seq<SpawnModel>, Seq<char>>(
                e.reason(),
            ),
        },
{
    let cx: u16 = match number_of(n, "centerx", 0xFFFF) {
        Some(v) => v as u16,
        None => {
            return Err(FormatError::InvalidNode { what: "spawn missing centerx" });
        },
    };
    let cy: u16 = match number_of(n, "centery", 0xFFFF) {
        Some(v) => v as u16,
        None => {
            return Err(FormatError::InvalidNode { what: "spawn missing centery" });
        },
    };
    let cz: u8 = match number_of(n, "centerz", 0xFF) {
        Some(v) => v as u8,
        None => {
            return Err(FormatError::InvalidNode { what: "spawn missing centerz" });
        },
    };
    let ghost all = nodes_view(nodes@);
    let ghost gx = cx as nat;
    let ghost gy = cy as nat;
    let ghost gz = cz as nat;
    let ghost start = spawns_view(out@);
    let ghost mut found: Seq<SpawnModel> = Seq::empty();
    assert(spawns_view(out@) =~= start + found);
    let mut i: usize = 0;
    while i < nodes.len()
        invariant
            i <= nodes@.len(),
            all == nodes_view(nodes@),
            gx == cx && gy == cy && gz == cz,
            spawns_at(all, n@) == children_spawns(all, n.id, gx, gy, gz),
            children_spawns(all.take(i as int), n.id, gx, gy, gz) == Ok::<
                Seq<SpawnModel>,
                Seq<char>,
            >(found),
            spawns_view(out@) == start + found,
        decreases nodes@.len() - i,
    {
        let c = &nodes[i];
        proof {
            assert(all.take(i + 1).drop_last() =~= all.take(i as int));
            assert(all.take(i + 1).last() == c@);
            if children_spawns(all.take(i + 1), n.id, gx, gy, gz) is Err {
                lemma_children_err(all, n.id, gx, gy, gz, i + 1);
            }
        }
        let is_child = match c.parent {
            Some(p) => p == n.id,
            None => false,
        };
        if is_child && c.has_tag_name("monster") {
            match read_spawn(c, cx, cy, cz) {
                Ok(s) => {
                    let ghost before = out@;
                    out.push(s);
                    proof {
                        assert(spawns_view(out@) =~= spawns_view(before).push(s@));
                        assert((start + found).push(s@) =~= start + found.push(s@));
                        found = found.push(s@);
                    }
                },
                Err(e) => {
                    return Err(e);
                },
            }
        }
        i = i + 1;
    }
    assert(all.take(all.len() as int) =~= all);
    Ok(())
}

/// The spawns that a document's nodes describe.
pub fn spawns_from(nodes: &Vec<XmlNode>) -> (r: Result<Vec<MonsterSpawn>, FormatError>)
    ensures
        spawns_of(nodes_view(nodes@)) == (match r {
            Ok(s) => Ok::<Seq<SpawnModel>, Seq<char>>(spawns_view(s@)),
            Err(e) => Err(e.reason()),
        }),
{
    let ghost all = nodes_view(nodes@);
    let mut out: Vec<MonsterSpawn> = Vec::new();
    assert(spawns_view(out@) =~= Seq::empty());
    let mut i: usize = 0;
    while i < nodes.len()
        invariant
            i <= nodes@.len(),
            all == nodes_view(nodes@),
            spawns_in(all.take(i as int), all) == Ok::<Seq<SpawnModel>, Seq<char>>(
                spawns_view(out@),
            ),
        decreases nodes@.len() - i,
    {
        let n = &nodes[i];
        proof {
            assert(all.take(i + 1).drop_last() =~= all.take(i as int));
            assert(all.take(i + 1).last() == n@);
            if spawns_in(all.take(i + 1), all) is Err {
                lemma_spawns_err(all, all, i + 1);
            }
        }
        if n.has_tag_name("spawn") {
            match read_spawns_at(nodes, n, &mut out) {
                Ok(_) => {},
                Err(e) => {
                    return Err(e);
                },
            }
        }
        i = i + 1;
    }
    assert(all.take(all.len() as int) =~= all);
    Ok(out)
}

/// Parse a spawns document:
///
/// ```xml
/// <spawns>
///   <spawn centerx="32153" centery="31124" centerz="0" radius="2">
///     <monster name="Silver Rabbit" x="0" y="1" z="0" spawntime="60"/>
///   </spawn>
/// </spawns>
/// ```
pub fn parse_spawns_xml(xml: &str) -> (r: Result<Vec<MonsterSpawn>, FormatError>)
    ensures
        match r {
            Ok(s) => document_nodes(xml@) is Some && spawns_of(document_nodes(xml@)->0) == Ok::<Seq<SpawnModel>, Seq<char>>(spawns_view(s@)),
            Err(e) => match document_nodes(xml@) {
                None => e.reason() == "spawns.xml is not well-formed"@,
                Some(nodes) => spawns_of(nodes) == Err::<
                    Seq<SpawnModel>,
                    Seq<char>,
                >(e.reason()),
            },
        },
{
    match parse_nodes(xml) {
        Ok(nodes) => spawns_from(&nodes),
        Err(_) => Err(FormatError::InvalidNode { what: "spawns.xml is not well-formed" }),
    }
}

/// The look type of an unknown monster lies in the range of creature looks.
pub proof fn law_name_look_in_range(name: Seq<char>)
    ensures
        20 <= look_of_name(name) <= 499,
{
}

} // verus!
