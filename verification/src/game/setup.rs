//! Setting a game up from its data files.

use vstd::prelude::*;

use super::lua::LuaError;
use super::lua::LuaRuntime;
use super::model::World;
use super::monster::blooded;
use super::monster::parse_monsters_xml;
use super::monster::types_of;
use super::monster::MonsterTypes;
use super::state::TypeModel;
use super::upkeep::loading_view;
use super::xml_registry::actions_of;
use super::xml_registry::XmlRegistry;
use super::Game;
use crate::xml::document_nodes;
use crate::xml::FormatError;
use crate::xml::NodeModel;

verus! {

/// The data files of a game.
pub struct GameConfig {
    /// Directory with the scripts; `None` where no scripts run.
    pub lua_scripts_dir: Option<String>,
    /// The document that gives item types their scripts.
    pub actions_xml: String,
    /// The document with the monster types.
    pub monsters_xml: String,
    /// The document with the spawns.
    pub spawns_xml: String,
    /// Directory with one document for each monster type. They come on top of the others.
    pub monsters_data_dir: Option<String>,
}

impl Default for GameConfig {
    fn default() -> (c: GameConfig)
        ensures
            c.lua_scripts_dir is None,
            c.actions_xml@ == Seq::<char>::empty(),
            c.monsters_xml@ == Seq::<char>::empty(),
            c.spawns_xml@ == Seq::<char>::empty(),
            c.monsters_data_dir is None,
    {
        let c = GameConfig {
            lua_scripts_dir: None,
            actions_xml: String::new(),
            monsters_xml: String::new(),
            spawns_xml: String::new(),
            monsters_data_dir: None,
        };
        assert(c.actions_xml@ =~= Seq::<char>::empty());
        assert(c.monsters_xml@ =~= Seq::<char>::empty());
        assert(c.spawns_xml@ =~= Seq::<char>::empty());
        c
    }
}

/// All types with blood in them, where nothing else is said.
pub open spec fn all_blooded(m: Map<Seq<char>, TypeModel>) -> Map<Seq<char>, TypeModel> {
    m.map_values(|t: TypeModel| blooded(t))
}

/// The scripts that a document gives; none where it is no such document.
pub open spec fn actions_or_none(nodes: Option<Seq<NodeModel>>) -> Map<u16, Seq<char>> {
    match nodes {
        Some(n) => match actions_of(n) {
            Ok(m) => m,
            Err(_) => Map::empty(),
        },
        None => Map::empty(),
    }
}

/// The monster types that a document gives; none where it is no such document.
pub open spec fn types_or_none(nodes: Option<Seq<NodeModel>>) -> Map<Seq<char>, TypeModel> {
    match nodes {
        Some(n) => match types_of(n) {
            Ok(m) => m,
            Err(_) => Map::empty(),
        },
        None => Map::empty(),
    }
}

impl World {
    /// The game with scripts and monster types.
    pub open spec fn equipped_with(
        self,
        lua: Option<LuaRuntime>,
        actions: Map<u16, Seq<char>>,
        types: Map<Seq<char>, TypeModel>,
        more: Map<Seq<char>, TypeModel>,
    ) -> World {
        World {
            lua,
            actions,
            types: all_blooded(types.union_prefer_right(more)),
            ..self
        }
    }
}

impl Game {
    /// Give the game its scripts and monster types. Types in `more` replace those of the same
    /// name, and every type without a race gets blood.
    pub fn equip(
        &mut self,
        lua: Option<LuaRuntime>,
        registry: XmlRegistry,
        types: MonsterTypes,
        more: MonsterTypes,
    )
        requires
            old(self).wf(),
        ensures
            final(self).wf(),
            final(self)@ == old(self)@.equipped_with(lua, registry@, types@, more@),
    {
        let mut all = types;
        all.extend(more);
        all.default_race();
        self.lua = lua;
        self.registry = registry;
        self.monster_types = all;
    }

    /// Load all scripts anew, where scripts run. The result is what went wrong.
    pub fn do_reload_lua(&mut self, scripts: &Vec<String>) -> (faults: Vec<LuaError>)
        requires
            old(self).wf(),
        ensures
            final(self).wf(),
            final(self)@ == (World { lua: final(self)@.lua, ..old(self)@ }),
            match old(self)@.lua {
                Some(before) => final(self)@.lua matches Some(after) && before.may_reload(
                    after,
                    scripts@,
                    faults@,
                ),
                None => final(self)@.lua is None && faults@.len() == 0,
            },
    {
        match &mut self.lua {
            Some(lua) => lua.reload(scripts),
            None => Vec::new(),
        }
    }

    /// Set the game up from its data files; `lua` holds the scripts and `more` the monster types
    /// of the directories. A document that cannot be read counts as empty. The result is that of
    /// the spawns.
    pub fn set_up(&mut self, config: &GameConfig, lua: Option<LuaRuntime>, more: MonsterTypes) -> (r:
        Result<bool, FormatError>)
        requires
            old(self).wf(),
        ensures
            final(self).wf(),
            final(self)@ == old(self)@.equipped_with(
                lua,
                actions_or_none(document_nodes(config.actions_xml@)),
                types_or_none(document_nodes(config.monsters_xml@)),
                more@,
            ).peopled(document_nodes(config.spawns_xml@)),
            loading_view(r) == old(self)@.loading(document_nodes(config.spawns_xml@)),
    {
        let registry = match XmlRegistry::from_actions_xml(config.actions_xml.as_str()) {
            Ok(r) => r,
            Err(_) => XmlRegistry::default(),
        };
        let types = match parse_monsters_xml(config.monsters_xml.as_str()) {
            Ok(t) => t,
            Err(_) => MonsterTypes::new(),
        };
        self.equip(lua, registry, types, more);
        self.load_spawns(config.spawns_xml.as_str())
    }
}

} // verus!
