//! Which item types have a script, and which one.

use std::collections::HashMap;
use vstd::prelude::*;

use crate::text::parse_unsigned;
use crate::text::unsigned_value;
use crate::xml::document_nodes;
use crate::xml::nodes_view;
use crate::xml::parse_nodes;
use crate::xml::FormatError;
use crate::xml::NodeModel;
use crate::xml::XmlNode;

verus! {

broadcast use vstd::std_specs::hash::group_hash_axioms;

/// One entry of an actions file: a script for the item types `from..=to`. An inverted range
/// covers nothing.
#[verifier::ext_equal]
pub ghost struct Action {
    pub from: u16,
    pub to: u16,
    pub script: Seq<char>,
}

/// A 16-bit number in a text.
pub open spec fn item_id(s: Seq<char>) -> Option<u16> {
    match unsigned_value(s, 0xFFFF) {
        Some(n) => Some(n as u16),
        None => None,
    }
}

/// What an `action` element says: a script, and either one item type or a range of them.
pub open spec fn action_of(n: NodeModel) -> Result<Action, Seq<char>> {
    match n.attribute("script"@) {
        None => Err("action missing script attribute"@),
        Some(script) => match n.attribute("itemid"@) {
            Some(text) => match item_id(text) {
                Some(id) => Ok(Action { from: id, to: id, script }),
                None => Err("action has invalid itemid attribute"@),
            },
            None => match (n.attribute("fromid"@), n.attribute("toid"@)) {
                (Some(a), Some(b)) => match item_id(a) {
                    None => Err("action has invalid fromid attribute"@),
                    Some(from) => match item_id(b) {
                        None => Err("action has invalid toid attribute"@),
                        Some(to) => Ok(Action { from, to, script }),
                    },
                },
                _ => Err("action must have itemid or (fromid + toid) attributes"@),
            },
        },
    }
}

/// The scripts with one more entry, which replaces earlier ones for the same item types.
pub open spec fn with_action(m: Map<u16, Seq<char>>, a: Action) -> Map<u16, Seq<char>> {
    Map::new(
        |id: u16| m.contains_key(id) || a.from <= id <= a.to,
        |id: u16| if a.from <= id <= a.to { a.script } else { m[id] },
    )
}

/// The scripts that a document's `action` elements name, in document order; the first
/// element that says nothing sensible is an error.
pub open spec fn actions_of(nodes: Seq<NodeModel>) -> Result<Map<u16, Seq<char>>, Seq<char>>
    decreases nodes.len(),
{
    if nodes.len() == 0 {
        Ok(Map::empty())
    } else {
        match actions_of(nodes.drop_last()) {
            Err(e) => Err(e),
            Ok(m) => if nodes.last().tag == "action"@ {
                match action_of(nodes.last()) {
                    Err(e) => Err(e),
                    Ok(a) => Ok(with_action(m, a)),
                }
            } else {
                Ok(m)
            },
        }
    }
}

proof fn lemma_actions_prefix_err(nodes: Seq<NodeModel>, i: int)
    requires
        0 <= i <= nodes.len(),
        actions_of(nodes.take(i)) is Err,
    ensures
        actions_of(nodes) == actions_of(nodes.take(i)),
    decreases nodes.len() - i,
{
    if i < nodes.len() {
        assert(nodes.take(i + 1).drop_last() =~= nodes.take(i));
        lemma_actions_prefix_err(nodes, i + 1);
    } else {
        assert(nodes.take(i) =~= nodes);
    }
}

/// The script (`"module.function"`) of each scripted item type.
#[derive(Debug)]
pub struct XmlRegistry {
    scripts: HashMap<u16, String>,
}

impl View for XmlRegistry {
    type V = Map<u16, Seq<char>>;

    closed spec fn view(&self) -> Map<u16, Seq<char>> {
        self.scripts@.map_values(|s: String| s@)
    }
}

impl Default for XmlRegistry {
    fn default() -> (r: XmlRegistry)
        ensures
            r@ == Map::<u16, Seq<char>>::empty(),
    {
        let r = XmlRegistry { scripts: HashMap::new() };
        assert(r@ =~= Map::<u16, Seq<char>>::empty());
        r
    }
}

impl XmlRegistry {
    /// Parse an actions document. Each `<action itemid="N" script="module.fn"/>` names the
    /// script of one item type, each `<action fromid="A" toid="B" script="module.fn"/>` of a
    /// range. Malformed XML and entries without the required attributes are errors.
    pub fn from_actions_xml(xml: &str) -> (r: Result<XmlRegistry, FormatError>)
        ensures
            match r {
                Ok(reg) => document_nodes(xml@) is Some && actions_of(document_nodes(xml@)->0)
                    == Ok::<Map<u16, Seq<char>>, Seq<char>>(reg@),
                Err(e) => match document_nodes(xml@) {
                    None => e.reason() == "actions.xml is not well-formed"@,
                    Some(nodes) => actions_of(nodes) == Err::<Map<u16, Seq<char>>, Seq<char>>(
                        e.reason(),
                    ),
                },
            },
    {
        match parse_nodes(xml) {
            Ok(nodes) => XmlRegistry::from_nodes(&nodes),
            Err(_) => Err(FormatError::InvalidNode { what: "actions.xml is not well-formed" }),
        }
    }

    /// The registry that a document's nodes describe.
    pub fn from_nodes(nodes: &Vec<XmlNode>) -> (r: Result<XmlRegistry, FormatError>)
        ensures
            actions_of(nodes_view(nodes@)) == (match r {
                Ok(reg) => Ok::<Map<u16, Seq<char>>, Seq<char>>(reg@),
                Err(e) => Err(e.reason()),
            }),
    {
        let ghost all = nodes_view(nodes@);
        let mut reg = XmlRegistry::default();
        let mut i: usize = 0;
        while i < nodes.len()
            invariant
                i <= nodes@.len(),
                all == nodes_view(nodes@),
                actions_of(all.take(i as int)) == Ok::<Map<u16, Seq<char>>, Seq<char>>(reg@),
            decreases nodes@.len() - i,
        {
            let n = &nodes[i];
            proof {
                assert(all.take(i + 1).drop_last() =~= all.take(i as int));
                assert(all.take(i + 1).last() == n@);
                if actions_of(all.take(i + 1)) is Err {
                    lemma_actions_prefix_err(all, i + 1);
                }
            }
            if n.has_tag_name("action") {
                match XmlRegistry::read_action(n) {
                    Ok((from, to, script)) => {
                        reg.add_range(from, to, script);
                    },
                    Err(e) => {
                        return Err(e);
                    },
                }
            }
            i = i + 1;
        }
        assert(all.take(all.len() as int) =~= all);
        Ok(reg)
    }

    fn read_action(n: &XmlNode) -> (r: Result<(u16, u16, &str), FormatError>)
        ensures
            action_of(n@) == (match r {
                Ok((from, to, script)) => Ok::<Action, Seq<char>>(
                    Action { from, to, script: script@ },
                ),
                Err(e) => Err(e.reason()),
            }),
    {
        let script = match n.attribute("script") {
            Some(s) => s,
            None => {
                return Err(FormatError::InvalidNode { what: "action missing script attribute" });
            },
        };
        match n.attribute("itemid") {
            Some(text) => match parse_unsigned(text, 0xFFFF) {
                Some(id) => Ok((id as u16, id as u16, script)),
                None => Err(
                    FormatError::InvalidNode { what: "action has invalid itemid attribute" },
                ),
            },
            None => match (n.attribute("fromid"), n.attribute("toid")) {
                (Some(a), Some(b)) => match parse_unsigned(a, 0xFFFF) {
                    None => Err(
                        FormatError::InvalidNode { what: "action has invalid fromid attribute" },
                    ),
                    Some(from) => match parse_unsigned(b, 0xFFFF) {
                        None => Err(
                            FormatError::InvalidNode { what: "action has invalid toid attribute" },
                        ),
                        Some(to) => Ok((from as u16, to as u16, script)),
                    },
                },
                _ => Err(
                    FormatError::InvalidNode {
                        what: "action must have itemid or (fromid + toid) attributes",
                    },
                ),
            },
        }
    }

    fn add_range(&mut self, from: u16, to: u16, script: &str)
        ensures
            final(self)@ == with_action(old(self)@, Action { from, to, script: script@ }),
    {
        let ghost before = self@;
        let mut id: u32 = from as u32;
        while id <= to as u32
            invariant
                from <= id,
                id <= to + 1 || id == from,
                forall|k: u16|
                    #![trigger self@.contains_key(k)]
                    #![trigger self@[k]]
                    self@.contains_key(k) == (before.contains_key(k) || from <= k < id) && (
                    self@.contains_key(k) ==> self@[k] == (if from <= k < id {
                        script@
                    } else {
                        before[k]
                    })),
            decreases to + 1 - id,
        {
            let ghost mid = self@;
            self.scripts.insert(id as u16, script.to_owned());
            assert(self@ =~= mid.insert(id as u16, script@));
            id = id + 1;
        }
        assert(self@ =~= with_action(before, Action { from, to, script: script@ }));
    }

    /// Look up the script of an item type.
    ///
    /// Returns `None` when the item is not registered.
    pub fn lookup(&self, item_id: u16) -> (r: Option<&str>)
        ensures
            match r {
                Some(s) => self@.contains_key(item_id) && self@[item_id] == s@,
                None => !self@.contains_key(item_id),
            },
    {
        match self.scripts.get(&item_id) {
            Some(s) => Some(s.as_str()),
            None => None,
        }
    }
}

/// A later entry wins over an earlier one for the item types it covers, and leaves all
/// others as they were.
pub proof fn law_later_action_wins(m: Map<u16, Seq<char>>, a: Action, id: u16)
    ensures
        a.from <= id <= a.to ==> with_action(m, a).contains_key(id) && with_action(m, a)[id]
            == a.script,
        !(a.from <= id <= a.to) ==> with_action(m, a).contains_key(id) == m.contains_key(id) && (
        m.contains_key(id) ==> with_action(m, a)[id] == m[id]),
{
}

} // verus!
