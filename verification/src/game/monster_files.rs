//! The directory of monster files: an index of names and files, and a document for each monster.

use vstd::prelude::*;

use super::monster::number;
use super::monster::number_of;
use super::monster::or_else;
use super::monster::race_named;
use super::monster::race_of;
use super::monster::MonsterTypes;
use super::state::MonsterDrop;
use super::state::MonsterType;
use super::state::TypeModel;
use crate::text::ascii_lowered;
use crate::text::parse_signed;
use crate::text::signed_value;
use crate::text::to_ascii_lowercase;
use crate::xml::document_nodes;
use crate::xml::nodes_view;
use crate::xml::parse_nodes;
use crate::xml::FormatError;
use crate::xml::NodeModel;
use crate::xml::XmlNode;

verus! {

/// An entry of the index: a monster, and the file that describes it.
#[derive(Debug)]
pub struct MonsterFile {
    pub name: String,
    pub file: String,
}

#[verifier::ext_equal]
pub ghost struct FileModel {
    pub name: Seq<char>,
    pub file: Seq<char>,
}

impl View for MonsterFile {
    type V = FileModel;

    open spec fn view(&self) -> FileModel {
        FileModel { name: self.name@, file: self.file@ }
    }
}

/// A list of entries, each by its view.
pub open spec fn files_view(s: Seq<MonsterFile>) -> Seq<FileModel> {
    s.map_values(|f: MonsterFile| f@)
}

/// What a `monster` element of the index says.
pub open spec fn entry_of(n: NodeModel) -> Result<FileModel, Seq<char>> {
    match n.attribute("name"@) {
        None => Err("monster missing name attribute"@),
        Some(name) => match n.attribute("file"@) {
            None => Err("monster missing file attribute"@),
            Some(file) => Ok(FileModel { name, file }),
        },
    }
}

/// The entries of an index, in document order; the first `monster` element that lacks something
/// is an error.
pub open spec fn index_of_files(nodes: Seq<NodeModel>) -> Result<Seq<FileModel>, Seq<char>>
    decreases nodes.len(),
{
    if nodes.len() == 0 {
        Ok(Seq::empty())
    } else {
        match index_of_files(nodes.drop_last()) {
            Err(e) => Err(e),
            Ok(s) => if nodes.last().tag == "monster"@ {
                match entry_of(nodes.last()) {
                    Err(e) => Err(e),
                    Ok(f) => Ok(s.push(f)),
                }
            } else {
                Ok(s)
            },
        }
    }
}

proof fn lemma_index_prefix_err(nodes: Seq<NodeModel>, i: int)
    requires
        0 <= i <= nodes.len(),
        index_of_files(nodes.take(i)) is Err,
    ensures
        index_of_files(nodes) == index_of_files(nodes.take(i)),
    decreases nodes.len() - i,
{
    if i < nodes.len() {
        assert(nodes.take(i + 1).drop_last() =~= nodes.take(i));
        lemma_index_prefix_err(nodes, i + 1);
    } else {
        assert(nodes.take(i) =~= nodes);
    }
}

fn read_entry(n: &XmlNode) -> (r: Result<MonsterFile, FormatError>)
    ensures
        entry_of(n@) == (match r {
            Ok(f) => Ok::<FileModel, Seq<char>>(f@),
            Err(e) => Err(e.reason()),
        }),
{
    match (n.attribute("name"), n.attribute("file")) {
        (Some(name), Some(file)) => Ok(
            MonsterFile { name: name.to_owned(), file: file.to_owned() },
        ),
        (None, _) => Err(FormatError::InvalidNode { what: "monster missing name attribute" }),
        _ => Err(FormatError::InvalidNode { what: "monster missing file attribute" }),
    }
}

/// The entries of the index that a document's nodes make up.
pub fn monster_files_from(nodes: &Vec<XmlNode>) -> (r: Result<Vec<MonsterFile>, FormatError>)
    ensures
        index_of_files(nodes_view(nodes@)) == (match r {
            Ok(s) => Ok::<Seq<FileModel>, Seq<char>>(files_view(s@)),
            Err(e) => Err(e.reason()),
        }),
{
    let ghost all = nodes_view(nodes@);
    let mut files: Vec<MonsterFile> = Vec::new();
    let mut i: usize = 0;
    assert(files_view(files@) =~= Seq::empty());
    while i < nodes.len()
        invariant
            i <= nodes@.len(),
            all == nodes_view(nodes@),
            index_of_files(all.take(i as int)) == Ok::<Seq<FileModel>, Seq<char>>(
                files_view(files@),
            ),
        decreases nodes@.len() - i,
    {
        let n = &nodes[i];
        proof {
            assert(all.take(i + 1).drop_last() =~= all.take(i as int));
            assert(all.take(i + 1).last() == n@);
            if index_of_files(all.take(i + 1)) is Err {
                lemma_index_prefix_err(all, i + 1);
            }
        }
        if n.has_tag_name("monster") {
            match read_entry(n) {
                Ok(f) => {
                    let ghost before = files@;
                    files.push(f);
                    assert(files_view(files@) =~= files_view(before).push(f@));
                },
                Err(e) => {
                    return Err(e);
                },
            }
        }
        i = i + 1;
    }
    assert(all.take(all.len() as int) =~= all);
    Ok(files)
}

/// Parse the index of a directory:
///
/// ```xml
/// <monsters>
///   <monster name="Rat" file="Rats/rat.xml"/>
/// </monsters>
/// ```
pub fn parse_monster_index_xml(xml: &str) -> (r: Result<Vec<MonsterFile>, FormatError>)
    ensures
        match r {
            Ok(s) => document_nodes(xml@) is Some && index_of_files(document_nodes(xml@)->0)
                == Ok::<Seq<FileModel>, Seq<char>>(files_view(s@)),
            Err(e) => match document_nodes(xml@) {
                None => e.reason() == "monster index is not well-formed"@,
                Some(nodes) => index_of_files(nodes) == Err::<Seq<FileModel>, Seq<char>>(
                    e.reason(),
                ),
            },
        },
{
    match parse_nodes(xml) {
        Ok(nodes) => monster_files_from(&nodes),
        Err(_) => Err(FormatError::InvalidNode { what: "monster index is not well-formed" }),
    }
}

/// Has the node this tag and, where one is given, this name?
pub open spec fn is_called(n: NodeModel, tag: Seq<char>, name: Option<Seq<char>>) -> bool {
    n.tag == tag && (name is Some ==> n.attribute("name"@) == name)
}

/// The first element with this tag and, where one is given, this name.
pub open spec fn first_called(nodes: Seq<NodeModel>, tag: Seq<char>, name: Option<Seq<char>>) -> Option<
    NodeModel,
>
    decreases nodes.len(),
{
    if nodes.len() == 0 {
        None
    } else if is_called(nodes[0], tag, name) {
        Some(nodes[0])
    } else {
        first_called(nodes.drop_first(), tag, name)
    }
}

fn find_called<'a>(nodes: &'a Vec<XmlNode>, tag: &str, name: Option<&str>) -> (r: Option<&'a XmlNode>)
    ensures
        first_called(
            nodes_view(nodes@),
            tag@,
            match name {
                Some(s) => Some(s@),
                None => None,
            },
        ) == (match r {
            Some(n) => Some(n@),
            None => None,
        }),
{
    let ghost all = nodes_view(nodes@);
    let ghost wanted = match name {
        Some(s) => Some(s@),
        None => None,
    };
    let mut i: usize = 0;
    assert(all.skip(0) =~= all);
    while i < nodes.len()
        invariant
            i <= nodes@.len(),
            all == nodes_view(nodes@),
            wanted == (match name {
                Some(s) => Some(s@),
                None => None,
            }),
            first_called(all, tag@, wanted) == first_called(all.skip(i as int), tag@, wanted),
        decreases nodes@.len() - i,
    {
        let n = &nodes[i];
        assert(all.skip(i as int)[0] == n@);
        assert(all.skip(i as int).drop_first() =~= all.skip(i + 1));
        if n.has_tag_name(tag) {
            let fits = match name {
                Some(s) => match n.attribute("name") {
                    Some(own) => *own == *s,
                    None => false,
                },
                None => true,
            };
            if fits {
                return Some(n);
            }
        }
        i = i + 1;
    }
    None
}

/// The strength that a signed text stands for, whatever its sign.
pub open spec fn strength(text: Seq<char>) -> Option<nat> {
    match signed_value(text, 0xFFFF) {
        Some(v) => {
            let size = if v < 0 {
                -v
            } else {
                v
            };
            Some(
                if size > 0xFFFF {
                    0xFFFF
                } else {
                    size as nat
                },
            )
        },
        None => None,
    }
}

fn parse_strength(text: &str) -> (r: Option<u16>)
    ensures
        strength(text@) == (match r {
            Some(v) => Some(v as nat),
            None => None,
        }),
{
    match parse_signed(text, 0xFFFF) {
        Some(v) => {
            let size: i32 = if v < 0 {
                -v
            } else {
                v
            };
            Some(
                if size > 0xFFFF {
                    0xFFFF
                } else {
                    size as u16
                },
            )
        },
        None => None,
    }
}

/// How hard a melee attack hits: what `attack` says or, where it says nothing, the size of
/// `max`; 7 where neither is a number.
pub open spec fn melee_of(attack: Option<NodeModel>) -> nat {
    match attack {
        None => 7,
        Some(n) => match number(n, "attack"@, 0xFFFF) {
            Some(v) => v,
            None => match n.attribute("max"@) {
                Some(text) => or_else(strength(text), 7),
                None => 7,
            },
        },
    }
}

fn read_melee(attack: Option<&XmlNode>) -> (r: u16)
    ensures
        r == melee_of(
            match attack {
                Some(n) => Some(n@),
                None => None,
            },
        ),
{
    match attack {
        None => 7,
        Some(n) => match number_of(n, "attack", 0xFFFF) {
            Some(v) => v as u16,
            None => match n.attribute("max") {
                Some(text) => match parse_strength(text) {
                    Some(v) => v,
                    None => 7,
                },
                None => 7,
            },
        },
    }
}

/// A number of an element that may be missing.
pub open spec fn number_in(n: Option<NodeModel>, name: Seq<char>, max: nat) -> Option<nat> {
    match n {
        Some(n) => number(n, name, max),
        None => None,
    }
}

fn read_number_in(n: Option<&XmlNode>, name: &str, max: u64) -> (r: Option<u64>)
    ensures
        number_in(
            match n {
                Some(n) => Some(n@),
                None => None,
            },
            name@,
            max as nat,
        ) == (match r {
            Some(v) => Some(v as nat),
            None => None,
        }),
        r matches Some(v) ==> v <= max,
{
    match n {
        Some(n) => number_of(n, name, max),
        None => None,
    }
}

/// What the document of a monster says: the element `monster` itself, and the first `health`,
/// `look` and melee `attack` in the document.
pub open spec fn file_type_of(nodes: Seq<NodeModel>) -> Result<TypeModel, Seq<char>> {
    let look = first_called(nodes, "look"@, None);
    let health = first_called(nodes, "health"@, None);
    let attack = first_called(nodes, "attack"@, Some("melee"@));
    match first_called(nodes, "monster"@, None) {
        None => Err("monster file without a monster"@),
        Some(n) => match n.attribute("name"@) {
            None => Err("monster missing name attribute"@),
            Some(name) => match number_in(look, "type"@, 0xFFFF) {
                None => Err("monster missing or invalid look type"@),
                Some(look_type) => match number_in(health, "max"@, 0xFFFF_FFFF) {
                    None => Err("monster missing or invalid health"@),
                    Some(max_health) => Ok(
                        TypeModel {
                            name,
                            look_type: look_type as u16,
                            health: or_else(
                                number_in(health, "now"@, 0xFFFF_FFFF),
                                max_health,
                            ) as u32,
                            max_health: max_health as u32,
                            speed: or_else(number(n, "speed"@, 0xFFFF), 200) as u16,
                            attack: melee_of(attack) as u16,
                            loot: Seq::empty(),
                            target_distance: 0,
                            race: Some(race_named(n.attribute("race"@))),
                        },
                    ),
                },
            },
        },
    }
}

/// The monster type that the nodes of its document describe.
pub fn monster_from_file(nodes: &Vec<XmlNode>) -> (r: Result<MonsterType, FormatError>)
    ensures
        file_type_of(nodes_view(nodes@)) == (match r {
            Ok(t) => Ok::<TypeModel, Seq<char>>(t@),
            Err(e) => Err(e.reason()),
        }),
{
    let look = find_called(nodes, "look", None);
    let body = find_called(nodes, "health", None);
    let n = match find_called(nodes, "monster", None) {
        Some(n) => n,
        None => {
            return Err(FormatError::InvalidNode { what: "monster file without a monster" });
        },
    };
    let name = match n.attribute("name") {
        Some(s) => s.to_owned(),
        None => {
            return Err(FormatError::InvalidNode { what: "monster missing name attribute" });
        },
    };
    let look_type: u16 = match read_number_in(look, "type", 0xFFFF) {
        Some(v) => v as u16,
        None => {
            return Err(FormatError::InvalidNode { what: "monster missing or invalid look type" });
        },
    };
    let max_health: u32 = match read_number_in(body, "max", 0xFFFF_FFFF) {
        Some(v) => v as u32,
        None => {
            return Err(FormatError::InvalidNode { what: "monster missing or invalid health" });
        },
    };
    let health: u32 = match read_number_in(body, "now", 0xFFFF_FFFF) {
        Some(v) => v as u32,
        None => max_health,
    };
    let speed: u16 = match number_of(n, "speed", 0xFFFF) {
        Some(v) => v as u16,
        None => 200,
    };
    let attack: u16 = read_melee(find_called(nodes, "attack", Some("melee")));
    let loot: Vec<MonsterDrop> = Vec::new();
    Ok(
        MonsterType {
            name,
            look_type,
            health,
            max_health,
            speed,
            attack,
            loot,
            target_distance: 0,
            race: Some(race_of(n)),
        },
    )
}

/// Parse the document of a monster:
///
/// ```xml
/// <monster name="Rat" race="blood" speed="134">
///   <health now="20" max="20"/>
///   <look type="21"/>
///   <attacks>
///     <attack name="melee" attack="7"/>
///   </attacks>
/// </monster>
/// ```
pub fn parse_monster_file_xml(xml: &str) -> (r: Result<MonsterType, FormatError>)
    ensures
        match r {
            Ok(t) => document_nodes(xml@) is Some && file_type_of(document_nodes(xml@)->0) == Ok::<
                TypeModel,
                Seq<char>,
            >(t@),
            Err(e) => match document_nodes(xml@) {
                None => e.reason() == "monster file is not well-formed"@,
                Some(nodes) => file_type_of(nodes) == Err::<TypeModel, Seq<char>>(e.reason()),
            },
        },
{
    match parse_nodes(xml) {
        Ok(nodes) => monster_from_file(&nodes),
        Err(_) => Err(FormatError::InvalidNode { what: "monster file is not well-formed" }),
    }
}

impl MonsterTypes {
    /// Add the type that a document describes, under the name that the index gives it. Where the
    /// document is none of a monster, nothing is added.
    pub fn add_file(&mut self, name: &str, xml: &str) -> (r: Result<(), FormatError>)
        ensures
            match r {
                Ok(_) => document_nodes(xml@) matches Some(nodes) && file_type_of(nodes) matches Ok(t)
                    && final(self)@ == old(self)@.insert(ascii_lowered(name@), t),
                Err(e) => final(self)@ == old(self)@ && match document_nodes(xml@) {
                    None => e.reason() == "monster file is not well-formed"@,
                    Some(nodes) => file_type_of(nodes) == Err::<TypeModel, Seq<char>>(e.reason()),
                },
            },
    {
        match parse_monster_file_xml(xml) {
            Ok(kind) => {
                self.insert(to_ascii_lowercase(name), kind);
                Ok(())
            },
            Err(e) => Err(e),
        }
    }
}

/// A monster hits as hard with a negative `max` as with a positive one.
pub proof fn law_strength_has_no_sign(text: Seq<char>)
    requires
        text.len() > 0,
        '0' <= text[0] <= '9',
    ensures
        strength(text) is Some ==> strength(seq!['-'] + text) == strength(text),
{
    assert((seq!['-'] + text).drop_first() =~= text);
}

} // verus!
