//! Gamemaster commands.

use vstd::prelude::*;
use vstd::string::StringExecFns;

use crate::text::chars_of;
use crate::text::is_white;
use crate::text::is_whitespace;
use crate::text::parse_unsigned;
use crate::text::string_from;
use crate::text::unsigned_value;
use crate::Position;

verus! {

/// The gamemaster commands.
#[derive(Debug, Clone, Copy, PartialEq, Eq, Structural)]
pub enum GmVerb {
    Help,
    Item,
    Goto,
    Temple,
    Teleport,
    TeleportTo,
    Bring,
    ChangeSex,
    SetLookType,
    ReloadLua,
    Monster,
    GhostMode,
    Noclip,
    Speed,
}

/// All commands, in the order in which they are listed.
pub const ALL_VERBS: [GmVerb; 14] = [
    GmVerb::Help,
    GmVerb::Item,
    GmVerb::Goto,
    GmVerb::Temple,
    GmVerb::Teleport,
    GmVerb::TeleportTo,
    GmVerb::Bring,
    GmVerb::ChangeSex,
    GmVerb::SetLookType,
    GmVerb::ReloadLua,
    GmVerb::Monster,
    GmVerb::GhostMode,
    GmVerb::Noclip,
    GmVerb::Speed,
];

impl GmVerb {
    /// The word for a command.
    pub open spec fn word_text(self) -> Seq<char> {
        match self {
            GmVerb::Help => "help"@,
            GmVerb::Item => "item"@,
            GmVerb::Goto => "goto"@,
            GmVerb::Temple => "temple"@,
            GmVerb::Teleport => "teleport"@,
            GmVerb::TeleportTo => "teleportto"@,
            GmVerb::Bring => "bring"@,
            GmVerb::ChangeSex => "changesex"@,
            GmVerb::SetLookType => "setlooktype"@,
            GmVerb::ReloadLua => "reload"@,
            GmVerb::Monster => "monster"@,
            GmVerb::GhostMode => "ghost"@,
            GmVerb::Noclip => "noclip"@,
            GmVerb::Speed => "speed"@,
        }
    }

    /// The short word for a command, for those that have one.
    pub open spec fn alias_text(self) -> Option<Seq<char>> {
        match self {
            GmVerb::Item => Some("i"@),
            GmVerb::Monster => Some("m"@),
            GmVerb::Speed => Some("spd"@),
            _ => None,
        }
    }

    /// The word for a command.
    pub fn word(self) -> (r: &'static str)
        ensures
            r@ == self.word_text(),
    {
        match self {
            GmVerb::Help => "help",
            GmVerb::Item => "item",
            GmVerb::Goto => "goto",
            GmVerb::Temple => "temple",
            GmVerb::Teleport => "teleport",
            GmVerb::TeleportTo => "teleportto",
            GmVerb::Bring => "bring",
            GmVerb::ChangeSex => "changesex",
            GmVerb::SetLookType => "setlooktype",
            GmVerb::ReloadLua => "reload",
            GmVerb::Monster => "monster",
            GmVerb::GhostMode => "ghost",
            GmVerb::Noclip => "noclip",
            GmVerb::Speed => "speed",
        }
    }

    /// The short word for a command, for those that have one.
    pub fn alias(self) -> (r: Option<&'static str>)
        ensures
            self.alias_text() == (match r {
                Some(s) => Some(s@),
                None => None,
            }),
    {
        match self {
            GmVerb::Item => Some("i"),
            GmVerb::Monster => Some("m"),
            GmVerb::Speed => Some("spd"),
            _ => None,
        }
    }

    /// The words for a command, the short one last.
    pub fn words(self) -> (r: Vec<&'static str>)
        ensures
            r@.len() == (if self.alias_text() is Some {
                2int
            } else {
                1
            }),
            r@[0]@ == self.word_text(),
            self.alias_text() matches Some(a) ==> r@[1]@ == a,
    {
        let mut r: Vec<&'static str> = Vec::new();
        r.push(self.word());
        match self.alias() {
            Some(a) => r.push(a),
            None => {},
        }
        r
    }

    /// How a command is written.
    pub open spec fn usage_text(self) -> Seq<char> {
        match self {
            GmVerb::Help => "/help"@,
            GmVerb::Item => "/item <id|name> [count]"@,
            GmVerb::Goto => "/goto <x> <y> <z> | /goto \"player\""@,
            GmVerb::Temple => "/temple [\"name\"|id]"@,
            GmVerb::Teleport => "/teleport \"player\" <x> <y> <z>"@,
            GmVerb::TeleportTo => "/teleportto \"player\""@,
            GmVerb::Bring => "/bring \"player\""@,
            GmVerb::ChangeSex => "/changesex \"player\" <male|female>"@,
            GmVerb::SetLookType => "/setlooktype <id> | /setlooktype \"player\" <id>"@,
            GmVerb::ReloadLua => "/reload lua"@,
            GmVerb::Monster => "/m <name>"@,
            GmVerb::GhostMode => "/ghost"@,
            GmVerb::Noclip => "/noclip"@,
            GmVerb::Speed => "/speed <value> | /speed \"player\" <value>"@,
        }
    }

    /// How a command is written.
    pub fn usage(self) -> (r: &'static str)
        ensures
            r@ == self.usage_text(),
    {
        match self {
            GmVerb::Help => "/help",
            GmVerb::Item => "/item <id|name> [count]",
            GmVerb::Goto => "/goto <x> <y> <z> | /goto \"player\"",
            GmVerb::Temple => "/temple [\"name\"|id]",
            GmVerb::Teleport => "/teleport \"player\" <x> <y> <z>",
            GmVerb::TeleportTo => "/teleportto \"player\"",
            GmVerb::Bring => "/bring \"player\"",
            GmVerb::ChangeSex => "/changesex \"player\" <male|female>",
            GmVerb::SetLookType => "/setlooktype <id> | /setlooktype \"player\" <id>",
            GmVerb::ReloadLua => "/reload lua",
            GmVerb::Monster => "/m <name>",
            GmVerb::GhostMode => "/ghost",
            GmVerb::Noclip => "/noclip",
            GmVerb::Speed => "/speed <value> | /speed \"player\" <value>",
        }
    }

    /// What a command does, in one line.
    pub open spec fn description_text(self) -> Seq<char> {
        match self {
            GmVerb::Help => "List all gamemaster commands."@,
            GmVerb::Item => "Spawn an item on your tile, by id or name."@,
            GmVerb::Goto => "Teleport yourself to coordinates or to a player."@,
            GmVerb::Temple => "Teleport to a town temple (default, by name, or by id)."@,
            GmVerb::Teleport => "Teleport another player to coordinates."@,
            GmVerb::TeleportTo => "Teleport yourself next to another player."@,
            GmVerb::Bring => "Teleport another player to you."@,
            GmVerb::ChangeSex => "Change a player's sex (affects outfit catalog)."@,
            GmVerb::SetLookType => "Set look type on yourself or another player."@,
            GmVerb::ReloadLua =>
                "Reload all Lua scripts from disk without restarting the server."@,
            GmVerb::Monster => "Spawn a creature (monster) next to you, by name."@,
            GmVerb::GhostMode =>
                "Toggle ghost mode: invisible to non-GMs, walk through everything."@,
            GmVerb::Noclip => "Toggle noclip mode: walk through everything, remains visible."@,
            GmVerb::Speed => "Set movement speed on yourself or another player (10-2500)."@,
        }
    }

    /// What a command does, in one line.
    pub fn description(self) -> (r: &'static str)
        ensures
            r@ == self.description_text(),
    {
        match self {
            GmVerb::Help => "List all gamemaster commands.",
            GmVerb::Item => "Spawn an item on your tile, by id or name.",
            GmVerb::Goto => "Teleport yourself to coordinates or to a player.",
            GmVerb::Temple => "Teleport to a town temple (default, by name, or by id).",
            GmVerb::Teleport => "Teleport another player to coordinates.",
            GmVerb::TeleportTo => "Teleport yourself next to another player.",
            GmVerb::Bring => "Teleport another player to you.",
            GmVerb::ChangeSex => "Change a player's sex (affects outfit catalog).",
            GmVerb::SetLookType => "Set look type on yourself or another player.",
            GmVerb::ReloadLua => "Reload all Lua scripts from disk without restarting the server.",
            GmVerb::Monster => "Spawn a creature (monster) next to you, by name.",
            GmVerb::GhostMode => "Toggle ghost mode: invisible to non-GMs, walk through everything.",
            GmVerb::Noclip => "Toggle noclip mode: walk through everything, remains visible.",
            GmVerb::Speed => "Set movement speed on yourself or another player (10-2500).",
        }
    }

    /// The command is written with this word.
    pub open spec fn answers_to(self, word: Seq<char>) -> bool {
        word == self.word_text() || self.alias_text() == Some(word)
    }

    fn is_written(self, word: &str) -> (r: bool)
        ensures
            r == self.answers_to(word@),
    {
        if *word == *self.word() {
            return true;
        }
        match self.alias() {
            Some(a) => *word == *a,
            None => false,
        }
    }

    /// The command for a word.
    pub fn from_word(word: &str) -> (r: Option<GmVerb>)
        ensures
            r == verb_from(word@, 0),
    {
        let mut i: usize = 0;
        while i < 14
            invariant
                i <= 14,
                verb_from(word@, 0) == verb_from(word@, i as int),
            decreases 14 - i,
        {
            let v = ALL_VERBS[i];
            if v.is_written(word) {
                return Some(v);
            }
            i = i + 1;
        }
        None
    }
}

/// The first command from the `i`-th on that is written with this word.
pub open spec fn verb_from(word: Seq<char>, i: int) -> Option<GmVerb>
    decreases 14 - i,
{
    if i < 0 || i >= 14 {
        None
    } else if ALL_VERBS@[i].answers_to(word) {
        Some(ALL_VERBS@[i])
    } else {
        verb_from(word, i + 1)
    }
}

/// No word stands for two commands.
pub proof fn law_words_distinct(a: GmVerb, b: GmVerb, word: Seq<char>)
    requires
        a.answers_to(word),
        b.answers_to(word),
    ensures
        a == b,
{
    reveal_strlit("help");
    assert("help"@.len() == 4 && "help"@[0] == 'h');
    reveal_strlit("item");
    assert("item"@.len() == 4 && "item"@[0] == 'i');
    reveal_strlit("goto");
    assert("goto"@.len() == 4 && "goto"@[0] == 'g');
    reveal_strlit("temple");
    assert("temple"@.len() == 6 && "temple"@[0] == 't');
    reveal_strlit("teleport");
    assert("teleport"@.len() == 8 && "teleport"@[0] == 't');
    reveal_strlit("teleportto");
    assert("teleportto"@.len() == 10 && "teleportto"@[0] == 't');
    reveal_strlit("bring");
    assert("bring"@.len() == 5 && "bring"@[0] == 'b');
    reveal_strlit("changesex");
    assert("changesex"@.len() == 9 && "changesex"@[0] == 'c');
    reveal_strlit("setlooktype");
    assert("setlooktype"@.len() == 11 && "setlooktype"@[0] == 's');
    reveal_strlit("reload");
    assert("reload"@.len() == 6 && "reload"@[0] == 'r');
    reveal_strlit("monster");
    assert("monster"@.len() == 7 && "monster"@[0] == 'm');
    reveal_strlit("ghost");
    assert("ghost"@.len() == 5 && "ghost"@[0] == 'g');
    reveal_strlit("noclip");
    assert("noclip"@.len() == 6 && "noclip"@[0] == 'n');
    reveal_strlit("speed");
    assert("speed"@.len() == 5 && "speed"@[0] == 's');
    reveal_strlit("i");
    assert("i"@.len() == 1 && "i"@[0] == 'i');
    reveal_strlit("m");
    assert("m"@.len() == 1 && "m"@[0] == 'm');
    reveal_strlit("spd");
    assert("spd"@.len() == 3 && "spd"@[0] == 's');
}

proof fn lemma_verb_from(word: Seq<char>, i: int, k: int)
    requires
        0 <= i <= k < 14,
        ALL_VERBS@[k].answers_to(word),
    ensures
        verb_from(word, i) == Some(ALL_VERBS@[k]),
    decreases k - i,
{
    if ALL_VERBS@[i].answers_to(word) {
        law_words_distinct(ALL_VERBS@[i], ALL_VERBS@[k], word);
    } else {
        lemma_verb_from(word, i + 1, k);
    }
}

/// Every command is found by its word and by its alias, and nothing else is found.
pub proof fn law_words_resolve(v: GmVerb, word: Seq<char>)
    ensures
        verb_from(word, 0) == Some(v) <==> v.answers_to(word),
{
    let k: int = match v {
        GmVerb::Help => 0,
        GmVerb::Item => 1,
        GmVerb::Goto => 2,
        GmVerb::Temple => 3,
        GmVerb::Teleport => 4,
        GmVerb::TeleportTo => 5,
        GmVerb::Bring => 6,
        GmVerb::ChangeSex => 7,
        GmVerb::SetLookType => 8,
        GmVerb::ReloadLua => 9,
        GmVerb::Monster => 10,
        GmVerb::GhostMode => 11,
        GmVerb::Noclip => 12,
        GmVerb::Speed => 13,
    };
    assert(ALL_VERBS@[k] == v);
    if v.answers_to(word) {
        lemma_verb_from(word, 0, k);
    }
    lemma_verb_answers(word, 0);
}

proof fn lemma_verb_answers(word: Seq<char>, i: int)
    requires
        0 <= i,
    ensures
        verb_from(word, i) matches Some(v) ==> v.answers_to(word),
    decreases 14 - i,
{
    if i < 14 {
        lemma_verb_answers(word, i + 1);
    }
}

/// How many characters at the start of `s` satisfy `f`.
pub open spec fn run(s: Seq<char>, f: spec_fn(char) -> bool) -> int
    decreases s.len(),
{
    if s.len() == 0 || !f(s[0]) {
        0
    } else {
        1 + run(s.drop_first(), f)
    }
}

/// `s` without white space at its start.
pub open spec fn trimmed_start(s: Seq<char>) -> Seq<char>
    decreases s.len(),
{
    if s.len() > 0 && is_white(s[0]) {
        trimmed_start(s.drop_first())
    } else {
        s
    }
}

/// `s` without white space at its end.
pub open spec fn trimmed_end(s: Seq<char>) -> Seq<char>
    decreases s.len(),
{
    if s.len() > 0 && is_white(s.last()) {
        trimmed_end(s.drop_last())
    } else {
        s
    }
}

/// `s` without slashes at its start.
pub open spec fn unslashed(s: Seq<char>) -> Seq<char>
    decreases s.len(),
{
    if s.len() > 0 && s[0] == '/' {
        unslashed(s.drop_first())
    } else {
        s
    }
}

/// A command line without its slash and the white space around it.
pub open spec fn command_line(text: Seq<char>) -> Seq<char> {
    trimmed_end(trimmed_start(unslashed(text)))
}

pub open spec fn not_quote() -> spec_fn(char) -> bool {
    |c: char| c != '"'
}

pub open spec fn not_white() -> spec_fn(char) -> bool {
    |c: char| !is_white(c)
}

/// The words of `s`: runs without white space, and whatever stands between quotes. A quote
/// that is not closed reaches to the end.
pub open spec fn words_of(s: Seq<char>) -> Seq<Seq<char>>
    decreases s.len(),
{
    if s.len() == 0 {
        Seq::empty()
    } else if is_white(s[0]) {
        words_of(s.drop_first())
    } else if s[0] == '"' {
        let rest = s.drop_first();
        let n = run(rest, not_quote());
        if 0 <= n < rest.len() {
            seq![rest.take(n)] + words_of(rest.skip(n + 1))
        } else {
            seq![rest]
        }
    } else {
        let n = run(s, not_white());
        if 0 < n <= s.len() {
            seq![s.take(n)] + words_of(s.skip(n))
        } else {
            Seq::empty()
        }
    }
}

proof fn lemma_run(s: Seq<char>, f: spec_fn(char) -> bool)
    ensures
        0 <= run(s, f) <= s.len(),
        forall|i: int| 0 <= i < run(s, f) ==> f(#[trigger] s[i]),
        run(s, f) < s.len() ==> !f(s[run(s, f)]),
    decreases s.len(),
{
    if s.len() > 0 && f(s[0]) {
        let t = s.drop_first();
        lemma_run(t, f);
        assert forall|i: int| 0 <= i < run(s, f) implies f(#[trigger] s[i]) by {
            if i > 0 {
                assert(s[i] == t[i - 1]);
            }
        }
    }
}

/// Strings, each by its view.
pub open spec fn strings_view(s: Seq<String>) -> Seq<Seq<char>> {
    s.map_values(|t: String| t@)
}

/// Where the run of characters other than `"` that starts at `from` ends.
fn quote_end(chars: &Vec<char>, from: usize) -> (end: usize)
    requires
        from <= chars@.len(),
    ensures
        end == from + run(chars@.skip(from as int), not_quote()),
        from <= end <= chars@.len(),
{
    let ghost s = chars@.skip(from as int);
    proof {
        lemma_run(s, not_quote());
    }
    let mut i: usize = from;
    while i < chars.len() && chars[i] != '"'
        invariant
            from <= i <= chars@.len(),
            s == chars@.skip(from as int),
            run(s, not_quote()) == (i - from) + run(chars@.skip(i as int), not_quote()),
        decreases chars@.len() - i,
    {
        assert(chars@.skip(i as int).drop_first() =~= chars@.skip(i + 1));
        i = i + 1;
    }
    i
}

/// Where the run of characters other than white space that starts at `from` ends.
fn word_end(chars: &Vec<char>, from: usize) -> (end: usize)
    requires
        from <= chars@.len(),
    ensures
        end == from + run(chars@.skip(from as int), not_white()),
        from <= end <= chars@.len(),
{
    let ghost s = chars@.skip(from as int);
    let mut i: usize = from;
    while i < chars.len() && !is_whitespace(chars[i])
        invariant
            from <= i <= chars@.len(),
            s == chars@.skip(from as int),
            run(s, not_white()) == (i - from) + run(chars@.skip(i as int), not_white()),
        decreases chars@.len() - i,
    {
        assert(chars@.skip(i as int).drop_first() =~= chars@.skip(i + 1));
        i = i + 1;
    }
    i
}

/// Split a command line into words: `"..."` is one word, and so is a run without white space.
pub fn tokenize_args(s: &str) -> (r: Vec<String>)
    ensures
        strings_view(r@) == words_of(s@),
{
    let chars = chars_of(s);
    let mut r: Vec<String> = Vec::new();
    let mut i: usize = 0;
    assert(chars@.skip(0) =~= chars@);
    assert(strings_view(r@) =~= Seq::empty());
    assert(Seq::<Seq<char>>::empty() + words_of(s@) =~= words_of(s@));
    while i < chars.len()
        invariant
            i <= chars@.len(),
            words_of(s@) == strings_view(r@) + words_of(chars@.skip(i as int)),
        decreases chars@.len() - i,
    {
        let ghost rest = chars@.skip(i as int);
        let ghost before = strings_view(r@);
        assert(rest.drop_first() =~= chars@.skip(i + 1));
        if is_whitespace(chars[i]) {
            i = i + 1;
        } else if chars[i] == '"' {
            let end: usize = quote_end(&chars, i + 1);
            let word = string_from(&chars, i + 1, end);
            let ghost n = run(chars@.skip(i + 1), not_quote());
            assert(word@ =~= chars@.skip(i + 1).take(n));
            r.push(word);
            assert(strings_view(r@) =~= before.push(word@));
            if end < chars.len() {
                assert(chars@.skip(i + 1).skip(n + 1) =~= chars@.skip(end + 1));
                assert(before.push(word@) + words_of(chars@.skip(end + 1)) =~= before + (seq![
                    word@,
                ] + words_of(chars@.skip(end + 1))));
                i = end + 1;
            } else {
                assert(word@ =~= chars@.skip(i + 1));
                assert(chars@.skip(end as int) =~= Seq::empty());
                assert(before.push(word@) + words_of(Seq::empty()) =~= before + seq![word@]);
                i = end;
            }
        } else {
            proof {
                lemma_run(rest, not_white());
            }
            let end: usize = word_end(&chars, i);
            let word = string_from(&chars, i, end);
            let ghost n = run(rest, not_white());
            assert(word@ =~= rest.take(n));
            r.push(word);
            assert(strings_view(r@) =~= before.push(word@));
            assert(rest.skip(n) =~= chars@.skip(end as int));
            assert(before.push(word@) + words_of(chars@.skip(end as int)) =~= before + (seq![
                word@,
            ] + words_of(chars@.skip(end as int))));
            i = end;
        }
    }
    assert(chars@.skip(i as int) =~= Seq::empty());
    assert(strings_view(r@) + words_of(Seq::empty()) =~= strings_view(r@));
    r
}

/// The words of a command line.
pub fn command_words(text: &str) -> (r: Vec<String>)
    ensures
        strings_view(r@) == words_of(command_line(text@)),
{
    let chars = chars_of(text);
    let ghost all = chars@;
    let mut from: usize = 0;
    assert(all.skip(0) =~= all);
    while from < chars.len() && chars[from] == '/'
        invariant
            all == chars@,
            from <= all.len(),
            unslashed(all) == unslashed(all.skip(from as int)),
        decreases all.len() - from,
    {
        assert(all.skip(from as int).drop_first() =~= all.skip(from + 1));
        from = from + 1;
    }
    let ghost slashless = all.skip(from as int);
    assert(unslashed(all) == slashless);
    while from < chars.len() && is_whitespace(chars[from])
        invariant
            all == chars@,
            from <= all.len(),
            trimmed_start(slashless) == trimmed_start(all.skip(from as int)),
        decreases all.len() - from,
    {
        assert(all.skip(from as int).drop_first() =~= all.skip(from + 1));
        from = from + 1;
    }
    let ghost started = all.skip(from as int);
    assert(trimmed_start(slashless) == started);
    let mut to: usize = chars.len();
    assert(all.subrange(from as int, to as int) =~= started);
    while from < to && is_whitespace(chars[to - 1])
        invariant
            all == chars@,
            from <= to <= all.len(),
            trimmed_end(started) == trimmed_end(all.subrange(from as int, to as int)),
        decreases to - from,
    {
        assert(all.subrange(from as int, to as int).drop_last() =~= all.subrange(
            from as int,
            to - 1,
        ));
        to = to - 1;
    }
    let line = string_from(&chars, from, to);
    assert(line@ == command_line(text@));
    tokenize_args(line.as_str())
}

/// The position that three numbers at the start of `args` give.
pub open spec fn position_in(args: Seq<Seq<char>>) -> Option<Position> {
    if args.len() < 3 {
        None
    } else {
        match (
            unsigned_value(args[0], 0xFFFF),
            unsigned_value(args[1], 0xFFFF),
            unsigned_value(args[2], 0xFF),
        ) {
            (Some(x), Some(y), Some(z)) => Some(
                Position { x: x as u16, y: y as u16, z: z as u8 },
            ),
            _ => None,
        }
    }
}

/// The position that the numbers of `args` from `from` on give.
pub fn parse_pos(args: &Vec<String>, from: usize) -> (r: Option<Position>)
    requires
        from <= args@.len(),
    ensures
        r == position_in(strings_view(args@).skip(from as int)),
{
    if args.len() - from < 3 {
        return None;
    }
    let ghost s = strings_view(args@).skip(from as int);
    assert(s[0] == args@[from as int]@);
    assert(s[1] == args@[from + 1]@);
    assert(s[2] == args@[from + 2]@);
    let x = parse_unsigned(args[from].as_str(), 0xFFFF);
    let y = parse_unsigned(args[from + 1].as_str(), 0xFFFF);
    let z = parse_unsigned(args[from + 2].as_str(), 0xFF);
    match (x, y, z) {
        (Some(x), Some(y), Some(z)) => Some(Position { x: x as u16, y: y as u16, z: z as u8 }),
        _ => None,
    }
}

/// The words of `args` with blanks between them.
pub open spec fn joined(args: Seq<Seq<char>>) -> Seq<char>
    decreases args.len(),
{
    if args.len() == 0 {
        Seq::empty()
    } else if args.len() == 1 {
        args[0]
    } else {
        joined(args.drop_last()) + " "@ + args.last()
    }
}

/// The first `n` of `args` with blanks between them.
pub fn join(args: &Vec<String>, n: usize) -> (r: String)
    requires
        1 <= n <= args@.len(),
    ensures
        r@ == joined(strings_view(args@).take(n as int)),
{
    let ghost s = strings_view(args@);
    let mut r = args[0].clone();
    assert(s.take(1)[0] == args@[0]@);
    let mut i: usize = 1;
    while i < n
        invariant
            1 <= i <= n <= args@.len(),
            s == strings_view(args@),
            r@ == joined(s.take(i as int)),
        decreases n - i,
    {
        assert(s.take(i + 1).drop_last() =~= s.take(i as int));
        assert(s.take(i + 1).last() == args@[i as int]@);
        r = r.concat(" ").concat(args[i].as_str());
        i = i + 1;
    }
    r
}

} // verus!
