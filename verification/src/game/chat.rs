//! Saying, whispering and yelling.

use vstd::prelude::*;
use vstd::string::StrSliceExecFns;
use vstd::utf8::encode_utf8;

use super::model::World;
use super::Game;
use crate::map::sight::distance;
use crate::map::sight::gap;
use crate::text::capped;
use crate::text::capped_bytes;
use crate::text::to_uppercase;
use crate::text::uppercase;
use crate::wire::Packet;
use crate::wire::PacketModel;
use crate::wire::SpeakType;
use crate::Position;

verus! {

/// Level shown of everyone who speaks.
pub const SPEAKER_LEVEL: u16 = 1;

/// Something said at `pos`.
pub open spec fn saying(
    statement: u32,
    name: Seq<char>,
    speak_type: SpeakType,
    pos: Position,
    text: Seq<u8>,
) -> PacketModel {
    PacketModel::CreatureSay {
        statement,
        name,
        level: SPEAKER_LEVEL,
        speak_type,
        position: pos,
        text,
    }
}

/// What is left of a whisper two steps away.
pub open spec fn murmur() -> Seq<u8> {
    encode_utf8("pspsps"@)
}

impl World {
    /// Player `id` is within one step of `pos`, floors apart.
    pub open spec fn beside(self, id: u32, pos: Position) -> bool {
        gap(self.players.at(id).position.x as int, pos.x as int) <= 1 && gap(
            self.players.at(id).position.y as int,
            pos.y as int,
        ) <= 1
    }

    /// Each of `ids` hears a whisper from `pos`: the words within one step, else a murmur.
    pub open spec fn whispered(
        self,
        ids: Seq<u32>,
        statement: u32,
        name: Seq<char>,
        pos: Position,
        text: Seq<u8>,
    ) -> World
        decreases ids.len(),
    {
        if ids.len() == 0 {
            self
        } else {
            let w = if self.players.has(ids[0]) {
                self.push(
                    ids[0],
                    saying(
                        statement,
                        name,
                        SpeakType::Whisper,
                        pos,
                        if self.beside(ids[0], pos) {
                            text
                        } else {
                            murmur()
                        },
                    ),
                )
            } else {
                self
            };
            w.whispered(ids.drop_first(), statement, name, pos, text)
        }
    }

    /// Player `id` says `text`, which the player hears too. Talk stays on the floor: it
    /// carries 8 columns and 6 rows, a yell, in upper case, 18 and 14. A message holds 255
    /// bytes. Nothing is said with no text.
    #[verifier::opaque]
    pub open spec fn said(self, id: u32, speak_type: SpeakType, text: Seq<char>) -> World {
        if !self.players.has(id) || text.len() == 0 {
            self
        } else {
            let p = self.players.at(id);
            let pos = p.position;
            let n = self.next_statement_id;
            let w = World {
                next_statement_id: if n == u32::MAX {
                    0
                } else {
                    (n + 1) as u32
                },
                ..self
            };
            let body = capped(
                encode_utf8(
                    if speak_type == SpeakType::Yell {
                        uppercase(text)
                    } else {
                        text
                    },
                ),
            );
            let heard = saying(n, p.name, speak_type, pos, body);
            let u = w.push(id, heard);
            match speak_type {
                SpeakType::Say => u.push_all(u.in_range(pos, id, 8, 6), heard),
                SpeakType::Yell => u.push_all(u.in_range(pos, id, 18, 14), heard),
                SpeakType::Whisper => u.whispered(u.in_range(pos, id, 8, 6), n, p.name, pos, body),
            }
        }
    }
}

fn copy_text(v: &Vec<u8>) -> (r: Vec<u8>)
    ensures
        r@ == v@,
{
    let mut r: Vec<u8> = Vec::new();
    let mut i: usize = 0;
    while i < v.len()
        invariant
            i <= v@.len(),
            r@ == v@.take(i as int),
        decreases v@.len() - i,
    {
        r.push(v[i]);
        assert(r@ =~= v@.take(i + 1));
        i = i + 1;
    }
    assert(v@.take(v@.len() as int) =~= v@);
    r
}

impl Game {
    /// Let player `id` say, whisper or yell `text`.
    pub fn do_say(&mut self, id: u32, speak_type: SpeakType, text: String)
        requires
            old(self).wf(),
        ensures
            final(self).wf(),
            final(self)@ == old(self)@.said(id, speak_type, text@),
    {
        proof {
            reveal(World::said);
        }
        let (pos, name) = match self.players.get(id) {
            Some(p) => (p.position, p.name.clone()),
            None => {
                return;
            },
        };
        if text.as_str().is_empty() {
            return;
        }
        let statement: u32 = self.next_statement_id;
        self.next_statement_id = if statement == u32::MAX {
            0
        } else {
            statement + 1
        };
        let body = match speak_type {
            SpeakType::Yell => {
                let loud = to_uppercase(text.as_str());
                capped_bytes(loud.as_str())
            },
            _ => capped_bytes(text.as_str()),
        };
        let heard = Packet::CreatureSay {
            statement,
            name: name.clone(),
            level: SPEAKER_LEVEL,
            speak_type,
            position: pos,
            text: copy_text(&body),
        };
        self.push(id, heard.copy());
        match speak_type {
            SpeakType::Say => {
                let ids = self.spectators_in_range(pos, id, 8, 6);
                self.push_all(&ids, &heard);
            },
            SpeakType::Yell => {
                let ids = self.spectators_in_range(pos, id, 18, 14);
                self.push_all(&ids, &heard);
            },
            SpeakType::Whisper => {
                let ids = self.spectators_in_range(pos, id, 8, 6);
                self.whisper(&ids, statement, &name, pos, &body);
            },
        }
    }

    fn whisper(
        &mut self,
        ids: &Vec<u32>,
        statement: u32,
        name: &String,
        pos: Position,
        text: &Vec<u8>,
    )
        requires
            old(self).wf(),
        ensures
            final(self).wf(),
            final(self)@ == old(self)@.whispered(ids@, statement, name@, pos, text@),
    {
        let mut i: usize = 0;
        assert(ids@.skip(0) =~= ids@);
        while i < ids.len()
            invariant
                i <= ids@.len(),
                self.wf(),
                old(self)@.whispered(ids@, statement, name@, pos, text@) == self@.whispered(
                    ids@.skip(i as int),
                    statement,
                    name@,
                    pos,
                    text@,
                ),
            decreases ids@.len() - i,
        {
            assert(ids@.skip(i as int).drop_first() =~= ids@.skip(i + 1));
            match self.players.get(ids[i]) {
                Some(p) => {
                    let beside = distance(p.position.x, pos.x) <= 1 && distance(
                        p.position.y,
                        pos.y,
                    ) <= 1;
                    let heard = if beside {
                        copy_text(text)
                    } else {
                        "pspsps".as_bytes_vec()
                    };
                    self.push(
                        ids[i],
                        Packet::CreatureSay {
                            statement,
                            name: name.clone(),
                            level: SPEAKER_LEVEL,
                            speak_type: SpeakType::Whisper,
                            position: pos,
                            text: heard,
                        },
                    );
                },
                None => {},
            }
            i = i + 1;
        }
    }
}

} // verus!
