//! Taking items from a tile's stack and putting them there.

use vstd::prelude::*;

use super::StackThing;
use super::TileModel;
use super::TileStack;
use crate::wire::WireItem;

verus! {

/// The most that one stack of an item holds.
pub const MAX_STACK: u8 = 100;

impl StackThing {
    /// How many pieces this entry stands for: its count, 1 where it has none or 0.
    pub open spec fn pieces(self) -> u8 {
        match self.count {
            Some(c) if c >= 1 => c,
            _ => 1,
        }
    }

    /// The entry with another count.
    pub open spec fn counting(self, c: u8) -> StackThing {
        StackThing {
            item: WireItem { subtype: Some(c), ..self.item },
            count: Some(c),
            ..self
        }
    }
}

impl TileModel {
    /// How many pieces are moved when `want` are asked of entry `idx`: of stackables as many
    /// as asked and there, at least 1; of anything else 1.
    pub open spec fn moved(self, idx: int, want: u8, stackable: bool) -> u8 {
        let cur = self.things[idx].pieces();
        if !stackable || want <= 1 {
            1
        } else if want <= cur {
            want
        } else {
            cur
        }
    }

    /// Part of entry `idx` stays when `want` are taken.
    pub open spec fn leaves_some(self, idx: int, want: u8, stackable: bool) -> bool {
        stackable && self.things[idx].pieces() > self.moved(idx, want, stackable)
    }

    /// The stack after `want` pieces of entry `idx` are taken.
    pub open spec fn taken(self, idx: int, want: u8, stackable: bool) -> TileModel {
        if self.leaves_some(idx, want, stackable) {
            let left = (self.things[idx].pieces() - self.moved(idx, want, stackable)) as u8;
            TileModel { things: self.things.update(idx, self.things[idx].counting(left)), ..self }
        } else {
            TileModel {
                things: self.things.remove(idx),
                pre: if idx < self.pre {
                    (self.pre - 1) as nat
                } else {
                    self.pre
                },
            }
        }
    }

    /// The stack with `t` as its first item above the creatures.
    pub open spec fn with_front(self, t: StackThing) -> TileModel {
        TileModel { things: self.things.insert(self.pre as int, t), ..self }
    }

    /// Pieces of `server_id` put here join the first item above the creatures.
    pub open spec fn joins(self, server_id: u16, stackable: bool) -> bool {
        stackable && self.pre < self.things.len() && self.things[self.pre as int].server_id
            == server_id
    }

    /// How many pieces the first item above the creatures and `moved` more are.
    pub open spec fn together(self, moved: u8) -> int {
        self.things[self.pre as int].pieces() + moved
    }

    /// The joined stack, where pieces put here join one: 100 pieces at most.
    pub open spec fn grown(self, server_id: u16, moved: u8, stackable: bool) -> Option<WireItem> {
        if self.joins(server_id, stackable) {
            let total = self.together(moved);
            Some(
                self.things[self.pre as int].counting(
                    if total <= MAX_STACK { total as u8 } else { MAX_STACK },
                ).item,
            )
        } else {
            None
        }
    }

    /// The entry that comes on top: the pieces put here, or what is over of a joined stack.
    pub open spec fn topped(
        self,
        server_id: u16,
        client_id: u16,
        moved: u8,
        animated: bool,
        stackable: bool,
    ) -> Option<StackThing> {
        if self.joins(server_id, stackable) {
            let over = self.together(moved) - MAX_STACK;
            if over > 0 {
                let n = if over <= 255 { over as u8 } else { 255 };
                Some(
                    StackThing {
                        item: WireItem { client_id, subtype: Some(n), animated },
                        server_id,
                        count: Some(n),
                    },
                )
            } else {
                None
            }
        } else {
            let count = if stackable { Some(moved) } else { None };
            Some(
                StackThing { item: WireItem { client_id, subtype: count, animated }, server_id, count },
            )
        }
    }

    /// The stack after `moved` pieces are put here.
    pub open spec fn placed(
        self,
        server_id: u16,
        client_id: u16,
        moved: u8,
        animated: bool,
        stackable: bool,
    ) -> TileModel {
        let grown = if self.joins(server_id, stackable) {
            let total = self.together(moved);
            TileModel {
                things: self.things.update(
                    self.pre as int,
                    self.things[self.pre as int].counting(
                        if total <= MAX_STACK { total as u8 } else { MAX_STACK },
                    ),
                ),
                ..self
            }
        } else {
            self
        };
        match self.topped(server_id, client_id, moved, animated, stackable) {
            Some(t) => grown.with_front(t),
            None => grown,
        }
    }

    /// How many pieces of `server_id` lie in the stack.
    pub open spec fn units(self, server_id: u16) -> int {
        units_in(self.things, server_id)
    }
}

/// How many pieces of `server_id` are among `s`.
pub open spec fn units_in(s: Seq<StackThing>, server_id: u16) -> int
    decreases s.len(),
{
    if s.len() == 0 {
        0
    } else {
        units_in(s.drop_last(), server_id) + (if s.last().server_id == server_id {
            s.last().pieces() as int
        } else {
            0
        })
    }
}

impl TileStack {
    /// Take up to `want` pieces of entry `idx`. Returns how many were taken and whether the
    /// entry is gone.
    pub fn take(&mut self, idx: usize, want: u8, stackable: bool) -> (r: (u8, bool))
        requires
            idx < old(self)@.things.len(),
            old(self)@.wf(),
        ensures
            final(self)@ == old(self)@.taken(idx as int, want, stackable),
            final(self)@.wf(),
            r.0 == old(self)@.moved(idx as int, want, stackable),
            r.1 == !old(self)@.leaves_some(idx as int, want, stackable),
    {
        let cur: u8 = match self.things[idx].count {
            Some(c) => if c >= 1 {
                c
            } else {
                1
            },
            None => 1,
        };
        let moved: u8 = if !stackable || want <= 1 {
            1
        } else if want <= cur {
            want
        } else {
            cur
        };
        if stackable && cur > moved {
            let left: u8 = cur - moved;
            let t = self.things[idx];
            self.things[idx] = StackThing {
                item: WireItem {
                    client_id: t.item.client_id,
                    subtype: Some(left),
                    animated: t.item.animated,
                },
                server_id: t.server_id,
                count: Some(left),
            };
            assert(self@ =~= old(self)@.taken(idx as int, want, stackable));
            (moved, false)
        } else {
            self.things.remove(idx);
            if idx < self.pre_creature_len {
                self.pre_creature_len = self.pre_creature_len - 1;
            }
            assert(self@ =~= old(self)@.taken(idx as int, want, stackable));
            (moved, true)
        }
    }

    /// Put `t` in front of the items above the creatures.
    pub fn insert_front(&mut self, t: StackThing)
        requires
            old(self)@.wf(),
        ensures
            final(self)@ == old(self)@.with_front(t),
            final(self)@.wf(),
    {
        let front: usize = self.pre_creature_len;
        self.things.insert(front, t);
        assert(self@ =~= old(self)@.with_front(t));
    }

    /// Put `moved` pieces in front of the items above the creatures, joining a stack of the
    /// same type there (100 pieces at most, the rest on top). Returns the grown stack and
    /// the entry that came on top.
    pub fn place(
        &mut self,
        server_id: u16,
        client_id: u16,
        moved: u8,
        animated: bool,
        stackable: bool,
    ) -> (r: (Option<WireItem>, Option<WireItem>))
        requires
            old(self)@.wf(),
        ensures
            final(self)@ == old(self)@.placed(server_id, client_id, moved, animated, stackable),
            final(self)@.wf(),
            r.0 == old(self)@.grown(server_id, moved, stackable),
            r.1 == (match old(self)@.topped(server_id, client_id, moved, animated, stackable) {
                Some(t) => Some(t.item),
                None => None,
            }),
    {
        let front: usize = self.pre_creature_len;
        if stackable && self.things.len() > front && self.things[front].server_id == server_id {
            let t = self.things[front];
            let have: u8 = match t.count {
                Some(c) => if c >= 1 {
                    c
                } else {
                    1
                },
                None => 1,
            };
            let total: u32 = have as u32 + moved as u32;
            let capped: u8 = if total <= 100 {
                total as u8
            } else {
                100
            };
            let grown = StackThing {
                item: WireItem {
                    client_id: t.item.client_id,
                    subtype: Some(capped),
                    animated: t.item.animated,
                },
                server_id: t.server_id,
                count: Some(capped),
            };
            self.things[front] = grown;
            if total > 100 {
                let over: u32 = total - 100;
                let n: u8 = if over <= 255 {
                    over as u8
                } else {
                    255
                };
                let spill = WireItem { client_id, subtype: Some(n), animated };
                self.things.insert(front, StackThing { item: spill, server_id, count: Some(n) });
                assert(self@ =~= old(self)@.placed(
                    server_id,
                    client_id,
                    moved,
                    animated,
                    stackable,
                ));
                (Some(grown.item), Some(spill))
            } else {
                assert(self@ =~= old(self)@.placed(
                    server_id,
                    client_id,
                    moved,
                    animated,
                    stackable,
                ));
                (Some(grown.item), None)
            }
        } else {
            let count: Option<u8> = if stackable {
                Some(moved)
            } else {
                None
            };
            let item = WireItem { client_id, subtype: count, animated };
            self.things.insert(front, StackThing { item, server_id, count });
            assert(self@ =~= old(self)@.placed(server_id, client_id, moved, animated, stackable));
            (None, Some(item))
        }
    }
}

proof fn lemma_units_update(s: Seq<StackThing>, i: int, t: StackThing, sid: u16)
    requires
        0 <= i < s.len(),
    ensures
        units_in(s.update(i, t), sid) == units_in(s, sid) - (if s[i].server_id == sid {
            s[i].pieces() as int
        } else {
            0
        }) + (if t.server_id == sid {
            t.pieces() as int
        } else {
            0
        }),
    decreases s.len(),
{
    if i == s.len() - 1 {
        assert(s.update(i, t).drop_last() =~= s.drop_last());
    } else {
        assert(s.update(i, t).drop_last() =~= s.drop_last().update(i, t));
        lemma_units_update(s.drop_last(), i, t, sid);
    }
}

proof fn lemma_units_remove(s: Seq<StackThing>, i: int, sid: u16)
    requires
        0 <= i < s.len(),
    ensures
        units_in(s.remove(i), sid) == units_in(s, sid) - (if s[i].server_id == sid {
            s[i].pieces() as int
        } else {
            0
        }),
    decreases s.len(),
{
    if i == s.len() - 1 {
        assert(s.remove(i) =~= s.drop_last());
    } else {
        assert(s.remove(i).drop_last() =~= s.drop_last().remove(i));
        lemma_units_remove(s.drop_last(), i, sid);
    }
}

pub proof fn lemma_units_insert(s: Seq<StackThing>, i: int, t: StackThing, sid: u16)
    requires
        0 <= i <= s.len(),
    ensures
        units_in(s.insert(i, t), sid) == units_in(s, sid) + (if t.server_id == sid {
            t.pieces() as int
        } else {
            0
        }),
    decreases s.len(),
{
    if i == s.len() {
        assert(s.insert(i, t).drop_last() =~= s);
    } else {
        assert(s.insert(i, t).drop_last() =~= s.drop_last().insert(i, t));
        lemma_units_insert(s.drop_last(), i, t, sid);
    }
}

/// Taking from a stackable entry removes exactly the pieces that are moved, and leaves every
/// other item type as it was. What is not stackable goes as a whole.
pub proof fn law_take_conserves(st: TileModel, idx: int, want: u8, stackable: bool, sid: u16)
    requires
        0 <= idx < st.things.len(),
    ensures
        st.things[idx].server_id != sid ==> st.taken(idx, want, stackable).units(sid) == st.units(
            sid,
        ),
        st.things[idx].server_id == sid && stackable ==> st.taken(idx, want, stackable).units(sid)
            == st.units(sid) - st.moved(idx, want, stackable),
        st.things[idx].server_id == sid && !stackable ==> st.taken(idx, want, stackable).units(sid)
            == st.units(sid) - st.things[idx].pieces(),
{
    if st.leaves_some(idx, want, stackable) {
        let left = (st.things[idx].pieces() - st.moved(idx, want, stackable)) as u8;
        lemma_units_update(st.things, idx, st.things[idx].counting(left), sid);
    } else {
        lemma_units_remove(st.things, idx, sid);
    }
}

/// Putting at least one piece on a tile adds exactly the pieces put there, as long as what
/// is over of a full stack fits into one entry, and leaves every other item type as it was.
pub proof fn law_place_conserves(
    st: TileModel,
    server_id: u16,
    client_id: u16,
    moved: u8,
    animated: bool,
    stackable: bool,
    sid: u16,
)
    requires
        st.wf(),
        moved >= 1,
        stackable || moved == 1,
        st.joins(server_id, stackable) ==> st.together(moved) <= 355,
    ensures
        st.placed(server_id, client_id, moved, animated, stackable).units(sid) == st.units(sid) + (
        if sid == server_id {
            moved as int
        } else {
            0
        }),
{
    let front = st.pre as int;
    let top = st.topped(server_id, client_id, moved, animated, stackable);
    if st.joins(server_id, stackable) {
        let total = st.together(moved);
        let grown = st.things[front].counting(
            if total <= MAX_STACK { total as u8 } else { MAX_STACK },
        );
        lemma_units_update(st.things, front, grown, sid);
        if top is Some {
            lemma_units_insert(st.things.update(front, grown), front, top->0, sid);
        }
    } else {
        lemma_units_insert(st.things, front, top->0, sid);
    }
}

} // verus!
