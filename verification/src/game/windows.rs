//! The container windows of one player.

use vstd::prelude::*;

use super::state::window_view;
use super::state::ContainerModel;
use super::state::ContainerSource;
use super::state::InvItem;
use super::state::OpenContainer;
use super::state::PlayerModel;
use super::state::PlayerState;
use crate::map::sight::distance;
use crate::map::sight::gap;
use crate::Position;

verus! {

/// Do two containers come from the same place?
pub fn matches_source(a: ContainerSource, b: ContainerSource) -> (r: bool)
    ensures
        r == (a == b),
{
    match (a, b) {
        (ContainerSource::Slot(x), ContainerSource::Slot(y)) => x == y,
        (
            ContainerSource::Nested { parent_cid: pa, parent_slot: ps },
            ContainerSource::Nested { parent_cid: qa, parent_slot: qs },
        ) => pa == qa && ps == qs,
        (ContainerSource::Ground(p), ContainerSource::Ground(q)) => p == q,
        _ => false,
    }
}

/// At most one tile apart on x and y, on the same floor.
pub open spec fn close(a: Position, b: Position) -> bool {
    a.z == b.z && gap(a.x as int, b.x as int) <= 1 && gap(a.y as int, b.y as int) <= 1
}

/// Within one tile on x and y, same floor.
pub fn in_close_range(a: Position, b: Position) -> (r: bool)
    ensures
        r == close(a, b),
{
    a.z == b.z && distance(a.x, b.x) <= 1 && distance(a.y, b.y) <= 1
}

/// The first index from `i` on at which `f` holds.
pub open spec fn first_from(
    windows: Seq<Option<ContainerModel>>,
    f: spec_fn(Option<ContainerModel>) -> bool,
    i: int,
) -> Option<int>
    decreases windows.len() - i,
{
    if i < 0 || i >= windows.len() {
        None
    } else if f(windows[i]) {
        Some(i)
    } else {
        first_from(windows, f, i + 1)
    }
}

/// The window shows a container from `source`.
pub open spec fn comes_from(source: ContainerSource) -> spec_fn(Option<ContainerModel>) -> bool {
    |w: Option<ContainerModel>| w matches Some(oc) && oc.source == source
}

/// The window slot is not in use.
pub open spec fn unused() -> spec_fn(Option<ContainerModel>) -> bool {
    |w: Option<ContainerModel>| w is None
}

/// The window slot is in use, but its window is closed.
pub open spec fn shut() -> spec_fn(Option<ContainerModel>) -> bool {
    |w: Option<ContainerModel>| w matches Some(oc) && !oc.is_open
}

impl ContainerModel {
    pub open spec fn is_full(self) -> bool {
        self.items.len() >= self.capacity
    }

    /// The container lies in window `cid`.
    pub open spec fn inside(self, cid: u8) -> bool {
        self.source matches ContainerSource::Nested { parent_cid, .. } && parent_cid == cid
    }

    /// The container with its place in `cid` one further, because an item came in front.
    pub open spec fn pushed_down(self, cid: u8) -> ContainerModel {
        match self.source {
            ContainerSource::Nested { parent_cid, parent_slot } if parent_cid == cid =>
                ContainerModel {
                    source: ContainerSource::Nested {
                        parent_cid,
                        parent_slot: if parent_slot < 255 {
                            (parent_slot + 1) as u8
                        } else {
                            255
                        },
                    },
                    ..self
                },
            _ => self,
        }
    }

    /// The container with its place in `cid` one nearer where an item before it is gone.
    pub open spec fn pulled_up(self, cid: u8, removed: int) -> ContainerModel {
        match self.source {
            ContainerSource::Nested { parent_cid, parent_slot } if parent_cid == cid && parent_slot
                > removed => ContainerModel {
                source: ContainerSource::Nested {
                    parent_cid,
                    parent_slot: (parent_slot - 1) as u8,
                },
                ..self
            },
            _ => self,
        }
    }
}

impl PlayerModel {
    pub open spec fn window(self, c: int) -> Option<ContainerModel> {
        self.windows[c]
    }

    pub open spec fn with_window(self, c: int, w: Option<ContainerModel>) -> PlayerModel {
        PlayerModel { windows: self.windows.update(c, w), ..self }
    }

    /// The first window that shows a container from `source`.
    pub open spec fn window_of(self, source: ContainerSource) -> Option<int> {
        first_from(self.windows, comes_from(source), 0)
    }

    /// The slot for a new window: the first unused one, else the first whose window is
    /// closed.
    pub open spec fn free_window(self) -> Option<int> {
        match first_from(self.windows, unused(), 0) {
            Some(c) => Some(c),
            None => first_from(self.windows, shut(), 0),
        }
    }

    /// The window closed, its contents kept.
    pub open spec fn with_shut(self, c: int) -> PlayerModel {
        match self.windows[c] {
            Some(oc) => self.with_window(c, Some(ContainerModel { is_open: false, ..oc })),
            None => self,
        }
    }

    /// The windows that lie in window `cid`.
    pub open spec fn children(self, cid: u8, n: int) -> Seq<u8>
        decreases n,
    {
        if n <= 0 {
            Seq::empty()
        } else {
            let rest = self.children(cid, n - 1);
            match self.windows[n - 1] {
                Some(oc) if oc.inside(cid) => rest.push((n - 1) as u8),
                _ => rest,
            }
        }
    }

    /// The open windows among the first `n` that show containers on tiles out of reach.
    pub open spec fn out_of_reach(self, n: int) -> Seq<u8>
        decreases n,
    {
        if n <= 0 {
            Seq::empty()
        } else {
            let rest = self.out_of_reach(n - 1);
            match self.windows[n - 1] {
                Some(oc) if oc.is_open && (oc.source matches ContainerSource::Ground(p) && !close(
                    p,
                    self.position,
                )) => rest.push((n - 1) as u8),
                _ => rest,
            }
        }
    }

    /// The window that shows the container at `removed` in `cid`: the last of them.
    pub open spec fn orphan(self, cid: u8, removed: int, n: int) -> Option<u8>
        decreases n,
    {
        if n <= 0 {
            None
        } else {
            match self.windows[n - 1] {
                Some(oc) if oc.inside(cid) && oc.source->parent_slot == removed => Some(
                    (n - 1) as u8,
                ),
                _ => self.orphan(cid, removed, n - 1),
            }
        }
    }

    /// The places in `cid` behind `removed` one nearer.
    pub open spec fn pulled_up(self, cid: u8, removed: int) -> PlayerModel {
        PlayerModel {
            windows: self.windows.map_values(
                |w: Option<ContainerModel>|
                    match w {
                        Some(oc) => Some(oc.pulled_up(cid, removed)),
                        None => None,
                    },
            ),
            ..self
        }
    }

    /// The places in `cid` one further.
    pub open spec fn pushed_down(self, cid: u8) -> PlayerModel {
        PlayerModel {
            windows: self.windows.map_values(
                |w: Option<ContainerModel>|
                    match w {
                        Some(oc) => Some(oc.pushed_down(cid)),
                        None => None,
                    },
            ),
            ..self
        }
    }

    /// The first window from `old` now stands for `new`.
    pub open spec fn rekeyed(self, old_source: ContainerSource, new: ContainerSource) -> PlayerModel {
        match self.window_of(old_source) {
            Some(c) => self.with_window(
                c,
                Some(ContainerModel { source: new, ..self.windows[c]->0 }),
            ),
            None => self,
        }
    }

    /// `item` in front of the contents of window `cid`, where it has room.
    pub open spec fn with_item(self, cid: u8, item: InvItem) -> PlayerModel {
        match self.windows[cid as int] {
            Some(oc) if !oc.is_full() => self.with_window(
                cid as int,
                Some(ContainerModel { items: oc.items.insert(0, item), ..oc }),
            ).pushed_down(cid),
            _ => self,
        }
    }

    /// The item at `slot` of window `cid` gone.
    pub open spec fn without_item(self, cid: u8, slot: int) -> PlayerModel {
        match self.windows[cid as int] {
            Some(oc) if 0 <= slot < oc.items.len() => self.with_window(
                cid as int,
                Some(ContainerModel { items: oc.items.remove(slot), ..oc }),
            ),
            _ => self,
        }
    }
}

/// What `first_from` finds: the least index at which `f` holds.
pub proof fn lemma_first_from(
    windows: Seq<Option<ContainerModel>>,
    f: spec_fn(Option<ContainerModel>) -> bool,
    i: int,
)
    requires
        0 <= i,
    ensures
        match first_from(windows, f, i) {
            Some(c) => i <= c < windows.len() && f(windows[c]) && forall|k: int|
                i <= k < c ==> !f(#[trigger] windows[k]),
            None => forall|k: int| i <= k < windows.len() ==> !f(#[trigger] windows[k]),
        },
    decreases windows.len() - i,
{
    if i < windows.len() && !f(windows[i]) {
        lemma_first_from(windows, f, i + 1);
    }
}

impl PlayerState {
    /// The first window that shows a container from `source`.
    pub fn window_of(&self, source: ContainerSource) -> (r: Option<usize>)
        ensures
            self@.window_of(source) == (match r {
                Some(c) => Some(c as int),
                None => None,
            }),
            r matches Some(c) ==> c < 16 && self.open_containers@[c as int] is Some,
    {
        let ghost w = self@.windows;
        let mut c: usize = 0;
        while c < 16
            invariant
                c <= 16,
                w == self@.windows,
                w.len() == 16,
                first_from(w, comes_from(source), 0) == first_from(
                    w,
                    comes_from(source),
                    c as int,
                ),
            decreases 16 - c,
        {
            assert(w[c as int] == window_view(self.open_containers@[c as int]));
            match &self.open_containers[c] {
                Some(oc) => {
                    if matches_source(oc.source, source) {
                        return Some(c);
                    }
                },
                None => {},
            }
            c = c + 1;
        }
        None
    }

    /// The slot for a new window: the first unused one, else the first whose window is
    /// closed. `None` only if all sixteen windows are open.
    pub fn next_free_cid(&self) -> (r: Option<u8>)
        ensures
            self@.free_window() == (match r {
                Some(c) => Some(c as int),
                None => None,
            }),
            r matches Some(c) ==> c < 16,
    {
        let ghost w = self@.windows;
        let mut c: usize = 0;
        while c < 16
            invariant
                c <= 16,
                w == self@.windows,
                w.len() == 16,
                first_from(w, unused(), 0) == first_from(w, unused(), c as int),
            decreases 16 - c,
        {
            assert(w[c as int] == window_view(self.open_containers@[c as int]));
            match &self.open_containers[c] {
                Some(_) => {},
                None => {
                    return Some(c as u8);
                },
            }
            c = c + 1;
        }
        let mut d: usize = 0;
        while d < 16
            invariant
                d <= 16,
                w == self@.windows,
                w.len() == 16,
                first_from(w, shut(), 0) == first_from(w, shut(), d as int),
                first_from(w, unused(), 0) is None,
            decreases 16 - d,
        {
            assert(w[d as int] == window_view(self.open_containers@[d as int]));
            match &self.open_containers[d] {
                Some(oc) => {
                    if !oc.is_open {
                        return Some(d as u8);
                    }
                },
                None => {},
            }
            d = d + 1;
        }
        None
    }

    /// Replace a window slot.
    pub fn set_window(&mut self, c: usize, w: Option<OpenContainer>)
        requires
            c < 16,
        ensures
            final(self)@ == old(self)@.with_window(c as int, window_view(w)),
    {
        self.open_containers[c] = w;
        assert(self@.windows =~= old(self)@.windows.update(c as int, window_view(w)));
    }

    /// Close a window and keep its contents.
    pub fn shut_window(&mut self, c: usize)
        requires
            c < 16,
        ensures
            final(self)@ == old(self)@.with_shut(c as int),
    {
        assert(self@.windows[c as int] == window_view(self.open_containers@[c as int]));
        match &mut self.open_containers[c] {
            Some(oc) => {
                oc.is_open = false;
            },
            None => {},
        }
        assert(self@.windows =~= old(self)@.with_shut(c as int).windows);
    }

    /// The windows that lie in window `cid`.
    pub fn children_of(&self, cid: u8) -> (r: Vec<u8>)
        ensures
            r@ == self@.children(cid, 16),
            forall|i: int| 0 <= i < r@.len() ==> (#[trigger] r@[i]) < 16,
    {
        let mut r: Vec<u8> = Vec::new();
        let mut c: usize = 0;
        while c < 16
            invariant
                c <= 16,
                r@ == self@.children(cid, c as int),
                forall|i: int| 0 <= i < r@.len() ==> (#[trigger] r@[i]) < 16,
            decreases 16 - c,
        {
            assert(self@.windows[c as int] == window_view(self.open_containers@[c as int]));
            match &self.open_containers[c] {
                Some(oc) => match oc.source {
                    ContainerSource::Nested { parent_cid, .. } => {
                        if parent_cid == cid {
                            r.push(c as u8);
                        }
                    },
                    _ => {},
                },
                None => {},
            }
            c = c + 1;
        }
        r
    }

    /// The open windows that show containers on tiles out of reach.
    pub fn windows_out_of_reach(&self) -> (r: Vec<u8>)
        ensures
            r@ == self@.out_of_reach(16),
            forall|i: int| 0 <= i < r@.len() ==> (#[trigger] r@[i]) < 16,
    {
        let mut r: Vec<u8> = Vec::new();
        let mut c: usize = 0;
        while c < 16
            invariant
                c <= 16,
                r@ == self@.out_of_reach(c as int),
                forall|i: int| 0 <= i < r@.len() ==> (#[trigger] r@[i]) < 16,
            decreases 16 - c,
        {
            assert(self@.windows[c as int] == window_view(self.open_containers@[c as int]));
            match &self.open_containers[c] {
                Some(oc) => match oc.source {
                    ContainerSource::Ground(p) => {
                        if oc.is_open && !in_close_range(p, self.position) {
                            r.push(c as u8);
                        }
                    },
                    _ => {},
                },
                None => {},
            }
            c = c + 1;
        }
        r
    }

    /// Make the first window from `old_source` stand for `new`.
    pub fn rekey(&mut self, old_source: ContainerSource, new: ContainerSource)
        ensures
            final(self)@ == old(self)@.rekeyed(old_source, new),
    {
        match self.window_of(old_source) {
            Some(c) => {
                assert(self@.windows[c as int] == window_view(self.open_containers@[c as int]));
                match &mut self.open_containers[c] {
                    Some(oc) => {
                        oc.source = new;
                    },
                    None => {},
                }
                assert(self@.windows =~= old(self)@.rekeyed(old_source, new).windows);
            },
            None => {},
        }
    }

    /// An item at `removed` of `cid` is gone: move the places behind it one nearer, and
    /// return the window that showed the container which was there.
    pub fn pull_up(&mut self, cid: u8, removed: usize) -> (r: Option<u8>)
        ensures
            final(self)@ == old(self)@.pulled_up(cid, removed as int),
            r == old(self)@.orphan(cid, removed as int, 16),
            r matches Some(c) ==> c < 16,
    {
        let ghost start = self@;
        let mut orphan: Option<u8> = None;
        let mut c: usize = 0;
        while c < 16
            invariant
                c <= 16,
                start == old(self)@,
                start.windows.len() == 16,
                orphan == start.orphan(cid, removed as int, c as int),
                orphan matches Some(k) ==> k < 16,
                self@ == (PlayerModel { windows: self@.windows, ..start }),
                self@.windows.len() == 16,
                forall|k: int|
                    #![trigger self@.windows[k]]
                    0 <= k < c ==> self@.windows[k] == start.pulled_up(
                        cid,
                        removed as int,
                    ).windows[k],
                forall|k: int|
                    #![trigger self@.windows[k]]
                    c <= k < 16 ==> self@.windows[k] == start.windows[k],
            decreases 16 - c,
        {
            let ghost before = self@;
            assert(before.windows[c as int] == window_view(self.open_containers@[c as int]));
            match &mut self.open_containers[c] {
                Some(oc) => match oc.source {
                    ContainerSource::Nested { parent_cid, parent_slot } => {
                        if parent_cid == cid {
                            if parent_slot as usize == removed {
                                orphan = Some(c as u8);
                            } else if parent_slot as usize > removed {
                                oc.source = ContainerSource::Nested {
                                    parent_cid,
                                    parent_slot: parent_slot - 1,
                                };
                            }
                        }
                    },
                    _ => {},
                },
                None => {},
            }
            assert(self@.windows =~= before.windows.update(
                c as int,
                window_view(self.open_containers@[c as int]),
            ));
            c = c + 1;
        }
        assert(self@.windows =~= start.pulled_up(cid, removed as int).windows);
        orphan
    }

    /// An item came in front of `cid`: move all places there one further.
    pub fn push_down(&mut self, cid: u8)
        ensures
            final(self)@ == old(self)@.pushed_down(cid),
    {
        let ghost start = self@;
        let mut c: usize = 0;
        while c < 16
            invariant
                c <= 16,
                start == old(self)@,
                start.windows.len() == 16,
                self@ == (PlayerModel { windows: self@.windows, ..start }),
                self@.windows.len() == 16,
                forall|k: int|
                    #![trigger self@.windows[k]]
                    0 <= k < c ==> self@.windows[k] == start.pushed_down(cid).windows[k],
                forall|k: int|
                    #![trigger self@.windows[k]]
                    c <= k < 16 ==> self@.windows[k] == start.windows[k],
            decreases 16 - c,
        {
            let ghost before = self@;
            assert(before.windows[c as int] == window_view(self.open_containers@[c as int]));
            match &mut self.open_containers[c] {
                Some(oc) => match oc.source {
                    ContainerSource::Nested { parent_cid, parent_slot } => {
                        if parent_cid == cid {
                            oc.source = ContainerSource::Nested {
                                parent_cid,
                                parent_slot: parent_slot.saturating_add(1),
                            };
                        }
                    },
                    _ => {},
                },
                None => {},
            }
            assert(self@.windows =~= before.windows.update(
                c as int,
                window_view(self.open_containers@[c as int]),
            ));
            c = c + 1;
        }
        assert(self@.windows =~= start.pushed_down(cid).windows);
    }

    /// Put `item` in front of the contents of window `cid`, where it has room. Returns
    /// whether the window is open; `None` where nothing was put.
    pub fn insert_item(&mut self, cid: u8, item: InvItem) -> (r: Option<bool>)
        requires
            cid < 16,
        ensures
            final(self)@ == old(self)@.with_item(cid, item),
            r == (match old(self)@.windows[cid as int] {
                Some(oc) if !oc.is_full() => Some(oc.is_open),
                _ => None,
            }),
    {
        let c: usize = cid as usize;
        assert(self@.windows[c as int] == window_view(self.open_containers@[c as int]));
        let shown: bool;
        match &mut self.open_containers[c] {
            Some(oc) => {
                if oc.items.len() >= oc.capacity as usize {
                    return None;
                }
                shown = oc.is_open;
                oc.items.insert(0, item);
            },
            None => {
                return None;
            },
        }
        assert(self@.windows =~= old(self)@.windows.update(
            c as int,
            window_view(self.open_containers@[c as int]),
        ));
        self.push_down(cid);
        Some(shown)
    }

    /// Take the item at `slot` out of window `cid`.
    pub fn remove_item(&mut self, cid: u8, slot: usize) -> (r: Option<InvItem>)
        requires
            cid < 16,
        ensures
            final(self)@ == old(self)@.without_item(cid, slot as int),
            r == (match old(self)@.windows[cid as int] {
                Some(oc) if slot < oc.items.len() => Some(oc.items[slot as int]),
                _ => None,
            }),
    {
        let c: usize = cid as usize;
        assert(self@.windows[c as int] == window_view(self.open_containers@[c as int]));
        let removed: InvItem;
        match &mut self.open_containers[c] {
            Some(oc) => {
                if slot >= oc.items.len() {
                    return None;
                }
                removed = oc.items.remove(slot);
            },
            None => {
                return None;
            },
        }
        assert(self@.windows =~= old(self)@.windows.update(
            c as int,
            window_view(self.open_containers@[c as int]),
        ));
        Some(removed)
    }
}

/// Putting an item in front of a container with room and taking it out again leaves the
/// contents as they were.
pub proof fn law_put_then_take(p: PlayerModel, cid: u8, item: InvItem)
    requires
        p.wf(),
        cid < 16,
        p.windows[cid as int] matches Some(oc) && !oc.is_full(),
    ensures
        p.with_item(cid, item).windows[cid as int] is Some,
        p.with_item(cid, item).windows[cid as int]->0.items[0] == item,
        p.with_item(cid, item).without_item(cid, 0).windows[cid as int]->0.items
            == p.windows[cid as int]->0.items,
{
    let items = p.windows[cid as int]->0.items;
    assert(items.insert(0, item).remove(0) =~= items);
}

/// A container never holds more than its capacity once it does not.
pub proof fn law_item_keeps_capacity(p: PlayerModel, cid: u8, item: InvItem, c: int)
    requires
        p.wf(),
        cid < 16,
        0 <= c < 16,
        p.windows[c] matches Some(oc) ==> oc.items.len() <= oc.capacity,
    ensures
        p.with_item(cid, item).windows[c] matches Some(oc) ==> oc.items.len() <= oc.capacity,
{
}

/// Putting an item in front keeps every window that lies in the container on the container
/// it showed, as long as places fit into a byte.
pub proof fn law_windows_follow_item(p: PlayerModel, cid: u8, item: InvItem, c: int, slot: u8)
    requires
        p.wf(),
        cid < 16,
        0 <= c < 16,
        slot < 255,
        p.windows[cid as int] matches Some(oc) && !oc.is_full() && slot < oc.items.len(),
        p.windows[c] matches Some(oc) && oc.source == (ContainerSource::Nested {
            parent_cid: cid,
            parent_slot: slot,
        }),
    ensures
        ({
            let q = p.with_item(cid, item);
            let moved = q.windows[c]->0.source;
            &&& q.windows[c] is Some
            &&& moved == (ContainerSource::Nested { parent_cid: cid, parent_slot: (slot + 1) as u8 })
            &&& q.windows[cid as int]->0.items[slot + 1] == p.windows[cid as int]->0.items[slot as int]
        }),
{
}

} // verus!
