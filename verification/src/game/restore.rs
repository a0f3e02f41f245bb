//! Giving a returning player back what it carried.

use vstd::prelude::*;

use super::state::row_view;
use super::state::rows_view;
use super::state::windows_view;
use super::state::ContainerModel;
use super::state::ContainerSource;
use super::state::InvItem;
use super::state::OpenContainer;
use crate::map::grid::StaticMap;
use crate::text::chars_of;
use crate::text::parse_unsigned;
use crate::text::unsigned_value;

verus! {

/// The item of a saved row, where the catalogue knows its type. Stackables get a count of at
/// least `least`.
pub open spec fn item_of_row(map: StaticMap, server_id: u16, count: u8, least: u8) -> Option<InvItem> {
    match map.meta_at(server_id) {
        Some(m) => Some(
            InvItem {
                server_id,
                client_id: m.client_id,
                count: if m.stackable {
                    Some(
                        if count >= least {
                            count
                        } else {
                            least
                        },
                    )
                } else {
                    None
                },
                animated: m.animated,
            },
        ),
        None => None,
    }
}

fn make_item(map: &StaticMap, server_id: u16, count: u8, least: u8) -> (r: Option<InvItem>)
    ensures
        r == item_of_row(*map, server_id, count, least),
{
    match map.item_meta(server_id) {
        Some(m) => Some(
            InvItem {
                server_id,
                client_id: m.client_id,
                count: if m.stackable {
                    Some(
                        if count >= least {
                            count
                        } else {
                            least
                        },
                    )
                } else {
                    None
                },
                animated: m.animated,
            },
        ),
        None => None,
    }
}

/// The equipment that saved rows give: rows with a slot from 1 to 10 and a known type, the
/// later of two for one slot.
pub open spec fn equipment(map: StaticMap, rows: Seq<(u8, u16, u8)>) -> Seq<Option<InvItem>>
    decreases rows.len(),
{
    if rows.len() == 0 {
        Seq::new(10, |i: int| None)
    } else {
        let rest = equipment(map, rows.drop_last());
        let (slot, server_id, count) = rows.last();
        match item_of_row(map, server_id, count, 1) {
            Some(it) if 1 <= slot <= 10 => rest.update(slot - 1, Some(it)),
            _ => rest,
        }
    }
}

/// The equipment that saved rows give.
pub fn restore_inventory(map: &StaticMap, rows: &Vec<(u8, u16, u8)>) -> (r: [Option<InvItem>; 10])
    ensures
        r@ == equipment(*map, rows@),
{
    let mut inv: [Option<InvItem>; 10] = [None; 10];
    assert(inv@ =~= equipment(*map, rows@.take(0)));
    let mut i: usize = 0;
    while i < rows.len()
        invariant
            i <= rows@.len(),
            inv@ == equipment(*map, rows@.take(i as int)),
        decreases rows@.len() - i,
    {
        assert(rows@.take(i + 1).drop_last() =~= rows@.take(i as int));
        let (slot, server_id, count) = rows[i];
        if 1 <= slot && slot <= 10 {
            match make_item(map, server_id, count, 1) {
                Some(it) => {
                    inv[(slot - 1) as usize] = Some(it);
                },
                None => {},
            }
        }
        i = i + 1;
    }
    assert(rows@.take(rows@.len() as int) =~= rows@);
    inv
}

/// A saved item of one container: its place, type and count.
#[derive(Debug, Clone, Copy)]
pub struct Stored {
    pub place: u64,
    pub server_id: u16,
    pub count: u8,
}

/// The place that a saved row names; 0 where it names none.
pub open spec fn place_of(text: Seq<char>) -> u64 {
    match unsigned_value(text, 0xFFFF_FFFF_FFFF_FFFF) {
        Some(n) => n as u64,
        None => 0,
    }
}

/// A saved row's path leads into a container inside another.
pub open spec fn leads_deeper(text: Seq<char>) -> bool {
    text.contains('/')
}

fn is_deeper(text: &str) -> (r: bool)
    ensures
        r == leads_deeper(text@),
{
    let chars = chars_of(text);
    let mut i: usize = 0;
    while i < chars.len()
        invariant
            i <= chars@.len(),
            chars@ == text@,
            forall|k: int| 0 <= k < i ==> text@[k] != '/',
        decreases chars@.len() - i,
    {
        if chars[i] == '/' {
            assert(text@[i as int] == '/');
            return true;
        }
        i = i + 1;
    }
    false
}

/// Put `t` behind every item whose place is not greater.
pub open spec fn insert_stored(s: Seq<Stored>, t: Stored) -> Seq<Stored>
    decreases s.len(),
{
    if s.len() == 0 || s.last().place <= t.place {
        s.push(t)
    } else {
        insert_stored(s.drop_last(), t).push(s.last())
    }
}

/// The rows of the container in inventory slot `slot` by place, those of one place in the order
/// given. What was in containers inside it is not among them.
pub open spec fn stored_in(rows: Seq<(u8, Seq<char>, u16, u8)>, slot: u8) -> Seq<Stored>
    decreases rows.len(),
{
    if rows.len() == 0 {
        Seq::empty()
    } else {
        let rest = stored_in(rows.drop_last(), slot);
        let (s, text, server_id, count) = rows.last();
        if s == slot && !leads_deeper(text) {
            insert_stored(rest, Stored { place: place_of(text), server_id, count })
        } else {
            rest
        }
    }
}

/// The items of a container whose types the catalogue knows.
pub open spec fn contents(map: StaticMap, s: Seq<Stored>) -> Seq<InvItem>
    decreases s.len(),
{
    if s.len() == 0 {
        Seq::empty()
    } else {
        let rest = contents(map, s.drop_last());
        match item_of_row(map, s.last().server_id, s.last().count, 0) {
            Some(it) => rest.push(it),
            None => rest,
        }
    }
}

/// The closed windows for the containers in the first `n` equipment slots.
pub open spec fn bags(
    map: StaticMap,
    inv: Seq<Option<InvItem>>,
    rows: Seq<(u8, Seq<char>, u16, u8)>,
    n: int,
) -> Seq<ContainerModel>
    decreases n,
{
    if n <= 0 {
        Seq::empty()
    } else {
        let rest = bags(map, inv, rows, n - 1);
        match inv[n - 1] {
            Some(it) => match map.meta_at(it.server_id) {
                Some(m) if m.is_container => rest.push(
                    ContainerModel {
                        server_id: it.server_id,
                        client_id: m.client_id,
                        capacity: if m.container_capacity >= 1 {
                            m.container_capacity
                        } else {
                            1
                        },
                        name: m.name,
                        items: contents(map, stored_in(rows, n as u8)),
                        source: ContainerSource::Slot(n as u8),
                        is_open: false,
                    },
                ),
                _ => rest,
            },
            None => rest,
        }
    }
}

/// The sixteen window slots with `s` in the first of them.
pub open spec fn window_row(s: Seq<ContainerModel>) -> Seq<Option<ContainerModel>> {
    Seq::new(
        16,
        |i: int|
            if i < s.len() {
                Some(s[i])
            } else {
                None
            },
    )
}

fn insert_sorted(v: &mut Vec<Stored>, t: Stored)
    ensures
        final(v)@ == insert_stored(old(v)@, t),
{
    let mut i: usize = v.len();
    assert(v@.take(i as int) =~= v@);
    assert(insert_stored(v@, t) + v@.skip(i as int) =~= insert_stored(v@, t));
    while i > 0 && v[i - 1].place > t.place
        invariant
            i <= v@.len(),
            v@ == old(v)@,
            insert_stored(v@, t) == insert_stored(v@.take(i as int), t) + v@.skip(i as int),
        decreases i,
    {
        assert(v@.take(i as int).drop_last() =~= v@.take(i - 1));
        assert(insert_stored(v@.take(i - 1), t).push(v@[i - 1]) + v@.skip(i as int)
            =~= insert_stored(v@.take(i - 1), t) + v@.skip(i - 1));
        i = i - 1;
    }
    v.insert(i, t);
    assert(v@ =~= old(v)@.take(i as int).push(t) + old(v)@.skip(i as int));
}

fn rows_of_slot(rows: &Vec<(u8, String, u16, u8)>, slot: u8) -> (r: Vec<Stored>)
    ensures
        r@ == stored_in(rows_view(rows@), slot),
{
    let ghost all = rows_view(rows@);
    let mut r: Vec<Stored> = Vec::new();
    let mut i: usize = 0;
    while i < rows.len()
        invariant
            i <= rows@.len(),
            all == rows_view(rows@),
            r@ == stored_in(all.take(i as int), slot),
        decreases rows@.len() - i,
    {
        assert(all.take(i + 1).drop_last() =~= all.take(i as int));
        assert(all[i as int] == row_view(rows@[i as int]));
        if rows[i].0 == slot && !is_deeper(rows[i].1.as_str()) {
            let place: u64 = match parse_unsigned(rows[i].1.as_str(), 0xFFFF_FFFF_FFFF_FFFF) {
                Some(n) => n,
                None => 0,
            };
            insert_sorted(
                &mut r,
                Stored { place, server_id: rows[i].2, count: rows[i].3 },
            );
        }
        i = i + 1;
    }
    assert(all.take(rows@.len() as int) =~= all);
    r
}

fn make_contents(map: &StaticMap, s: &Vec<Stored>) -> (r: Vec<InvItem>)
    ensures
        r@ == contents(*map, s@),
{
    let mut r: Vec<InvItem> = Vec::new();
    let mut i: usize = 0;
    while i < s.len()
        invariant
            i <= s@.len(),
            r@ == contents(*map, s@.take(i as int)),
        decreases s@.len() - i,
    {
        assert(s@.take(i + 1).drop_last() =~= s@.take(i as int));
        match make_item(map, s[i].server_id, s[i].count, 0) {
            Some(it) => r.push(it),
            None => {},
        }
        i = i + 1;
    }
    assert(s@.take(s@.len() as int) =~= s@);
    r
}

/// The windows of a returning player: one for each container in an equipment slot, closed,
/// with the saved items in it. Containers inside it come back empty.
pub fn restore_containers(
    rows: &Vec<(u8, String, u16, u8)>,
    inventory: &[Option<InvItem>; 10],
    map: &StaticMap,
) -> (r: [Option<OpenContainer>; 16])
    ensures
        windows_view(r@) == window_row(bags(*map, inventory@, rows_view(rows@), 10)),
{
    let ghost all = rows_view(rows@);
    let mut r: [Option<OpenContainer>; 16] = [
        None,
        None,
        None,
        None,
        None,
        None,
        None,
        None,
        None,
        None,
        None,
        None,
        None,
        None,
        None,
        None,
    ];
    let mut cid: usize = 0;
    let mut i: usize = 0;
    assert(windows_view(r@) =~= window_row(bags(*map, inventory@, all, 0)));
    while i < 10
        invariant
            i <= 10,
            cid <= i,
            all == rows_view(rows@),
            cid == bags(*map, inventory@, all, i as int).len(),
            windows_view(r@) == window_row(bags(*map, inventory@, all, i as int)),
        decreases 10 - i,
    {
        let ghost rest = bags(*map, inventory@, all, i as int);
        match inventory[i] {
            Some(it) => match map.item_meta(it.server_id) {
                Some(m) => {
                    if m.is_container {
                        let slot: u8 = i as u8 + 1;
                        let stored = rows_of_slot(rows, slot);
                        let oc = OpenContainer {
                            server_id: it.server_id,
                            client_id: m.client_id,
                            capacity: if m.container_capacity >= 1 {
                                m.container_capacity
                            } else {
                                1
                            },
                            name: m.name.clone(),
                            items: make_contents(map, &stored),
                            source: ContainerSource::Slot(slot),
                            is_open: false,
                        };
                        let ghost before = windows_view(r@);
                        let ghost model = oc@;
                        r[cid] = Some(oc);
                        assert(windows_view(r@) =~= before.update(cid as int, Some(model)));
                        assert(bags(*map, inventory@, all, i + 1) == rest.push(model));
                        assert(windows_view(r@) =~= window_row(rest.push(model)));
                        cid = cid + 1;
                    }
                },
                None => {},
            },
            None => {},
        }
        i = i + 1;
    }
    r
}

} // verus!
