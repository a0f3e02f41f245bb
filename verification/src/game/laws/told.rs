//! Who is told what: a message that is sent to someone waits in its queue from then on, for as
//! long as it is in the game.

use vstd::prelude::*;

use super::super::model::extends;
use super::super::model::law_logout;
use super::super::model::law_push;
use super::super::model::law_push_all;
use super::super::model::World;
use crate::wire::PacketModel;

verus! {

/// Player `k`, if it is still there in `later`, was told `p` since `before`.
pub open spec fn hears(before: World, later: World, k: u32, p: PacketModel) -> bool {
    later.players.has(k) ==> exists|i: int|
        before.players.at(k).session.queue.len() <= i < later.players.at(k).session.queue.len()
            && #[trigger] later.players.at(k).session.queue[i] == p
}

/// Whoever is in `later` was there before, and all messages that waited still do.
pub open spec fn remembers(before: World, later: World) -> bool {
    forall|k: u32|
        #![trigger later.players.has(k)]
        #![trigger later.players.at(k)]
        later.players.has(k) ==> before.players.has(k) && extends(
            later.players.at(k).session.queue,
            before.players.at(k).session.queue,
        )
}

/// What was heard is not unheard.
pub proof fn lemma_hears_later(a: World, b: World, c: World, k: u32, p: PacketModel)
    requires
        hears(a, b, k, p),
        remembers(b, c),
    ensures
        hears(a, c, k, p),
{
    if c.players.has(k) {
        assert(b.players.has(k));
        let old_queue = b.players.at(k).session.queue;
        let new_queue = c.players.at(k).session.queue;
        let i = choose|i: int|
            a.players.at(k).session.queue.len() <= i < old_queue.len() && #[trigger] old_queue[i]
                == p;
        assert(new_queue[i] == p);
    }
}

/// What is heard after more was told was heard since the beginning.
pub proof fn lemma_hears_earlier(a: World, b: World, c: World, k: u32, p: PacketModel)
    requires
        remembers(a, b),
        remembers(b, c),
        hears(b, c, k, p),
    ensures
        hears(a, c, k, p),
{
    if c.players.has(k) {
        assert(b.players.has(k));
        let q = c.players.at(k).session.queue;
        let i = choose|i: int|
            b.players.at(k).session.queue.len() <= i < q.len() && #[trigger] q[i] == p;
        assert(q[i] == p);
    }
}

pub proof fn lemma_remembers_trans(a: World, b: World, c: World)
    requires
        remembers(a, b),
        remembers(b, c),
    ensures
        remembers(a, c),
{
    assert forall|k: u32|
        #![trigger c.players.has(k)]
        #![trigger c.players.at(k)]
        c.players.has(k) implies a.players.has(k) && extends(
        c.players.at(k).session.queue,
        a.players.at(k).session.queue,
    ) by {
        assert(b.players.has(k));
        let x = b.players.at(k).session.queue;
        let y = c.players.at(k).session.queue;
        assert forall|i: int| #![trigger y[i]] 0 <= i < a.players.at(
            k,
        ).session.queue.len() implies y[i] == a.players.at(k).session.queue[i] by {
            assert(y[i] == x[i]);
        }
    }
}

/// A message to a player is the last in its queue; who cannot take it is no longer there.
pub proof fn law_messages_arrive(w: World, k: u32, p: PacketModel)
    requires
        w.players.wf(),
    ensures
        hears(w, w.push(k, p), k, p),
        remembers(w, w.push(k, p)),
        w.push(k, p).players.has(k) ==> w.push(k, p).players.at(k).session.queue == w.players.at(
            k,
        ).session.queue.push(p),
{
    law_push(w, k, p);
    law_logout(w, k);
    let later = w.push(k, p);
    if later.players.has(k) {
        assert(w.players.has(k));
        let q = later.players.at(k).session.queue;
        assert(q[q.len() - 1] == p);
    }
}

/// A message to several players reaches each of them.
pub proof fn law_messages_reach_all(w: World, ids: Seq<u32>, p: PacketModel, k: u32)
    requires
        w.players.wf(),
        ids.contains(k),
    ensures
        hears(w, w.push_all(ids, p), k, p),
    decreases ids.len(),
{
    let a = w.push(ids[0], p);
    let c = w.push_all(ids, p);
    law_push(w, ids[0], p);
    law_push_all(a, ids.drop_first(), p);
    if ids[0] == k {
        law_messages_arrive(w, k, p);
        lemma_hears_later(w, a, c, k, p);
    } else {
        let i = ids.index_of(k);
        assert(ids.drop_first()[i - 1] == k);
        law_messages_reach_all(a, ids.drop_first(), p, k);
        lemma_hears_earlier(w, a, c, k, p);
    }
}

} // verus!
