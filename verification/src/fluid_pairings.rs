//! Fluid pairing: continuous pairing. Ready players queue up; as soon as
//! the queue holds a full table, the front of the queue is cut into groups
//! in first-come order, without waiting for an explicit pairing call.

use vstd::prelude::*;

use crate::identifiers::PlayerId;
use crate::player_registry::PlayerRegistry;
use crate::round::{players_unique, spec_set_insert, spec_set_remove, vec_set_insert,
    vec_set_remove};
use crate::round_registry::RoundRegistry;
use crate::settings::FluidPairingsSetting;
use crate::swiss_pairings::groups_view;

verus! {

/// The queue cut into front-to-back groups of `size`; the remainder stays
/// queued. A size of zero never forms a group.
pub open spec fn spec_fluid_groups(q: Seq<PlayerId>, size: u8) -> (Seq<Seq<PlayerId>>, Seq<
    PlayerId,
>)
    decreases q.len(),
{
    if size == 0 || q.len() < size {
        (Seq::empty(), q)
    } else {
        let (gs, lo) = spec_fluid_groups(q.skip(size as int), size);
        (seq![q.take(size as int)] + gs, lo)
    }
}

/// The fluid pairing engine: the table size and the ready queue in
/// first-come order.
#[derive(Debug)]
pub struct FluidPairings {
    pub match_size: u8,
    pub queue: Vec<PlayerId>,
}

/// The observable content of a `FluidPairings`.
pub struct FluidPairingsView {
    pub match_size: u8,
    pub queue: Seq<PlayerId>,
}

impl View for FluidPairings {
    type V = FluidPairingsView;

    open spec fn view(&self) -> FluidPairingsView {
        FluidPairingsView { match_size: self.match_size, queue: self.queue@ }
    }
}

/// Chunking keeps the queue's no-duplicates property in its leftover.
pub proof fn lemma_fluid_leftover_unique(q: Seq<PlayerId>, size: u8)
    requires
        players_unique(q),
    ensures
        players_unique(spec_fluid_groups(q, size).1),
    decreases q.len(),
{
    if size == 0 || q.len() < size {
    } else {
        let tail = q.skip(size as int);
        assert forall|i: int, j: int| 0 <= i < j < tail.len() implies tail[i] != tail[j] by {
            assert(q[i + size] != q[j + size]);
        }
        lemma_fluid_leftover_unique(tail, size);
    }
}

impl FluidPairings {
    /// The engine's invariant: the queue holds no duplicates.
    pub open spec fn wf(&self) -> bool {
        players_unique(self@.queue)
    }

    /// A fresh engine with the given table size and an empty queue.
    pub fn new(match_size: u8) -> (r: FluidPairings)
        ensures
            r@.match_size == match_size,
            r@.queue == Seq::<PlayerId>::empty(),
            r.wf(),
    {
        let r = FluidPairings { match_size, queue: Vec::new() };
        proof {
            assert(r@.queue =~= Seq::<PlayerId>::empty());
        }
        r
    }

    /// Queues a player; queueing twice changes nothing.
    pub fn ready_player(&mut self, p: PlayerId)
        requires
            old(self).wf(),
        ensures
            final(self)@.queue == spec_set_insert(old(self)@.queue, p),
            final(self)@.match_size == old(self)@.match_size,
            final(self).wf(),
    {
        vec_set_insert(&mut self.queue, p);
    }

    /// Withdraws a queued player; a no-op if the player is not queued.
    pub fn unready_player(&mut self, p: PlayerId)
        requires
            old(self).wf(),
        ensures
            final(self)@.queue == spec_set_remove(old(self)@.queue, p),
            final(self)@.match_size == old(self)@.match_size,
            final(self).wf(),
    {
        vec_set_remove(&mut self.queue, p);
    }

    /// Whether the queue already holds a full table.
    pub fn ready_to_pair(&self) -> (r: bool)
        ensures
            r == (self@.match_size > 0 && self@.queue.len() >= self@.match_size),
    {
        self.match_size > 0 && self.queue.len() >= self.match_size as usize
    }

    /// Applies a fluid setting.
    pub fn update_setting(&mut self, setting: FluidPairingsSetting)
        requires
            old(self).wf(),
        ensures
            final(self)@.queue == old(self)@.queue,
            final(self).wf(),
            match setting {
                FluidPairingsSetting::MatchSize(n) => final(self)@.match_size == n,
            },
    {
        match setting {
            FluidPairingsSetting::MatchSize(n) => {
                self.match_size = n;
            },
        }
    }

    /// Cuts the queue into front-to-back groups of the table size; the
    /// remainder stays queued. Returns `None` when no full group fits.
    /// Fluid pairing is first-come, so play history is not consulted; the
    /// registries are taken to share one signature with the Swiss engine.
    pub fn pair(&mut self, _players: &PlayerRegistry, _rounds: &RoundRegistry) -> (r: Option<
        Vec<Vec<PlayerId>>,
    >)
        requires
            old(self).wf(),
        ensures
            final(self).wf(),
            final(self)@.match_size == old(self)@.match_size,
            ({
                let (gs, lo) = spec_fluid_groups(old(self)@.queue, old(self)@.match_size);
                if gs.len() > 0 {
                    r is Some && groups_view(r.unwrap()@) == gs && final(self)@.queue == lo
                } else {
                    r is None && final(self)@.queue == old(self)@.queue
                }
            }),
    {
        let (gs, lo) = fluid_rec(&self.queue, 0, self.match_size);
        proof {
            assert(self@.queue.skip(0) =~= self@.queue);
        }
        if gs.len() > 0 {
            proof {
                lemma_fluid_leftover_unique(old(self)@.queue, old(self)@.match_size);
            }
            self.queue = lo;
            Some(gs)
        } else {
            None
        }
    }
}

/// Front-to-back chunking of `q[k..]`, mirroring `spec_fluid_groups`.
pub(crate) fn fluid_rec(q: &Vec<PlayerId>, k: usize, size: u8) -> (r: (Vec<Vec<PlayerId>>, Vec<PlayerId>))
    requires
        k <= q@.len(),
    ensures
        (groups_view(r.0@), r.1@) == spec_fluid_groups(q@.skip(k as int), size),
    decreases q@.len() - k,
{
    if size == 0 || q.len() - k < size as usize {
        let mut rest: Vec<PlayerId> = Vec::new();
        let mut i: usize = k;
        while i < q.len()
            invariant
                k <= i <= q@.len(),
                rest@ == q@.subrange(k as int, i as int),
            decreases q@.len() - i,
        {
            rest.push(q[i]);
            proof {
                assert(rest@ =~= q@.subrange(k as int, i as int + 1));
            }
            i += 1;
        }
        proof {
            assert(rest@ =~= q@.skip(k as int));
        }
        let gs: Vec<Vec<PlayerId>> = Vec::new();
        proof {
            assert(groups_view(gs@) =~= Seq::<Seq<PlayerId>>::empty());
        }
        (gs, rest)
    } else {
        let mut g: Vec<PlayerId> = Vec::new();
        let mut i: usize = k;
        let end = k + size as usize;
        while i < end
            invariant
                k <= i <= end,
                end == k + size as usize,
                end <= q@.len(),
                g@ == q@.subrange(k as int, i as int),
            decreases end - i,
        {
            g.push(q[i]);
            proof {
                assert(g@ =~= q@.subrange(k as int, i as int + 1));
            }
            i += 1;
        }
        let (mut gs, lo) = fluid_rec(q, end, size);
        let ghost gsv = groups_view(gs@);
        gs.insert(0, g);
        proof {
            let tail = q@.skip(k as int);
            assert(tail.take(size as int) =~= q@.subrange(k as int, k as int + size as int));
            assert(tail.skip(size as int) =~= q@.skip(k as int + size as int));
            assert(groups_view(gs@) =~= seq![q@.subrange(k as int, k as int + size as int)] + gsv);
        }
        (gs, lo)
    }
}


impl Clone for FluidPairings {
    /// A copy with the same observable content.
    fn clone(&self) -> (r: Self)
        ensures
            r@ == self@,
    {
        let mut queue: Vec<PlayerId> = Vec::new();
        let mut i: usize = 0;
        while i < self.queue.len()
            invariant
                i <= self.queue@.len(),
                queue@ == self.queue@.take(i as int),
            decreases self.queue@.len() - i,
        {
            queue.push(self.queue[i]);
            proof {
                assert(queue@ =~= self.queue@.take(i as int + 1));
            }
            i += 1;
        }
        proof {
            assert(self.queue@.take(self.queue@.len() as int) =~= self.queue@);
        }
        FluidPairings { match_size: self.match_size, queue }
    }
}

} // verus!
