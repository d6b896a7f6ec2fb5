use vstd::prelude::*;

use crate::address::{ComponentId, ResourceId};
use crate::tips::{
    PendingTip, Payout, in_pool, lists_pool, tip_sum, pays_out, log_total, payout_total,
    lemma_tip_sum_push, lemma_tip_sum_positive, lemma_payouts_total,
};

verus! {

/// Why a tip was turned away. A refused tip changes nothing.
#[derive(Clone, Copy, Debug, PartialEq, Eq, Structural)]
pub enum TipError {
    /// The tip carries no value.
    InvalidAmount,
    /// The tip would take its pool past the largest amount that can be held.
    AmountOverflow,
}

/// Pools tips per (creator, resource) and pays each pool out in one go.
///
/// The aggregator keeps the log of tips not yet paid out and, for every
/// (creator, resource) pair that occurs in it, one pool whose amount is the
/// sum of that pair's tips. A sweep hands all pools out as payouts and
/// empties the log; the caller delivers the payouts. Delivery is all or
/// nothing: a caller whose delivery fails abandons the whole operation and
/// keeps the aggregator it had before the sweep, so no pool is ever lost.
pub struct TipAggregator {
    pending_tips: Vec<PendingTip>,
    tip_pools: Vec<Payout>,
    min_batch_size: u32,
}

/// Finds the pool of `creator` for `token`, if there is one.
fn find_pool(pools: &Vec<Payout>, creator: &ComponentId, token: &ResourceId) -> (r: Option<usize>)
    ensures
        match r {
            Some(i) => i < pools@.len() && pools@[i as int].0@ == creator@ && pools@[i as int].1@
                == token@,
            None => !lists_pool(pools@, creator@, token@),
        },
{
    let mut i: usize = 0;
    while i < pools.len()
        invariant
            i <= pools@.len(),
            forall|k: int| 0 <= k < i ==> !(pools@[k].0@ == creator@ && pools@[k].1@ == token@),
        decreases pools@.len() - i,
    {
        if pools[i].0.same_as(creator) && pools[i].1.same_as(token) {
            return Some(i);
        }
        i = i + 1;
    }
    None
}

impl TipAggregator {
    /// The tips received and not yet paid out, oldest first.
    pub closed spec fn log(&self) -> Seq<PendingTip> {
        self.pending_tips@
    }

    /// The number of pending tips at which a sweep runs by itself.
    pub closed spec fn threshold(&self) -> nat {
        self.min_batch_size as nat
    }

    /// The amount pooled for `creator` in resource `token`.
    pub open spec fn pending_amount(&self, creator: Seq<u8>, token: Seq<u8>) -> nat {
        tip_sum(self.log(), creator, token)
    }

    /// The pools are exactly the non-empty pools of the log, and the log is
    /// below the threshold (or empty).
    pub closed spec fn wf(&self) -> bool {
        &&& self.pending_tips@.len() == 0 || self.pending_tips@.len() < self.min_batch_size
        &&& pays_out(self.pending_tips@, self.tip_pools@)
    }

    /// A new aggregator with no tips that sweeps once `min_batch_size` tips
    /// are pending.
    pub fn new(min_batch_size: u32) -> (r: TipAggregator)
        ensures
            r.wf(),
            r.log() == Seq::<PendingTip>::empty(),
            r.threshold() == min_batch_size,
    {
        TipAggregator { pending_tips: Vec::new(), tip_pools: Vec::new(), min_batch_size }
    }

    /// Records a tip of `amount` of `token` from `tipper` to `creator`.
    ///
    /// The amount joins the pool of (`creator`, `token`) and the tip is
    /// appended to the log. Once the log holds the threshold number of tips a
    /// sweep runs, and its payouts are returned for the caller to deliver;
    /// otherwise the result is empty.
    pub fn tip_creator(
        &mut self,
        tipper: ComponentId,
        creator: ComponentId,
        token: ResourceId,
        amount: u128,
    ) -> (r: Result<Vec<Payout>, TipError>)
        requires
            old(self).wf(),
        ensures
            final(self).wf(),
            final(self).threshold() == old(self).threshold(),
            (r == Err::<Vec<Payout>, TipError>(TipError::InvalidAmount)) <==> amount == 0,
            (r == Err::<Vec<Payout>, TipError>(TipError::AmountOverflow)) <==> (amount > 0
                && old(self).pending_amount(creator@, token@) + amount > u128::MAX),
            r is Ok <==> (amount > 0 && old(self).pending_amount(creator@, token@) + amount
                <= u128::MAX),
            r is Err ==> final(self).log() == old(self).log(),
            r is Ok ==> ({
                let tip = (PendingTip { tipper, creator, amount, token });
                let grown = old(self).log().push(tip);
                if grown.len() >= old(self).threshold() {
                    &&& final(self).log().len() == 0
                    &&& pays_out(grown, r->Ok_0@)
                    &&& payout_total(r->Ok_0@) == log_total(grown)
                } else {
                    &&& final(self).log() == grown
                    &&& r->Ok_0@.len() == 0
                }
            }),
    {
        if amount == 0 {
            return Err(TipError::InvalidAmount);
        }
        let tip = PendingTip { tipper, creator, amount, token };
        let ghost log = self.pending_tips@;
        let ghost grown = log.push(tip);
        let ghost pools = self.tip_pools@;
        let ghost mut slot: int = 0;
        match find_pool(&self.tip_pools, &creator, &token) {
            Some(i) => {
                let held = self.tip_pools[i].2;
                if held > u128::MAX - amount {
                    return Err(TipError::AmountOverflow);
                }
                self.tip_pools.set(i, (creator, token, held + amount));
                proof {
                    slot = i as int;
                }
            },
            None => {
                proof {
                    if tip_sum(log, creator@, token@) > 0 {
                        lemma_tip_sum_positive(log, creator@, token@);
                        let k = choose|k: int|
                            0 <= k < log.len() && #[trigger] in_pool(log[k], creator@, token@);
                        assert(lists_pool(pools, log[k].creator@, log[k].token@));
                    }
                }
                self.tip_pools.push((creator, token, amount));
                proof {
                    slot = pools.len() as int;
                }
            },
        }
        self.pending_tips.push(tip);
        proof {
            let np = self.tip_pools@;
            assert forall|c: Seq<u8>, t: Seq<u8>|
                #![auto]
                tip_sum(grown, c, t) == tip_sum(log, c, t) + if in_pool(tip, c, t) {
                    amount as nat
                } else {
                    0
                } by {
                lemma_tip_sum_push(log, tip, c, t);
            }
            assert forall|k: int| 0 <= k < grown.len() implies #[trigger] lists_pool(
                np,
                grown[k].creator@,
                grown[k].token@,
            ) by {
                if k < log.len() {
                    assert(lists_pool(pools, log[k].creator@, log[k].token@));
                    let j = choose|j: int|
                        0 <= j < pools.len() && pools[j].0@ == log[k].creator@ && pools[j].1@
                            == log[k].token@;
                    assert(np[j].0@ == pools[j].0@ && np[j].1@ == pools[j].1@);
                } else {
                    assert(grown[k] == tip);
                    assert(np[slot].0@ == creator@ && np[slot].1@ == token@);
                }
            }
        }
        if self.pending_tips.len() >= self.min_batch_size as usize {
            Ok(self.drain_pools())
        } else {
            Ok(Vec::new())
        }
    }

    /// Pays out every pool: the pools are handed out as payouts, one per
    /// (creator, resource) pair with pending tips, and the log is emptied.
    /// With no pending tips nothing changes and nothing is paid.
    pub fn send_batched_tips(&mut self) -> (r: Vec<Payout>)
        requires
            old(self).wf(),
        ensures
            final(self).wf(),
            final(self).threshold() == old(self).threshold(),
            final(self).log().len() == 0,
            pays_out(old(self).log(), r@),
            payout_total(r@) == log_total(old(self).log()),
            old(self).log().len() == 0 ==> final(self).log() == old(self).log() && r@.len() == 0,
    {
        if self.pending_tips.len() == 0 {
            proof {
                if self.tip_pools@.len() > 0 {
                    assert(self.tip_pools@[0].2 > 0);
                }
                assert(self.pending_tips@ =~= Seq::<PendingTip>::empty());
            }
            return Vec::new();
        }
        self.drain_pools()
    }

    /// Moves every pool out to the caller and clears the log.
    fn drain_pools(&mut self) -> (r: Vec<Payout>)
        requires
            pays_out(old(self).pending_tips@, old(self).tip_pools@),
        ensures
            final(self).pending_tips@.len() == 0,
            final(self).tip_pools@.len() == 0,
            final(self).min_batch_size == old(self).min_batch_size,
            r@ == old(self).tip_pools@,
            payout_total(r@) == log_total(old(self).pending_tips@),
    {
        proof {
            lemma_payouts_total(self.pending_tips@, self.tip_pools@);
        }
        let mut paid: Vec<Payout> = Vec::new();
        std::mem::swap(&mut paid, &mut self.tip_pools);
        self.pending_tips = Vec::new();
        paid
    }

    /// The number of tips not yet paid out.
    pub fn get_pending_count(&self) -> (r: u32)
        requires
            self.wf(),
        ensures
            r == self.log().len(),
    {
        self.pending_tips.len() as u32
    }

    /// The amount pooled for `creator` in resource `token`: the sum of the
    /// pending tips to that creator in that resource, zero if there are none.
    pub fn get_pending_amount_for_creator(&self, creator: ComponentId, token: ResourceId) -> (r:
        u128)
        requires
            self.wf(),
        ensures
            r == self.pending_amount(creator@, token@),
    {
        match find_pool(&self.tip_pools, &creator, &token) {
            Some(i) => self.tip_pools[i].2,
            None => {
                proof {
                    let log = self.pending_tips@;
                    if tip_sum(log, creator@, token@) > 0 {
                        lemma_tip_sum_positive(log, creator@, token@);
                        let k = choose|k: int|
                            0 <= k < log.len() && #[trigger] in_pool(log[k], creator@, token@);
                        assert(lists_pool(self.tip_pools@, log[k].creator@, log[k].token@));
                    }
                }
                0
            },
        }
    }

    /// Pays out every pool on request; the same as `send_batched_tips`.
    pub fn force_send_tips(&mut self) -> (r: Vec<Payout>)
        requires
            old(self).wf(),
        ensures
            final(self).wf(),
            final(self).threshold() == old(self).threshold(),
            final(self).log().len() == 0,
            pays_out(old(self).log(), r@),
            payout_total(r@) == log_total(old(self).log()),
            old(self).log().len() == 0 ==> final(self).log() == old(self).log() && r@.len() == 0,
    {
        self.send_batched_tips()
    }

    /// Every pool with pending tips, as (creator, resource, amount), each
    /// pair once, in no promised order.
    pub fn get_creators_with_pending_tips(&self) -> (r: Vec<Payout>)
        requires
            self.wf(),
        ensures
            pays_out(self.log(), r@),
    {
        let mut r: Vec<Payout> = Vec::new();
        let mut i: usize = 0;
        while i < self.tip_pools.len()
            invariant
                i <= self.tip_pools@.len(),
                r@ == self.tip_pools@.subrange(0, i as int),
            decreases self.tip_pools@.len() - i,
        {
            r.push(self.tip_pools[i]);
            i = i + 1;
            proof {
                assert(r@ =~= self.tip_pools@.subrange(0, i as int));
            }
        }
        proof {
            assert(r@ =~= self.tip_pools@);
        }
        r
    }
}

} // verus!
