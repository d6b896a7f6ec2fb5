use vstd::prelude::*;

use crate::address::{ComponentId, ResourceId};

verus! {

/// One recorded tip: who sent it, to which creator, how much of which
/// resource. Amounts are counted in the smallest unit of the resource.
#[derive(Clone, Copy, Debug)]
pub struct PendingTip {
    pub tipper: ComponentId,
    pub creator: ComponentId,
    pub amount: u128,
    pub token: ResourceId,
}

/// A pooled balance ready to be paid: the creator, the resource, the amount.
pub type Payout = (ComponentId, ResourceId, u128);

/// Whether `tip` belongs to the pool of `creator` for resource `token`.
pub open spec fn in_pool(tip: PendingTip, creator: Seq<u8>, token: Seq<u8>) -> bool {
    tip.creator@ == creator && tip.token@ == token
}

/// The sum of the amounts of the tips in `log` that belong to the pool of
/// `creator` for resource `token`.
pub open spec fn tip_sum(log: Seq<PendingTip>, creator: Seq<u8>, token: Seq<u8>) -> nat
    decreases log.len(),
{
    if log.len() == 0 {
        0
    } else {
        let last = log.last();
        tip_sum(log.drop_last(), creator, token) + if in_pool(last, creator, token) {
            last.amount as nat
        } else {
            0
        }
    }
}

/// The total of all amounts in a list of payouts.
pub open spec fn payout_total(r: Seq<Payout>) -> nat
    decreases r.len(),
{
    if r.len() == 0 {
        0
    } else {
        payout_total(r.drop_last()) + r.last().2 as nat
    }
}

/// Whether some entry of `r` is the pool of `creator` for resource `token`.
pub open spec fn lists_pool(r: Seq<Payout>, creator: Seq<u8>, token: Seq<u8>) -> bool {
    exists|i: int| 0 <= i < r.len() && r[i].0@ == creator && r[i].1@ == token
}

/// `r` lists every non-empty pool of `log` exactly once, in some order, each
/// with the full pooled amount.
pub open spec fn pays_out(log: Seq<PendingTip>, r: Seq<Payout>) -> bool {
    &&& forall|i: int|
        0 <= i < r.len() ==> #[trigger] r[i].2 > 0 && r[i].2 == tip_sum(log, r[i].0@, r[i].1@)
    &&& forall|i: int, j: int|
        0 <= i < j < r.len() ==> !(#[trigger] r[i].0@ == #[trigger] r[j].0@ && r[i].1@ == r[j].1@)
    &&& forall|k: int| 0 <= k < log.len() ==> #[trigger] lists_pool(r, log[k].creator@, log[k].token@)
}

/// Appending one tip adds its amount to its own pool and to no other.
pub proof fn lemma_tip_sum_push(log: Seq<PendingTip>, tip: PendingTip, creator: Seq<u8>, token: Seq<u8>)
    ensures
        tip_sum(log.push(tip), creator, token) == tip_sum(log, creator, token) + if in_pool(
            tip,
            creator,
            token,
        ) {
            tip.amount as nat
        } else {
            0
        },
{
    assert(log.push(tip).drop_last() =~= log);
}

/// A pool with a positive sum holds at least one tip of the log.
pub proof fn lemma_tip_sum_positive(log: Seq<PendingTip>, creator: Seq<u8>, token: Seq<u8>)
    requires
        tip_sum(log, creator, token) > 0,
    ensures
        exists|k: int| 0 <= k < log.len() && #[trigger] in_pool(log[k], creator, token),
    decreases log.len(),
{
    let last = log.last();
    if in_pool(last, creator, token) {
        assert(in_pool(log[log.len() - 1], creator, token));
    } else {
        lemma_tip_sum_positive(log.drop_last(), creator, token);
        let k = choose|k: int|
            0 <= k < log.drop_last().len() && #[trigger] in_pool(log.drop_last()[k], creator, token);
        assert(in_pool(log[k], creator, token));
    }
}

/// The total of all amounts in the log.
pub open spec fn log_total(log: Seq<PendingTip>) -> nat
    decreases log.len(),
{
    if log.len() == 0 {
        0
    } else {
        log_total(log.drop_last()) + log.last().amount as nat
    }
}

/// The log without the tips of the pool of `creator` for `token`.
pub open spec fn without_pool(log: Seq<PendingTip>, creator: Seq<u8>, token: Seq<u8>) -> Seq<
    PendingTip,
>
    decreases log.len(),
{
    if log.len() == 0 {
        log
    } else if in_pool(log.last(), creator, token) {
        without_pool(log.drop_last(), creator, token)
    } else {
        without_pool(log.drop_last(), creator, token).push(log.last())
    }
}

/// Taking one pool out of the log removes exactly that pool's sum from the
/// total, leaves every other pool's sum as it was, and keeps every other
/// tip.
pub proof fn lemma_without_pool(log: Seq<PendingTip>, creator: Seq<u8>, token: Seq<u8>)
    ensures
        log_total(log) == log_total(without_pool(log, creator, token)) + tip_sum(
            log,
            creator,
            token,
        ),
        forall|c: Seq<u8>, t: Seq<u8>|
            !(c == creator && t == token) ==> #[trigger] tip_sum(without_pool(log, creator, token), c, t)
                == tip_sum(log, c, t),
        forall|k: int|
            0 <= k < log.len() && !in_pool(log[k], creator, token) ==> exists|m: int|
                0 <= m < without_pool(log, creator, token).len() && #[trigger] without_pool(log, creator, token)[m] == #[trigger] log[k],
        forall|m: int| 0 <= m < without_pool(log, creator, token).len() ==> exists|k: int|
                0 <= k < log.len() && #[trigger] without_pool(log, creator, token)[m] == #[trigger] log[k],
        forall|m: int| 0 <= m < without_pool(log, creator, token).len() ==> !in_pool(
            #[trigger] without_pool(log, creator, token)[m],
            creator,
            token,
        ),
    decreases log.len(),
{
    if log.len() > 0 {
        let rest = log.drop_last();
        let last = log.last();
        let w = without_pool(rest, creator, token);
        lemma_without_pool(rest, creator, token);
        assert forall|k: int| 0 <= k < rest.len() implies #[trigger] rest[k] == log[k] by {}
        if !in_pool(last, creator, token) {
            assert(w.push(last).drop_last() =~= w);
            assert forall|c: Seq<u8>, t: Seq<u8>|
                !(c == creator && t == token) implies #[trigger] tip_sum(w.push(last), c, t) == tip_sum(log, c, t) by {
                lemma_tip_sum_push(w, last, c, t);
            }
            assert forall|k: int|
                0 <= k < log.len() && !in_pool(log[k], creator, token) implies exists|m: int|
                    0 <= m < w.push(last).len() && #[trigger] w.push(last)[m] == #[trigger] log[k] by {
                if k == log.len() - 1 {
                    assert(w.push(last)[w.len() as int] == log[k]);
                } else {
                    assert(rest[k] == log[k]);
                    let m = choose|m: int| 0 <= m < w.len() && #[trigger] w[m] == #[trigger] rest[k];
                    assert(w.push(last)[m] == log[k]);
                }
            }
            assert forall|m: int| 0 <= m < w.push(last).len() implies exists|k: int|
                0 <= k < log.len() && #[trigger] w.push(last)[m] == #[trigger] log[k] by {
                if m == w.len() {
                    assert(w.push(last)[m] == log[log.len() - 1]);
                } else {
                    assert(w.push(last)[m] == w[m]);
                    let k = choose|k: int| 0 <= k < rest.len() && #[trigger] w[m] == #[trigger] rest[k];
                    assert(rest[k] == log[k]);
                }
            }
        } else {
            assert forall|k: int|
                0 <= k < log.len() && !in_pool(log[k], creator, token) implies exists|m: int|
                    0 <= m < w.len() && #[trigger] w[m] == #[trigger] log[k] by {
                assert(rest[k] == log[k]);
            }
            assert forall|m: int| 0 <= m < w.len() implies exists|k: int|
                0 <= k < log.len() && #[trigger] w[m] == #[trigger] log[k] by {
                let k = choose|k: int| 0 <= k < rest.len() && #[trigger] w[m] == #[trigger] rest[k];
                assert(rest[k] == log[k]);
            }
        }
    }
}

/// A sweep's payouts carry exactly the value of the tips in the log.
pub proof fn lemma_payouts_total(log: Seq<PendingTip>, r: Seq<Payout>)
    requires
        pays_out(log, r),
    ensures
        payout_total(r) == log_total(log),
    decreases r.len(),
{
    if r.len() == 0 {
        if log.len() > 0 {
            assert(lists_pool(r, log[0].creator@, log[0].token@));
        }
        assert(log =~= Seq::<PendingTip>::empty());
    } else {
        let (c, t, a) = r.last();
        let rest = r.drop_last();
        let w = without_pool(log, c@, t@);
        lemma_without_pool(log, c@, t@);
        assert(r[r.len() - 1].2 == a);
        assert forall|i: int| 0 <= i < rest.len() implies #[trigger] rest[i].2 > 0 && rest[i].2 == tip_sum(w, rest[i].0@, rest[i].1@) by {
            assert(rest[i] == r[i]);
            assert(!(r[i].0@ == r[r.len() - 1].0@ && r[i].1@ == r[r.len() - 1].1@));
        }
        assert forall|i: int, j: int| 0 <= i < j < rest.len() implies !(#[trigger] rest[i].0@ == #[trigger] rest[j].0@ && rest[i].1@ == rest[j].1@) by {
            assert(rest[i] == r[i] && rest[j] == r[j]);
        }
        assert forall|m: int| 0 <= m < w.len() implies #[trigger] lists_pool(rest, w[m].creator@, w[m].token@) by {
            let k = choose|k: int| 0 <= k < log.len() && #[trigger] w[m] == #[trigger] log[k];
            assert(lists_pool(r, log[k].creator@, log[k].token@));
            let i = choose|i: int| 0 <= i < r.len() && r[i].0@ == log[k].creator@ && r[i].1@ == log[k].token@;
            if i == r.len() - 1 {
                assert(in_pool(w[m], c@, t@));
            }
            assert(rest[i] == r[i]);
        }
        lemma_payouts_total(w, rest);
    }
}

} // verus!
