use vstd::prelude::*;

use crate::tips::{PendingTip, Payout, in_pool, tip_sum, payout_total, pays_out, lemma_tip_sum_push};

verus! {

/// Conservation: tips received one after another, with no sweep between
/// them, add to each pool exactly the sum of their own amounts that belong
/// to it.
pub proof fn lemma_conservation(
    log: Seq<PendingTip>,
    received: Seq<PendingTip>,
    creator: Seq<u8>,
    token: Seq<u8>,
)
    ensures
        tip_sum(log + received, creator, token) == tip_sum(log, creator, token) + tip_sum(
            received,
            creator,
            token,
        ),
    decreases received.len(),
{
    if received.len() > 0 {
        let rest = received.drop_last();
        let last = received.last();
        lemma_conservation(log, rest, creator, token);
        assert(log + received =~= (log + rest).push(last));
        lemma_tip_sum_push(log + rest, last, creator, token);
    } else {
        assert(log + received =~= log);
    }
}

/// No double settlement: once a sweep has emptied the log, the payouts of a
/// further sweep are empty and carry no value.
pub proof fn lemma_no_double_settlement(log: Seq<PendingTip>, second: Seq<Payout>)
    requires
        log.len() == 0,
        pays_out(log, second),
    ensures
        second.len() == 0,
        payout_total(second) == 0,
{
    if second.len() > 0 {
        assert(second[0].2 > 0);
        assert(tip_sum(log, second[0].0@, second[0].1@) == 0);
    }
}

/// Pool isolation: a tip leaves the pool of every other (creator, resource)
/// pair as it was.
pub proof fn lemma_pool_isolation(
    log: Seq<PendingTip>,
    tip: PendingTip,
    creator: Seq<u8>,
    token: Seq<u8>,
)
    requires
        !in_pool(tip, creator, token),
    ensures
        tip_sum(log.push(tip), creator, token) == tip_sum(log, creator, token),
{
    lemma_tip_sum_push(log, tip, creator, token);
}

} // verus!
