use tip_aggregator::{ComponentId, Payout, ResourceId, TipAggregator, TipError};

fn account(n: u8) -> ComponentId {
    let mut bytes = [0u8; 30];
    bytes[0] = 0xc1;
    bytes[29] = n;
    ComponentId::new(bytes)
}

fn resource(n: u8) -> ResourceId {
    let mut bytes = [0u8; 30];
    bytes[0] = 0x5d;
    bytes[29] = n;
    ResourceId::new(bytes)
}

fn amount_for(payouts: &[Payout], creator: ComponentId, token: ResourceId) -> Option<u128> {
    let found: Vec<u128> = payouts
        .iter()
        .filter(|p| p.0.bytes == creator.bytes && p.1.bytes == token.bytes)
        .map(|p| p.2)
        .collect();
    assert!(found.len() <= 1, "a pool is listed twice");
    found.first().copied()
}

fn tip(agg: &mut TipAggregator, creator: ComponentId, token: ResourceId, amount: u128) -> Vec<Payout> {
    match agg.tip_creator(account(200), creator, token, amount) {
        Ok(payouts) => payouts,
        Err(e) => panic!("tip refused: {:?}", e),
    }
}

#[test]
fn three_tips_reach_threshold_and_pay_each_creator() {
    let a = resource(1);
    let creator1 = account(1);
    let creator2 = account(2);
    let mut agg = TipAggregator::new(3);
    assert!(tip(&mut agg, creator1, a, 10).is_empty());
    assert!(tip(&mut agg, creator1, a, 5).is_empty());
    let paid = tip(&mut agg, creator2, a, 7);
    assert_eq!(agg.get_pending_count(), 0);
    assert_eq!(paid.len(), 2);
    assert_eq!(amount_for(&paid, creator1, a), Some(15));
    assert_eq!(amount_for(&paid, creator2, a), Some(7));
    assert!(agg.get_creators_with_pending_tips().is_empty());
}

#[test]
fn pending_amount_is_sum_of_pool_tips() {
    let a = resource(1);
    let b = resource(2);
    let creator = account(1);
    let mut agg = TipAggregator::new(10);
    tip(&mut agg, creator, a, 3);
    tip(&mut agg, creator, b, 100);
    tip(&mut agg, creator, a, 4);
    assert_eq!(agg.get_pending_amount_for_creator(creator, a), 7);
    assert_eq!(agg.get_pending_amount_for_creator(creator, b), 100);
    assert_eq!(agg.get_pending_count(), 3);
}

#[test]
fn tips_from_different_tippers_share_a_pool() {
    let a = resource(1);
    let creator = account(1);
    let mut agg = TipAggregator::new(10);
    agg.tip_creator(account(50), creator, a, 8).unwrap();
    agg.tip_creator(account(51), creator, a, 9).unwrap();
    let pools = agg.get_creators_with_pending_tips();
    assert_eq!(pools.len(), 1);
    assert_eq!(amount_for(&pools, creator, a), Some(17));
}

#[test]
fn sweep_runs_exactly_at_threshold() {
    let a = resource(1);
    let creator = account(1);
    let mut agg = TipAggregator::new(4);
    for n in 1..4u32 {
        assert!(tip(&mut agg, creator, a, 1).is_empty());
        assert_eq!(agg.get_pending_count(), n);
    }
    let paid = tip(&mut agg, creator, a, 1);
    assert_eq!(agg.get_pending_count(), 0);
    assert_eq!(amount_for(&paid, creator, a), Some(4));
    assert_eq!(agg.get_pending_amount_for_creator(creator, a), 0);
}

#[test]
fn threshold_of_one_pays_every_tip_at_once() {
    let a = resource(1);
    let creator = account(1);
    let mut agg = TipAggregator::new(1);
    let paid = tip(&mut agg, creator, a, 42);
    assert_eq!(paid.len(), 1);
    assert_eq!(amount_for(&paid, creator, a), Some(42));
    assert_eq!(agg.get_pending_count(), 0);
}

#[test]
fn threshold_of_zero_pays_every_tip_at_once() {
    let a = resource(1);
    let creator = account(1);
    let mut agg = TipAggregator::new(0);
    let paid = tip(&mut agg, creator, a, 6);
    assert_eq!(amount_for(&paid, creator, a), Some(6));
    assert_eq!(agg.get_pending_count(), 0);
}

#[test]
fn empty_sweep_changes_nothing() {
    let mut agg = TipAggregator::new(5);
    assert!(agg.send_batched_tips().is_empty());
    assert_eq!(agg.get_pending_count(), 0);
    assert!(agg.get_creators_with_pending_tips().is_empty());
    assert!(agg.force_send_tips().is_empty());
    assert_eq!(agg.get_pending_count(), 0);
}

#[test]
fn second_sweep_pays_nothing() {
    let a = resource(1);
    let b = resource(2);
    let mut agg = TipAggregator::new(10);
    tip(&mut agg, account(1), a, 5);
    tip(&mut agg, account(2), b, 6);
    let first = agg.send_batched_tips();
    assert_eq!(first.len(), 2);
    assert_eq!(first.iter().map(|p| p.2).sum::<u128>(), 11);
    let second = agg.send_batched_tips();
    assert!(second.is_empty());
    assert_eq!(agg.get_pending_amount_for_creator(account(1), a), 0);
}

#[test]
fn forced_sweep_pays_all_pools() {
    let a = resource(1);
    let mut agg = TipAggregator::new(10);
    tip(&mut agg, account(1), a, 5);
    tip(&mut agg, account(2), a, 6);
    tip(&mut agg, account(1), a, 1);
    let paid = agg.force_send_tips();
    assert_eq!(paid.len(), 2);
    assert_eq!(amount_for(&paid, account(1), a), Some(6));
    assert_eq!(amount_for(&paid, account(2), a), Some(6));
    assert_eq!(agg.get_pending_count(), 0);
    assert!(agg.get_creators_with_pending_tips().is_empty());
}

#[test]
fn tip_leaves_other_pools_alone() {
    let a = resource(1);
    let b = resource(2);
    let x = account(1);
    let y = account(2);
    let mut agg = TipAggregator::new(10);
    tip(&mut agg, y, a, 20);
    tip(&mut agg, x, b, 30);
    tip(&mut agg, x, a, 5);
    assert_eq!(agg.get_pending_amount_for_creator(y, a), 20);
    assert_eq!(agg.get_pending_amount_for_creator(x, b), 30);
    assert_eq!(agg.get_pending_amount_for_creator(x, a), 5);
}

#[test]
fn unknown_pool_reads_zero() {
    let agg = TipAggregator::new(3);
    assert_eq!(agg.get_pending_amount_for_creator(account(1), resource(1)), 0);
}

#[test]
fn zero_tip_is_refused_and_changes_nothing() {
    let a = resource(1);
    let mut agg = TipAggregator::new(2);
    tip(&mut agg, account(1), a, 5);
    let r = agg.tip_creator(account(7), account(1), a, 0);
    assert!(matches!(r, Err(TipError::InvalidAmount)));
    assert_eq!(agg.get_pending_count(), 1);
    assert_eq!(agg.get_pending_amount_for_creator(account(1), a), 5);
}

#[test]
fn pool_overflow_is_refused_and_changes_nothing() {
    let a = resource(1);
    let mut agg = TipAggregator::new(5);
    tip(&mut agg, account(1), a, u128::MAX - 1);
    let r = agg.tip_creator(account(7), account(1), a, 2);
    assert!(matches!(r, Err(TipError::AmountOverflow)));
    assert_eq!(agg.get_pending_count(), 1);
    assert_eq!(agg.get_pending_amount_for_creator(account(1), a), u128::MAX - 1);
    tip(&mut agg, account(1), a, 1);
    assert_eq!(agg.get_pending_amount_for_creator(account(1), a), u128::MAX);
    tip(&mut agg, account(2), a, u128::MAX);
    assert_eq!(agg.get_pending_amount_for_creator(account(2), a), u128::MAX);
}

#[test]
fn ids_compare_by_bytes() {
    assert!(account(3).same_as(&account(3)));
    assert!(!account(3).same_as(&account(4)));
    assert!(resource(3).same_as(&resource(3)));
    assert!(!resource(3).same_as(&resource(4)));
}
