use fsnft::ratio::{calc_pro_rata, mul_div};
use fsnft::resv::{new_agg_resv_vote, ResvVote};
use fsnft::wide::{add_carry, div, from_u128, low_u128, product, saturate, saturating_sub, sub_borrow, truncate, widen};

#[test]
fn new_agg_resv_vote_works() {
    // net effect on reservation price votes
    let user0 = ResvVote::new(2906469, 417);
    let user1_0 = ResvVote::new(10_u128.pow(19), 242);
    let user1_1 = ResvVote::new(2, 8750000);
    let user1_2 = ResvVote::new(4689854, 634);
    let exp_agg_0 = ResvVote::new(10_000_000_000_002_906_469, 242);
    let exp_agg_1 = ResvVote::new(2906471, 423);
    let exp_agg_2 = ResvVote::new(7596323, 550);

    let agg_00 = new_agg_resv_vote(&ResvVote::empty(), &ResvVote::empty(), &user0);
    let agg_0 = new_agg_resv_vote(&agg_00, &ResvVote::empty(), &user1_0);
    let agg_1 = new_agg_resv_vote(&agg_0, &user1_0, &user1_1);
    let agg_2 = new_agg_resv_vote(&agg_1, &user1_1, &user1_2);

    assert_eq!(agg_0.uint128_stake(), exp_agg_0.uint128_stake());
    assert_eq!(agg_0.uint128_price(), exp_agg_0.uint128_price());

    assert_eq!(agg_1.uint128_stake(), exp_agg_1.uint128_stake());
    assert_eq!(agg_1.uint128_price(), exp_agg_1.uint128_price());

    assert_eq!(agg_2.uint128_stake(), exp_agg_2.uint128_stake());
    assert_eq!(agg_2.uint128_price(), exp_agg_2.uint128_price());
}

#[test]
fn test_pro_rata_calc() {
    let max = u128::MAX;
    // when denom < norm, at u128::MAX: precisely 1200
    let mut res = calc_pro_rata(12u128, max.checked_div(100u128).unwrap(), max).unwrap();
    assert_eq!(res, 1200u128);

    // 12 / 10^36 of 10^38 is exactly 1200; the share is exact, rounded down
    res = calc_pro_rata(12u128, 10u128.pow(36), 10u128.pow(38)).unwrap();
    assert_eq!(res, 1200u128);

    // 12 / (12 * 10^18) of 10^38 is exactly 10^20
    res = calc_pro_rata(12u128, 10_u128.pow(18) * 12u128, 10u128.pow(38)).unwrap();
    assert_eq!(res, 100_000_000_000_000_000_000_u128);

    // when denom > norm: rounds down by 1
    res = calc_pro_rata(12_000_000u128, max, max.checked_div(10_000u128).unwrap()).unwrap();
    assert_eq!(res, 1199u128);
}

#[test]
fn test_resvvote_bin_temp() {
    let resv_vote = ResvVote::new(50, 100);
    let from_wide = ResvVote::new_from_u384(&from_u128(200, 6), &from_u128(400, 6));
    let product_of = resv_vote.stake_mul_price();
    let precision = from_u128(10u128.pow(19), 6);
    let unscaled = div(&div(&product_of, &precision), &precision);
    println!(
        "price: {:?}, stake: {:?}, stake times price: {:?}",
        resv_vote.uint128_price(),
        resv_vote.uint128_stake(),
        low_u128(&unscaled)
    );
    assert_eq!(low_u128(&unscaled), 5000);
    assert_eq!(low_u128(&from_wide.stake), 200);
    assert_eq!(low_u128(&from_wide.price), 400);
}

#[test]
fn pro_rata_examples_round_down() {
    assert_eq!(calc_pro_rata(70, 100, 2000), Some(1400));
    assert_eq!(calc_pro_rata(1, 100, 1), Some(0));
    assert_eq!(calc_pro_rata(30, 100, 95), Some(28));
    assert_eq!(calc_pro_rata(70, 100, 95), Some(66));
}

#[test]
fn pro_rata_beyond_u128_is_none() {
    assert_eq!(calc_pro_rata(u128::MAX, 1, 2), None);
    assert_eq!(calc_pro_rata(u128::MAX, 2, 2), Some(u128::MAX));
}

#[test]
fn mul_div_small_and_wide_paths() {
    // fits in u128: computed by the ledger library's ratio
    assert_eq!(mul_div(85, 11000, 10000), Some(93));
    assert_eq!(mul_div(75, 11000, 10000), Some(82));
    assert_eq!(mul_div(500, 100, 500), Some(100));
    assert_eq!(mul_div(500, 500, 100), Some(2500));
    // product beyond u128: computed wide
    assert_eq!(mul_div(u128::MAX, 3, 4), Some(u128::MAX / 4 * 3 + 2));
    assert_eq!(mul_div(u128::MAX, 10_000, 10_000), Some(u128::MAX));
    assert_eq!(mul_div(u128::MAX, 10_001, 10_000), None);
}

#[test]
fn wide_add_sub_carry() {
    let a = from_u128(u128::MAX, 2);
    let b = from_u128(1, 2);
    let (s, carry) = add_carry(&a, &b, false);
    assert!(carry);
    assert_eq!(low_u128(&s), 0);
    let (d, borrow) = sub_borrow(&b, &a);
    assert!(borrow);
    assert_eq!(low_u128(&d), 2);
    let z = saturating_sub(&b, &a);
    assert_eq!(low_u128(&z), 0);
}

#[test]
fn wide_product_and_division() {
    let a = from_u128(u128::MAX, 2);
    let p = product(&a, &a);
    assert_eq!(p.limbs.len(), 4);
    let q = div(&p, &widen(&a, 4));
    assert_eq!(low_u128(&q), u128::MAX);
    let hi = div(&p, &from_u128(1u128 << 64, 4));
    assert_eq!(low_u128(&truncate(&hi, 2)), u128::MAX - (1u128 << 65) + 1);
    let sat = saturate(&p, 2);
    assert_eq!(low_u128(&sat), u128::MAX);
    let small = saturate(&from_u128(7, 4), 2);
    assert_eq!(low_u128(&small), 7);
}

#[test]
fn resv_vote_scales_by_precision() {
    let v = ResvVote::new(3, 7);
    assert_eq!(v.uint128_stake(), 3);
    assert_eq!(v.uint128_price(), 7);
    let p = v.stake_mul_price();
    let q = div(&p, &from_u128(10u128.pow(19), 6));
    let r = div(&q, &from_u128(10u128.pow(19), 6));
    assert_eq!(low_u128(&r), 21);
}

#[test]
fn aggregate_is_weighted_mean() {
    // holder a: 30 at 100, holder b: 70 at 50 -> (3000 + 3500) / 100 = 65
    let a = ResvVote::new(30, 100);
    let b = ResvVote::new(70, 50);
    let agg = new_agg_resv_vote(&ResvVote::empty(), &ResvVote::empty(), &a);
    assert_eq!(agg.uint128_price(), 100);
    let agg = new_agg_resv_vote(&agg, &ResvVote::empty(), &b);
    assert_eq!(agg.uint128_stake(), 100);
    assert_eq!(agg.uint128_price(), 65);
    // b drops to 30 at 50 -> (3000 + 1500) / 60 = 75
    let b2 = ResvVote::new(30, 50);
    let agg = new_agg_resv_vote(&agg, &b, &b2);
    assert_eq!(agg.uint128_stake(), 60);
    assert_eq!(agg.uint128_price(), 75);
}

#[test]
fn aggregate_keeps_price_when_no_stake_left() {
    let start = ResvVote::new(0, 500);
    let a = ResvVote::new(10, 100);
    let agg = new_agg_resv_vote(&start, &ResvVote::empty(), &a);
    assert_eq!(agg.uint128_price(), 100);
    let gone = ResvVote::new(0, 100);
    let agg = new_agg_resv_vote(&agg, &a, &gone);
    assert_eq!(agg.uint128_stake(), 0);
    assert_eq!(agg.uint128_price(), 100);
}
