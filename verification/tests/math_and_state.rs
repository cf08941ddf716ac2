use mini_clmm::error::ClmmError;
use mini_clmm::key::Pubkey;
use mini_clmm::math::{
    get_next_sqrt_price_buy_sol, get_sqrt_price_at_tick, MAX_TICK, MIN_TICK, Q64, SQRT_PRICE_STEP,
};
use mini_clmm::processor::{
    add_liquidity, buy_sol, can_add_liquidity, can_buy_sol, can_remove_liquidity,
    initialize_pool, remove_liquidity,
};
use mini_clmm::state::{
    Pool, Position, ERR_INVALID_TICK, ERR_MATH_OVERFLOW, ERR_MAX_POSITIONS,
    ERR_POSITION_NOT_FOUND, MAX_POSITIONS, MAX_TICKS,
};

/// The quote-token amount `Pool::add_liquidity` reports for a range.
fn usdc_needed(tick_lower: i32, tick_upper: i32, liquidity: u128) -> u64 {
    let sl = get_sqrt_price_at_tick(tick_lower).unwrap();
    let su = get_sqrt_price_at_tick(tick_upper).unwrap();
    let numerator = liquidity * ((su - sl) >> 32);
    let denominator = (sl >> 32) * (su >> 32);
    (numerator / denominator) as u64
}

fn key(n: u8) -> Pubkey {
    let mut bytes = [7u8; 32];
    bytes[5] = n;
    Pubkey::new_from_array(bytes)
}

fn initialized() -> Pool {
    let mut pool = Pool::zeroed();
    initialize_pool(&mut pool, &key(0), key(1), key(2), key(3), key(4)).unwrap();
    pool
}

/// The number of slots in use.
fn active_slots(pool: &Pool) -> usize {
    pool.positions.iter().filter(|p| p.is_active()).count()
}

/// Net liquidity that the positions in use start minus end at each tick.
fn expected_ticks(pool: &Pool) -> Vec<i128> {
    let mut net = vec![0i128; MAX_TICKS];
    for p in pool.positions.iter().filter(|p| p.is_active()) {
        net[(p.tick_lower - MIN_TICK) as usize] += p.liquidity as i128;
        net[(p.tick_upper - MIN_TICK) as usize] -= p.liquidity as i128;
    }
    net
}

/// Liquidity of the positions in use whose range holds the current tick.
fn expected_liquidity(pool: &Pool) -> u128 {
    pool.positions
        .iter()
        .filter(|p| p.is_active() && p.tick_lower <= pool.tick_current && pool.tick_current < p.tick_upper)
        .map(|p| p.liquidity)
        .sum()
}

fn assert_consistent(pool: &Pool) {
    assert_eq!(pool.positions_count as usize, active_slots(pool));
    assert_eq!(pool.ticks.to_vec(), expected_ticks(pool));
}

/// The sum of the tick entries up to and including the current tick.
fn prefix_to_current(pool: &Pool) -> i128 {
    pool.ticks[..=(pool.tick_current - MIN_TICK) as usize].iter().sum()
}

#[test]
fn sqrt_price_at_tick_values() {
    assert_eq!(get_sqrt_price_at_tick(0), Ok(Q64));
    assert_eq!(get_sqrt_price_at_tick(1), Ok(Q64 + 922_337_203_685_477));
    assert_eq!(get_sqrt_price_at_tick(-1), Ok(Q64 - 922_337_203_685_477));
    assert_eq!(get_sqrt_price_at_tick(MAX_TICK), Ok(Q64 + 92_233_720_368_547_700));
    assert_eq!(get_sqrt_price_at_tick(MIN_TICK), Ok(Q64 - 92_233_720_368_547_700));
    assert_eq!(get_sqrt_price_at_tick(101), Err(ClmmError::InvalidTickRange));
    assert_eq!(get_sqrt_price_at_tick(-101), Err(ClmmError::InvalidTickRange));
    assert_eq!(get_sqrt_price_at_tick(i32::MIN), Err(ClmmError::InvalidTickRange));
    assert_eq!(SQRT_PRICE_STEP, 922_337_203_685_477);
}

#[test]
fn sqrt_price_follows_documented_curve() {
    // tick i -> sqrt_price = 1.0001^(i/2) * 2^64, within 2^64 / 50000.
    let q = 18446744073709551616.0f64;
    for tick in MIN_TICK..=MAX_TICK {
        let exact = 1.0001f64.powf(tick as f64 / 2.0) * q;
        let got = get_sqrt_price_at_tick(tick).unwrap() as f64;
        assert!((got - exact).abs() <= q / 50000.0, "tick {}", tick);
    }
}

#[test]
fn sqrt_price_increases_with_tick() {
    let mut previous = get_sqrt_price_at_tick(MIN_TICK).unwrap();
    for tick in MIN_TICK + 1..=MAX_TICK {
        let price = get_sqrt_price_at_tick(tick).unwrap();
        assert!(price > previous);
        previous = price;
    }
}

#[test]
fn next_sqrt_price_values() {
    assert_eq!(get_next_sqrt_price_buy_sol(Q64, 0, 500), Ok(Q64));
    assert_eq!(get_next_sqrt_price_buy_sol(Q64, Q64, 1), Ok(Q64 + 1));
    assert_eq!(get_next_sqrt_price_buy_sol(Q64, 2, 3), Ok(Q64 + (3u128 << 64) / 2));
    assert_eq!(get_next_sqrt_price_buy_sol(5, 1 << 70, 1), Ok(5));
    assert_eq!(get_next_sqrt_price_buy_sol(u128::MAX, 1, 1), Err(ClmmError::MathOverflow));
    assert_eq!(get_next_sqrt_price_buy_sol(u128::MAX, 1, 0), Ok(u128::MAX));
}

#[test]
fn keys_compare_by_bytes() {
    assert_eq!(key(1), key(1));
    assert_ne!(key(1), key(2));
    assert_eq!(Pubkey::zero().to_bytes(), [0u8; 32]);
    assert_eq!(key(9).to_bytes()[5], 9);
}

#[test]
fn position_new_and_clear() {
    let mut p = Position::new(key(1), 55, -3, 4);
    assert!(p.is_active());
    assert_eq!((p.liquidity, p.tick_lower, p.tick_upper), (55, -3, 4));
    assert_eq!((p.tokens_owed_0, p.tokens_owed_1, p.is_active), (0, 0, 1));
    assert_eq!(p, Position::new(key(1), 55, -3, 4));
    assert_ne!(p, Position::new(key(2), 55, -3, 4));
    p.clear();
    assert_eq!(p, Position::empty());
    assert!(!p.is_active());
    assert_eq!(p.owner, Pubkey::zero());
    assert_eq!((p.liquidity, p.tick_lower, p.tick_upper, p.is_active), (0, 0, 0, 0));
}

#[test]
fn initialize_keeps_tables() {
    let mut pool = Pool::zeroed();
    pool.ticks[3] = 9;
    pool.initialize(key(1), key(2), key(3), key(4), key(5));
    assert_eq!(pool.ticks[3], 9);
    assert_eq!(pool.creator, key(5));
    assert_eq!(pool.sqrt_price, 1u128 << 64);
    assert_eq!(pool.tick_current, 0);
    assert_eq!(pool.fee_bps, 0);
}

#[test]
fn pool_add_liquidity_messages_and_amount() {
    let mut pool = initialized();
    assert_eq!(pool.add_liquidity(key(1), -101, 5, 10), Err(ERR_INVALID_TICK));
    assert_eq!(pool.add_liquidity(key(1), -5, 101, 10), Err(ERR_INVALID_TICK));
    assert_eq!(pool.add_liquidity(key(1), 5, -5, 10), Err(ERR_MATH_OVERFLOW));
    let needed = usdc_needed(-5, 5, 1 << 100);
    assert!(needed > 0);
    assert_eq!(pool.add_liquidity(key(1), -5, 5, 1 << 100), Ok(needed));
    assert_eq!(pool.positions_count, 1);
    assert_eq!(pool.liquidity, 1 << 100);
    pool.positions_count = MAX_POSITIONS as u8;
    assert_eq!(pool.add_liquidity(key(2), -5, 5, 10), Err(ERR_MAX_POSITIONS));
}

#[test]
fn pool_add_liquidity_outside_current_tick() {
    let mut pool = initialized();
    assert_eq!(pool.add_liquidity(key(1), 5, 20, 1000), Ok(usdc_needed(5, 20, 1000)));
    assert_eq!(pool.liquidity, 0);
    assert_eq!(pool.ticks[105], 1000);
    assert_eq!(pool.ticks[120], -1000);
    let p = pool.get_position(&key(1)).unwrap();
    assert_eq!((p.tick_lower, p.tick_upper, p.liquidity), (5, 20, 1000));
}

#[test]
fn remove_position_frees_first_slot_of_owner() {
    let mut pool = initialized();
    pool.add_liquidity(key(1), -5, 5, 10).unwrap();
    pool.add_liquidity(key(2), -5, 5, 20).unwrap();
    pool.add_liquidity(key(1), -6, 6, 30).unwrap();
    assert_eq!(pool.get_position(&key(1)).unwrap().liquidity, 10);
    assert_eq!(pool.remove_position(&key(1)), Ok(()));
    assert_eq!(pool.positions_count, 2);
    assert!(!pool.positions[0].is_active());
    assert_eq!(pool.get_position(&key(1)).unwrap().liquidity, 30);
    assert_eq!(pool.remove_position(&key(9)), Err(ERR_POSITION_NOT_FOUND));
    // The freed slot is the first one taken again.
    pool.add_liquidity(key(3), -1, 1, 40).unwrap();
    assert_eq!(pool.positions[0].owner, key(3));
}

#[test]
fn get_position_mut_writes_through() {
    let mut pool = initialized();
    pool.add_liquidity(key(1), -5, 5, 10).unwrap();
    {
        let p = pool.get_position_mut(&key(1)).unwrap();
        p.tokens_owed_0 = 77;
    }
    assert_eq!(pool.positions[0].tokens_owed_0, 77);
    assert!(pool.get_position_mut(&key(2)).is_none());
}

#[test]
fn update_tick_if_crossed_cases() {
    let mut pool = initialized();
    pool.liquidity = 100;
    pool.ticks[105] = -40;
    pool.ticks[200] = 7;
    pool.update_tick_if_crossed(0);
    assert_eq!((pool.tick_current, pool.liquidity), (0, 100));
    pool.update_tick_if_crossed(5);
    assert_eq!((pool.tick_current, pool.liquidity), (5, 60));
    pool.update_tick_if_crossed(500);
    assert_eq!((pool.tick_current, pool.liquidity), (100, 67));
    // Going down takes each crossed entry out again.
    pool.update_tick_if_crossed(-500);
    assert_eq!((pool.tick_current, pool.liquidity), (-100, 100));
    pool.update_tick_if_crossed(4);
    assert_eq!((pool.tick_current, pool.liquidity), (4, 100));
}

#[test]
fn operations_keep_counts_and_tick_table() {
    let mut pool = initialized();
    assert_consistent(&pool);
    for i in 0..6u8 {
        let lower = -30 + 7 * i as i32;
        assert!(can_add_liquidity(&pool, lower, lower + 25, 1000 + i as u64));
        add_liquidity(&mut pool, &key(i), lower, lower + 25, 1000 + i as u64).unwrap();
        assert_consistent(&pool);
        assert_eq!(pool.liquidity, expected_liquidity(&pool));
        assert_eq!(pool.liquidity as i128, prefix_to_current(&pool));
    }
    let l = pool.get_position(&key(2)).unwrap().liquidity;
    assert!(can_remove_liquidity(&pool, &key(2), l / 3));
    remove_liquidity(&mut pool, &key(2), l / 3).unwrap();
    assert_consistent(&pool);
    assert_eq!(pool.liquidity, expected_liquidity(&pool));
    let l = pool.get_position(&key(4)).unwrap().liquidity;
    remove_liquidity(&mut pool, &key(4), l).unwrap();
    assert_consistent(&pool);
    assert_eq!(pool.liquidity, expected_liquidity(&pool));
    assert_eq!(pool.liquidity as i128, prefix_to_current(&pool));
    assert!(pool.get_position(&key(4)).is_none());
    assert!(can_buy_sol(&pool, 50));
    buy_sol(&mut pool, 50).unwrap();
    assert_consistent(&pool);
}

#[test]
fn buy_sol_never_lowers_price() {
    let mut pool = initialized();
    add_liquidity(&mut pool, &key(1), -40, 40, 123_456).unwrap();
    let mut last = pool.sqrt_price;
    for amount in [0u64, 1, 10, 1000, 5] {
        assert!(can_buy_sol(&pool, amount));
        buy_sol(&mut pool, amount).unwrap();
        assert!(pool.sqrt_price >= last);
        last = pool.sqrt_price;
    }
}

#[test]
fn buy_sol_crossing_keeps_in_range_sum() {
    // Leaving a range takes its liquidity out; entering one adds it.
    let mut pool = initialized();
    add_liquidity(&mut pool, &key(1), -50, 1, 10_000).unwrap();
    add_liquidity(&mut pool, &key(2), 0, 100, 10_000).unwrap();
    let l1 = pool.get_position(&key(1)).unwrap().liquidity;
    let l2 = pool.get_position(&key(2)).unwrap().liquidity;
    assert_eq!(pool.liquidity, l1 + l2);
    let mut amount = 1u64;
    let mut seen_only_second = false;
    while pool.tick_current < 100 {
        assert!(can_buy_sol(&pool, amount));
        buy_sol(&mut pool, amount).unwrap();
        assert_eq!(pool.liquidity, expected_liquidity(&pool));
        assert_eq!(pool.liquidity as i128, prefix_to_current(&pool));
        if pool.tick_current >= 1 && pool.tick_current < 100 {
            assert_eq!(pool.liquidity, l2);
            seen_only_second = true;
        }
        amount = amount.saturating_mul(3);
    }
    assert!(seen_only_second);
    assert_eq!(pool.liquidity, 0);
}

#[test]
fn checks_reject_overflowing_inputs() {
    let mut pool = initialized();
    pool.ticks[90] = i128::MAX;
    assert!(!can_add_liquidity(&pool, -10, 10, 1000));
    let mut pool = initialized();
    add_liquidity(&mut pool, &key(1), -10, 10, 1000).unwrap();
    pool.liquidity = 0;
    assert!(!can_remove_liquidity(&pool, &key(1), 1));
    assert!(can_remove_liquidity(&pool, &key(2), 1));
    // Moving down from tick 5 to tick 0 takes the entry at tick 5 out.
    let mut pool = initialized();
    pool.liquidity = 1;
    pool.tick_current = 5;
    pool.ticks[105] = 2;
    assert!(!can_buy_sol(&pool, 0));
    pool.ticks[105] = 1;
    assert!(can_buy_sol(&pool, 0));
    buy_sol(&mut pool, 0).unwrap();
    assert_eq!((pool.tick_current, pool.liquidity), (0, 0));
}
