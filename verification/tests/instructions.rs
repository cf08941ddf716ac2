use mini_clmm::error::{ClmmError, ProgramError};
use mini_clmm::key::Pubkey;
use mini_clmm::math::SQRT_PRICE_STEP;
use mini_clmm::processor::{
    tick_at_sqrt_price, add_liquidity as add_liquidity_ix, buy_sol as buy_sol_ix, can_add_liquidity, can_buy_sol,
    can_remove_liquidity, check_pool_account, initialize_pool as initialize_pool_ix,
    remove_liquidity as remove_liquidity_ix, ClmmInstruction,
};
use mini_clmm::state::{Pool, Position, MAX_POSITIONS, MAX_TICKS};

const POOL_LEN: usize = 4384;

fn key(n: u8) -> Pubkey {
    let mut bytes = [0u8; 32];
    bytes[0] = n;
    bytes[31] = 0xA5;
    Pubkey::new_from_array(bytes)
}

struct Setup {
    pool: Pool,
    owner: Pubkey,
    trader: Pubkey,
    usdc_mint: Pubkey,
    sol_mint: Pubkey,
    usdc_vault: Pubkey,
    sol_vault: Pubkey,
}

/// A freshly allocated pool account and the keys of the parties.
fn setup_clmm() -> Setup {
    assert_eq!(check_pool_account(true, POOL_LEN, POOL_LEN), Ok(()));
    Setup {
        pool: Pool::zeroed(),
        owner: key(1),
        trader: key(2),
        usdc_mint: key(3),
        sol_mint: key(4),
        usdc_vault: key(5),
        sol_vault: key(6),
    }
}

fn run_initialize(s: &mut Setup) {
    let owner = s.owner;
    let r = initialize_pool_ix(&mut s.pool, &owner, s.usdc_mint, s.sol_mint, s.usdc_vault, s.sol_vault);
    r.expect("Initialize pool failed");
}

fn run_add(pool: &mut Pool, user: &Pubkey, tick_lower: i32, tick_upper: i32, usdc_amount: u64) -> Result<(), ProgramError> {
    assert!(can_add_liquidity(pool, tick_lower, tick_upper, usdc_amount));
    add_liquidity_ix(pool, user, tick_lower, tick_upper, usdc_amount)
}

#[test]
fn initialize_pool() {
    let mut s = setup_clmm();
    run_initialize(&mut s);
    let pool = &s.pool;
    assert_eq!(pool.token_0_mint, s.usdc_mint);
    assert_eq!(pool.token_1_mint, s.sol_mint);
    assert_eq!(pool.token_0_vault, s.usdc_vault);
    assert_eq!(pool.token_1_vault, s.sol_vault);
    assert_eq!(pool.sqrt_price, 1 << 64); // Q64
    assert_eq!(pool.liquidity, 0);
    assert_eq!(pool.positions_count, 0);
}

#[test]
fn add_liquidity() {
    let mut s = setup_clmm();
    run_initialize(&mut s);
    let owner = s.owner;
    run_add(&mut s.pool, &owner, -10, 10, 1000).expect("Add liquidity ix failed");

    let pool = &s.pool;
    assert!(pool.liquidity > 0);
    assert_eq!(pool.positions_count, 1);

    let position = pool.get_position(&owner).unwrap();
    assert_eq!(position.tick_lower, -10);
    assert_eq!(position.tick_upper, 10);
    assert!(position.liquidity > 0);
}

#[test]
fn buy_sol() {
    let mut s = setup_clmm();
    run_initialize(&mut s);
    let owner = s.owner;
    run_add(&mut s.pool, &owner, -50, 50, 10_000).expect("Add liquidity failed");

    let sqrt_price_before = s.pool.sqrt_price;
    assert!(can_buy_sol(&s.pool, 100));
    let _trader = s.trader;
    buy_sol_ix(&mut s.pool, 100).expect("Buy SOL ix failed");

    assert_ne!(s.pool.sqrt_price, sqrt_price_before);
    assert!(s.pool.sqrt_price > sqrt_price_before); // Price increases when buying SOL
}

#[test]
fn remove_liquidity() {
    let mut s = setup_clmm();
    run_initialize(&mut s);
    let owner = s.owner;
    run_add(&mut s.pool, &owner, -20, 20, 5000).expect("Add liquidity failed");

    let position_before = *s.pool.get_position(&owner).unwrap();
    let liquidity_to_remove = position_before.liquidity / 2;

    assert!(can_remove_liquidity(&s.pool, &owner, liquidity_to_remove));
    remove_liquidity_ix(&mut s.pool, &owner, liquidity_to_remove).expect("Remove liquidity ix failed");

    let position_after = s.pool.get_position(&owner).unwrap();
    assert_eq!(
        position_after.liquidity,
        position_before.liquidity - liquidity_to_remove
    );
}

#[test]
fn test_max_positions() {
    let mut s = setup_clmm();
    run_initialize(&mut s);

    for i in 0..10 {
        let user = key(100 + i as u8);
        run_add(&mut s.pool, &user, -10 + i, 10 + i, 100)
            .unwrap_or_else(|e| panic!("Failed to add position {}: {:#?}", i, e));
    }

    assert_eq!(s.pool.positions_count, 10);

    let user11 = key(200);
    let result = run_add(&mut s.pool, &user11, -5, 5, 100);
    assert!(result.is_err(), "Should fail when adding 11th position");
    assert_eq!(result, Err(ProgramError::InvalidInstructionData));
}

#[test]
fn debug_layout() {
    println!("Position size: {}", std::mem::size_of::<Position>());
    println!("Pool size: {}", std::mem::size_of::<Pool>());
    println!("Slots: {}, tick entries: {}", MAX_POSITIONS, MAX_TICKS);
    assert_eq!(MAX_POSITIONS, 10);
    assert_eq!(MAX_TICKS, 201);
}

// ---------------------------------------------------------------------------
// Edge cases and errors of the instruction handlers
// ---------------------------------------------------------------------------

#[test]
fn pool_account_checks() {
    assert_eq!(check_pool_account(false, POOL_LEN, POOL_LEN), Err(ProgramError::InvalidAccountData));
    assert_eq!(check_pool_account(false, 0, POOL_LEN), Err(ProgramError::InvalidAccountData));
    assert_eq!(check_pool_account(true, POOL_LEN - 1, POOL_LEN), Err(ProgramError::AccountDataTooSmall));
    assert_eq!(check_pool_account(true, POOL_LEN + 10, POOL_LEN), Ok(()));
}

#[test]
fn add_liquidity_rejects_bad_ranges() {
    let mut s = setup_clmm();
    run_initialize(&mut s);
    let owner = s.owner;
    let before = s.pool;
    let invalid = Err(ProgramError::Custom(1));
    assert_eq!(run_add(&mut s.pool, &owner, 10, 10, 1000), invalid);
    assert_eq!(run_add(&mut s.pool, &owner, 10, -10, 1000), invalid);
    assert_eq!(run_add(&mut s.pool, &owner, -101, 10, 1000), invalid);
    assert_eq!(run_add(&mut s.pool, &owner, -10, 101, 1000), invalid);
    assert_eq!(s.pool.positions_count, before.positions_count);
    assert_eq!(s.pool.liquidity, before.liquidity);
    assert_eq!(s.pool.ticks, before.ticks);
}

#[test]
fn add_liquidity_overflow_is_math_overflow() {
    let mut s = setup_clmm();
    run_initialize(&mut s);
    let owner = s.owner;
    // amount * sqrt_lower exceeds 128 bits when the lower price is above 1.0.
    assert_eq!(run_add(&mut s.pool, &owner, 1, 2, u64::MAX), Err(ProgramError::Custom(2)));
    assert_eq!(s.pool.positions_count, 0);
}

#[test]
fn add_liquidity_exact_values() {
    let mut s = setup_clmm();
    run_initialize(&mut s);
    let owner = s.owner;
    run_add(&mut s.pool, &owner, -10, 10, 1000).unwrap();
    // L = amount * sqrt_lower / diff * (sqrt_upper >> 32) >> 32
    let sl: u128 = (1u128 << 64) - 10 * SQRT_PRICE_STEP;
    let su: u128 = (1u128 << 64) + 10 * SQRT_PRICE_STEP;
    let step2 = 1000u128 * sl / (su - sl);
    let expected = (step2 * (su >> 32)) >> 32;
    assert!(expected > 0);
    let position = s.pool.get_position(&owner).unwrap();
    assert_eq!(position.liquidity, expected);
    assert_eq!(s.pool.liquidity, expected);
    assert_eq!(s.pool.ticks[90], expected as i128);
    assert_eq!(s.pool.ticks[110], -(expected as i128));
    assert_eq!(s.pool.ticks[100], 0);
}

#[test]
fn buy_sol_without_liquidity_fails() {
    let mut s = setup_clmm();
    run_initialize(&mut s);
    assert_eq!(buy_sol_ix(&mut s.pool, 100), Err(ProgramError::Custom(0)));
    assert_eq!(s.pool.sqrt_price, 1u128 << 64);
}

#[test]
fn buy_sol_moves_price_and_tick() {
    let mut s = setup_clmm();
    run_initialize(&mut s);
    let owner = s.owner;
    run_add(&mut s.pool, &owner, -50, 50, 10_000).unwrap();
    let l = s.pool.liquidity;
    assert!(can_buy_sol(&s.pool, 1_000_000));
    buy_sol_ix(&mut s.pool, 1_000_000).unwrap();
    let expected_price = (1u128 << 64) + ((1_000_000u128 << 64) / l);
    assert_eq!(s.pool.sqrt_price, expected_price);
    let expected_tick = ((expected_price - (1u128 << 64)) / SQRT_PRICE_STEP).min(100) as i32;
    assert_eq!(s.pool.tick_current, expected_tick);
    // Past the upper end at tick 50 the range no longer holds the price.
    let expected_liquidity = if expected_tick >= 50 { 0 } else { l };
    assert_eq!(s.pool.liquidity, expected_liquidity);
}

#[test]
fn buy_sol_far_above_clamps_to_top_tick() {
    // The step count 2^32 + 5 is clamped before it is narrowed to 32 bits.
    let mut pool = Pool::zeroed();
    pool.sqrt_price = (1u128 << 64) + SQRT_PRICE_STEP * ((1u128 << 32) + 5);
    pool.liquidity = 1;
    assert!(can_buy_sol(&pool, 0));
    buy_sol_ix(&mut pool, 0).unwrap();
    assert_eq!(pool.tick_current, 100);
    assert_eq!(pool.liquidity, 1);
}

#[test]
fn tick_at_sqrt_price_values() {
    let q = 1u128 << 64;
    assert_eq!(tick_at_sqrt_price(q), 0);
    let step = SQRT_PRICE_STEP;
    assert_eq!(tick_at_sqrt_price(q + step - 1), 0);
    assert_eq!(tick_at_sqrt_price(q + step), 1);
    assert_eq!(tick_at_sqrt_price(q + step * 100), 100);
    assert_eq!(tick_at_sqrt_price(q + step * 101), 100);
    assert_eq!(tick_at_sqrt_price(u128::MAX), 100);
    assert_eq!(tick_at_sqrt_price(q - 1), 0);
    assert_eq!(tick_at_sqrt_price(q - step), -1);
    assert_eq!(tick_at_sqrt_price(q - step * 100), -100);
    assert_eq!(tick_at_sqrt_price(0), -100);
}

#[test]
fn remove_liquidity_errors() {
    let mut s = setup_clmm();
    run_initialize(&mut s);
    let owner = s.owner;
    let trader = s.trader;
    assert_eq!(remove_liquidity_ix(&mut s.pool, &owner, 1), Err(ProgramError::Custom(3)));
    run_add(&mut s.pool, &owner, -20, 20, 5000).unwrap();
    let l = s.pool.get_position(&owner).unwrap().liquidity;
    assert_eq!(remove_liquidity_ix(&mut s.pool, &owner, l + 1), Err(ProgramError::Custom(4)));
    assert_eq!(remove_liquidity_ix(&mut s.pool, &trader, 1), Err(ProgramError::Custom(3)));
    assert_eq!(s.pool.get_position(&owner).unwrap().liquidity, l);
}

#[test]
fn remove_all_liquidity_frees_the_slot() {
    let mut s = setup_clmm();
    run_initialize(&mut s);
    let owner = s.owner;
    run_add(&mut s.pool, &owner, -20, 20, 5000).unwrap();
    let l = s.pool.get_position(&owner).unwrap().liquidity;
    assert!(can_remove_liquidity(&s.pool, &owner, l));
    remove_liquidity_ix(&mut s.pool, &owner, l).unwrap();
    assert!(s.pool.get_position(&owner).is_none());
    assert_eq!(s.pool.positions_count, 0);
    assert_eq!(s.pool.liquidity, 0);
    assert!(s.pool.ticks.iter().all(|t| *t == 0));
    assert!(!s.pool.positions[0].is_active());
}

#[test]
fn instruction_values() {
    let ix = ClmmInstruction::AddLiquidity { tick_lower: -10, tick_upper: 10, usdc_amount: 1000 };
    match ix {
        ClmmInstruction::AddLiquidity { tick_lower, tick_upper, usdc_amount } => {
            assert_eq!((tick_lower, tick_upper, usdc_amount), (-10, 10, 1000));
        }
        _ => panic!("wrong variant"),
    }
}

#[test]
fn error_codes() {
    assert_eq!(ClmmError::PoolNotInitialized.code(), 0);
    assert_eq!(ClmmError::InvalidTickRange.code(), 1);
    assert_eq!(ClmmError::MathOverflow.code(), 2);
    assert_eq!(ClmmError::PositionNotFound.code(), 3);
    assert_eq!(ClmmError::InsufficientLiquidity.code(), 4);
    assert_eq!(ProgramError::from(ClmmError::InsufficientLiquidity), ProgramError::Custom(4));
}
