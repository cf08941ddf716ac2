use vstd::prelude::*;
use vstd::arithmetic::div_mod::{
    lemma_div_is_ordered, lemma_div_is_ordered_by_denominator, lemma_fundamental_div_mod,
};
use vstd::arithmetic::mul::lemma_mul_inequality;

use crate::error::{spec_error_code, ClmmError, ProgramError};
use crate::key::Pubkey;
use crate::math::{
    get_next_sqrt_price_buy_sol, get_sqrt_price_at_tick, next_sqrt_price_buy_sol,
    spec_sqrt_price_at_tick, tick_in_range, MAX_TICK, MIN_TICK, Q64, SQRT_PRICE_STEP,
};
use crate::state::{
    active_weight, add_liquidity_result, clamp, clamp_tick, cross_ticks, first_owned_from,
    liquidity_after_crossing, fits_i128, in_range_weight,
    law_liquidity_is_tick_prefix_sum, lemma_first_owned_at, lemma_first_owned_from,
    lemma_first_owned_same_suffix, lemma_first_owned_skip, lemma_sum_over_update, owned_by,
    position_of, q32, sum_over, tick_index, tick_net_weight, tick_prefix_sum, Pool, Position,
    MAX_POSITIONS, MAX_TICKS,
};

verus! {

/// The instructions of the program.
#[derive(Debug, Clone, Copy)]
pub enum ClmmInstruction {
    InitializePool {
        token_0_mint: Pubkey,
        token_1_mint: Pubkey,
        token_0_vault: Pubkey,
        token_1_vault: Pubkey,
    },
    AddLiquidity { tick_lower: i32, tick_upper: i32, usdc_amount: u64 },
    BuySol { usdc_amount: u64 },
    RemoveLiquidity { liquidity: u128 },
}

/// The error an instruction fails with for a failure of this program.
pub open spec fn custom(e: ClmmError) -> ProgramError {
    ProgramError::Custom(spec_error_code(e))
}

/// Checks the pool account before its data is read: it must be writable
/// and hold at least `pool_len` bytes.
pub fn check_pool_account(is_writable: bool, data_len: usize, pool_len: usize) -> (r: Result<
    (),
    ProgramError,
>)
    ensures
        !is_writable ==> r == Err::<(), ProgramError>(ProgramError::InvalidAccountData),
        is_writable && data_len < pool_len ==> r == Err::<(), ProgramError>(
            ProgramError::AccountDataTooSmall,
        ),
        is_writable && data_len >= pool_len ==> r is Ok,
{
    if !is_writable {
        return Err(ProgramError::InvalidAccountData);
    }
    if data_len < pool_len {
        return Err(ProgramError::AccountDataTooSmall);
    }
    Ok(())
}

/// Sets up the pool, with `payer` as its creator.
pub fn initialize_pool(
    pool: &mut Pool,
    payer: &Pubkey,
    token_0_mint: Pubkey,
    token_1_mint: Pubkey,
    token_0_vault: Pubkey,
    token_1_vault: Pubkey,
) -> (r: Result<(), ProgramError>)
    ensures
        r is Ok,
        final(pool).token_0_mint == token_0_mint,
        final(pool).token_1_mint == token_1_mint,
        final(pool).token_0_vault == token_0_vault,
        final(pool).token_1_vault == token_1_vault,
        final(pool).creator == *payer,
        final(pool).sqrt_price == Q64,
        final(pool).liquidity == 0,
        final(pool).tick_current == 0,
        final(pool).fee_bps == 0,
        final(pool).positions_count == 0,
        final(pool).ticks == old(pool).ticks,
        final(pool).positions == old(pool).positions,
        old(pool).no_positions() ==> final(pool).count_consistent()
            && final(pool).liquidity_consistent(),
        old(pool).positions_valid() ==> final(pool).positions_valid(),
        old(pool).ticks_consistent() ==> final(pool).ticks_consistent(),
{
    pool.initialize(token_0_mint, token_1_mint, token_0_vault, token_1_vault, *payer);
    Ok(())
}


/// The range `tick_lower .. tick_upper` is non-empty and inside the tick
/// table.
pub open spec fn valid_tick_range(tick_lower: int, tick_upper: int) -> bool {
    tick_lower < tick_upper && tick_lower >= MIN_TICK && tick_upper <= MAX_TICK
}

/// A range is accepted exactly when it is non-empty and both of its ends lie
/// in the tick table; its width is not limited otherwise.
pub proof fn law_valid_tick_range(tick_lower: int, tick_upper: int)
    ensures
        valid_tick_range(tick_lower, tick_upper) <==> (MIN_TICK <= tick_lower && tick_lower
            < tick_upper && tick_upper <= MAX_TICK),
{
}

/// The liquidity that `usdc_amount` buys over `tick_lower .. tick_upper`:
/// `L = amount * sqrt_lower * sqrt_upper / (sqrt_upper - sqrt_lower) / 2^64`,
/// computed as `amount * sqrt_lower / diff`, times `sqrt_upper / 2^32`,
/// over 2^32; `None` when a product does not fit in 128 bits.
pub open spec fn liquidity_for_amount(tick_lower: int, tick_upper: int, usdc_amount: int) -> Option<
    u128,
> {
    let sl = spec_sqrt_price_at_tick(tick_lower);
    let su = spec_sqrt_price_at_tick(tick_upper);
    let step1 = usdc_amount * sl;
    let step2 = step1 / (su - sl);
    let product = step2 * (su / q32());
    if step1 > u128::MAX || product > u128::MAX {
        None
    } else {
        Some((product / q32()) as u128)
    }
}

/// The liquidity computed for a valid range is below 2^127, so it is also a
/// valid `i128`.
pub proof fn lemma_liquidity_for_amount_bound(tick_lower: int, tick_upper: int, usdc_amount: int)
    requires
        valid_tick_range(tick_lower, tick_upper),
        0 <= usdc_amount,
        liquidity_for_amount(tick_lower, tick_upper, usdc_amount) is Some,
    ensures
        liquidity_for_amount(tick_lower, tick_upper, usdc_amount)->0 <= i128::MAX,
{
    let sl = spec_sqrt_price_at_tick(tick_lower);
    let su = spec_sqrt_price_at_tick(tick_upper);
    let step = SQRT_PRICE_STEP as int;
    let step1 = usdc_amount * sl;
    let step2 = step1 / (su - sl);
    let b = su / q32();
    let product = step2 * b;
    let l = product / q32();
    assert(step1 >= 0) by (nonlinear_arith)
        requires
            step1 == usdc_amount * sl,
            usdc_amount >= 0,
            sl >= 0,
    ;
    lemma_div_is_ordered_by_denominator(step1, step, su - sl);
    lemma_div_is_ordered(step1, u128::MAX as int, step);
    assert(step2 <= (u128::MAX as int) / step);
    lemma_div_is_ordered(su, 2 * q32() * q32(), q32());
    assert(b <= 2 * q32()) by (nonlinear_arith)
        requires
            b <= (2 * q32() * q32()) / q32(),
            q32() == 0x1_0000_0000,
    ;
    assert(step2 >= 0);
    lemma_mul_inequality(b, 2 * q32(), step2);
    assert(product <= step2 * (2 * q32())) by (nonlinear_arith)
        requires
            product == step2 * b,
            b * step2 <= (2 * q32()) * step2,
    ;
    lemma_div_is_ordered(product, step2 * (2 * q32()), q32());
    assert((step2 * (2 * q32())) / q32() == 2 * step2) by (nonlinear_arith)
        requires
            q32() == 0x1_0000_0000,
    ;
}

/// The liquidity bought is `amount * P(lower) * P(upper) / ((P(upper) -
/// P(lower)) * 2^64)`, with `P` the square-root price at a tick, rounded
/// down: it never exceeds that value, and it falls short of it by less than
/// the error of the three roundings (below 2 plus the value over 2^32).
/// It depends only on the prices at the range's two ends.
pub proof fn law_liquidity_matches_formula(tick_lower: int, tick_upper: int, usdc_amount: int)
    requires
        MIN_TICK <= tick_lower < tick_upper <= MAX_TICK,
        0 <= usdc_amount <= u64::MAX,
        liquidity_for_amount(tick_lower, tick_upper, usdc_amount) is Some,
    ensures
        ({
            let pl = spec_sqrt_price_at_tick(tick_lower);
            let pu = spec_sqrt_price_at_tick(tick_upper);
            let l = liquidity_for_amount(tick_lower, tick_upper, usdc_amount)->0 as int;
            &&& l * ((pu - pl) * Q64) <= usdc_amount * pl * pu
            &&& usdc_amount * pl * pu < (l + 1) * ((pu - pl) * Q64) + usdc_amount * pl
                * 0x1_0000_0000 + (pu - pl) * pu
        }),
{
    let q: int = 0x1_0000_0000;
    let pl = spec_sqrt_price_at_tick(tick_lower);
    let pu = spec_sqrt_price_at_tick(tick_upper);
    let d = pu - pl;
    let a = usdc_amount;
    let big_a = a * pl;
    let s2 = big_a / d;
    let b = pu / q;
    let prod = s2 * b;
    let l = prod / q;
    assert(q == q32());
    assert(Q64 == q * q);
    assert(d > 0 && pl > 0 && pu > q);
    assert(big_a >= 0) by (nonlinear_arith)
        requires
            big_a == a * pl,
            a >= 0,
            pl > 0,
    ;
    lemma_fundamental_div_mod(big_a, d);
    lemma_fundamental_div_mod(pu, q);
    assert(s2 >= 0 && b >= 0) by (nonlinear_arith)
        requires
            s2 == big_a / d,
            b == pu / q,
            big_a >= 0,
            d > 0,
            pu > 0,
            q > 0,
    ;
    assert(prod >= 0) by (nonlinear_arith)
        requires
            prod == s2 * b,
            s2 >= 0,
            b >= 0,
    ;
    lemma_fundamental_div_mod(prod, q);
    // The three roundings.
    assert(d * s2 <= big_a && big_a < d * s2 + d);
    assert(q * b <= pu && pu < q * b + q);
    assert(q * l <= prod && prod < q * l + q);
    assert(l >= 0) by (nonlinear_arith)
        requires
            l == prod / q,
            prod >= 0,
            q > 0,
    ;
    // Not above the exact value.
    assert(l * (d * (q * q)) <= big_a * pu) by (nonlinear_arith)
        requires
            q * l <= s2 * b,
            d * s2 <= big_a,
            q * b <= pu,
            l >= 0,
            s2 >= 0,
            b >= 0,
            d > 0,
            q > 0,
            big_a >= 0,
    {
        assert(l * q * (d * q) <= s2 * b * (d * q));
        assert(s2 * b * (d * q) == (d * s2) * (q * b));
        assert((d * s2) * (q * b) <= big_a * (q * b));
        assert(big_a * (q * b) <= big_a * pu);
    }
    // Not below it by more than the roundings.
    assert(big_a * pu < (l + 1) * (d * (q * q)) + big_a * q + d * pu) by (nonlinear_arith)
        requires
            q * l + q > s2 * b,
            d * s2 + d > big_a,
            q * b + q > pu,
            l >= 0,
            s2 >= 0,
            b >= 0,
            d > 0,
            q > 0,
            pu > q,
            big_a >= 0,
    {
        if big_a < d {
            assert(big_a * pu < d * pu);
            assert((l + 1) * (d * (q * q)) >= 0);
        } else {
            assert(d * s2 >= big_a - d + 1);
            assert(q * b >= pu - q + 1);
            assert((l + 1) * q * (d * q) > s2 * b * (d * q));
            assert(s2 * b * (d * q) == (d * s2) * (q * b));
            assert((d * s2) * (q * b) >= (big_a - d + 1) * (q * b));
            assert((big_a - d + 1) * (q * b) >= (big_a - d + 1) * (pu - q + 1));
            assert((big_a - d + 1) * (pu - q + 1) >= (big_a - d) * (pu - q));
        }
    }
    assert(a * pl * pu == big_a * pu);
    assert(a * pl * q == big_a * q);
}

/// Recording the liquidity bought by `usdc_amount` in `pool` does not
/// overflow (the inputs on which the handler runs to completion).
pub open spec fn add_liquidity_in_bounds(
    pool: Pool,
    tick_lower: i32,
    tick_upper: i32,
    usdc_amount: u64,
) -> bool {
    valid_tick_range(tick_lower as int, tick_upper as int) ==> match liquidity_for_amount(
        tick_lower as int,
        tick_upper as int,
        usdc_amount as int,
    ) {
        Some(l) => add_liquidity_result(
            pool.positions_count as int,
            tick_lower as int,
            tick_upper as int,
            l as int,
        ) is Ok ==> pool.add_fits(tick_lower as int, tick_upper as int, l),
        None => true,
    }
}

/// Adds liquidity for `user` over `tick_lower .. tick_upper`, worth
/// `usdc_amount` of the quote token.
pub fn add_liquidity(pool: &mut Pool, user: &Pubkey, tick_lower: i32, tick_upper: i32, usdc_amount: u64) -> (r:
    Result<(), ProgramError>)
    requires
        add_liquidity_in_bounds(*old(pool), tick_lower, tick_upper, usdc_amount),
    ensures
        !valid_tick_range(tick_lower as int, tick_upper as int) ==> r == Err::<(), ProgramError>(
            custom(ClmmError::InvalidTickRange),
        ),
        (r == Err::<(), ProgramError>(custom(ClmmError::InvalidTickRange))) <==> !(MIN_TICK
            <= tick_lower && tick_lower < tick_upper && tick_upper <= MAX_TICK),
        valid_tick_range(tick_lower as int, tick_upper as int) ==> match liquidity_for_amount(
            tick_lower as int,
            tick_upper as int,
            usdc_amount as int,
        ) {
            None => r == Err::<(), ProgramError>(custom(ClmmError::MathOverflow)),
            Some(l) => if add_liquidity_result(
                old(pool).positions_count as int,
                tick_lower as int,
                tick_upper as int,
                l as int,
            ) is Ok {
                &&& r is Ok
                &&& final(pool).records_add(*old(pool), *user, tick_lower, tick_upper, l)
            } else {
                r == Err::<(), ProgramError>(ProgramError::InvalidInstructionData)
            },
        },
        r is Err ==> *final(pool) == *old(pool),
        old(pool).count_consistent() ==> final(pool).count_consistent(),
        old(pool).positions_valid() ==> final(pool).positions_valid(),
        old(pool).count_consistent() && old(pool).ticks_consistent()
            ==> final(pool).ticks_consistent(),
        old(pool).count_consistent() && old(pool).liquidity_consistent()
            ==> final(pool).liquidity_consistent(),
        old(pool).count_consistent() && old(pool).positions_valid() && old(pool).ticks_consistent()
            && old(pool).liquidity_consistent() && tick_in_range(old(pool).tick_current as int)
            ==> final(pool).liquidity as int == tick_prefix_sum(
            final(pool).ticks@,
            tick_index(final(pool).tick_current as int) + 1,
        ),
{
    proof {
        if old(pool).positions_valid() && old(pool).ticks_consistent()
            && old(pool).liquidity_consistent() && tick_in_range(old(pool).tick_current as int) {
            law_liquidity_is_tick_prefix_sum(*old(pool));
        }
    }
    if tick_lower >= tick_upper || tick_lower < -100 || tick_upper > 100 {
        return Err(ProgramError::from(ClmmError::InvalidTickRange));
    }
    let sqrt_lower = match get_sqrt_price_at_tick(tick_lower) {
        Ok(p) => p,
        Err(_) => return Err(ProgramError::InvalidInstructionData),
    };
    let sqrt_upper = match get_sqrt_price_at_tick(tick_upper) {
        Ok(p) => p,
        Err(_) => return Err(ProgramError::InvalidInstructionData),
    };
    let diff = match sqrt_upper.checked_sub(sqrt_lower) {
        Some(d) => d,
        None => return Err(ProgramError::from(ClmmError::MathOverflow)),
    };

    // L = amount * sqrt_lower / diff * sqrt_upper / 2^64: divide by the
    // difference before the last product, and take the 2^64 in two halves of
    // 2^32 (one from sqrt_upper before the product, one after) to stay in
    // 128 bits without losing the quotient.
    let step1 = match (usdc_amount as u128).checked_mul(sqrt_lower) {
        Some(v) => v,
        None => return Err(ProgramError::from(ClmmError::MathOverflow)),
    };
    let step2 = step1 / diff;
    proof {
        assert(sqrt_upper >> 32u32 == sqrt_upper / 0x1_0000_0000) by (bit_vector);
    }
    let product = match step2.checked_mul(sqrt_upper >> 32u32) {
        Some(v) => v,
        None => return Err(ProgramError::from(ClmmError::MathOverflow)),
    };
    proof {
        assert(product >> 32u32 == product / 0x1_0000_0000) by (bit_vector);
    }
    let liquidity = product >> 32u32;
    proof {
        lemma_liquidity_for_amount_bound(tick_lower as int, tick_upper as int, usdc_amount as int);
    }

    match pool.add_liquidity(*user, tick_lower, tick_upper, liquidity) {
        Ok(_usdc_needed) => {
            proof {
                if old(pool).count_consistent() && old(pool).positions_valid()
                    && old(pool).ticks_consistent() && old(pool).liquidity_consistent()
                    && tick_in_range(old(pool).tick_current as int) {
                    law_liquidity_is_tick_prefix_sum(*pool);
                }
            }
            Ok(())
        },
        Err(_) => Err(ProgramError::InvalidInstructionData),
    }
}


/// The tick that the square-root price `p` falls on: its distance from
/// `Q64` in whole steps of `SQRT_PRICE_STEP`, negative below `Q64`, clamped
/// to the tick table.
pub open spec fn tick_for_sqrt_price(p: int) -> int {
    if p >= Q64 {
        let steps = (p - Q64) / (SQRT_PRICE_STEP as int);
        if steps > MAX_TICK {
            MAX_TICK as int
        } else {
            steps
        }
    } else {
        let steps = (Q64 - p) / (SQRT_PRICE_STEP as int);
        if steps > -MIN_TICK {
            MIN_TICK as int
        } else {
            -steps
        }
    }
}

/// The square-root price after a purchase with `usdc_amount`, or why the
/// purchase fails.
pub open spec fn buy_sol_price(pool: Pool, usdc_amount: u64) -> Result<u128, ProgramError> {
    if pool.liquidity == 0 {
        Err(custom(ClmmError::PoolNotInitialized))
    } else {
        match next_sqrt_price_buy_sol(
            pool.sqrt_price as int,
            pool.liquidity as int,
            usdc_amount as int,
        ) {
            Ok(p) => Ok(p),
            Err(_) => Err(ProgramError::InvalidInstructionData),
        }
    }
}

/// A purchase runs to completion: the pool's liquidity stays a valid
/// `u128` at every tick crossed on the way to the new tick.
pub open spec fn buy_sol_in_bounds(pool: Pool, usdc_amount: u64) -> bool {
    buy_sol_price(pool, usdc_amount) matches Ok(p) ==> {
        let t = tick_for_sqrt_price(p as int);
        t != pool.tick_current ==> pool.crossing_to_fits(t)
    }
}

/// The tick after a purchase is the one whose price bracket holds the new
/// price: at or above 1.0 the highest tick whose price does not exceed it,
/// below 1.0 the lowest tick whose price is not below it (the step count
/// rounds toward 1.0); prices beyond the ends of the tick table land on the
/// end ticks.
pub proof fn law_tick_brackets_price(p: int)
    ensures
        MIN_TICK <= tick_for_sqrt_price(p) <= MAX_TICK,
        Q64 <= p < spec_sqrt_price_at_tick(MAX_TICK + 1) ==> spec_sqrt_price_at_tick(
            tick_for_sqrt_price(p),
        ) <= p < spec_sqrt_price_at_tick(tick_for_sqrt_price(p) + 1),
        spec_sqrt_price_at_tick(MIN_TICK - 1) < p < Q64 ==> spec_sqrt_price_at_tick(
            tick_for_sqrt_price(p) - 1,
        ) < p <= spec_sqrt_price_at_tick(tick_for_sqrt_price(p)),
        p >= spec_sqrt_price_at_tick(MAX_TICK as int) ==> tick_for_sqrt_price(p) == MAX_TICK,
        p <= spec_sqrt_price_at_tick(MIN_TICK as int) ==> tick_for_sqrt_price(p) == MIN_TICK,
{
    let step = SQRT_PRICE_STEP as int;
    if p >= Q64 {
        lemma_fundamental_div_mod(p - Q64, step);
    } else {
        lemma_fundamental_div_mod(Q64 - p, step);
    }
}

/// The tick that the square-root price `sqrt_price` falls on:
/// new tick = (sqrt_price - Q64) / SQRT_PRICE_STEP, clamped to the tick
/// table. The step count is clamped while still a `u128`, so it is never
/// cut down to 32 bits.
pub fn tick_at_sqrt_price(sqrt_price: u128) -> (r: i32)
    ensures
        r as int == tick_for_sqrt_price(sqrt_price as int),
        tick_in_range(r as int),
{
    if sqrt_price >= Q64 {
        let steps = (sqrt_price - Q64) / SQRT_PRICE_STEP;
        if steps > MAX_TICK as u128 {
            MAX_TICK
        } else {
            steps as i32
        }
    } else {
        let steps = (Q64 - sqrt_price) / SQRT_PRICE_STEP;
        if steps > (-MIN_TICK) as u128 {
            MIN_TICK
        } else {
            -(steps as i32)
        }
    }
}

/// Buys SOL with `usdc_amount` of the quote token: raises the square-root
/// price by `amount / liquidity` and moves the current tick to the one the
/// new price falls on (clamped to the tick table), updating the pool's
/// liquidity by the net entries of the ticks crossed.
pub fn buy_sol(pool: &mut Pool, usdc_amount: u64) -> (r: Result<(), ProgramError>)
    requires
        buy_sol_in_bounds(*old(pool), usdc_amount),
    ensures
        buy_sol_price(*old(pool), usdc_amount) matches Err(e) ==> r == Err::<(), ProgramError>(e)
            && *final(pool) == *old(pool),
        buy_sol_price(*old(pool), usdc_amount) matches Ok(p) ==> {
            let t = tick_for_sqrt_price(p as int);
            &&& r is Ok
            &&& final(pool).sqrt_price == p
            &&& t == old(pool).tick_current ==> final(pool).tick_current == old(pool).tick_current
                && final(pool).liquidity == old(pool).liquidity
            &&& t != old(pool).tick_current ==> final(pool).tick_current == t
                && final(pool).liquidity == liquidity_after_crossing(
                old(pool).liquidity as int,
                old(pool).ticks@,
                clamp_tick(old(pool).tick_current as int),
                t,
            )
            &&& final(pool).same_accounts(*old(pool))
            &&& final(pool).positions_count == old(pool).positions_count
            &&& final(pool).ticks == old(pool).ticks
            &&& final(pool).positions == old(pool).positions
        },
        final(pool).sqrt_price >= old(pool).sqrt_price,
        old(pool).count_consistent() ==> final(pool).count_consistent(),
        old(pool).positions_valid() ==> final(pool).positions_valid(),
        old(pool).ticks_consistent() ==> final(pool).ticks_consistent(),
        old(pool).positions_valid() && old(pool).ticks_consistent()
            && old(pool).liquidity_consistent() && tick_in_range(old(pool).tick_current as int)
            ==> final(pool).liquidity_consistent() && final(pool).liquidity as int
            == tick_prefix_sum(final(pool).ticks@, tick_index(final(pool).tick_current as int) + 1),
{
    proof {
        if old(pool).positions_valid() && old(pool).ticks_consistent()
            && old(pool).liquidity_consistent() && tick_in_range(old(pool).tick_current as int) {
            law_liquidity_is_tick_prefix_sum(*old(pool));
        }
    }
    if pool.liquidity == 0 {
        return Err(ProgramError::from(ClmmError::PoolNotInitialized));
    }
    let new_sqrt_price = match get_next_sqrt_price_buy_sol(
        pool.sqrt_price,
        pool.liquidity,
        usdc_amount,
    ) {
        Ok(p) => p,
        Err(_) => return Err(ProgramError::InvalidInstructionData),
    };

    pool.sqrt_price = new_sqrt_price;

    let new_tick = tick_at_sqrt_price(new_sqrt_price);
    pool.update_tick_if_crossed(new_tick);
    proof {
        if old(pool).positions_valid() && old(pool).ticks_consistent()
            && old(pool).liquidity_consistent() && tick_in_range(old(pool).tick_current as int) {
            law_liquidity_is_tick_prefix_sum(*pool);
        }
    }
    Ok(())
}

/// The tick table after `liquidity` is taken out of a position over
/// `tick_lower .. tick_upper`: minus it at the lower end, then plus it at
/// the upper end.
pub open spec fn ticks_after_remove(ticks: Seq<i128>, tick_lower: int, tick_upper: int, liquidity: u128) -> Seq<i128> {
    let li = tick_index(tick_lower);
    let ui = tick_index(tick_upper);
    let l = (liquidity as i128) as int;
    let t1 = ticks.update(li, (ticks[li] - l) as i128);
    t1.update(ui, (t1[ui] + l) as i128)
}

/// Taking `liquidity` out of the owner's position runs to completion: the
/// position's ends index the tick table, the pool's liquidity covers it when
/// the range holds the current tick, the tick entries do not overflow, and an
/// emptied position is counted.
pub open spec fn remove_liquidity_in_bounds(pool: Pool, user: Pubkey, liquidity: u128) -> bool {
    position_of(pool.positions@, user) matches Some(k) ==> {
        let p = pool.positions@[k];
        let x = (liquidity as i128) as int;
        let li = tick_index(p.tick_lower as int);
        let ui = tick_index(p.tick_upper as int);
        let first = pool.ticks@[li] - x;
        let second = (if ui == li {
            first
        } else {
            pool.ticks@[ui] as int
        }) + x;
        p.liquidity >= liquidity ==> {
            &&& tick_in_range(p.tick_lower as int)
            &&& tick_in_range(p.tick_upper as int)
            &&& (p.tick_lower <= pool.tick_current && pool.tick_current < p.tick_upper)
                ==> pool.liquidity >= liquidity
            &&& fits_i128(first)
            &&& fits_i128(second)
            &&& p.liquidity == liquidity ==> pool.positions_count > 0
        }
    }
}

/// `new` is `old` after `liquidity` was taken out of the position in slot
/// `k`: the tick table updated at both ends, the pool's liquidity lowered
/// when the range holds the current tick, and the position's liquidity
/// lowered, or the slot freed and one position less counted when none is
/// left.
pub open spec fn records_remove(new: Pool, old: Pool, k: int, liquidity: u128) -> bool {
    let p = old.positions@[k];
    &&& new.ticks@ == ticks_after_remove(
        old.ticks@,
        p.tick_lower as int,
        p.tick_upper as int,
        liquidity,
    )
    &&& new.liquidity == if p.tick_lower <= old.tick_current && old.tick_current < p.tick_upper {
        (old.liquidity - liquidity) as u128
    } else {
        old.liquidity
    }
    &&& p.liquidity == liquidity ==> {
        &&& new.positions@ == old.positions@.update(k, new.positions@[k])
        &&& new.positions@[k].is_empty()
        &&& new.positions_count == old.positions_count - 1
    }
    &&& p.liquidity != liquidity ==> {
        &&& new.positions@ == old.positions@.update(
            k,
            Position { liquidity: (p.liquidity - liquidity) as u128, ..p },
        )
        &&& new.positions_count == old.positions_count
    }
    &&& new.same_accounts(old)
    &&& new.sqrt_price == old.sqrt_price
    &&& new.tick_current == old.tick_current
}

/// After liquidity is taken out of the position that a lookup by `owner`
/// finds, the lookup finds the same slot with that much less liquidity;
/// once all of it is taken out, the lookup finds the owner's next position
/// after that slot, and nothing if the owner had no other.
pub proof fn law_lookup_after_remove(old: Pool, new: Pool, owner: Pubkey, k: int, liquidity: u128)
    requires
        position_of(old.positions@, owner) == Some(k),
        old.positions@[k].liquidity >= liquidity,
        records_remove(new, old, k, liquidity),
    ensures
        old.positions@[k].liquidity > liquidity ==> position_of(new.positions@, owner) == Some(k)
            && new.positions@[k].liquidity == old.positions@[k].liquidity - liquidity,
        old.positions@[k].liquidity == liquidity ==> position_of(new.positions@, owner)
            == first_owned_from(old.positions@, owner, (k + 1) as nat),
        old.positions@[k].liquidity == liquidity && (forall|j: int|
            0 <= j < old.positions@.len() && j != k ==> !owned_by(
                #[trigger] old.positions@[j],
                owner,
            )) ==> position_of(new.positions@, owner) is None,
{
    lemma_first_owned_from(old.positions@, owner, 0);
    assert forall|j: int| 0 <= j < k implies !owned_by(#[trigger] new.positions@[j], owner) by {
        assert(new.positions@[j] == old.positions@[j]);
    }
    if old.positions@[k].liquidity > liquidity {
        lemma_first_owned_at(new.positions@, owner, 0, k);
    } else {
        lemma_first_owned_skip(new.positions@, owner, 0, (k + 1) as nat);
        lemma_first_owned_same_suffix(new.positions@, old.positions@, owner, (k + 1) as nat);
        lemma_first_owned_from(old.positions@, owner, (k + 1) as nat);
    }
}

/// Takes `liquidity` out of `user`'s position, freeing the slot when none
/// is left.
pub fn remove_liquidity(pool: &mut Pool, user: &Pubkey, liquidity: u128) -> (r: Result<
    (),
    ProgramError,
>)
    requires
        remove_liquidity_in_bounds(*old(pool), *user, liquidity),
    ensures
        position_of(old(pool).positions@, *user) is None ==> r == Err::<(), ProgramError>(
            custom(ClmmError::PositionNotFound),
        ),
        position_of(old(pool).positions@, *user) matches Some(k) ==> if old(pool).positions@[k].liquidity
            < liquidity {
            r == Err::<(), ProgramError>(custom(ClmmError::InsufficientLiquidity))
        } else {
            r is Ok && records_remove(*final(pool), *old(pool), k, liquidity)
        },
        r is Err ==> *final(pool) == *old(pool),
        old(pool).count_consistent() ==> final(pool).count_consistent(),
        old(pool).positions_valid() ==> final(pool).positions_valid(),
        old(pool).positions_valid() && old(pool).ticks_consistent()
            ==> final(pool).ticks_consistent(),
        old(pool).liquidity_consistent() ==> final(pool).liquidity_consistent(),
        old(pool).positions_valid() && old(pool).ticks_consistent()
            && old(pool).liquidity_consistent() && tick_in_range(old(pool).tick_current as int)
            ==> final(pool).liquidity as int == tick_prefix_sum(
            final(pool).ticks@,
            tick_index(final(pool).tick_current as int) + 1,
        ),
{
    proof {
        if old(pool).positions_valid() && old(pool).ticks_consistent()
            && old(pool).liquidity_consistent() && tick_in_range(old(pool).tick_current as int) {
            law_liquidity_is_tick_prefix_sum(*old(pool));
        }
    }
    let ghost k = position_of(old(pool).positions@, *user)->0;
    let position = match pool.get_position_mut(user) {
        Some(p) => p,
        None => return Err(ProgramError::from(ClmmError::PositionNotFound)),
    };

    // The position is only changed when it holds enough; the refusal is
    // returned once the reference is no longer in use.
    let enough = position.liquidity >= liquidity;
    if enough {
        position.liquidity = position.liquidity - liquidity;
    }
    let tick_lower = position.tick_lower;
    let tick_upper = position.tick_upper;
    let position_liquidity = position.liquidity;
    proof {
        lemma_first_owned_from(old(pool).positions@, *user, 0);
        assert(*position == *final(position));
    }

    if !enough {
        proof {
            assert(pool.positions@ =~= old(pool).positions@);
            assert(pool.positions =~= old(pool).positions);
        }
        return Err(ProgramError::from(ClmmError::InsufficientLiquidity));
    }

    if tick_lower <= pool.tick_current && pool.tick_current < tick_upper {
        pool.liquidity = pool.liquidity - liquidity;
    }

    let lower_idx = (tick_lower + 100) as usize;
    let upper_idx = (tick_upper + 100) as usize;
    pool.ticks[lower_idx] = pool.ticks[lower_idx] - liquidity as i128;
    pool.ticks[upper_idx] = pool.ticks[upper_idx] + liquidity as i128;

    proof {
        let s0 = old(pool).positions@;
        let p1 = pool.positions@[k];
        assert(pool.positions@ =~= s0.update(k, p1));
        lemma_sum_over_update(s0, k, p1, active_weight());
        lemma_sum_over_update(s0, k, p1, in_range_weight(pool.tick_current as int));
        if old(pool).positions_valid() && old(pool).ticks_consistent() {
            assert forall|i: int| 0 <= i < MAX_TICKS implies #[trigger] pool.ticks@[i] == sum_over(
                pool.positions@,
                tick_net_weight(i + MIN_TICK),
            ) by {
                lemma_sum_over_update(s0, k, p1, tick_net_weight(i + MIN_TICK));
            }
        }
        if old(pool).positions_valid() {
            assert forall|j: int|
                0 <= j < MAX_POSITIONS && (#[trigger] pool.positions@[j]).active() implies {
                &&& tick_in_range(pool.positions@[j].tick_lower as int)
                &&& tick_in_range(pool.positions@[j].tick_upper as int)
                &&& pool.positions@[j].tick_lower < pool.positions@[j].tick_upper
                &&& pool.positions@[j].liquidity <= i128::MAX
            } by {
                if j != k {
                    assert(old(pool).positions@[j] == pool.positions@[j]);
                } else {
                    assert(old(pool).positions@[j].active());
                }
            }
        }
    }

    if position_liquidity == 0 {
        proof {
            lemma_first_owned_from(old(pool).positions@, *user, 0);
            assert forall|j: int| 0 <= j < k implies !owned_by(
                #[trigger] pool.positions@[j],
                *user,
            ) by {
                assert(pool.positions@[j] == old(pool).positions@[j]);
            }
            lemma_first_owned_at(pool.positions@, *user, 0, k);
        }
        match pool.remove_position(user) {
            Ok(()) => {},
            Err(_) => return Err(ProgramError::InvalidInstructionData),
        }
        assert(pool.positions@ =~= old(pool).positions@.update(k, pool.positions@[k]));
    }
    proof {
        if old(pool).positions_valid() && old(pool).ticks_consistent()
            && old(pool).liquidity_consistent() && tick_in_range(old(pool).tick_current as int) {
            law_liquidity_is_tick_prefix_sum(*pool);
        }
    }
    Ok(())
}


/// Whether `add_liquidity` runs to completion on these inputs (its
/// precondition); where it does not, the step that overflows would abort.
pub fn can_add_liquidity(pool: &Pool, tick_lower: i32, tick_upper: i32, usdc_amount: u64) -> (r: bool)
    ensures
        r == add_liquidity_in_bounds(*pool, tick_lower, tick_upper, usdc_amount),
{
    if tick_lower >= tick_upper || tick_lower < MIN_TICK || tick_upper > MAX_TICK {
        return true;
    }
    let sqrt_lower = match get_sqrt_price_at_tick(tick_lower) {
        Ok(p) => p,
        Err(_) => return true,
    };
    let sqrt_upper = match get_sqrt_price_at_tick(tick_upper) {
        Ok(p) => p,
        Err(_) => return true,
    };
    let diff = sqrt_upper - sqrt_lower;
    let step1 = match (usdc_amount as u128).checked_mul(sqrt_lower) {
        Some(v) => v,
        None => return true,
    };
    let step2 = step1 / diff;
    proof {
        assert(sqrt_upper >> 32u32 == sqrt_upper / 0x1_0000_0000) by (bit_vector);
        assert(sqrt_lower >> 32u32 == sqrt_lower / 0x1_0000_0000) by (bit_vector);
        assert(diff >> 32u32 == diff / 0x1_0000_0000) by (bit_vector);
    }
    let product = match step2.checked_mul(sqrt_upper >> 32u32) {
        Some(v) => v,
        None => return true,
    };
    proof {
        assert(product >> 32u32 == product / 0x1_0000_0000) by (bit_vector);
    }
    let liquidity = product >> 32u32;
    // The steps of `Pool::add_liquidity` before it writes.
    if pool.positions_count as usize >= MAX_POSITIONS {
        return true;
    }
    if liquidity.checked_mul(diff >> 32u32).is_none() || (sqrt_lower >> 32u32).checked_mul(
        sqrt_upper >> 32u32,
    ).is_none() {
        return true;
    }
    let lower_idx = (tick_lower + 100) as usize;
    let upper_idx = (tick_upper + 100) as usize;
    let l = liquidity as i128;
    let first = match pool.ticks[lower_idx].checked_add(l) {
        Some(v) => v,
        None => return false,
    };
    let at_upper = if upper_idx == lower_idx {
        first
    } else {
        pool.ticks[upper_idx]
    };
    if at_upper.checked_sub(l).is_none() {
        return false;
    }
    if tick_lower <= pool.tick_current && pool.tick_current < tick_upper {
        if pool.liquidity.checked_add(liquidity).is_none() {
            return false;
        }
    }
    true
}

/// Whether `buy_sol` runs to completion on these inputs (its precondition);
/// where it does not, the step that overflows would abort.
pub fn can_buy_sol(pool: &Pool, usdc_amount: u64) -> (r: bool)
    ensures
        r == buy_sol_in_bounds(*pool, usdc_amount),
{
    if pool.liquidity == 0 {
        return true;
    }
    let p = match get_next_sqrt_price_buy_sol(pool.sqrt_price, pool.liquidity, usdc_amount) {
        Ok(p) => p,
        Err(_) => return true,
    };
    let t = tick_at_sqrt_price(p);
    if t == pool.tick_current {
        return true;
    }
    cross_ticks(pool.liquidity, &pool.ticks, clamp(pool.tick_current), t).is_some()
}

/// Whether `remove_liquidity` runs to completion on these inputs (its
/// precondition); where it does not, the step that overflows or indexes out
/// of the tick table would abort.
pub fn can_remove_liquidity(pool: &Pool, user: &Pubkey, liquidity: u128) -> (r: bool)
    ensures
        r == remove_liquidity_in_bounds(*pool, *user, liquidity),
{
    let k = match pool.position_index(user) {
        Some(k) => k,
        None => return true,
    };
    let p = pool.positions[k];
    if p.liquidity < liquidity {
        return true;
    }
    if p.tick_lower < MIN_TICK || p.tick_lower > MAX_TICK || p.tick_upper < MIN_TICK
        || p.tick_upper > MAX_TICK {
        return false;
    }
    if p.tick_lower <= pool.tick_current && pool.tick_current < p.tick_upper && pool.liquidity
        < liquidity {
        return false;
    }
    if p.liquidity == liquidity && pool.positions_count == 0 {
        return false;
    }
    let lower_idx = (p.tick_lower + 100) as usize;
    let upper_idx = (p.tick_upper + 100) as usize;
    let x = liquidity as i128;
    let first = match pool.ticks[lower_idx].checked_sub(x) {
        Some(v) => v,
        None => return false,
    };
    let at_upper = if upper_idx == lower_idx {
        first
    } else {
        pool.ticks[upper_idx]
    };
    at_upper.checked_add(x).is_some()
}

} // verus!
