use vstd::prelude::*;
use vstd::arithmetic::div_mod::lemma_fundamental_div_mod;

use crate::error::ClmmError;

verus! {

pub const MIN_TICK: i32 = -100;

pub const MAX_TICK: i32 = 100;

/// 1.0 in Q64.64 fixed point.
pub const Q64: u128 = 0x1_0000_0000_0000_0000;

/// Change of the Q64 square-root price per tick: 0.00005 * 2^64, since
/// sqrt(1.0001) is about 1.00005.
pub const SQRT_PRICE_STEP: u128 = 922_337_203_685_477;

/// A tick lies in the supported range `MIN_TICK ..= MAX_TICK`.
pub open spec fn tick_in_range(tick: int) -> bool {
    MIN_TICK <= tick <= MAX_TICK
}

/// The Q64 square-root price at `tick`: `Q64` moved by `SQRT_PRICE_STEP`
/// per tick.
pub open spec fn spec_sqrt_price_at_tick(tick: int) -> int {
    Q64 + SQRT_PRICE_STEP * tick
}

/// The square-root price at `tick`, or `InvalidTickRange` outside the table.
pub open spec fn sqrt_price_at_tick_result(tick: int) -> Result<u128, ClmmError> {
    if tick_in_range(tick) {
        Ok(spec_sqrt_price_at_tick(tick) as u128)
    } else {
        Err(ClmmError::InvalidTickRange)
    }
}

/// price = 1.0001 ^ (tick / 2): the Q64 square-root price at `tick`,
/// `Q64 + SQRT_PRICE_STEP * tick`, which stays within 2^64 / 50000 of
/// 1.0001^(tick/2) * 2^64 on the tick table; ticks outside
/// `MIN_TICK ..= MAX_TICK` are refused.
pub fn get_sqrt_price_at_tick(tick: i32) -> (r: Result<u128, ClmmError>)
    ensures
        r == sqrt_price_at_tick_result(tick as int),
        r matches Ok(p) ==> p as int == spec_sqrt_price_at_tick(tick as int),
{
    if tick < MIN_TICK || tick > MAX_TICK {
        return Err(ClmmError::InvalidTickRange);
    }
    let base = Q64;

    if tick == 0 {
        Ok(base)
    } else if tick > 0 {
        let increase = (tick as u128) * SQRT_PRICE_STEP;
        base.checked_add(increase).ok_or(ClmmError::MathOverflow)
    } else {
        let decrease = ((-tick) as u128) * SQRT_PRICE_STEP;
        base.checked_sub(decrease).ok_or(ClmmError::MathOverflow)
    }
}

/// Each tick moves the square-root price by 0.00005 * 2^64 (rounded down),
/// the first-order step of sqrt(1.0001) = 1.00005...: the price at `tick`
/// is `2^64 + tick * floor(2^64 / 20000)`, and outside the tick table there
/// is none.
pub proof fn law_sqrt_price_documented_step(tick: int)
    ensures
        MIN_TICK <= tick <= MAX_TICK ==> sqrt_price_at_tick_result(tick) == Ok::<u128, ClmmError>(
            (0x1_0000_0000_0000_0000 + tick * (0x1_0000_0000_0000_0000int / 20000)) as u128,
        ),
        !(MIN_TICK <= tick <= MAX_TICK) ==> sqrt_price_at_tick_result(tick) == Err::<
            u128,
            ClmmError,
        >(ClmmError::InvalidTickRange),
{
}

/// A higher tick has a strictly higher square-root price.
pub proof fn law_sqrt_price_increasing(lower: int, higher: int)
    requires
        lower < higher,
    ensures
        spec_sqrt_price_at_tick(lower) < spec_sqrt_price_at_tick(higher),
{
}

/// `amount / liquidity` in Q64.64: the square-root price change that
/// `amount` of the quote token causes at `liquidity`.
pub open spec fn spec_price_delta(amount: int, liquidity: int) -> int {
    (amount * Q64) / liquidity
}

/// The square-root price after buying with `usdc_amount` at `liquidity`:
/// unchanged without liquidity, else raised by `amount / liquidity`, or
/// `MathOverflow` when that does not fit.
pub open spec fn next_sqrt_price_buy_sol(sqrt_price: int, liquidity: int, usdc_amount: int) -> Result<
    u128,
    ClmmError,
> {
    if liquidity == 0 {
        Ok(sqrt_price as u128)
    } else if sqrt_price + spec_price_delta(usdc_amount, liquidity) <= u128::MAX {
        Ok((sqrt_price + spec_price_delta(usdc_amount, liquidity)) as u128)
    } else {
        Err(ClmmError::MathOverflow)
    }
}

/// A purchase raises the square-root price by `amount / liquidity` in Q64.64,
/// rounded down: the rise times the liquidity does not exceed
/// `amount * 2^64`, and one more unit of rise would; it fails exactly when
/// that rise does not fit above the current price. Without liquidity the
/// price stays.
pub proof fn law_price_rise(sqrt_price: int, liquidity: int, usdc_amount: int)
    requires
        0 <= sqrt_price <= u128::MAX,
        0 <= liquidity <= u128::MAX,
        0 <= usdc_amount <= u64::MAX,
    ensures
        liquidity == 0 ==> next_sqrt_price_buy_sol(sqrt_price, liquidity, usdc_amount) == Ok::<
            u128,
            ClmmError,
        >(sqrt_price as u128),
        liquidity > 0 ==> (next_sqrt_price_buy_sol(sqrt_price, liquidity, usdc_amount) matches Ok(
            p,
        ) ==> (p - sqrt_price) * liquidity <= usdc_amount * Q64 && usdc_amount * Q64 < (p
            - sqrt_price + 1) * liquidity),
        liquidity > 0 ==> (next_sqrt_price_buy_sol(sqrt_price, liquidity, usdc_amount) is Err
            <==> (u128::MAX + 1 - sqrt_price) * liquidity <= usdc_amount * Q64),
{
    if liquidity > 0 {
        let x = usdc_amount * Q64;
        let delta = x / liquidity;
        lemma_fundamental_div_mod(x, liquidity);
        assert(x >= 0);
        assert(delta >= 0) by (nonlinear_arith)
            requires
                delta == x / liquidity,
                x >= 0,
                liquidity > 0,
        ;
        assert(spec_price_delta(usdc_amount, liquidity) == delta);
        let m = u128::MAX + 1 - sqrt_price;
        if delta >= m {
            assert(m * liquidity <= x) by (nonlinear_arith)
                requires
                    delta >= m,
                    m >= 0,
                    liquidity * delta <= x,
                    liquidity > 0,
            ;
        } else {
            assert(m * liquidity > x) by (nonlinear_arith)
                requires
                    delta + 1 <= m,
                    x < liquidity * delta + liquidity,
                    liquidity > 0,
            ;
        }
        assert(delta * liquidity <= x && x < (delta + 1) * liquidity) by (nonlinear_arith)
            requires
                x == liquidity * delta + x % liquidity,
                0 <= x % liquidity < liquidity,
        ;
        if sqrt_price + delta <= u128::MAX {
            assert(next_sqrt_price_buy_sol(sqrt_price, liquidity, usdc_amount) == Ok::<
                u128,
                ClmmError,
            >((sqrt_price + delta) as u128));
        }
    }
}

/// How much the price changes if one buys SOL with USDC:
/// sqrt(P_new) = sqrt(P) + amount / L.
pub fn get_next_sqrt_price_buy_sol(sqrt_price: u128, liquidity: u128, usdc_amount: u64) -> (r:
    Result<u128, ClmmError>)
    ensures
        r == next_sqrt_price_buy_sol(sqrt_price as int, liquidity as int, usdc_amount as int),
        r matches Ok(p) ==> p >= sqrt_price,
{
    if liquidity == 0 {
        return Ok(sqrt_price);
    }
    let amount = usdc_amount as u128;
    assert(amount << 64u128 == amount * 0x1_0000_0000_0000_0000u128) by (bit_vector)
        requires
            amount <= 0xffff_ffff_ffff_ffffu128,
    ;
    let delta = (amount << 64u128) / liquidity;
    sqrt_price.checked_add(delta).ok_or(ClmmError::MathOverflow)
}

} // verus!
