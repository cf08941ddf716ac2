use vstd::prelude::*;

use crate::key::Pubkey;
use crate::math::{
    get_sqrt_price_at_tick, spec_sqrt_price_at_tick, tick_in_range, MAX_TICK, MIN_TICK,
};

verus! {

/// Number of position slots in a pool.
pub const MAX_POSITIONS: usize = 10;

/// Message of a failed removal: the owner has no position.
pub const ERR_POSITION_NOT_FOUND: &'static str = "Position not found";

/// Message of a failed addition: every slot is counted as in use.
pub const ERR_MAX_POSITIONS: &'static str = "Maximum positions reached";

/// Message of a failed addition: a range end is outside the tick table.
pub const ERR_INVALID_TICK: &'static str = "Invalid tick";

/// Message of a failed addition: an intermediate value does not fit.
pub const ERR_MATH_OVERFLOW: &'static str = "Math overflow";

/// Number of entries of the tick table (ticks `MIN_TICK ..= MAX_TICK`).
pub const MAX_TICKS: usize = 201;

/// A liquidity position stored in a pool slot; a slot is in use when its
/// `is_active` flag is 1.
#[derive(Clone, Copy, Debug, PartialEq)]
pub struct Position {
    pub owner: Pubkey,
    pub liquidity: u128,
    pub tick_lower: i32,
    pub tick_upper: i32,
    pub tokens_owed_0: u64,
    pub tokens_owed_1: u64,
    pub is_active: u8,
}

impl Position {
    /// The slot is in use.
    pub open spec fn active(self) -> bool {
        self.is_active == 1
    }

    /// A slot that holds nothing: zero owner and all numbers zero.
    pub open spec fn is_empty(self) -> bool {
        &&& self.owner.is_zero()
        &&& self.liquidity == 0
        &&& self.tick_lower == 0
        &&& self.tick_upper == 0
        &&& self.tokens_owed_0 == 0
        &&& self.tokens_owed_1 == 0
        &&& self.is_active == 0
    }

    /// The slot is in use (its flag is 1).
    pub fn is_active(&self) -> (r: bool)
        ensures
            r == self.active(),
    {
        self.is_active == 1
    }

    /// A fresh, active position with nothing owed.
    pub fn new(owner: Pubkey, liquidity: u128, tick_lower: i32, tick_upper: i32) -> (r: Self)
        ensures
            r.owner == owner,
            r.liquidity == liquidity,
            r.tick_lower == tick_lower,
            r.tick_upper == tick_upper,
            r.tokens_owed_0 == 0,
            r.tokens_owed_1 == 0,
            r.is_active == 1,
    {
        Position {
            owner,
            liquidity,
            tick_lower,
            tick_upper,
            tokens_owed_0: 0,
            tokens_owed_1: 0,
            is_active: 1,
        }
    }

    /// The empty slot value.
    pub fn empty() -> (r: Self)
        ensures
            r.is_empty(),
    {
        Position {
            owner: Pubkey::zero(),
            liquidity: 0,
            tick_lower: 0,
            tick_upper: 0,
            tokens_owed_0: 0,
            tokens_owed_1: 0,
            is_active: 0,
        }
    }

    /// Frees the slot.
    pub fn clear(&mut self)
        ensures
            final(self).is_empty(),
    {
        self.owner = Pubkey::zero();
        self.liquidity = 0;
        self.tick_lower = 0;
        self.tick_upper = 0;
        self.tokens_owed_0 = 0;
        self.tokens_owed_1 = 0;
        self.is_active = 0;
    }
}


/// Pool state: the token accounts, the current price and tick, the liquidity
/// active at the current tick, the net liquidity change at each tick, and the
/// position slots.
#[derive(Clone, Copy, Debug)]
pub struct Pool {
    pub token_0_mint: Pubkey,
    pub token_1_mint: Pubkey,
    pub token_0_vault: Pubkey,
    pub token_1_vault: Pubkey,
    pub creator: Pubkey,
    pub sqrt_price: u128,
    pub liquidity: u128,
    pub tick_current: i32,
    pub fee_bps: u16,
    pub positions_count: u8,
    pub ticks: [i128; MAX_TICKS],
    pub positions: [Position; MAX_POSITIONS],
}

/// Index of `tick` in the tick table.
pub open spec fn tick_index(tick: int) -> int {
    tick - MIN_TICK
}

/// A tick clamped to `MIN_TICK ..= MAX_TICK`.
pub open spec fn clamp_tick(tick: int) -> int {
    if tick < MIN_TICK {
        MIN_TICK as int
    } else if tick > MAX_TICK {
        MAX_TICK as int
    } else {
        tick
    }
}

/// `x` fits in an `i128`.
pub open spec fn fits_i128(x: int) -> bool {
    i128::MIN <= x <= i128::MAX
}

/// 2^32, the scale dropped from Q64 values before multiplying them.
pub open spec fn q32() -> int {
    0x1_0000_0000
}

/// `tick` clamped to `MIN_TICK ..= MAX_TICK`.
pub fn clamp(tick: i32) -> (r: i32)
    ensures
        r as int == clamp_tick(tick as int),
{
    if tick < MIN_TICK {
        MIN_TICK
    } else if tick > MAX_TICK {
        MAX_TICK
    } else {
        tick
    }
}

/// A fresh, active position.
pub open spec fn fresh_position(owner: Pubkey, liquidity: u128, tick_lower: i32, tick_upper: i32) -> Position {
    Position {
        owner,
        liquidity,
        tick_lower,
        tick_upper,
        tokens_owed_0: 0,
        tokens_owed_1: 0,
        is_active: 1,
    }
}

/// The quote-token amount that `liquidity` over `tick_lower .. tick_upper`
/// needs, computed on square-root prices scaled down by 2^32:
/// `L * diff / (sqrt_lower * sqrt_upper)`, or the message of the first
/// failing step of `Pool::add_liquidity` given the number of positions.
pub open spec fn add_liquidity_result(
    positions_count: int,
    tick_lower: int,
    tick_upper: int,
    liquidity: int,
) -> Result<u64, &'static str> {
    let sl = spec_sqrt_price_at_tick(tick_lower);
    let su = spec_sqrt_price_at_tick(tick_upper);
    let numerator = liquidity * ((su - sl) / q32());
    let denominator = (sl / q32()) * (su / q32());
    if positions_count >= MAX_POSITIONS {
        Err(ERR_MAX_POSITIONS)
    } else if !tick_in_range(tick_lower) || !tick_in_range(tick_upper) {
        Err(ERR_INVALID_TICK)
    } else if su < sl || numerator > u128::MAX || denominator > u128::MAX {
        Err(ERR_MATH_OVERFLOW)
    } else if denominator > 0 {
        Ok((numerator / denominator) as u64)
    } else {
        Ok(0)
    }
}

/// The tick table after a position of `liquidity` over
/// `tick_lower .. tick_upper` is recorded: plus `liquidity` at the lower end,
/// then minus it at the upper end.
pub open spec fn ticks_after_add(ticks: Seq<i128>, tick_lower: int, tick_upper: int, liquidity: u128) -> Seq<i128> {
    let li = tick_index(tick_lower);
    let ui = tick_index(tick_upper);
    let l = (liquidity as i128) as int;
    let t1 = ticks.update(li, (ticks[li] + l) as i128);
    t1.update(ui, (t1[ui] - l) as i128)
}

// ---------------------------------------------------------------------------
// Sums and searches over the position slots
// ---------------------------------------------------------------------------

/// The sum of `f` over the positions of `s`.
pub open spec fn sum_over(s: Seq<Position>, f: spec_fn(Position) -> int) -> int
    decreases s.len(),
{
    if s.len() == 0 {
        0
    } else {
        sum_over(s.drop_last(), f) + f(s.last())
    }
}

/// Replacing one slot changes a sum by the difference of that slot's terms.
pub proof fn lemma_sum_over_update(s: Seq<Position>, k: int, v: Position, f: spec_fn(Position) -> int)
    requires
        0 <= k < s.len(),
    ensures
        sum_over(s.update(k, v), f) == sum_over(s, f) - f(s[k]) + f(v),
    decreases s.len(),
{
    let t = s.update(k, v);
    if k == s.len() - 1 {
        assert(t.drop_last() =~= s.drop_last());
    } else {
        assert(t.drop_last() =~= s.drop_last().update(k, v));
        lemma_sum_over_update(s.drop_last(), k, v, f);
    }
}

/// A sum of terms that are zero on every slot of `s` is zero.
pub proof fn lemma_sum_over_zero(s: Seq<Position>, f: spec_fn(Position) -> int)
    requires
        forall|i: int| 0 <= i < s.len() ==> f(#[trigger] s[i]) == 0,
    ensures
        sum_over(s, f) == 0,
    decreases s.len(),
{
    if s.len() > 0 {
        lemma_sum_over_zero(s.drop_last(), f);
    }
}

/// Each active slot counts one.
pub open spec fn active_weight() -> spec_fn(Position) -> int {
    |p: Position| if p.active() { 1int } else { 0int }
}

/// The number of slots in use.
pub open spec fn active_count(s: Seq<Position>) -> int {
    sum_over(s, active_weight())
}

/// What an active position adds to the net liquidity entry of `tick`:
/// its liquidity where its range starts, minus its liquidity where it ends.
pub open spec fn tick_net_weight(tick: int) -> spec_fn(Position) -> int {
    |p: Position|
        if p.active() {
            (if p.tick_lower == tick {
                p.liquidity as int
            } else {
                0int
            }) - (if p.tick_upper == tick {
                p.liquidity as int
            } else {
                0int
            })
        } else {
            0int
        }
}

/// The liquidity of an active position whose range holds `tick`.
pub open spec fn in_range_weight(tick: int) -> spec_fn(Position) -> int {
    |p: Position|
        if p.active() && p.tick_lower <= tick && tick < p.tick_upper {
            p.liquidity as int
        } else {
            0int
        }
}

/// The first slot at or after `i` that is not in use.
pub open spec fn first_free_from(s: Seq<Position>, i: nat) -> Option<int>
    decreases s.len() - i,
{
    if i >= s.len() {
        None
    } else if !s[i as int].active() {
        Some(i as int)
    } else {
        first_free_from(s, i + 1)
    }
}

/// The first slot that is not in use.
pub open spec fn first_free_slot(s: Seq<Position>) -> Option<int> {
    first_free_from(s, 0)
}

/// The slot is in use and belongs to `owner`.
pub open spec fn owned_by(p: Position, owner: Pubkey) -> bool {
    p.active() && p.owner == owner
}

/// The first slot at or after `i` in use by `owner`.
pub open spec fn first_owned_from(s: Seq<Position>, owner: Pubkey, i: nat) -> Option<int>
    decreases s.len() - i,
{
    if i >= s.len() {
        None
    } else if owned_by(s[i as int], owner) {
        Some(i as int)
    } else {
        first_owned_from(s, owner, i + 1)
    }
}

/// The first slot in use by `owner`: the position that lookups by owner find.
pub open spec fn position_of(s: Seq<Position>, owner: Pubkey) -> Option<int> {
    first_owned_from(s, owner, 0)
}

pub proof fn lemma_first_free_from(s: Seq<Position>, i: nat)
    ensures
        first_free_from(s, i) matches Some(k) ==> i <= k < s.len() && !s[k].active() && forall|
            j: int,
        | i <= j < k ==> s[j].active(),
        first_free_from(s, i) is None ==> forall|j: int| i <= j < s.len() ==> s[j].active(),
    decreases s.len() - i,
{
    if i < s.len() {
        lemma_first_free_from(s, i + 1);
    }
}

pub proof fn lemma_first_owned_from(s: Seq<Position>, owner: Pubkey, i: nat)
    ensures
        first_owned_from(s, owner, i) matches Some(k) ==> i <= k < s.len() && owned_by(s[k], owner)
            && forall|j: int| i <= j < k ==> !owned_by(s[j], owner),
        first_owned_from(s, owner, i) is None ==> forall|j: int|
            i <= j < s.len() ==> !owned_by(s[j], owner),
    decreases s.len() - i,
{
    if i < s.len() {
        lemma_first_owned_from(s, owner, i + 1);
    }
}

/// A slot in use by `owner` with no earlier such slot is the one that
/// lookups by owner find.
pub proof fn lemma_first_owned_at(s: Seq<Position>, owner: Pubkey, i: nat, k: int)
    requires
        i <= k < s.len(),
        owned_by(s[k], owner),
        forall|j: int| i <= j < k ==> !owned_by(#[trigger] s[j], owner),
    ensures
        first_owned_from(s, owner, i) == Some(k),
    decreases k - i,
{
    if i < k {
        assert(!owned_by(s[i as int], owner));
        lemma_first_owned_at(s, owner, i + 1, k);
    }
}

/// Lookups by owner skip slots not in use by the owner.
pub proof fn lemma_first_owned_skip(s: Seq<Position>, owner: Pubkey, i: nat, m: nat)
    requires
        i <= m <= s.len(),
        forall|j: int| i <= j < m ==> !owned_by(#[trigger] s[j], owner),
    ensures
        first_owned_from(s, owner, i) == first_owned_from(s, owner, m),
    decreases m - i,
{
    if i < m {
        assert(!owned_by(s[i as int], owner));
        lemma_first_owned_skip(s, owner, i + 1, m);
    }
}

/// Lookups by owner from slot `i` on see only the slots from `i` on.
pub proof fn lemma_first_owned_same_suffix(s: Seq<Position>, t: Seq<Position>, owner: Pubkey, i: nat)
    requires
        s.len() == t.len(),
        forall|j: int| i <= j < s.len() ==> #[trigger] s[j] == t[j],
    ensures
        first_owned_from(s, owner, i) == first_owned_from(t, owner, i),
    decreases s.len() - i,
{
    if i < s.len() {
        assert(s[i as int] == t[i as int]);
        lemma_first_owned_same_suffix(s, t, owner, i + 1);
    }
}

/// When every slot is in use, the count of slots in use is the number of slots.
pub proof fn lemma_all_active_count(s: Seq<Position>)
    requires
        forall|j: int| 0 <= j < s.len() ==> s[j].active(),
    ensures
        active_count(s) == s.len(),
    decreases s.len(),
{
    if s.len() > 0 {
        lemma_all_active_count(s.drop_last());
    }
}

/// The count of slots in use never exceeds the number of slots.
pub proof fn lemma_active_count_bounds(s: Seq<Position>)
    ensures
        0 <= active_count(s) <= s.len(),
    decreases s.len(),
{
    if s.len() > 0 {
        lemma_active_count_bounds(s.drop_last());
    }
}

/// A free slot exists whenever fewer slots are in use than there are slots.
pub proof fn lemma_free_slot_exists(s: Seq<Position>)
    requires
        active_count(s) < s.len(),
    ensures
        first_free_slot(s) is Some,
{
    lemma_first_free_from(s, 0);
    if first_free_slot(s) is None {
        lemma_all_active_count(s);
    }
}


/// The sum of the first `n` entries of the tick table.
pub open spec fn tick_prefix_sum(ticks: Seq<i128>, n: int) -> int
    decreases n,
{
    if n <= 0 {
        0
    } else {
        tick_prefix_sum(ticks, n - 1) + ticks[n - 1]
    }
}

/// What an active position adds to the first `n` entries of the tick table:
/// its liquidity if its lower end is among them, minus it if its upper end is.
pub open spec fn below_weight(n: int) -> spec_fn(Position) -> int {
    |p: Position|
        if p.active() {
            (if tick_index(p.tick_lower as int) < n {
                p.liquidity as int
            } else {
                0int
            }) - (if tick_index(p.tick_upper as int) < n {
                p.liquidity as int
            } else {
                0int
            })
        } else {
            0int
        }
}

/// Sums over the same slots agree when the terms agree on every slot.
pub proof fn lemma_sum_over_congruent(s: Seq<Position>, f: spec_fn(Position) -> int, g: spec_fn(Position) -> int)
    requires
        forall|i: int| 0 <= i < s.len() ==> f(#[trigger] s[i]) == g(s[i]),
    ensures
        sum_over(s, f) == sum_over(s, g),
    decreases s.len(),
{
    if s.len() > 0 {
        lemma_sum_over_congruent(s.drop_last(), f, g);
    }
}

/// A sum of termwise sums is the sum of the two sums.
pub proof fn lemma_sum_over_add(
    s: Seq<Position>,
    f: spec_fn(Position) -> int,
    g: spec_fn(Position) -> int,
    h: spec_fn(Position) -> int,
)
    requires
        forall|p: Position| #[trigger] h(p) == f(p) + g(p),
    ensures
        sum_over(s, h) == sum_over(s, f) + sum_over(s, g),
    decreases s.len(),
{
    if s.len() > 0 {
        lemma_sum_over_add(s.drop_last(), f, g, h);
        assert(h(s.last()) == f(s.last()) + g(s.last()));
    }
}

/// The first `n` tick entries add up to what the positions in use add to
/// them.
pub proof fn lemma_tick_prefix_sum(pool: Pool, n: int)
    requires
        pool.positions_valid(),
        pool.ticks_consistent(),
        0 <= n <= MAX_TICKS,
    ensures
        tick_prefix_sum(pool.ticks@, n) == sum_over(pool.positions@, below_weight(n)),
    decreases n,
{
    if n == 0 {
        assert forall|i: int| 0 <= i < pool.positions@.len() implies (below_weight(0))(
            #[trigger] pool.positions@[i],
        ) == 0 by {
            if pool.positions@[i].active() {
                assert(tick_in_range(pool.positions@[i].tick_lower as int));
            }
        }
        lemma_sum_over_zero(pool.positions@, below_weight(0));
    } else {
        lemma_tick_prefix_sum(pool, n - 1);
        assert(pool.ticks@[n - 1] == sum_over(pool.positions@, tick_net_weight(n - 1 + MIN_TICK)));
        lemma_sum_over_add(
            pool.positions@,
            below_weight(n - 1),
            tick_net_weight(n - 1 + MIN_TICK),
            below_weight(n),
        );
    }
}

/// With the tick table consistent, the entries up to and including `tick`
/// add up to the liquidity of the positions in use whose range holds `tick`.
pub proof fn lemma_prefix_is_in_range(pool: Pool, tick: int)
    requires
        pool.positions_valid(),
        pool.ticks_consistent(),
        tick_in_range(tick),
    ensures
        tick_prefix_sum(pool.ticks@, tick_index(tick) + 1) == sum_over(
            pool.positions@,
            in_range_weight(tick),
        ),
{
    let n = tick_index(tick) + 1;
    lemma_tick_prefix_sum(pool, n);
    assert forall|i: int| 0 <= i < pool.positions@.len() implies (below_weight(n))(
        #[trigger] pool.positions@[i],
    ) == (in_range_weight(tick))(pool.positions@[i]) by {
        if pool.positions@[i].active() {
            assert(pool.positions@[i].tick_lower < pool.positions@[i].tick_upper);
        }
    }
    lemma_sum_over_congruent(pool.positions@, below_weight(n), in_range_weight(tick));
}

/// With the tick table and the pool's liquidity consistent with the
/// positions in use, the pool's liquidity is the sum of the tick entries up
/// to and including the current tick.
pub proof fn law_liquidity_is_tick_prefix_sum(pool: Pool)
    requires
        pool.positions_valid(),
        pool.ticks_consistent(),
        pool.liquidity_consistent(),
        tick_in_range(pool.tick_current as int),
    ensures
        pool.liquidity as int == tick_prefix_sum(pool.ticks@, tick_index(pool.tick_current as int) + 1),
{
    lemma_prefix_is_in_range(pool, pool.tick_current as int);
}

/// The pool's liquidity once the current tick has moved from `from` to `to`:
/// the net entries of the ticks crossed are added going up and taken out
/// going down.
pub open spec fn liquidity_after_crossing(liquidity: int, ticks: Seq<i128>, from: int, to: int) -> int {
    liquidity + tick_prefix_sum(ticks, tick_index(to) + 1) - tick_prefix_sum(
        ticks,
        tick_index(from) + 1,
    )
}

/// Every liquidity passed through while crossing from `from` to `to` is a
/// valid `u128`.
pub open spec fn crossing_fits(liquidity: int, ticks: Seq<i128>, from: int, to: int) -> bool {
    forall|t: int|
        (from <= t <= to || to <= t <= from) ==> 0 <= #[trigger] liquidity_after_crossing(
            liquidity,
            ticks,
            from,
            t,
        ) <= u128::MAX
}

/// `liquidity + net`, or `None` when that is not a valid `u128`.
fn add_net(liquidity: u128, net: i128) -> (r: Option<u128>)
    ensures
        match r {
            Some(v) => v == liquidity + net,
            None => !(0 <= liquidity + net <= u128::MAX),
        },
{
    if net >= 0 {
        liquidity.checked_add(net as u128)
    } else {
        liquidity.checked_sub((-(net + 1)) as u128 + 1)
    }
}

/// `liquidity - net`, or `None` when that is not a valid `u128`.
fn remove_net(liquidity: u128, net: i128) -> (r: Option<u128>)
    ensures
        match r {
            Some(v) => v == liquidity - net,
            None => !(0 <= liquidity - net <= u128::MAX),
        },
{
    if net >= 0 {
        liquidity.checked_sub(net as u128)
    } else {
        liquidity.checked_add((-(net + 1)) as u128 + 1)
    }
}

/// Crosses the ticks from `from` to `to`, adding each crossed entry going up
/// and taking it out going down; `None` when a liquidity passed through is
/// not a valid `u128`.
pub fn cross_ticks(liquidity: u128, ticks: &[i128; MAX_TICKS], from: i32, to: i32) -> (r: Option<u128>)
    requires
        tick_in_range(from as int),
        tick_in_range(to as int),
    ensures
        r is Some <==> crossing_fits(liquidity as int, ticks@, from as int, to as int),
        r matches Some(v) ==> v == liquidity_after_crossing(
            liquidity as int,
            ticks@,
            from as int,
            to as int,
        ),
{
    let mut current = liquidity;
    let mut tick = from;
    proof {
        assert(liquidity_after_crossing(liquidity as int, ticks@, from as int, from as int)
            == liquidity);
    }
    while tick < to
        invariant
            tick_in_range(from as int),
            tick_in_range(to as int),
            from <= tick <= to || tick == from,
            from <= to || tick == from,
            current == liquidity_after_crossing(liquidity as int, ticks@, from as int, tick as int),
            forall|t: int|
                from <= t <= tick ==> 0 <= #[trigger] liquidity_after_crossing(
                    liquidity as int,
                    ticks@,
                    from as int,
                    t,
                ) <= u128::MAX,
        decreases to - tick,
    {
        tick = tick + 1;
        let idx = (tick - MIN_TICK) as usize;
        match add_net(current, ticks[idx]) {
            Some(v) => current = v,
            None => {
                assert(liquidity_after_crossing(liquidity as int, ticks@, from as int, tick as int)
                    == current + ticks@[idx as int]);
                return None;
            },
        }
    }
    while tick > to
        invariant
            tick_in_range(from as int),
            tick_in_range(to as int),
            to <= tick <= from || tick == to,
            to <= from || tick == to,
            current == liquidity_after_crossing(liquidity as int, ticks@, from as int, tick as int),
            forall|t: int|
                from <= t <= to ==> 0 <= #[trigger] liquidity_after_crossing(
                    liquidity as int,
                    ticks@,
                    from as int,
                    t,
                ) <= u128::MAX,
            forall|t: int|
                tick <= t <= from ==> 0 <= #[trigger] liquidity_after_crossing(
                    liquidity as int,
                    ticks@,
                    from as int,
                    t,
                ) <= u128::MAX,
        decreases tick - to,
    {
        let idx = (tick - MIN_TICK) as usize;
        tick = tick - 1;
        match remove_net(current, ticks[idx]) {
            Some(v) => current = v,
            None => {
                assert(liquidity_after_crossing(liquidity as int, ticks@, from as int, tick as int)
                    == current - ticks@[idx as int]);
                return None;
            },
        }
    }
    Some(current)
}

/// With the positions counted consistently, a pool never counts more
/// positions than it has slots.
pub proof fn law_count_bounded(pool: Pool)
    requires
        pool.count_consistent(),
    ensures
        pool.positions_count <= MAX_POSITIONS,
{
    lemma_active_count_bounds(pool.positions@);
}

/// After a position is recorded for an owner who had none in a pool with a
/// free slot, looking the owner up finds exactly that position.
pub proof fn law_lookup_after_add(
    old: Pool,
    new: Pool,
    owner: Pubkey,
    tick_lower: i32,
    tick_upper: i32,
    liquidity: u128,
)
    requires
        new.records_add(old, owner, tick_lower, tick_upper, liquidity),
        position_of(old.positions@, owner) is None,
        first_free_slot(old.positions@) is Some,
    ensures
        position_of(new.positions@, owner) matches Some(k) && new.positions@[k] == fresh_position(
            owner,
            liquidity,
            tick_lower,
            tick_upper,
        ),
{
    let k = first_free_slot(old.positions@)->0;
    lemma_first_free_from(old.positions@, 0);
    lemma_first_owned_from(old.positions@, owner, 0);
    assert forall|j: int| 0 <= j < k implies !owned_by(#[trigger] new.positions@[j], owner) by {
        assert(new.positions@[j] == old.positions@[j]);
    }
    lemma_first_owned_at(new.positions@, owner, 0, k);
}

impl Pool {
    /// The fields that no instruction but initialization changes.
    pub open spec fn same_accounts(self, other: Pool) -> bool {
        &&& self.token_0_mint == other.token_0_mint
        &&& self.token_1_mint == other.token_1_mint
        &&& self.token_0_vault == other.token_0_vault
        &&& self.token_1_vault == other.token_1_vault
        &&& self.creator == other.creator
        &&& self.fee_bps == other.fee_bps
    }

    /// The recorded number of positions is the number of slots in use.
    pub open spec fn count_consistent(self) -> bool {
        self.positions_count as int == active_count(self.positions@)
    }

    /// Every position in use has a non-empty range with both ends in the
    /// tick table and a liquidity that is also a valid `i128`.
    pub open spec fn positions_valid(self) -> bool {
        forall|k: int|
            0 <= k < MAX_POSITIONS && (#[trigger] self.positions@[k]).active() ==> {
                &&& tick_in_range(self.positions@[k].tick_lower as int)
                &&& tick_in_range(self.positions@[k].tick_upper as int)
                &&& self.positions@[k].tick_lower < self.positions@[k].tick_upper
                &&& self.positions@[k].liquidity <= i128::MAX
            }
    }

    /// Each tick entry is the net liquidity that the positions in use start
    /// minus end there.
    pub open spec fn ticks_consistent(self) -> bool {
        forall|i: int|
            0 <= i < MAX_TICKS ==> #[trigger] self.ticks@[i] == sum_over(
                self.positions@,
                tick_net_weight(i + MIN_TICK),
            )
    }

    /// The pool's liquidity is that of the positions in use whose range holds
    /// the current tick.
    pub open spec fn liquidity_consistent(self) -> bool {
        self.liquidity as int == sum_over(self.positions@, in_range_weight(self.tick_current as int))
    }

    /// No position slot is in use.
    pub open spec fn no_positions(self) -> bool {
        forall|k: int| 0 <= k < MAX_POSITIONS ==> !(#[trigger] self.positions@[k]).active()
    }

    /// An all-zero pool, the state of a freshly allocated pool account.
    pub fn zeroed() -> (r: Pool)
        ensures
            r.token_0_mint.is_zero(),
            r.token_1_mint.is_zero(),
            r.token_0_vault.is_zero(),
            r.token_1_vault.is_zero(),
            r.creator.is_zero(),
            r.sqrt_price == 0,
            r.liquidity == 0,
            r.tick_current == 0,
            r.fee_bps == 0,
            r.positions_count == 0,
            forall|i: int| 0 <= i < MAX_TICKS ==> r.ticks@[i] == 0,
            forall|k: int| 0 <= k < MAX_POSITIONS ==> (#[trigger] r.positions@[k]).is_empty(),
            r.no_positions(),
            r.count_consistent(),
            r.positions_valid(),
            r.ticks_consistent(),
            r.liquidity_consistent(),
    {
        let r = Pool {
            token_0_mint: Pubkey::zero(),
            token_1_mint: Pubkey::zero(),
            token_0_vault: Pubkey::zero(),
            token_1_vault: Pubkey::zero(),
            creator: Pubkey::zero(),
            sqrt_price: 0,
            liquidity: 0,
            tick_current: 0,
            fee_bps: 0,
            positions_count: 0,
            ticks: [0i128; MAX_TICKS],
            positions: [Position::empty(); MAX_POSITIONS],
        };
        proof {
            lemma_sum_over_zero(r.positions@, active_weight());
            lemma_sum_over_zero(r.positions@, in_range_weight(0));
            assert forall|i: int| 0 <= i < MAX_TICKS implies #[trigger] r.ticks@[i] == sum_over(
                r.positions@,
                tick_net_weight(i + MIN_TICK),
            ) by {
                lemma_sum_over_zero(r.positions@, tick_net_weight(i + MIN_TICK));
            }
        }
        r
    }

    /// Initializes the pool in place: records the token accounts and the
    /// creator and sets the price to 1.0 (Q64) at tick 0 with no liquidity
    /// and no positions counted. The tick table and the slots are left as
    /// they are (a fresh account holds zeros there).
    pub fn initialize(
        &mut self,
        token_0_mint: Pubkey,
        token_1_mint: Pubkey,
        token_0_vault: Pubkey,
        token_1_vault: Pubkey,
        creator: Pubkey,
    )
        ensures
            final(self).token_0_mint == token_0_mint,
            final(self).token_1_mint == token_1_mint,
            final(self).token_0_vault == token_0_vault,
            final(self).token_1_vault == token_1_vault,
            final(self).creator == creator,
            final(self).sqrt_price == crate::math::Q64,
            final(self).liquidity == 0,
            final(self).tick_current == 0,
            final(self).fee_bps == 0,
            final(self).positions_count == 0,
            final(self).ticks == old(self).ticks,
            final(self).positions == old(self).positions,
            old(self).no_positions() ==> final(self).count_consistent(),
            old(self).no_positions() ==> final(self).liquidity_consistent(),
            old(self).positions_valid() ==> final(self).positions_valid(),
            old(self).ticks_consistent() ==> final(self).ticks_consistent(),
    {
        proof {
            if old(self).no_positions() {
                lemma_sum_over_zero(old(self).positions@, active_weight());
                lemma_sum_over_zero(old(self).positions@, in_range_weight(0));
            }
        }
        self.token_0_mint = token_0_mint;
        self.token_1_mint = token_1_mint;
        self.token_0_vault = token_0_vault;
        self.token_1_vault = token_1_vault;
        self.creator = creator;
        self.sqrt_price = crate::math::Q64;
        self.liquidity = 0;
        self.tick_current = 0;
        self.fee_bps = 0;
        self.positions_count = 0;
    }

    /// The first slot not in use, if any.
    pub fn free_slot(&self) -> (r: Option<usize>)
        ensures
            match r {
                Some(k) => first_free_slot(self.positions@) == Some(k as int),
                None => first_free_slot(self.positions@) is None,
            },
            r matches Some(k) ==> k < MAX_POSITIONS && !self.positions@[k as int].active(),
    {
        proof {
            lemma_first_free_from(self.positions@, 0);
        }
        let mut i: usize = 0;
        while i < MAX_POSITIONS
            invariant
                0 <= i <= MAX_POSITIONS,
                first_free_slot(self.positions@) == first_free_from(self.positions@, i as nat),
            decreases MAX_POSITIONS - i,
        {
            if !self.positions[i].is_active() {
                return Some(i);
            }
            i = i + 1;
        }
        None
    }

    /// The first slot in use by `owner`, if any.
    pub fn position_index(&self, owner: &Pubkey) -> (r: Option<usize>)
        ensures
            match r {
                Some(k) => position_of(self.positions@, *owner) == Some(k as int),
                None => position_of(self.positions@, *owner) is None,
            },
            r matches Some(k) ==> k < MAX_POSITIONS && owned_by(self.positions@[k as int], *owner),
    {
        proof {
            lemma_first_owned_from(self.positions@, *owner, 0);
        }
        let mut i: usize = 0;
        while i < MAX_POSITIONS
            invariant
                0 <= i <= MAX_POSITIONS,
                position_of(self.positions@, *owner) == first_owned_from(
                    self.positions@,
                    *owner,
                    i as nat,
                ),
            decreases MAX_POSITIONS - i,
        {
            if self.positions[i].is_active() && self.positions[i].owner == *owner {
                return Some(i);
            }
            i = i + 1;
        }
        None
    }

    /// The first position in use by `owner`, if any.
    pub fn get_position(&self, owner: &Pubkey) -> (r: Option<&Position>)
        ensures
            r is Some <==> position_of(self.positions@, *owner) is Some,
            r matches Some(p) ==> *p == self.positions@[position_of(self.positions@, *owner)->0],
    {
        match self.position_index(owner) {
            Some(k) => Some(&self.positions[k]),
            None => None,
        }
    }

    /// Recording the position does not overflow the tick table entries at
    /// its ends nor the pool's liquidity.
    pub open spec fn add_fits(self, tick_lower: int, tick_upper: int, liquidity: u128) -> bool {
        let li = tick_index(tick_lower);
        let ui = tick_index(tick_upper);
        let l = (liquidity as i128) as int;
        let first = self.ticks@[li] + l;
        let second = (if ui == li {
            first
        } else {
            self.ticks@[ui] as int
        }) - l;
        &&& fits_i128(first)
        &&& fits_i128(second)
        &&& (tick_lower <= self.tick_current && self.tick_current < tick_upper) ==> self.liquidity
            + liquidity <= u128::MAX
    }

    /// `self` is `old` after a position of `liquidity` over
    /// `tick_lower .. tick_upper` was recorded for `owner`: the tick table
    /// updated at both ends, the pool's liquidity raised when the range holds
    /// the current tick, the position in the first free slot (if any) and
    /// counted, and nothing else changed.
    pub open spec fn records_add(
        self,
        old: Pool,
        owner: Pubkey,
        tick_lower: i32,
        tick_upper: i32,
        liquidity: u128,
    ) -> bool {
        &&& self.ticks@ == ticks_after_add(old.ticks@, tick_lower as int, tick_upper as int, liquidity)
        &&& self.liquidity == if tick_lower <= old.tick_current && old.tick_current < tick_upper {
            (old.liquidity + liquidity) as u128
        } else {
            old.liquidity
        }
        &&& match first_free_slot(old.positions@) {
            Some(k) => {
                &&& self.positions@ == old.positions@.update(
                    k,
                    fresh_position(owner, liquidity, tick_lower, tick_upper),
                )
                &&& self.positions_count == old.positions_count + 1
            },
            None => {
                &&& self.positions == old.positions
                &&& self.positions_count == old.positions_count
            },
        }
        &&& self.same_accounts(old)
        &&& self.sqrt_price == old.sqrt_price
        &&& self.tick_current == old.tick_current
    }

    /// Records a position of `liquidity` over `tick_lower .. tick_upper` for
    /// `owner` in the first free slot and returns the quote-token amount it
    /// needs. The tick table gains the position's liquidity at the lower end
    /// and loses it at the upper end; the pool's liquidity gains it when the
    /// range holds the current tick.
    pub fn add_liquidity(
        &mut self,
        owner: Pubkey,
        tick_lower: i32,
        tick_upper: i32,
        liquidity: u128,
    ) -> (r: Result<u64, &'static str>)
        requires
            add_liquidity_result(
                old(self).positions_count as int,
                tick_lower as int,
                tick_upper as int,
                liquidity as int,
            ) is Ok ==> old(self).add_fits(tick_lower as int, tick_upper as int, liquidity),
        ensures
            r == add_liquidity_result(
                old(self).positions_count as int,
                tick_lower as int,
                tick_upper as int,
                liquidity as int,
            ),
            r is Err ==> *final(self) == *old(self),
            r is Ok ==> final(self).records_add(*old(self), owner, tick_lower, tick_upper, liquidity),
            old(self).count_consistent() ==> final(self).count_consistent(),
            old(self).positions_valid() && liquidity <= i128::MAX && tick_lower < tick_upper
                ==> final(self).positions_valid(),
            old(self).count_consistent() && old(self).ticks_consistent() && liquidity <= i128::MAX
                ==> final(self).ticks_consistent(),
            old(self).count_consistent() && old(self).liquidity_consistent()
                ==> final(self).liquidity_consistent(),
    {
        if self.positions_count as usize >= MAX_POSITIONS {
            return Err(ERR_MAX_POSITIONS);
        }
        let sqrt_lower = match get_sqrt_price_at_tick(tick_lower) {
            Ok(p) => p,
            Err(_) => return Err(ERR_INVALID_TICK),
        };
        let sqrt_upper = match get_sqrt_price_at_tick(tick_upper) {
            Ok(p) => p,
            Err(_) => return Err(ERR_INVALID_TICK),
        };
        let diff = match sqrt_upper.checked_sub(sqrt_lower) {
            Some(d) => d,
            None => return Err(ERR_MATH_OVERFLOW),
        };

        // Scale down to avoid overflow: the square-root prices are Q64.
        let sqrt_lower_scaled = sqrt_lower >> 32u32;
        let sqrt_upper_scaled = sqrt_upper >> 32u32;
        let diff_scaled = diff >> 32u32;
        proof {
            assert(sqrt_lower >> 32u32 == sqrt_lower / 0x1_0000_0000) by (bit_vector);
            assert(sqrt_upper >> 32u32 == sqrt_upper / 0x1_0000_0000) by (bit_vector);
            assert(diff >> 32u32 == diff / 0x1_0000_0000) by (bit_vector);
        }

        let numerator = match liquidity.checked_mul(diff_scaled) {
            Some(n) => n,
            None => return Err(ERR_MATH_OVERFLOW),
        };
        let denominator = match sqrt_lower_scaled.checked_mul(sqrt_upper_scaled) {
            Some(d) => d,
            None => return Err(ERR_MATH_OVERFLOW),
        };
        let usdc_needed = if denominator > 0 {
            (numerator / denominator) as u64
        } else {
            0
        };

        let lower_idx = (tick_lower + 100) as usize;
        let upper_idx = (tick_upper + 100) as usize;

        self.ticks[lower_idx] = self.ticks[lower_idx] + liquidity as i128;
        self.ticks[upper_idx] = self.ticks[upper_idx] - liquidity as i128;

        if tick_lower <= self.tick_current && self.tick_current < tick_upper {
            self.liquidity = self.liquidity + liquidity;
        }

        // Add the position to the first free slot.
        match self.free_slot() {
            Some(k) => {
                self.positions[k] = Position::new(owner, liquidity, tick_lower, tick_upper);
                self.positions_count = self.positions_count + 1;
                proof {
                    let s0 = old(self).positions@;
                    let np = fresh_position(owner, liquidity, tick_lower, tick_upper);
                    assert(self.positions@ =~= s0.update(k as int, np));
                    lemma_sum_over_update(s0, k as int, np, active_weight());
                    lemma_sum_over_update(
                        s0,
                        k as int,
                        np,
                        in_range_weight(self.tick_current as int),
                    );
                    if old(self).count_consistent() && old(self).ticks_consistent() && liquidity
                        <= i128::MAX {
                        assert forall|i: int| 0 <= i < MAX_TICKS implies #[trigger] self.ticks@[i]
                            == sum_over(self.positions@, tick_net_weight(i + MIN_TICK)) by {
                            lemma_sum_over_update(s0, k as int, np, tick_net_weight(i + MIN_TICK));
                        }
                    }
                    if old(self).positions_valid() && liquidity <= i128::MAX && tick_lower < tick_upper {
                        assert forall|j: int|
                            0 <= j < MAX_POSITIONS && (#[trigger] self.positions@[j]).active() implies {
                            &&& tick_in_range(self.positions@[j].tick_lower as int)
                            &&& tick_in_range(self.positions@[j].tick_upper as int)
                            &&& self.positions@[j].tick_lower < self.positions@[j].tick_upper
                            &&& self.positions@[j].liquidity <= i128::MAX
                        } by {
                            if j != k {
                                assert(old(self).positions@[j] == self.positions@[j]);
                            }
                        }
                    }
                }
            },
            None => {
                proof {
                    if old(self).count_consistent() {
                        lemma_free_slot_exists(old(self).positions@);
                    }
                }
            },
        }

        Ok(usdc_needed)
    }

    /// Frees the first slot in use by `owner` and counts one position less.
    pub fn remove_position(&mut self, owner: &Pubkey) -> (r: Result<(), &'static str>)
        requires
            position_of(old(self).positions@, *owner) is Some ==> old(self).positions_count > 0,
        ensures
            position_of(old(self).positions@, *owner) is None ==> r == Err::<(), &'static str>(
                ERR_POSITION_NOT_FOUND,
            ) && *final(self) == *old(self),
            position_of(old(self).positions@, *owner) matches Some(k) ==> {
                &&& r is Ok
                &&& final(self).positions@ == old(self).positions@.update(
                    k,
                    final(self).positions@[k],
                )
                &&& final(self).positions@[k].is_empty()
                &&& final(self).positions_count == old(self).positions_count - 1
                &&& final(self).same_accounts(*old(self))
                &&& final(self).sqrt_price == old(self).sqrt_price
                &&& final(self).liquidity == old(self).liquidity
                &&& final(self).tick_current == old(self).tick_current
                &&& final(self).ticks == old(self).ticks
            },
            old(self).count_consistent() ==> final(self).count_consistent(),
            old(self).positions_valid() ==> final(self).positions_valid(),
            old(self).ticks_consistent() && (position_of(old(self).positions@, *owner) matches Some(
                k,
            ) ==> old(self).positions@[k].liquidity == 0) ==> final(self).ticks_consistent(),
            old(self).liquidity_consistent() && (position_of(old(self).positions@, *owner) matches Some(
                k,
            ) ==> old(self).positions@[k].liquidity == 0) ==> final(self).liquidity_consistent(),
    {
        match self.position_index(owner) {
            Some(k) => {
                self.positions[k].clear();
                self.positions_count -= 1;
                proof {
                    let s0 = old(self).positions@;
                    let e = self.positions@[k as int];
                    assert(self.positions@ =~= s0.update(k as int, e));
                    lemma_sum_over_update(s0, k as int, e, active_weight());
                    lemma_sum_over_update(s0, k as int, e, in_range_weight(self.tick_current as int));
                    if old(self).ticks_consistent() && s0[k as int].liquidity == 0 {
                        assert forall|i: int| 0 <= i < MAX_TICKS implies #[trigger] self.ticks@[i]
                            == sum_over(self.positions@, tick_net_weight(i + MIN_TICK)) by {
                            lemma_sum_over_update(s0, k as int, e, tick_net_weight(i + MIN_TICK));
                        }
                    }
                    if old(self).positions_valid() {
                        assert forall|j: int|
                            0 <= j < MAX_POSITIONS && (#[trigger] self.positions@[j]).active() implies {
                            &&& tick_in_range(self.positions@[j].tick_lower as int)
                            &&& tick_in_range(self.positions@[j].tick_upper as int)
                            &&& self.positions@[j].tick_lower < self.positions@[j].tick_upper
                            &&& self.positions@[j].liquidity <= i128::MAX
                        } by {
                            assert(old(self).positions@[j] == self.positions@[j]);
                        }
                    }
                }
                Ok(())
            },
            None => Err(ERR_POSITION_NOT_FOUND),
        }
    }

    /// The liquidity change of moving the current tick to `new_tick`
    /// (clamped to the tick table) fits at every tick crossed.
    pub open spec fn crossing_to_fits(self, new_tick: int) -> bool {
        crossing_fits(
            self.liquidity as int,
            self.ticks@,
            clamp_tick(self.tick_current as int),
            clamp_tick(new_tick),
        )
    }

    /// When the price has moved to `new_tick` (clamped to the tick table),
    /// makes it the current tick and updates the pool's liquidity by the net
    /// entries of the ticks crossed: each crossed entry is added going up and
    /// taken out going down.
    pub fn update_tick_if_crossed(&mut self, new_tick: i32)
        requires
            new_tick != old(self).tick_current ==> old(self).crossing_to_fits(new_tick as int),
        ensures
            new_tick == old(self).tick_current ==> *final(self) == *old(self),
            new_tick != old(self).tick_current ==> {
                &&& final(self).tick_current == clamp_tick(new_tick as int)
                &&& final(self).liquidity == liquidity_after_crossing(
                    old(self).liquidity as int,
                    old(self).ticks@,
                    clamp_tick(old(self).tick_current as int),
                    clamp_tick(new_tick as int),
                )
                &&& final(self).same_accounts(*old(self))
                &&& final(self).sqrt_price == old(self).sqrt_price
                &&& final(self).positions_count == old(self).positions_count
                &&& final(self).ticks == old(self).ticks
                &&& final(self).positions == old(self).positions
            },
            old(self).count_consistent() ==> final(self).count_consistent(),
            old(self).positions_valid() ==> final(self).positions_valid(),
            old(self).ticks_consistent() ==> final(self).ticks_consistent(),
            old(self).positions_valid() && old(self).ticks_consistent()
                && old(self).liquidity_consistent() && tick_in_range(old(self).tick_current as int)
                ==> final(self).liquidity_consistent(),
    {
        if new_tick != self.tick_current {
            let clamped_tick = clamp(new_tick);
            let from = clamp(self.tick_current);
            let liquidity = cross_ticks(self.liquidity, &self.ticks, from, clamped_tick).unwrap();
            proof {
                if old(self).positions_valid() && old(self).ticks_consistent()
                    && old(self).liquidity_consistent() && tick_in_range(
                    old(self).tick_current as int,
                ) {
                    lemma_prefix_is_in_range(*old(self), old(self).tick_current as int);
                    lemma_prefix_is_in_range(*old(self), clamped_tick as int);
                }
            }
            self.liquidity = liquidity;
            self.tick_current = clamped_tick;
        }
    }

    /// The first position in use by `owner`, if any, for in-place update:
    /// whatever is written through the reference becomes that slot, and the
    /// rest of the pool stays as it was.
    pub fn get_position_mut(&mut self, owner: &Pubkey) -> (r: Option<&mut Position>)
        ensures
            r is Some <==> position_of(old(self).positions@, *owner) is Some,
            r is None ==> *final(self) == *old(self),
            r matches Some(p) ==> {
                let k = position_of(old(self).positions@, *owner)->0;
                &&& *p == old(self).positions@[k]
                &&& final(self).positions@ == old(self).positions@.update(k, *final(p))
                &&& final(self).same_accounts(*old(self))
                &&& final(self).sqrt_price == old(self).sqrt_price
                &&& final(self).liquidity == old(self).liquidity
                &&& final(self).tick_current == old(self).tick_current
                &&& final(self).positions_count == old(self).positions_count
                &&& final(self).ticks == old(self).ticks
            },
    {
        match self.position_index(owner) {
            Some(k) => Some(&mut self.positions[k]),
            None => None,
        }
    }
}

} // verus!
