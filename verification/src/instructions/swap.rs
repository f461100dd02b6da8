use crate::errors::Errors;
use crate::math::compute_swap_step::{compute_swap_step, swap_step_spec};
use crate::math::curve_laws::{
    lemma_sqrt_price_bounds, lemma_sqrt_price_increasing, lemma_tick_brackets_price,
};
use crate::math::step_laws::{
    lemma_swap_step_conservation, lemma_swap_step_output_within_reserve, output_reserve_spec,
};
use crate::math::tick_math::{
    cross_tick, cross_tick_spec, get_next_tick, get_sqrt_price_from_tick, get_tick_from_sqrt_price,
    next_tick_spec, sqrt_price_at_tick, tick_at_sqrt_price, tick_in_range, MAX_SQRT_PRICE,
    MAX_TICK, MIN_SQRT_PRICE,
};
use crate::state::pool::{price_in_bracket, Pool};
use crate::state::tick::Tick;
use vstd::prelude::*;

verus! {

/// The most steps that one swap may take. Every step but the last crosses a tick.
pub const MAX_SWAP_STEPS: u32 = 64;

/// The running state of a swap.
#[derive(Clone, Copy, Debug, PartialEq, Eq, Structural)]
pub struct SwapState {
    pub sqrt_price: u128,
    pub tick_current: i32,
    pub liquidity: u128,
    /// The input that is still to be swapped.
    pub amount_remaining: u128,
    /// The output of the steps taken so far.
    pub amount_out: u128,
    /// The fees of the steps taken so far.
    pub fee_amount: u128,
    pub fee_growth_global_a: u128,
    pub fee_growth_global_b: u128,
}

/// How one step of a swap ended.
#[derive(Clone, Copy, Debug, PartialEq, Eq, Structural)]
pub enum Progress {
    /// The price reached the next initialized tick and crossed it.
    Crossed,
    /// The price came to rest before the next initialized tick.
    Settled,
    /// No initialized tick lies in the direction of the swap.
    Blocked,
}

/// How a swap ended.
#[derive(Clone, Copy, Debug, PartialEq, Eq, Structural)]
pub enum SwapStatus {
    /// All of the input was swapped.
    Exhausted,
    /// The price came to rest between two ticks with a rest of the input that
    /// moves it no further.
    Settled,
    /// The swap ran out of initialized ticks with a rest of the input unswapped.
    Blocked,
}

/// What a swap did.
#[derive(Clone, Copy, Debug, PartialEq, Eq, Structural)]
pub struct SwapOutcome {
    /// The input that was swapped, fees included.
    pub amount_in: u64,
    /// The output that the input bought.
    pub amount_out: u64,
    /// The fees that the input holds.
    pub fee_amount: u128,
    pub status: SwapStatus,
}

/// The place of the first initialized record of the tick `index` at or after
/// `from`.
pub open spec fn record_of_tick(ticks: Seq<Tick>, index: i32, from: nat) -> Option<nat>
    decreases ticks.len() - from,
{
    if from >= ticks.len() {
        None
    } else if ticks[from as int].initialized && ticks[from as int].tick_index == index {
        Some(from)
    } else {
        record_of_tick(ticks, index, from + 1)
    }
}

/// The active liquidity after a tick with the net liquidity `liquidity_net` has
/// been crossed: the net liquidity is added where the price rises and taken away
/// where it falls. A result outside the 128-bit range is refused with `MathError`.
pub open spec fn liquidity_after_crossing_spec(liquidity: u128, liquidity_net: i128, a_to_b: bool)
    -> Result<u128, Errors> {
    let after = if a_to_b {
        liquidity - liquidity_net
    } else {
        liquidity + liquidity_net
    };
    if 0 <= after <= u128::MAX {
        Ok(after as u128)
    } else {
        Err(Errors::MathError)
    }
}

/// One step of a swap that still has input: `swap_iteration` takes this step on
/// every argument.
///
/// Without an initialized tick beyond the current one the swap is blocked and
/// nothing changes. Otherwise the step runs in exact-input mode toward the price
/// of that tick, which has to lie on the curve (`InvalidTick`). Its input leaves
/// the remaining amount, its output joins the output, and its fee joins the fees
/// and the global fee growth of the incoming asset; a sum that leaves its range is
/// refused with `MathError`. Where the price reaches the target, the tick is
/// crossed: its record, which has to be among `ticks` and initialized
/// (`InvalidTick`), is brought up to date, its net liquidity is applied, and it becomes the current tick.
/// Where the price stops short, the current tick becomes the tick of the price.
pub open spec fn swap_iteration_spec(
    state: SwapState,
    ticks: Seq<Tick>,
    initialized_ticks: Seq<i32>,
    fee_rate: u128,
    a_to_b: bool,
) -> Result<(SwapState, Seq<Tick>, Progress), Errors> {
    match next_tick_spec(initialized_ticks, state.tick_current, a_to_b) {
        None => Ok((state, ticks, Progress::Blocked)),
        Some(next_tick) => if !tick_in_range(next_tick as int) {
            Err(Errors::InvalidTick)
        } else {
            let target = sqrt_price_at_tick(next_tick as int) as u128;
            match swap_step_spec(
                state.sqrt_price,
                target,
                state.liquidity,
                state.amount_remaining,
                fee_rate,
                true,
            ) {
                Err(e) => Err(e),
                Ok((step_in, step_out, next_price, fee)) => {
                    let growth = if a_to_b {
                        state.fee_growth_global_a
                    } else {
                        state.fee_growth_global_b
                    };
                    if state.amount_out + step_out > u128::MAX || state.fee_amount + fee
                        > u128::MAX || growth + fee > u128::MAX {
                        Err(Errors::MathError)
                    } else {
                        let stepped = SwapState {
                            sqrt_price: next_price,
                            tick_current: state.tick_current,
                            liquidity: state.liquidity,
                            amount_remaining: (state.amount_remaining - step_in) as u128,
                            amount_out: (state.amount_out + step_out) as u128,
                            fee_amount: (state.fee_amount + fee) as u128,
                            fee_growth_global_a: if a_to_b {
                                (growth + fee) as u128
                            } else {
                                state.fee_growth_global_a
                            },
                            fee_growth_global_b: if a_to_b {
                                state.fee_growth_global_b
                            } else {
                                (growth + fee) as u128
                            },
                        };
                        if next_price == target {
                            match record_of_tick(ticks, next_tick, 0) {
                                None => Err(Errors::InvalidTick),
                                Some(at) => match cross_tick_spec(
                                    ticks[at as int],
                                    stepped.fee_growth_global_a,
                                    stepped.fee_growth_global_b,
                                    a_to_b,
                                ) {
                                    Err(e) => Err(e),
                                    Ok(crossed) => match liquidity_after_crossing_spec(
                                        state.liquidity,
                                        crossed.liquidity_net,
                                        a_to_b,
                                    ) {
                                        Err(e) => Err(e),
                                        Ok(liquidity) => Ok(
                                            (
                                                SwapState {
                                                    tick_current: next_tick,
                                                    liquidity,
                                                    ..stepped
                                                },
                                                ticks.update(at as int, crossed),
                                                Progress::Crossed,
                                            ),
                                        ),
                                    },
                                },
                            }
                        } else if !(MIN_SQRT_PRICE <= next_price <= MAX_SQRT_PRICE) {
                            Err(Errors::InvalidTick)
                        } else {
                            Ok(
                                (
                                    SwapState {
                                        tick_current: tick_at_sqrt_price(next_price as nat) as i32,
                                        ..stepped
                                    },
                                    ticks,
                                    Progress::Settled,
                                ),
                            )
                        }
                    }
                },
            }
        },
    }
}

/// A swap from `state` on, with at most `steps_left` steps: the state and the tick
/// records at its end, and how it ended.
///
/// The swap is over when nothing remains. It steps on while ticks are crossed, and
/// ends with the first step that settles or is blocked. A swap that would take one
/// step more than `steps_left` is refused with `TooManyIterations`.
pub open spec fn swap_run_spec(
    state: SwapState,
    ticks: Seq<Tick>,
    initialized_ticks: Seq<i32>,
    fee_rate: u128,
    a_to_b: bool,
    steps_left: nat,
) -> Result<(SwapState, Seq<Tick>, SwapStatus), Errors>
    decreases steps_left,
{
    if state.amount_remaining == 0 {
        Ok((state, ticks, SwapStatus::Exhausted))
    } else if steps_left == 0 {
        Err(Errors::TooManyIterations)
    } else {
        match swap_iteration_spec(state, ticks, initialized_ticks, fee_rate, a_to_b) {
            Err(e) => Err(e),
            Ok((next, crossed, Progress::Crossed)) => swap_run_spec(
                next,
                crossed,
                initialized_ticks,
                fee_rate,
                a_to_b,
                (steps_left - 1) as nat,
            ),
            Ok((next, same, Progress::Settled)) => Ok(
                (
                    next,
                    same,
                    if next.amount_remaining == 0 {
                        SwapStatus::Exhausted
                    } else {
                        SwapStatus::Settled
                    },
                ),
            ),
            Ok((next, same, Progress::Blocked)) => Ok((next, same, SwapStatus::Blocked)),
        }
    }
}

/// The state in which a swap of `amount_in` starts on a pool.
pub open spec fn swap_start_spec(
    sqrt_price: u128,
    tick_current: i32,
    liquidity: u128,
    fee_growth_global_a: u128,
    fee_growth_global_b: u128,
    amount_in: u64,
) -> SwapState {
    SwapState {
        sqrt_price,
        tick_current,
        liquidity,
        amount_remaining: amount_in as u128,
        amount_out: 0,
        fee_amount: 0,
        fee_growth_global_a,
        fee_growth_global_b,
    }
}

/// A whole swap of `amount_in` on a pool: `swap_handler` brings this about on every
/// argument. It is the run of at most `MAX_SWAP_STEPS` steps from the pool's state,
/// at the pool's fee rate, refused with `TokenMaxExceeded` where the output does
/// not fit in 64 bits.
pub open spec fn swap_spec(pool: Pool, ticks: Seq<Tick>, amount_in: u64, a_to_b: bool) -> Result<
    (SwapState, Seq<Tick>, SwapStatus),
    Errors,
> {
    match swap_run_spec(
        swap_start_spec(
            pool.sqrt_price,
            pool.tick_current,
            pool.liquidity,
            pool.fee_growth_global_a,
            pool.fee_growth_global_b,
            amount_in,
        ),
        ticks,
        pool.initialized_ticks@,
        pool.fee as u128,
        a_to_b,
        MAX_SWAP_STEPS as nat,
    ) {
        Err(e) => Err(e),
        Ok((end, crossed, status)) => if end.amount_out > u64::MAX {
            Err(Errors::TokenMaxExceeded)
        } else {
            Ok((end, crossed, status))
        },
    }
}

/// The place of the first initialized record of the tick `index`.
fn find_record(ticks: &Vec<Tick>, index: i32) -> (r: Option<usize>)
    ensures
        r is None ==> record_of_tick(ticks@, index, 0) is None,
        r is Some ==> r->0 < ticks@.len() && record_of_tick(ticks@, index, 0) == Some(
            r->0 as nat,
        ),
{
    let mut i: usize = 0;
    while i < ticks.len()
        invariant
            i <= ticks@.len(),
            record_of_tick(ticks@, index, i as nat) == record_of_tick(ticks@, index, 0),
        decreases ticks@.len() - i,
    {
        if ticks[i].initialized && ticks[i].tick_index == index {
            return Some(i);
        }
        i = i + 1;
    }
    None
}

/// The active liquidity after a tick has been crossed.
fn liquidity_after_crossing(liquidity: u128, liquidity_net: i128, a_to_b: bool) -> (r: Result<
    u128,
    Errors,
>)
    ensures
        r == liquidity_after_crossing_spec(liquidity, liquidity_net, a_to_b),
{
    let magnitude: u128 = if liquidity_net >= 0 {
        liquidity_net as u128
    } else if liquidity_net == i128::MIN {
        0x8000_0000_0000_0000_0000_0000_0000_0000
    } else {
        (-liquidity_net) as u128
    };
    let grows = (liquidity_net >= 0) != a_to_b;
    let after = if grows {
        liquidity.checked_add(magnitude)
    } else {
        liquidity.checked_sub(magnitude)
    };
    match after {
        Some(l) => Ok(l),
        None => Err(Errors::MathError),
    }
}

/// Takes one step of a swap that still has input, and says how the step ended.
/// The records of `ticks` are changed only where a tick is crossed.
pub fn swap_iteration(
    state: SwapState,
    ticks: &mut Vec<Tick>,
    initialized_ticks: &Vec<i32>,
    fee_rate: u128,
    a_to_b: bool,
) -> (r: Result<(SwapState, Progress), Errors>)
    ensures
        match swap_iteration_spec(state, old(ticks)@, initialized_ticks@, fee_rate, a_to_b) {
            Ok((next, crossed, progress)) => {
                &&& r == Ok::<(SwapState, Progress), Errors>((next, progress))
                &&& final(ticks)@ == crossed
            },
            Err(e) => r == Err::<(SwapState, Progress), Errors>(e) && final(ticks)@ == old(ticks)@,
        },
{
    let next_tick = match get_next_tick(state.tick_current, initialized_ticks, a_to_b) {
        Ok(t) => t,
        Err(_) => { return Ok((state, Progress::Blocked)); },
    };
    let target = get_sqrt_price_from_tick(next_tick)?;
    let (step_in, step_out, next_price, fee) = compute_swap_step(
        state.sqrt_price,
        target,
        state.liquidity,
        state.amount_remaining,
        fee_rate,
        true,
    )?;
    let growth = if a_to_b {
        state.fee_growth_global_a
    } else {
        state.fee_growth_global_b
    };
    let amount_remaining = state.amount_remaining - step_in;
    let amount_out = match state.amount_out.checked_add(step_out) {
        Some(n) => n,
        None => { return Err(Errors::MathError); },
    };
    let fee_amount = match state.fee_amount.checked_add(fee) {
        Some(n) => n,
        None => { return Err(Errors::MathError); },
    };
    let grown = match growth.checked_add(fee) {
        Some(n) => n,
        None => { return Err(Errors::MathError); },
    };
    let stepped = SwapState {
        sqrt_price: next_price,
        tick_current: state.tick_current,
        liquidity: state.liquidity,
        amount_remaining,
        amount_out,
        fee_amount,
        fee_growth_global_a: if a_to_b {
            grown
        } else {
            state.fee_growth_global_a
        },
        fee_growth_global_b: if a_to_b {
            state.fee_growth_global_b
        } else {
            grown
        },
    };
    if next_price == target {
        let at = match find_record(ticks, next_tick) {
            Some(at) => at,
            None => { return Err(Errors::InvalidTick); },
        };
        let mut record = ticks[at];
        match cross_tick(
            &mut record,
            stepped.fee_growth_global_a,
            stepped.fee_growth_global_b,
            a_to_b,
        ) {
            Ok(()) => {},
            Err(e) => {
                return Err(e);
            },
        }
        let liquidity = match liquidity_after_crossing(
            state.liquidity,
            record.liquidity_net,
            a_to_b,
        ) {
            Ok(l) => l,
            Err(e) => {
                return Err(e);
            },
        };
        ticks.set(at, record);
        Ok((SwapState { tick_current: next_tick, liquidity, ..stepped }, Progress::Crossed))
    } else {
        let tick_current = get_tick_from_sqrt_price(next_price)?;
        Ok((SwapState { tick_current, ..stepped }, Progress::Settled))
    }
}

/// The global fee growth of the asset that comes in.
pub open spec fn fee_growth_in(state: SwapState, a_to_b: bool) -> u128 {
    if a_to_b {
        state.fee_growth_global_a
    } else {
        state.fee_growth_global_b
    }
}

/// The global fee growth of the asset that goes out.
pub open spec fn fee_growth_out(state: SwapState, a_to_b: bool) -> u128 {
    if a_to_b {
        state.fee_growth_global_b
    } else {
        state.fee_growth_global_a
    }
}

/// Whether the records `after` are the records `before` but for their fee growth
/// outside: a swap changes nothing else in a record, and neither adds nor drops
/// one.
pub open spec fn same_ticks_but_fee_growth(before: Seq<Tick>, after: Seq<Tick>) -> bool {
    &&& after.len() == before.len()
    &&& forall|i: int|
        0 <= i < before.len() ==> {
            &&& (#[trigger] after[i]).tick_index == before[i].tick_index
            &&& after[i].liquidity_net == before[i].liquidity_net
            &&& after[i].initialized == before[i].initialized
            &&& after[i].bump == before[i].bump
        }
}

/// What a span of a swap keeps, from the state `from` with the records `before` to
/// the state `to` with the records `after`: the input only shrinks, the output
/// and the fees only grow, the global fee growth of the incoming asset grows by
/// the fees taken and that of the outgoing asset stays, the records change in
/// their fee growth only, and a price that was in the bracket of the
/// current tick is so again. The fees are a part of the input that was swapped.
pub open spec fn swap_span_keeps(
    from: SwapState,
    before: Seq<Tick>,
    to: SwapState,
    after: Seq<Tick>,
    a_to_b: bool,
) -> bool {
    &&& to.amount_remaining <= from.amount_remaining
    &&& to.amount_out >= from.amount_out
    &&& to.fee_amount >= from.fee_amount
    &&& to.fee_amount - from.fee_amount <= from.amount_remaining - to.amount_remaining
    &&& fee_growth_in(to, a_to_b) - fee_growth_in(from, a_to_b) == to.fee_amount - from.fee_amount
    &&& fee_growth_out(to, a_to_b) == fee_growth_out(from, a_to_b)
    &&& same_ticks_but_fee_growth(before, after)
    &&& price_in_bracket(from.tick_current, from.sqrt_price) ==> price_in_bracket(
        to.tick_current,
        to.sqrt_price,
    )
}

/// What `record_of_tick` finds is a place among the records, of a record of the
/// tick asked for.
proof fn lemma_record_of_tick(ticks: Seq<Tick>, index: i32, from: nat)
    ensures
        record_of_tick(ticks, index, from) matches Some(at) ==> from <= at < ticks.len()
            && ticks[at as int].tick_index == index,
    decreases ticks.len() - from,
{
    if from < ticks.len() && !(ticks[from as int].initialized && ticks[from as int].tick_index
        == index) {
        lemma_record_of_tick(ticks, index, from + 1);
    }
}

/// Every step of a swap keeps what `swap_span_keeps` names.
pub proof fn lemma_swap_iteration_keeps(
    state: SwapState,
    ticks: Seq<Tick>,
    initialized_ticks: Seq<i32>,
    fee_rate: u128,
    a_to_b: bool,
)
    requires
        swap_iteration_spec(state, ticks, initialized_ticks, fee_rate, a_to_b) is Ok,
    ensures
        ({
            let (next, crossed, progress) = swap_iteration_spec(
                state,
                ticks,
                initialized_ticks,
                fee_rate,
                a_to_b,
            )->Ok_0;
            swap_span_keeps(state, ticks, next, crossed, a_to_b)
        }),
{
    let (next, crossed, progress) = swap_iteration_spec(
        state,
        ticks,
        initialized_ticks,
        fee_rate,
        a_to_b,
    )->Ok_0;
    if progress != Progress::Blocked {
        let next_tick = next_tick_spec(initialized_ticks, state.tick_current, a_to_b)->0;
        lemma_swap_step_conservation(
            state.sqrt_price,
            sqrt_price_at_tick(next_tick as int) as u128,
            state.liquidity,
            state.amount_remaining,
            fee_rate,
            true,
        );
    }
    match progress {
        Progress::Blocked => {},
        Progress::Settled => {
            lemma_tick_brackets_price(next.sqrt_price as nat);
        },
        Progress::Crossed => {
            let next_tick = next_tick_spec(initialized_ticks, state.tick_current, a_to_b)->0;
            lemma_sqrt_price_bounds(next_tick as int);
            if next_tick < MAX_TICK {
                lemma_sqrt_price_increasing(next_tick as int, next_tick + 1);
            }
            lemma_record_of_tick(ticks, next_tick, 0);
        },
    }
}

/// No step of a swap gives out more of the outgoing asset than the active
/// liquidity holds between the price at which the step starts and the price of
/// the next initialized tick. The output of a swap is the sum of the outputs of
/// its steps.
pub proof fn lemma_swap_iteration_output_within_reserve(
    state: SwapState,
    ticks: Seq<Tick>,
    initialized_ticks: Seq<i32>,
    fee_rate: u128,
    a_to_b: bool,
)
    requires
        swap_iteration_spec(state, ticks, initialized_ticks, fee_rate, a_to_b) is Ok,
        next_tick_spec(initialized_ticks, state.tick_current, a_to_b) is Some,
    ensures
        ({
            let next = swap_iteration_spec(state, ticks, initialized_ticks, fee_rate, a_to_b)->Ok_0.0;
            let next_tick = next_tick_spec(initialized_ticks, state.tick_current, a_to_b)->0;
            next.amount_out - state.amount_out <= output_reserve_spec(
                state.sqrt_price,
                sqrt_price_at_tick(next_tick as int) as u128,
                state.liquidity,
            )
        }),
{
    let next_tick = next_tick_spec(initialized_ticks, state.tick_current, a_to_b)->0;
    lemma_swap_step_output_within_reserve(
        state.sqrt_price,
        sqrt_price_at_tick(next_tick as int) as u128,
        state.liquidity,
        state.amount_remaining,
        fee_rate,
        true,
    );
}

/// A swap keeps, from its first state to its last, what `swap_span_keeps` names. So
/// the global fee growth of the incoming asset has grown by exactly the sum of the
/// fees of the steps taken.
pub proof fn lemma_swap_run_keeps(
    state: SwapState,
    ticks: Seq<Tick>,
    initialized_ticks: Seq<i32>,
    fee_rate: u128,
    a_to_b: bool,
    steps_left: nat,
)
    requires
        swap_run_spec(state, ticks, initialized_ticks, fee_rate, a_to_b, steps_left) is Ok,
    ensures
        ({
            let (end, crossed, status) = swap_run_spec(
                state,
                ticks,
                initialized_ticks,
                fee_rate,
                a_to_b,
                steps_left,
            )->Ok_0;
            swap_span_keeps(state, ticks, end, crossed, a_to_b)
        }),
    decreases steps_left,
{
    if state.amount_remaining != 0 && steps_left != 0 {
        lemma_swap_iteration_keeps(state, ticks, initialized_ticks, fee_rate, a_to_b);
        let (next, crossed, progress) = swap_iteration_spec(
            state,
            ticks,
            initialized_ticks,
            fee_rate,
            a_to_b,
        )->Ok_0;
        if progress == Progress::Crossed {
            lemma_swap_run_keeps(
                next,
                crossed,
                initialized_ticks,
                fee_rate,
                a_to_b,
                (steps_left - 1) as nat,
            );
        }
    }
}

/// A copy of the records, for the swap to work on.
fn copy_records(ticks: &Vec<Tick>) -> (r: Vec<Tick>)
    ensures
        r@ == ticks@,
{
    let mut copy: Vec<Tick> = Vec::new();
    let mut i: usize = 0;
    while i < ticks.len()
        invariant
            i <= ticks@.len(),
            copy@ == ticks@.take(i as int),
        decreases ticks@.len() - i,
    {
        copy.push(ticks[i]);
        proof {
            assert(copy@ =~= ticks@.take(i + 1));
        }
        i = i + 1;
    }
    proof {
        assert(ticks@.take(i as int) =~= ticks@);
    }
    copy
}

/// Swaps `amount_in` of asset A for asset B where `a_to_b` holds, and of asset B
/// for asset A where it does not.
///
/// `ticks` holds the records of the ticks that the swap may cross. On success the
/// pool and the records are brought up to date, and the amounts that are to change
/// hands come back. A swap that runs out of initialized ticks is not refused: it
/// ends there, with what it has swapped. On failure nothing is changed.
pub fn swap_handler(pool: &mut Pool, ticks: &mut Vec<Tick>, amount_in: u64, a_to_b: bool) -> (r:
    Result<SwapOutcome, Errors>)
    ensures
        match swap_spec(*old(pool), old(ticks)@, amount_in, a_to_b) {
            Ok((end, crossed, status)) => {
                &&& r matches Ok(outcome) && {
                    &&& outcome.amount_in + end.amount_remaining == amount_in
                    &&& outcome.amount_out == end.amount_out
                    &&& outcome.fee_amount == end.fee_amount
                    &&& outcome.status == status
                }
                &&& final(pool).sqrt_price == end.sqrt_price
                &&& final(pool).tick_current == end.tick_current
                &&& final(pool).liquidity == end.liquidity
                &&& final(pool).fee_growth_global_a == end.fee_growth_global_a
                &&& final(pool).fee_growth_global_b == end.fee_growth_global_b
                &&& final(pool).initialized_ticks@ == old(pool).initialized_ticks@
                &&& final(pool).same_terms(*old(pool))
                &&& final(ticks)@ == crossed
            },
            Err(e) => {
                &&& r == Err::<SwapOutcome, Errors>(e)
                &&& *final(pool) == *old(pool)
                &&& final(ticks)@ == old(ticks)@
            },
        },
        old(pool).well_formed() ==> final(pool).well_formed(),
        r matches Ok(outcome) ==> {
            &&& outcome.amount_in <= amount_in
            &&& outcome.fee_amount <= outcome.amount_in
            &&& same_ticks_but_fee_growth(old(ticks)@, final(ticks)@)
            &&& if a_to_b {
                &&& final(pool).fee_growth_global_a == old(pool).fee_growth_global_a
                    + outcome.fee_amount
                &&& final(pool).fee_growth_global_b == old(pool).fee_growth_global_b
            } else {
                &&& final(pool).fee_growth_global_b == old(pool).fee_growth_global_b
                    + outcome.fee_amount
                &&& final(pool).fee_growth_global_a == old(pool).fee_growth_global_a
            }
        },
{
    let fee_rate = pool.fee as u128;
    let start = SwapState {
        sqrt_price: pool.sqrt_price,
        tick_current: pool.tick_current,
        liquidity: pool.liquidity,
        amount_remaining: amount_in as u128,
        amount_out: 0,
        fee_amount: 0,
        fee_growth_global_a: pool.fee_growth_global_a,
        fee_growth_global_b: pool.fee_growth_global_b,
    };
    let ghost whole = swap_run_spec(
        start,
        ticks@,
        pool.initialized_ticks@,
        fee_rate,
        a_to_b,
        MAX_SWAP_STEPS as nat,
    );
    let mut work = copy_records(ticks);
    let mut state = start;
    let mut steps: u32 = 0;
    let mut status = SwapStatus::Exhausted;
    let mut running = state.amount_remaining > 0;
    while running
        invariant
            steps <= MAX_SWAP_STEPS,
            *pool == *old(pool),
            ticks@ == old(ticks)@,
            fee_rate == pool.fee,
            whole == swap_run_spec(
                swap_start_spec(
                    pool.sqrt_price,
                    pool.tick_current,
                    pool.liquidity,
                    pool.fee_growth_global_a,
                    pool.fee_growth_global_b,
                    amount_in,
                ),
                ticks@,
                pool.initialized_ticks@,
                fee_rate,
                a_to_b,
                MAX_SWAP_STEPS as nat,
            ),
            running ==> state.amount_remaining > 0 && whole == swap_run_spec(
                state,
                work@,
                pool.initialized_ticks@,
                fee_rate,
                a_to_b,
                (MAX_SWAP_STEPS - steps) as nat,
            ),
            !running ==> whole == Ok::<(SwapState, Seq<Tick>, SwapStatus), Errors>(
                (state, work@, status),
            ),
        decreases MAX_SWAP_STEPS - steps,
    {
        if steps == MAX_SWAP_STEPS {
            return Err(Errors::TooManyIterations);
        }
        let (next, progress) = match swap_iteration(
            state,
            &mut work,
            &pool.initialized_ticks,
            fee_rate,
            a_to_b,
        ) {
            Ok(stepped) => stepped,
            Err(e) => {
                return Err(e);
            },
        };
        state = next;
        steps = steps + 1;
        match progress {
            Progress::Crossed => {
                running = state.amount_remaining > 0;
                status = SwapStatus::Exhausted;
            },
            Progress::Settled => {
                running = false;
                status = if state.amount_remaining == 0 {
                    SwapStatus::Exhausted
                } else {
                    SwapStatus::Settled
                };
            },
            Progress::Blocked => {
                running = false;
                status = SwapStatus::Blocked;
            },
        }
    }
    if state.amount_out > u64::MAX as u128 {
        return Err(Errors::TokenMaxExceeded);
    }
    proof {
        lemma_swap_run_keeps(
            start,
            ticks@,
            pool.initialized_ticks@,
            fee_rate,
            a_to_b,
            MAX_SWAP_STEPS as nat,
        );
    }
    let outcome = SwapOutcome {
        amount_in: (amount_in as u128 - state.amount_remaining) as u64,
        amount_out: state.amount_out as u64,
        fee_amount: state.fee_amount,
        status,
    };
    pool.sqrt_price = state.sqrt_price;
    pool.tick_current = state.tick_current;
    pool.liquidity = state.liquidity;
    pool.fee_growth_global_a = state.fee_growth_global_a;
    pool.fee_growth_global_b = state.fee_growth_global_b;
    *ticks = work;
    Ok(outcome)
}

} // verus!
