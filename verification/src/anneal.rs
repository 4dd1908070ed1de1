use vstd::prelude::*;

verus! {

/// Fixed-point scale for acceptance probabilities: a probability lives in
/// `[0, PROB_ONE]`, with `PROB_ONE` standing for one.
pub const PROB_ONE: u64 = 0x100_0000_0000;

/// `k` repeated fixed-point squarings of `p`.
pub open spec fn spec_sq(p: int, k: nat) -> int
    decreases k,
{
    if k == 0 {
        p
    } else {
        spec_sq((p * p) / (PROB_ONE as int), (k - 1) as nat)
    }
}

/// The fixed-point acceptance probability for a candidate that changes the
/// incumbent score by `delta`, at a temperature of `temp` thousandths: one
/// for a non-negative change, `exp(1000 * delta / temp)` otherwise, and zero
/// once the exponent is too negative to matter at this scale.  The
/// exponential is `(1 + x/2^20)^(2^20)` evaluated by repeated squaring.
pub open spec fn spec_prob(delta: int, temp: int) -> int {
    if delta >= 0 {
        PROB_ONE as int
    } else {
        let m = ((-delta) * 1_000_000) / temp;
        if m >= 32_000 {
            0
        } else {
            spec_sq(PROB_ONE - (m * 1_048_576) / 1000, 20)
        }
    }
}

/// The annealing acceptance rule: a strict improvement is always accepted;
/// otherwise the acceptance probability is compared against a draw of 256
/// discrete levels, `draw / 255`.  The coarse one-byte draw is a deliberate
/// carried-over behavior, not a precision target.
pub open spec fn spec_accepts(delta: int, temp: int, draw: int) -> bool {
    delta > 0 || spec_prob(delta, temp) * 255 > draw * (PROB_ONE as int)
}

/// The temperature at iteration `i` of `number`: linear interpolation from
/// `start` to `end` thousandths, floored at one thousandth so that the
/// acceptance exponent is always defined.
pub open spec fn spec_temperature(start: int, end: int, i: int, number: int) -> int {
    let raw = if end >= start {
        start + ((end - start) * i) / number
    } else {
        start - ((start - end) * i) / number
    };
    if raw < 1 {
        1
    } else {
        raw
    }
}

proof fn lemma_sq_of_one(k: nat)
    ensures
        spec_sq(PROB_ONE as int, k) == PROB_ONE as int,
    decreases k,
{
    if k > 0 {
        assert((PROB_ONE as int) * (PROB_ONE as int) / (PROB_ONE as int) == PROB_ONE as int);
        lemma_sq_of_one((k - 1) as nat);
    }
}

/// Computes the interpolated temperature of the schedule.
pub fn anneal_temperature(start_milli: u64, end_milli: u64, i: usize, number: usize) -> (t: u64)
    requires
        1 <= number,
        i < number,
        start_milli <= 1_000_000_000_000,
        end_milli <= 1_000_000_000_000,
    ensures
        t as int == spec_temperature(start_milli as int, end_milli as int, i as int, number as int),
        1 <= t <= 1_000_000_000_000,
{
    let raw: u64 = if end_milli >= start_milli {
        let diff = end_milli - start_milli;
        proof {
            assert((diff as int) * (i as int) < 0x1_0000_0000_0000_0000_0000_0000_0000_0000)
                by (nonlinear_arith)
                requires
                    0 <= (diff as int) <= 1_000_000_000_000,
                    0 <= (i as int) < 0x1_0000_0000_0000_0000,
            ;
        }
        let scaled = ((diff as u128) * (i as u128)) / (number as u128);
        proof {
            assert((diff as int) * (i as int) <= (diff as int) * (number as int))
                by (nonlinear_arith)
                requires 0 <= diff as int, 0 <= i as int <= number as int;
            assert((diff as int) * (number as int) / (number as int) == diff as int)
                by (nonlinear_arith)
                requires 1 <= number as int;
            assert((diff as int) * (i as int) / (number as int)
                <= (diff as int) * (number as int) / (number as int))
                by (nonlinear_arith)
                requires
                    1 <= number as int,
                    (diff as int) * (i as int) <= (diff as int) * (number as int),
                    0 <= (diff as int) * (i as int);
        }
        start_milli + (scaled as u64)
    } else {
        let diff = start_milli - end_milli;
        proof {
            assert((diff as int) * (i as int) < 0x1_0000_0000_0000_0000_0000_0000_0000_0000)
                by (nonlinear_arith)
                requires
                    0 <= (diff as int) <= 1_000_000_000_000,
                    0 <= (i as int) < 0x1_0000_0000_0000_0000,
            ;
        }
        let scaled = ((diff as u128) * (i as u128)) / (number as u128);
        proof {
            assert((diff as int) * (i as int) <= (diff as int) * (number as int))
                by (nonlinear_arith)
                requires 0 <= diff as int, 0 <= i as int <= number as int;
            assert((diff as int) * (number as int) / (number as int) == diff as int)
                by (nonlinear_arith)
                requires 1 <= number as int;
            assert((diff as int) * (i as int) / (number as int)
                <= (diff as int) * (number as int) / (number as int))
                by (nonlinear_arith)
                requires
                    1 <= number as int,
                    (diff as int) * (i as int) <= (diff as int) * (number as int),
                    0 <= (diff as int) * (i as int);
        }
        start_milli - (scaled as u64)
    };
    if raw < 1 {
        1
    } else {
        raw
    }
}

/// Decides acceptance for a score change of `delta` at `temp` thousandths,
/// against a one-byte uniform draw.
pub fn accepts(delta: i64, temp: u64, draw: u8) -> (b: bool)
    requires
        1 <= temp <= 1_000_000_000_000,
    ensures
        b == spec_accepts(delta as int, temp as int, draw as int),
{
    if delta > 0 {
        return true;
    }
    let mag: u128 = (-(delta as i128)) as u128;
    let m128: u128 = (mag * 1_000_000) / (temp as u128);
    proof {
        assert(mag as int == -(delta as int));
    }
    if m128 >= 32_000 {
        proof {
            if delta < 0 {
                assert(spec_prob(delta as int, temp as int) == 0);
                assert((draw as int) * (PROB_ONE as int) >= 0) by (nonlinear_arith)
                    requires 0 <= draw as int;
            } else {
                assert(delta == 0);
                assert(mag == 0);
                assert(false);
            }
        }
        return false;
    }
    let m = m128 as u64;
    let base: u64 = PROB_ONE - (m * 1_048_576) / 1000;
    let mut p: u128 = base as u128;
    let ghost target = spec_sq(base as int, 20);
    let mut k: usize = 0;
    while k < 20
        invariant
            p <= PROB_ONE as u128,
            spec_sq(p as int, (20 - k) as nat) == target,
            k <= 20,
        decreases 20 - k,
    {
        proof {
            assert((p as int) * (p as int) <= (PROB_ONE as int) * (PROB_ONE as int))
                by (nonlinear_arith)
                requires 0 <= p as int <= PROB_ONE as int;
            assert((p as int) * (p as int) / (PROB_ONE as int) <= PROB_ONE as int)
                by (nonlinear_arith)
                requires
                    0 <= (p as int) * (p as int) <= (PROB_ONE as int) * (PROB_ONE as int),
                    1 <= PROB_ONE as int;
        }
        p = (p * p) / (PROB_ONE as u128);
        k += 1;
    }
    proof {
        if delta == 0 {
            assert(m == 0);
            assert(base == PROB_ONE);
            lemma_sq_of_one(20);
            assert(p as int == PROB_ONE as int);
        } else {
            assert(spec_prob(delta as int, temp as int) == target);
        }
        assert(p as int == spec_prob(delta as int, temp as int));
    }
    let lhs: u128 = p * 255;
    let rhs: u128 = (draw as u128) * (PROB_ONE as u128);
    lhs > rhs
}

/// Law: with the temperature at its floor of one thousandth, the acceptance
/// rule is hill climbing's.  A candidate that strictly lowers the score is
/// rejected whatever the draw, and a strict improvement is always accepted;
/// only candidates that tie the incumbent exactly are treated differently.
pub proof fn lemma_floor_temperature_acts_greedily(delta: int, draw: int)
    requires
        0 <= draw < 256,
        delta != 0,
    ensures
        spec_accepts(delta, 1, draw) == (delta > 0),
{
    if delta < 0 {
        assert((-delta) >= 1);
        assert((-delta) * 1_000_000 >= 1_000_000) by (nonlinear_arith)
            requires (-delta) >= 1;
        assert(((-delta) * 1_000_000) / 1 == (-delta) * 1_000_000);
        assert(spec_prob(delta, 1) == 0);
        assert(draw * (PROB_ONE as int) >= 0) by (nonlinear_arith)
            requires 0 <= draw;
    }
}

/// Law: a schedule whose two endpoints are both zero is pinned at the floor
/// for every iteration, so by the previous law the whole run climbs.
pub proof fn lemma_zero_schedule_is_floored(i: int, number: int)
    requires
        0 <= i,
        1 <= number,
    ensures
        spec_temperature(0, 0, i, number) == 1,
{
}

} // verus!
