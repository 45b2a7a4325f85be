//! The iteration policy of the two Z-factor correlations, and the floor on
//! what they yield.
//!
//! Both correlations find a root by Newton-Raphson steps. What a step
//! computes is floating-point arithmetic and is handed in by the caller as an
//! evaluator; when to step, when to stop and which iterate to hand back is
//! decided here.

use vstd::prelude::*;
use vstd::arithmetic::power2::{pow2, lemma_pow2_adds, lemma2_to64, lemma2_to64_rest};
use crate::binary64::{abs, below, is_nan, lt, magnitude, nan, value};

verus! {

/// The published correlations for the compressibility factor.
#[derive(Clone, Copy, Debug, PartialEq, Eq, Structural)]
pub enum ZCorrelations {
    /// Hall and Yarborough: the root is a reduced density.
    HallAndYarborough,
    /// Dranchuk and Abou-Kassem: the root is the factor itself.
    DranchkAndAbouKassem,
}

/// The most evaluations one solve makes.
pub const MAX_EVALUATIONS: usize = 1000;

/// The bit pattern of 1.0.
pub const ONE: u64 = 0x3ff0_0000_0000_0000;

/// The bit pattern of 0.5.
pub const ONE_HALF: u64 = 0x3fe0_0000_0000_0000;

/// The bit pattern of the binary64 number nearest to 0.001.
pub const ONE_THOUSANDTH: u64 = 0x3f50_624d_d2f1_a9fc;

/// The bit pattern of the binary64 number nearest to 0.01, the least
/// compressibility factor that is reported.
pub const Z_FLOOR: u64 = 0x3f84_7ae1_47ae_147b;

/// What one Newton-Raphson step found at a point.
#[derive(Clone, Copy, Debug)]
pub struct Evaluation {
    /// The residual at the point.
    pub residual: u64,
    /// The point that the step proposes next.
    pub update: u64,
}

/// The point at which a correlation is evaluated first.
pub open spec fn first_guess(correlation: ZCorrelations) -> u64 {
    match correlation {
        ZCorrelations::HallAndYarborough => ONE_THOUSANDTH,
        ZCorrelations::DranchkAndAbouKassem => ONE_HALF,
    }
}

/// The residual that the stopping rule looks at after the evaluations in
/// `trace`: before the first one it is taken to be 1.
pub open spec fn last_residual(trace: Seq<Evaluation>) -> u64 {
    if trace.len() == 0 {
        ONE
    } else {
        trace.last().residual
    }
}

/// The point that would be evaluated after the evaluations in `trace`.
pub open spec fn next_point(correlation: ZCorrelations, trace: Seq<Evaluation>) -> u64 {
    if trace.len() == 0 {
        first_guess(correlation)
    } else {
        trace.last().update
    }
}

/// The point at which evaluation `i` of `trace` was made.
pub open spec fn point(correlation: ZCorrelations, trace: Seq<Evaluation>, i: int) -> u64 {
    next_point(correlation, trace.take(i))
}

/// The residual is smaller in absolute value than the tolerance. A NaN on
/// either side is never within tolerance.
pub open spec fn within(residual: u64, tolerance: u64) -> bool {
    below(magnitude(residual), tolerance)
}

/// After the evaluations in `trace` no further one is made.
pub open spec fn stops(tolerance: u64, trace: Seq<Evaluation>) -> bool {
    trace.len() >= MAX_EVALUATIONS || within(last_residual(trace), tolerance)
}

/// `trace` is a whole solve: it went on while the rule said so, and no longer.
pub open spec fn is_run(tolerance: u64, trace: Seq<Evaluation>) -> bool {
    &&& forall|i: int| 0 <= i < trace.len() ==> !stops(tolerance, #[trigger] trace.take(i))
    &&& stops(tolerance, trace)
}

/// Each evaluation in `trace` is an answer that `answers` allows at the point
/// where it was made.
pub open spec fn follows(
    answers: spec_fn(u64, Evaluation) -> bool,
    correlation: ZCorrelations,
    trace: Seq<Evaluation>,
) -> bool {
    forall|i: int|
        0 <= i < trace.len() ==> answers(#[trigger] point(correlation, trace, i), trace[i])
}

/// The root that a solve with the evaluations in `trace` hands back.
///
/// Hall and Yarborough yields the last point that was evaluated (1 if none
/// was), Dranchuk and Abou-Kassem the point proposed last (the first guess if
/// none was).
pub open spec fn reported(correlation: ZCorrelations, trace: Seq<Evaluation>) -> u64 {
    match correlation {
        ZCorrelations::HallAndYarborough => if trace.len() == 0 {
            ONE
        } else {
            point(correlation, trace, trace.len() - 1)
        },
        ZCorrelations::DranchkAndAbouKassem => next_point(correlation, trace),
    }
}

/// A compressibility factor raised to the floor: one under 0.01, or one that
/// is no number at all, becomes 0.01; any other is kept as it is.
pub open spec fn floored(z: u64) -> u64 {
    if nan(z) || below(z, Z_FLOOR) {
        Z_FLOOR
    } else {
        z
    }
}

/// At each point `answers` allows one evaluation at most.
pub open spec fn single_valued(answers: spec_fn(u64, Evaluation) -> bool) -> bool {
    forall|y: u64, e1: Evaluation, e2: Evaluation|
        #![trigger answers(y, e1), answers(y, e2)]
        answers(y, e1) && answers(y, e2) ==> e1 == e2
}

/// The point at which a correlation is evaluated first.
pub fn starting_point(correlation: ZCorrelations) -> (y: u64)
    ensures
        y == first_guess(correlation),
{
    match correlation {
        ZCorrelations::HallAndYarborough => ONE_THOUSANDTH,
        ZCorrelations::DranchkAndAbouKassem => ONE_HALF,
    }
}

/// Whether a residual is within tolerance.
pub fn within_tolerance(residual: u64, tolerance: u64) -> (r: bool)
    ensures
        r == within(residual, tolerance),
{
    lt(abs(residual), tolerance)
}

/// Runs one correlation's Newton-Raphson iteration and returns its root.
///
/// `evaluate` is called at the first guess and then at each proposed point,
/// until a residual is within `tolerance` or `MAX_EVALUATIONS` calls were
/// made. Nothing tells the caller which of the two ended the solve.
pub fn solve<F: Fn(u64) -> Evaluation>(
    correlation: ZCorrelations,
    tolerance: u64,
    evaluate: F,
) -> (root: u64)
    requires
        forall|y: u64| call_requires(evaluate, (y,)),
    ensures
        exists|trace: Seq<Evaluation>|
            #![trigger is_run(tolerance, trace)]
            {
                &&& is_run(tolerance, trace)
                &&& follows(
                    |y: u64, e: Evaluation| call_ensures(evaluate, (y,), e),
                    correlation,
                    trace,
                )
                &&& root == reported(correlation, trace)
            },
{
    let ghost answers = |y: u64, e: Evaluation| call_ensures(evaluate, (y,), e);
    let ghost mut trace: Seq<Evaluation> = Seq::empty();
    let mut evaluated: u64 = ONE;
    let mut proposed: u64 = starting_point(correlation);
    let mut residual: u64 = ONE;
    let mut count: usize = 0;
    while count < MAX_EVALUATIONS && !within_tolerance(residual, tolerance)
        invariant
            forall|y: u64| call_requires(evaluate, (y,)),
            answers == |y: u64, e: Evaluation| call_ensures(evaluate, (y,), e),
            count == trace.len(),
            count <= MAX_EVALUATIONS,
            residual == last_residual(trace),
            proposed == next_point(correlation, trace),
            correlation == ZCorrelations::HallAndYarborough ==> evaluated == reported(
                correlation,
                trace,
            ),
            forall|i: int| 0 <= i < trace.len() ==> !stops(tolerance, #[trigger] trace.take(i)),
            follows(answers, correlation, trace),
        decreases MAX_EVALUATIONS - count,
    {
        evaluated = proposed;
        let found = evaluate(evaluated);
        residual = found.residual;
        proposed = found.update;
        count = count + 1;
        proof {
            let before = trace;
            trace = trace.push(found);
            assert(trace.take(before.len() as int) =~= before);
            assert forall|i: int| 0 <= i < trace.len() implies !stops(
                tolerance,
                #[trigger] trace.take(i),
            ) by {
                if i < before.len() {
                    assert(trace.take(i) =~= before.take(i));
                }
            }
            assert forall|i: int| 0 <= i < trace.len() implies answers(
                #[trigger] point(correlation, trace, i),
                trace[i],
            ) by {
                if i < before.len() {
                    assert(trace.take(i) =~= before.take(i));
                    assert(answers(point(correlation, before, i), before[i]));
                }
            }
        }
    }
    assert(is_run(tolerance, trace));
    match correlation {
        ZCorrelations::HallAndYarborough => evaluated,
        ZCorrelations::DranchkAndAbouKassem => proposed,
    }
}

/// Raises a compressibility factor to the floor. What comes back is a number
/// and is not under 0.01, whatever went in.
pub fn apply_floor(z: u64) -> (r: u64)
    ensures
        r == floored(z),
        !nan(r),
        !below(r, Z_FLOOR),
{
    if is_nan(z) || lt(z, Z_FLOOR) {
        Z_FLOOR
    } else {
        z
    }
}

/// The named patterns stand for the numbers in their names. Values count
/// units of 2^-1074, so 2^1074 is the number 1; the two that are no binary
/// fractions lie above their decimal by less than half the spacing of the
/// patterns around them.
pub proof fn lemma_named_values()
    ensures
        value(ONE) == pow2(1074),
        2 * value(ONE_HALF) == pow2(1074),
        1000 * value(ONE_THOUSANDTH) == pow2(1074) + 96 * pow2(1012),
        100 * value(Z_FLOOR) == pow2(1074) + 12 * pow2(1015),
{
    lemma2_to64();
    lemma2_to64_rest();
    lemma_pow2_adds(52, 1022);
    lemma_pow2_adds(1, 1073);
    lemma_pow2_adds(53, 1021);
    lemma_pow2_adds(62, 1012);
    lemma_pow2_adds(59, 1015);
    let p1012 = pow2(1012) as int;
    let p1015 = pow2(1015) as int;
    let p1021 = pow2(1021) as int;
    let p1022 = pow2(1022) as int;
    assert(value(ONE) == 0x10_0000_0000_0000 * p1022);
    assert(value(ONE_HALF) == 0x10_0000_0000_0000 * p1021);
    assert(value(ONE_THOUSANDTH) == 4611686018427388 * p1012);
    assert(value(Z_FLOOR) == 5764607523034235 * p1015);
    assert(2 * (0x10_0000_0000_0000 * p1021) == 0x20_0000_0000_0000 * p1021) by (nonlinear_arith);
    assert(1000 * (4611686018427388 * p1012) == 0x4000_0000_0000_0000 * p1012 + 96 * p1012)
        by (nonlinear_arith);
    assert(100 * (5764607523034235 * p1015) == 0x800_0000_0000_0000 * p1015 + 12 * p1015)
        by (nonlinear_arith);
}

/// The floor holds for every input: the floored factor is a number, and as a
/// number it is at least one hundredth.
pub proof fn lemma_floored_is_at_least_one_hundredth(z: u64)
    ensures
        !nan(floored(z)),
        100 * value(floored(z)) >= pow2(1074),
        floored(floored(z)) == floored(z),
{
    lemma_named_values();
}

/// Two traces that follow one single-valued evaluator agree as far as both go.
proof fn lemma_shared_prefix(
    answers: spec_fn(u64, Evaluation) -> bool,
    correlation: ZCorrelations,
    a: Seq<Evaluation>,
    b: Seq<Evaluation>,
    n: int,
)
    requires
        single_valued(answers),
        follows(answers, correlation, a),
        follows(answers, correlation, b),
        0 <= n <= a.len(),
        n <= b.len(),
    ensures
        a.take(n) == b.take(n),
    decreases n,
{
    if n > 0 {
        lemma_shared_prefix(answers, correlation, a, b, n - 1);
        assert(answers(point(correlation, a, n - 1), a[n - 1]));
        assert(answers(point(correlation, b, n - 1), b[n - 1]));
        assert(a.take(n) =~= a.take(n - 1).push(a[n - 1]));
        assert(b.take(n) =~= b.take(n - 1).push(b[n - 1]));
    } else {
        assert(a.take(0) =~= b.take(0));
    }
}

/// Of two solves on one single-valued evaluator, the one whose rule stops
/// wherever the other's does is an initial part of the other.
proof fn lemma_earlier_stop_is_prefix(
    answers: spec_fn(u64, Evaluation) -> bool,
    correlation: ZCorrelations,
    tight: u64,
    loose: u64,
    long: Seq<Evaluation>,
    short: Seq<Evaluation>,
)
    requires
        single_valued(answers),
        forall|residual: u64| within(residual, tight) ==> within(residual, loose),
        is_run(tight, long),
        follows(answers, correlation, long),
        is_run(loose, short),
        follows(answers, correlation, short),
    ensures
        short.len() <= long.len(),
        short == long.take(short.len() as int),
{
    if short.len() > long.len() {
        let n = long.len() as int;
        lemma_shared_prefix(answers, correlation, long, short, n);
        assert(long.take(n) =~= long);
        assert(!stops(loose, short.take(n)));
    } else {
        let n = short.len() as int;
        lemma_shared_prefix(answers, correlation, long, short, n);
        assert(short.take(n) =~= short);
    }
}

/// A solve is determined by its inputs: with an evaluator that gives one
/// answer at each point, any two solves for one correlation and tolerance
/// make the same evaluations and hand back the same root.
pub proof fn lemma_solve_is_determined(
    answers: spec_fn(u64, Evaluation) -> bool,
    correlation: ZCorrelations,
    tolerance: u64,
    first: Seq<Evaluation>,
    second: Seq<Evaluation>,
)
    requires
        single_valued(answers),
        is_run(tolerance, first),
        follows(answers, correlation, first),
        is_run(tolerance, second),
        follows(answers, correlation, second),
    ensures
        first == second,
        reported(correlation, first) == reported(correlation, second),
{
    lemma_earlier_stop_is_prefix(answers, correlation, tolerance, tolerance, first, second);
    lemma_earlier_stop_is_prefix(answers, correlation, tolerance, tolerance, second, first);
    assert(first.take(first.len() as int) =~= first);
}

/// A looser tolerance never costs more work: on one single-valued evaluator,
/// the solve with the larger tolerance makes the first evaluations of the
/// solve with the smaller one, and no others.
pub proof fn lemma_looser_tolerance_stops_no_later(
    answers: spec_fn(u64, Evaluation) -> bool,
    correlation: ZCorrelations,
    tight: u64,
    loose: u64,
    tight_run: Seq<Evaluation>,
    loose_run: Seq<Evaluation>,
)
    requires
        single_valued(answers),
        !nan(loose),
        !below(loose, tight),
        is_run(tight, tight_run),
        follows(answers, correlation, tight_run),
        is_run(loose, loose_run),
        follows(answers, correlation, loose_run),
    ensures
        loose_run.len() <= tight_run.len(),
        loose_run == tight_run.take(loose_run.len() as int),
{
    lemma_earlier_stop_is_prefix(answers, correlation, tight, loose, tight_run, loose_run);
}

} // verus!
