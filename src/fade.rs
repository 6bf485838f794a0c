//! Brightness fades: the levels a fade sets and the pause between them.

use vstd::prelude::*;

verus! {

/// The writes of one fade: each of `levels` in turn, with a pause of
/// `interval_ms` after each, then `end` once more.
#[derive(Debug)]
pub struct FadePlan {
    pub interval_ms: u64,
    pub levels: Vec<u8>,
    pub end: u8,
}

/// The level a fade starts from: `start` saturated to `0..=100`.
pub open spec fn fade_start(start: u8) -> int {
    if start > 100 {
        100
    } else {
        start as int
    }
}

/// The level a fade ends at: `end` held within `fade_start(start)..=100`.
pub open spec fn fade_end(start: u8, end: u8) -> int {
    if end > 100 {
        100
    } else if (end as int) < fade_start(start) {
        fade_start(start)
    } else {
        end as int
    }
}

/// The number of steps of a fade: `steps` held within `1..=250`.
pub open spec fn fade_steps(steps: u8) -> int {
    if steps < 1 {
        1
    } else if steps > 250 {
        250
    } else {
        steps as int
    }
}

/// The change of level from one step to the next (rounded down).
pub open spec fn fade_step_size(start: u8, end: u8, steps: u8) -> int {
    (fade_end(start, end) - fade_start(start)) / fade_steps(steps)
}

/// The level that step `i` of a fade sets.
pub open spec fn fade_level(start: u8, end: u8, steps: u8, i: int) -> int {
    fade_start(start) + i * fade_step_size(start, end, steps)
}

proof fn lemma_level_bounds(start: u8, end: u8, steps: u8, i: int)
    requires
        0 <= i <= fade_steps(steps),
    ensures
        fade_start(start) <= fade_level(start, end, steps, i) <= fade_end(start, end),
{
    let d = fade_end(start, end) - fade_start(start);
    let n = fade_steps(steps);
    let q = fade_step_size(start, end, steps);
    assert(0 <= q && q * n <= d) by (nonlinear_arith)
        requires
            0 <= d,
            0 < n,
            q == d / n,
    ;
    assert(0 <= i * q <= n * q) by (nonlinear_arith)
        requires
            0 <= i <= n,
            0 <= q,
    ;
}

/// Plans a fade from `start` to `end` percent over `duration` milliseconds in
/// `steps` steps.
pub fn plan_fade(start: u8, end: u8, duration: u16, steps: u8) -> (p: FadePlan)
    ensures
        p.interval_ms == duration as int / fade_steps(steps),
        p.levels@.len() == fade_steps(steps),
        forall|i: int| 0 <= i < p.levels@.len() ==> p.levels@[i] == fade_level(start, end, steps, i),
        p.end == fade_end(start, end),
{
    let from: u8 = if start > 100 {
        100
    } else {
        start
    };
    let to: u8 = if end > 100 {
        100
    } else if end < from {
        from
    } else {
        end
    };
    let count: u8 = if steps < 1 {
        1
    } else if steps > 250 {
        250
    } else {
        steps
    };
    let interval_ms: u64 = duration as u64 / count as u64;
    let step_size: u8 = (to - from) / count;
    let mut levels: Vec<u8> = Vec::new();
    let mut current: u8 = from;
    let mut i: u8 = 0;
    while i < count
        invariant
            i <= count,
            count == fade_steps(steps),
            from == fade_start(start),
            to == fade_end(start, end),
            step_size == fade_step_size(start, end, steps),
            current == fade_level(start, end, steps, i as int),
            levels@.len() == i,
            forall|k: int| 0 <= k < i ==> levels@[k] == fade_level(start, end, steps, k),
        decreases count - i,
    {
        proof {
            lemma_level_bounds(start, end, steps, i as int);
            lemma_level_bounds(start, end, steps, i + 1);
        }
        levels.push(current);
        current = if current + step_size > 100 {
            100
        } else {
            current + step_size
        };
        assert(fade_level(start, end, steps, i + 1) == fade_level(start, end, steps, i as int)
            + step_size) by (nonlinear_arith)
            requires
                step_size == fade_step_size(start, end, steps),
        ;
        i = i + 1;
    }
    FadePlan { interval_ms, levels, end: to }
}

/// The levels of a fade never go down, and none passes the level it ends at.
pub proof fn lemma_fade_levels_rise(start: u8, end: u8, steps: u8)
    ensures
        forall|i: int, j: int|
            0 <= i <= j < fade_steps(steps) ==> #[trigger] fade_level(start, end, steps, i)
                <= #[trigger] fade_level(start, end, steps, j) <= fade_end(start, end),
{
    assert forall|i: int, j: int| 0 <= i <= j < fade_steps(steps) implies #[trigger] fade_level(
        start,
        end,
        steps,
        i,
    ) <= #[trigger] fade_level(start, end, steps, j) <= fade_end(start, end) by {
        lemma_level_bounds(start, end, steps, j);
        lemma_level_bounds(start, end, steps, 0);
        let q = fade_step_size(start, end, steps);
        assert(i * q <= j * q) by (nonlinear_arith)
            requires
                0 <= i <= j,
                0 <= q,
        ;
    }
}

/// What a fade does at one step.
#[derive(Clone, Copy, Debug, PartialEq, Eq, Structural)]
pub enum FadeAction {
    /// Set this level, then pause for the plan's interval.
    Write(u8),
    /// Set this final level; the fade is then over.
    Finish(u8),
    /// Write nothing more.
    Stop,
}

/// The action of step `step` of `plan`, where `cancelled` tells whether the
/// fade was called off: a cancelled fade writes nothing more; otherwise each
/// planned level comes in turn, then the end level once more, then nothing.
pub fn fade_action(plan: &FadePlan, step: usize, cancelled: bool) -> (a: FadeAction)
    ensures
        cancelled ==> a == FadeAction::Stop,
        !cancelled && step < plan.levels@.len() ==> a == FadeAction::Write(plan.levels@[step as int]),
        !cancelled && step == plan.levels@.len() ==> a == FadeAction::Finish(plan.end),
        !cancelled && step > plan.levels@.len() ==> a == FadeAction::Stop,
{
    if cancelled {
        FadeAction::Stop
    } else if step < plan.levels.len() {
        FadeAction::Write(plan.levels[step])
    } else if step == plan.levels.len() {
        FadeAction::Finish(plan.end)
    } else {
        FadeAction::Stop
    }
}

} // verus!
