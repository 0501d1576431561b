//! The exponential smoothing filter: a value that interpolates toward a
//! settable target a fixed fraction per step, and snaps to the target once it
//! is close enough.

use vstd::prelude::*;

use crate::{fits, SMOOTH_DIV, SMOOTH_EPSILON};
use vstd::arithmetic::div_mod::{lemma_div_is_ordered, lemma_div_nonincreasing, lemma_div_pos_is_pos};
use vstd::math::abs;

verus! {

/// Mathematical state of a smoothing filter: the current interpolated value,
/// the goal it moves toward, a dirty flag ("still needs smoothing") and a
/// changed flag ("the value differs from its previous read").
pub struct FilterModel {
    pub value: int,
    pub target: int,
    pub needs_smooth: bool,
    pub did_change: bool,
}

impl FilterModel {
    /// Well-formed filter states: both values are in arithmetic range, and a
    /// settled filter (one that no longer needs smoothing) sits exactly on
    /// its target. Every reachable state of [`SmoothedRange`] satisfies this.
    pub open spec fn wf(self) -> bool {
        &&& fits(self.value)
        &&& fits(self.target)
        &&& (!self.needs_smooth ==> self.value == self.target)
    }

    /// A freshly created filter: settled on its starting value, but flagged
    /// as changed so the first read reports the starting value.
    pub open spec fn init(v: int) -> FilterModel {
        FilterModel { value: v, target: v, needs_smooth: false, did_change: true }
    }

    /// Effect of recording a new target: the previous target is discarded,
    /// and the filter is unconditionally marked dirty and changed, even when
    /// the new target equals the current value.
    pub open spec fn retarget(self, v: int) -> FilterModel {
        FilterModel { target: v, needs_smooth: true, did_change: true, ..self }
    }

    /// The value after moving 1/[`SMOOTH_DIV`] of the remaining distance
    /// toward the target (truncated toward the current value).
    pub open spec fn moved(self) -> int {
        if self.target >= self.value {
            self.value + (self.target - self.value) / (SMOOTH_DIV as int)
        } else {
            self.value - (self.value - self.target) / (SMOOTH_DIV as int)
        }
    }

    /// Effect of one smoothing step. A dirty filter moves toward its target
    /// and snaps to it exactly once the remaining distance falls below
    /// [`SMOOTH_EPSILON`]; a settled filter only clears the changed flag.
    pub open spec fn step(self) -> FilterModel {
        if self.needs_smooth {
            let m = self.moved();
            if abs(self.target - m) < SMOOTH_EPSILON {
                FilterModel { value: self.target, needs_smooth: false, did_change: true, ..self }
            } else {
                FilterModel { value: m, needs_smooth: true, did_change: true, ..self }
            }
        } else {
            FilterModel { did_change: false, ..self }
        }
    }

    /// The filter state after `n` smoothing steps.
    pub open spec fn after(self, n: nat) -> FilterModel
        decreases n,
    {
        if n == 0 {
            self
        } else {
            self.after((n - 1) as nat).step()
        }
    }
}

/// Facts about one smoothing step of a dirty filter: the moved value stays
/// strictly between the old value and the target (inclusive), so the step
/// never overshoots and never leaves the arithmetic range.
pub proof fn lemma_moved_bounds(f: FilterModel)
    requires
        fits(f.value),
        fits(f.target),
    ensures
        f.value <= f.target ==> f.value <= f.moved() <= f.target,
        f.value >= f.target ==> f.target <= f.moved() <= f.value,
        fits(f.moved()),
        abs(f.target - f.moved()) <= abs(f.target - f.value),
{
    if f.target >= f.value {
        lemma_div_pos_is_pos(f.target - f.value, SMOOTH_DIV as int);
        lemma_div_nonincreasing(f.target - f.value, SMOOTH_DIV as int);
    } else {
        lemma_div_pos_is_pos(f.value - f.target, SMOOTH_DIV as int);
        lemma_div_nonincreasing(f.value - f.target, SMOOTH_DIV as int);
    }
}

/// One smoothing step preserves well-formedness.
pub proof fn lemma_step_wf(f: FilterModel)
    requires
        f.wf(),
    ensures
        f.step().wf(),
        f.step().target == f.target,
{
    if f.needs_smooth {
        lemma_moved_bounds(f);
    }
}

/// A settled filter never moves again until a new target is set: every
/// further smoothing step leaves its value, target and dirty flag unchanged.
pub proof fn lemma_settled_stable(f: FilterModel, n: nat)
    requires
        f.wf(),
        !f.needs_smooth,
    ensures
        f.after(n).value == f.value,
        f.after(n).target == f.target,
        !f.after(n).needs_smooth,
        f.after(n).wf(),
    decreases n,
{
    if n > 0 {
        lemma_settled_stable(f, (n - 1) as nat);
    }
}

/// Stepping once and then `n` times is the same as stepping `n + 1` times.
pub proof fn lemma_after_step_commute(f: FilterModel, n: nat)
    ensures
        f.after(n + 1) == f.step().after(n),
    decreases n,
{
    if n == 0 {
        assert(f.after(1) == f.after(0).step());
        assert(f.step().after(0) == f.step());
    } else {
        lemma_after_step_commute(f, (n - 1) as nat);
        assert(f.after(n) == f.step().after((n - 1) as nat));
        assert(f.after(n + 1) == f.after(n).step());
        assert(f.step().after(n) == f.step().after((n - 1) as nat).step());
    }
}

/// Number of smoothing steps that certainly suffice for convergence; a
/// coarse bound derived from the smoothing fraction and the snap threshold
/// (each step closes at least 1/[`SMOOTH_DIV`] of a distance that starts at
/// or above [`SMOOTH_EPSILON`], or snaps).
pub open spec fn convergence_bound(f: FilterModel) -> nat {
    (abs(f.target - f.value) + 1) as nat
}

/// Convergence law: from any well-formed state, after at most
/// `convergence_bound` smoothing steps the value equals the target exactly,
/// the filter is settled, and (by [`lemma_settled_stable`]) no further step
/// changes the value until a new target is set.
pub proof fn lemma_convergence(f: FilterModel, n: nat)
    requires
        f.wf(),
        n >= convergence_bound(f),
    ensures
        f.after(n).value == f.target,
        f.after(n).target == f.target,
        !f.after(n).needs_smooth,
    decreases n,
{
    if !f.needs_smooth {
        lemma_settled_stable(f, n);
    } else {
        let f1 = f.step();
        lemma_step_wf(f);
        lemma_moved_bounds(f);
        lemma_after_step_commute(f, (n - 1) as nat);
        if abs(f.target - f.moved()) < SMOOTH_EPSILON {
            lemma_settled_stable(f1, (n - 1) as nat);
        } else {
            let d = abs(f.target - f.value) as int;
            assert(abs(f.target - f.moved()) == d - d / (SMOOTH_DIV as int));
            lemma_div_is_ordered(SMOOTH_DIV as int, d, SMOOTH_DIV as int);
            assert(d / (SMOOTH_DIV as int) >= 1);
            lemma_convergence(f1, (n - 1) as nat);
        }
    }
}

/// Change-flag law: a smoothing step reports a change exactly when the
/// filter was still dirty before the step, i.e. when a target set since the
/// last convergence is still being smoothed toward; a step of a settled
/// filter reports no change and leaves the value alone.
pub proof fn lemma_change_flag(f: FilterModel)
    requires
        f.wf(),
    ensures
        f.step().did_change == f.needs_smooth,
        !f.needs_smooth ==> f.step().value == f.value,
{
}

/// Latest-target-wins law: setting target `a` and then target `b` before a
/// single smoothing step is indistinguishable from setting `b` alone, and
/// that step moves the value only toward `b` — it stays between the old
/// value and `b` and never widens the distance to `b`.
pub proof fn lemma_latest_target_wins(f: FilterModel, a: int, b: int)
    requires
        f.wf(),
        fits(a),
        fits(b),
    ensures
        f.retarget(a).retarget(b) == f.retarget(b),
        f.retarget(a).retarget(b).step().target == b,
        f.value <= b ==> f.value <= f.retarget(a).retarget(b).step().value <= b,
        f.value >= b ==> b <= f.retarget(a).retarget(b).step().value <= f.value,
        abs(b - f.retarget(a).retarget(b).step().value) <= abs(b - f.value),
{
    lemma_moved_bounds(f.retarget(b));
}

/// Represents a value that exponentially interpolates toward a settable
/// target value whenever it is processed. Allows efficient calculation of
/// derived values by only reporting its value when it has been updated or
/// smoothed.
pub struct SmoothedRange {
    value: i64,
    target: i64,
    needs_smooth: bool,
    did_change: bool,
}

impl SmoothedRange {
    /// Mathematical view of this filter.
    pub closed spec fn model(self) -> FilterModel {
        FilterModel {
            value: self.value as int,
            target: self.target as int,
            needs_smooth: self.needs_smooth,
            did_change: self.did_change,
        }
    }

    pub open spec fn inv(self) -> bool {
        self.model().wf()
    }

    pub fn new(starting_value: i64) -> (r: Self)
        requires
            fits(starting_value as int),
        ensures
            r.model() == FilterModel::init(starting_value as int),
            r.inv(),
    {
        Self { value: starting_value, target: starting_value, needs_smooth: false, did_change: true }
    }

    /// Provides a new target to smooth towards. The previous target is
    /// discarded: only the latest target set before a processing step
    /// determines where the value moves.
    pub fn set(&mut self, value: i64)
        requires
            old(self).inv(),
            fits(value as int),
        ensures
            final(self).model() == old(self).model().retarget(value as int),
            final(self).inv(),
    {
        self.target = value;
        self.needs_smooth = true;
        self.did_change = true;
    }

    /// Advances one smoothing step, moving the value toward the target if
    /// smoothing is still needed (see [`FilterModel::step`]).
    pub fn process(&mut self)
        requires
            old(self).inv(),
        ensures
            final(self).model() == old(self).model().step(),
            final(self).inv(),
    {
        if self.needs_smooth {
            proof {
                lemma_moved_bounds(old(self).model());
            }
            self.did_change = true;
            let moved: i64 = if self.target >= self.value {
                let d: i64 = self.target - self.value;
                self.value + d / SMOOTH_DIV
            } else {
                let d: i64 = self.value - self.target;
                self.value - d / SMOOTH_DIV
            };
            let dist: i64 = if self.target >= moved { self.target - moved } else { moved - self.target };
            if dist < SMOOTH_EPSILON {
                self.value = self.target;
                self.needs_smooth = false;
            } else {
                self.value = moved;
            }
        } else {
            self.did_change = false;
        }
    }

    /// Returns this filter's value exactly when it differs from its previous
    /// read: after a new target was set, or after a processing step moved it.
    pub fn get_new_value(&mut self) -> (r: Option<i64>)
        requires
            old(self).inv(),
        ensures
            *final(self) == *old(self),
            match r {
                Some(v) => old(self).model().did_change && v as int == old(self).model().value,
                None => !old(self).model().did_change,
            },
    {
        if self.did_change {
            Some(self.value)
        } else {
            None
        }
    }
}

} // verus!
