//! The audio engine: consumes queued parameter updates, advances the
//! smoothing filter once per fixed-size chunk, and applies the resulting
//! amplitude multipliers to every channel of an audio block.
//!
//! Per block: all queued updates are applied first (only the latest target
//! survives); the block is then partitioned into full chunks of [`CHUNK`]
//! samples plus a remainder. Each full chunk advances the filter one step;
//! when the filter reports a changed value, the chunk's multipliers ramp
//! linearly from the previous amplitude to the new one (avoiding an audible
//! step at the chunk boundary), otherwise the previous amplitude is reused.
//! Remainder samples reuse the amplitude left by the last full chunk. Output
//! is plain multiplication — no clipping is performed, and a multiplier
//! above 1.0 may produce output larger than its input by design.

use vstd::prelude::*;

use crate::channel::StateUpdate;
use crate::smoothed::{lemma_step_wf, FilterModel, SmoothedRange};
use crate::{amp_fits, fits, sample_fits, CHUNK, HALF_UNIT, SAMPLE_LIMIT, UNIT, VALUE_LIMIT};
use vstd::arithmetic::div_mod::{
    lemma_div_is_ordered, lemma_div_multiples_vanish, lemma_div_nonincreasing,
    lemma_div_pos_is_pos, lemma_fundamental_div_mod, lemma_fundamental_div_mod_converse,
};
use vstd::arithmetic::mul::lemma_mul_inequality;
use vstd::math::abs;

verus! {

/// Mathematical state of the audio engine: the smoothing filter and the
/// amplitude multiplier currently applied to samples.
#[verifier::ext_equal]
pub struct EngineModel {
    pub filter: FilterModel,
    pub amplitude: int,
}

impl EngineModel {
    /// Well-formed engine states: the filter is well-formed and the held
    /// amplitude is a multiplier in arithmetic range.
    pub open spec fn wf(self) -> bool {
        &&& self.filter.wf()
        &&& amp_fits(self.amplitude)
    }

    /// A fresh engine: knob at 0.5, settled, with unity amplitude.
    pub open spec fn init() -> EngineModel {
        EngineModel { filter: FilterModel::init(HALF_UNIT as int), amplitude: UNIT as int }
    }
}

/// Amplitude multiplier derived from a control value: the [0, 1] knob range
/// doubles to a [0, 2] multiplier range, with unity gain at 0.5.
pub open spec fn amp_of(v: int) -> int {
    2 * v
}

/// Filter state after a batch of queued updates is applied in order: each
/// message re-targets the filter, so only the last message's target
/// survives (see [`lemma_batch_latest_wins`]).
pub open spec fn filter_after_updates(f: FilterModel, updates: Seq<StateUpdate>) -> FilterModel
    decreases updates.len(),
{
    if updates.len() == 0 {
        f
    } else {
        filter_after_updates(f, updates.drop_last()).retarget(updates.last().knob_value())
    }
}

/// Latest-target-wins at the engine boundary: a non-empty batch of updates
/// leaves the filter exactly as a single set of the last update would.
pub proof fn lemma_batch_latest_wins(f: FilterModel, updates: Seq<StateUpdate>)
    requires
        updates.len() > 0,
    ensures
        filter_after_updates(f, updates) == f.retarget(updates.last().knob_value()),
    decreases updates.len(),
{
    if updates.len() == 1 {
        assert(updates.drop_last().len() == 0);
        assert(filter_after_updates(f, updates.drop_last()) == f);
    } else {
        lemma_batch_latest_wins(f, updates.drop_last());
    }
}

/// One full chunk of processing: the filter advances one smoothing step; if
/// it reports a changed value the amplitude becomes the doubled new value,
/// otherwise the previous amplitude is kept.
pub open spec fn chunk_step(e: EngineModel) -> EngineModel {
    let f2 = e.filter.step();
    EngineModel {
        filter: f2,
        amplitude: if f2.did_change {
            amp_of(f2.value)
        } else {
            e.amplitude
        },
    }
}

/// Engine state after `j` full chunks.
pub open spec fn after_chunks(e: EngineModel, j: nat) -> EngineModel
    decreases j,
{
    if j == 0 {
        e
    } else {
        chunk_step(after_chunks(e, (j - 1) as nat))
    }
}

pub proof fn lemma_chunk_step_wf(e: EngineModel)
    requires
        e.wf(),
    ensures
        chunk_step(e).wf(),
{
    lemma_step_wf(e.filter);
}

pub proof fn lemma_after_chunks_wf(e: EngineModel, j: nat)
    requires
        e.wf(),
    ensures
        after_chunks(e, j).wf(),
    decreases j,
{
    if j > 0 {
        lemma_after_chunks_wf(e, (j - 1) as nat);
        lemma_chunk_step_wf(after_chunks(e, (j - 1) as nat));
    }
}

/// The `k`-th multiplier (0-based) of a chunk ramping linearly from the
/// previous amplitude `prev` to the new amplitude `next`: the ramp spans
/// the chunk's samples and reaches `next` exactly at the last one.
pub open spec fn ramp_value(prev: int, next: int, k: int) -> int {
    if next >= prev {
        prev + (next - prev) * (k + 1) / (CHUNK as int)
    } else {
        prev - (prev - next) * (k + 1) / (CHUNK as int)
    }
}

/// A ramp multiplier lies between the amplitudes it interpolates.
pub proof fn lemma_ramp_bounds(prev: int, next: int, k: int)
    requires
        0 <= k < CHUNK,
    ensures
        prev <= next ==> prev <= ramp_value(prev, next, k) <= next,
        next <= prev ==> next <= ramp_value(prev, next, k) <= prev,
{
    if next >= prev {
        let d = next - prev;
        lemma_div_pos_is_pos(d * (k + 1), CHUNK as int);
        lemma_mul_inequality(k + 1, CHUNK as int, d);
        lemma_div_is_ordered(d * (k + 1), d * (CHUNK as int), CHUNK as int);
        lemma_div_multiples_vanish(d, CHUNK as int);
    } else {
        let d = prev - next;
        lemma_div_pos_is_pos(d * (k + 1), CHUNK as int);
        lemma_mul_inequality(k + 1, CHUNK as int, d);
        lemma_div_is_ordered(d * (k + 1), d * (CHUNK as int), CHUNK as int);
        lemma_div_multiples_vanish(d, CHUNK as int);
    }
}

/// The multiplier applied to sample `i` of a block of `n` samples, given
/// the engine state `e` at the start of the block (after updates were
/// applied). A sample of full chunk `j` gets that chunk's ramp (when the
/// filter reported a change) or the held amplitude; a remainder sample
/// reuses the amplitude left by the last full chunk, unchanged.
pub open spec fn mult_at(e: EngineModel, n: int, i: int) -> int {
    let j = i / (CHUNK as int);
    if j < n / (CHUNK as int) {
        let ej = after_chunks(e, j as nat);
        let f2 = ej.filter.step();
        if f2.did_change {
            ramp_value(ej.amplitude, amp_of(f2.value), i % (CHUNK as int))
        } else {
            ej.amplitude
        }
    } else {
        after_chunks(e, (n / (CHUNK as int)) as nat).amplitude
    }
}

/// Fixed-point scaling of one sample: the product with the multiplier,
/// divided by [`UNIT`] and truncated toward zero.
pub open spec fn scale_sample(s: int, m: int) -> int {
    let p = (abs(s) * abs(m)) as int / (UNIT as int);
    if (s >= 0) == (m >= 0) {
        p
    } else {
        -p
    }
}

/// Handles all audio processing for the plugin: a smoothing filter fed by
/// the hub's update queue, and the amplitude multiplier it currently
/// applies.
pub struct PluginDsp {
    amplitude_range: SmoothedRange,
    amplitude: i64,
}

impl PluginDsp {
    /// Mathematical view of the engine.
    pub closed spec fn model(self) -> EngineModel {
        EngineModel { filter: self.amplitude_range.model(), amplitude: self.amplitude as int }
    }

    pub open spec fn inv(self) -> bool {
        self.model().wf()
    }

    pub fn new() -> (r: Self)
        ensures
            r.model() == EngineModel::init(),
            r.inv(),
    {
        PluginDsp { amplitude_range: SmoothedRange::new(HALF_UNIT), amplitude: UNIT }
    }

    /// Applies a batch of queued updates to the smoothing filter, oldest
    /// first; only the latest target survives.
    pub fn apply_updates(&mut self, updates: &Vec<StateUpdate>)
        requires
            old(self).inv(),
            forall|k: int| 0 <= k < updates@.len() ==> fits(#[trigger] updates@[k].knob_value()),
        ensures
            final(self).inv(),
            final(self).model().filter == filter_after_updates(old(self).model().filter, updates@),
            final(self).model().amplitude == old(self).model().amplitude,
    {
        let count = updates.len();
        let mut k: usize = 0;
        while k < count
            invariant
                k <= count,
                count == updates@.len(),
                forall|t: int| 0 <= t < updates@.len() ==> fits(#[trigger] updates@[t].knob_value()),
                self.inv(),
                self.model().filter == filter_after_updates(
                    old(self).model().filter,
                    updates@.take(k as int),
                ),
                self.model().amplitude == old(self).model().amplitude,
            decreases count - k,
        {
            proof {
                assert(updates@.take(k + 1).drop_last() =~= updates@.take(k as int));
                assert(updates@.take(k + 1).last() == updates@[k as int]);
            }
            let u: StateUpdate = updates[k];
            proof {
                assert(fits(updates@[k as int].knob_value()));
            }
            match u {
                StateUpdate::SetKnob(v) => {
                    self.amplitude_range.set(v);
                },
            }
            k = k + 1;
        }
        proof {
            assert(updates@.take(count as int) =~= updates@);
        }
    }

    /// Advances the filter once per full chunk of a block of `n` samples
    /// and returns the per-sample amplitude multipliers: a linear ramp
    /// across a chunk whose step changed the value, the held amplitude
    /// otherwise, and the last amplitude again for the remainder samples.
    pub fn compute_multipliers(&mut self, n: usize) -> (mults: Vec<i64>)
        requires
            old(self).inv(),
        ensures
            final(self).inv(),
            mults@.len() == n,
            forall|i: int| 0 <= i < n ==> #[trigger] mults@[i] as int == mult_at(
                old(self).model(),
                n as int,
                i,
            ),
            forall|i: int| 0 <= i < n ==> amp_fits(#[trigger] mults@[i] as int),
            final(self).model() == after_chunks(
                old(self).model(),
                (n as int / CHUNK as int) as nat,
            ),
    {
        let ghost e0 = self.model();
        let full: usize = n / CHUNK;
        proof {
            lemma_fundamental_div_mod(n as int, CHUNK as int);
        }
        let mut mults: Vec<i64> = Vec::new();
        let mut j: usize = 0;
        while j < full
            invariant
                self.inv(),
                j <= full,
                full == n as int / CHUNK as int,
                full * CHUNK <= n,
                self.model() == after_chunks(e0, j as nat),
                e0.wf(),
                mults@.len() == j * CHUNK,
                forall|i: int| 0 <= i < j * CHUNK ==> #[trigger] mults@[i] as int == mult_at(
                    e0,
                    n as int,
                    i,
                ),
                forall|i: int| 0 <= i < j * CHUNK ==> amp_fits(#[trigger] mults@[i] as int),
            decreases full - j,
        {
            let ghost e_j = self.model();
            proof {
                lemma_chunk_step_wf(e_j);
                assert(after_chunks(e0, (j + 1) as nat) == chunk_step(e_j));
                lemma_mul_inequality(j + 1, full as int, CHUNK as int);
            }
            self.amplitude_range.process();
            let prev: i64 = self.amplitude;
            let maybe_new = self.amplitude_range.get_new_value();
            if let Some(v) = maybe_new {
                let next: i64 = 2 * v;
                let mut k: usize = 0;
                while k < CHUNK
                    invariant
                        0 <= k <= CHUNK,
                        mults@.len() == j * CHUNK + k,
                        j * CHUNK + CHUNK <= n,
                        full == n as int / CHUNK as int,
                        j < full,
                        e_j == after_chunks(e0, j as nat),
                        e_j.wf(),
                        prev == e_j.amplitude,
                        e_j.filter.step().did_change,
                        next == amp_of(e_j.filter.step().value),
                        amp_fits(prev as int),
                        amp_fits(next as int),
                        forall|i: int| 0 <= i < j * CHUNK ==> #[trigger] mults@[i] as int
                            == mult_at(e0, n as int, i),
                        forall|i: int| 0 <= i < j * CHUNK + k ==> amp_fits(
                            #[trigger] mults@[i] as int,
                        ),
                        forall|i: int| j * CHUNK <= i < j * CHUNK + k ==> #[trigger] mults@[i]
                            as int == ramp_value(prev as int, next as int, i - j * CHUNK),
                    decreases CHUNK - k,
                {
                    proof {
                        lemma_ramp_bounds(prev as int, next as int, k as int);
                    }
                    let m: i64 = if next >= prev {
                        prev + (next - prev) * (k as i64 + 1) / (CHUNK as i64)
                    } else {
                        prev - (prev - next) * (k as i64 + 1) / (CHUNK as i64)
                    };
                    mults.push(m);
                    k = k + 1;
                }
                self.amplitude = next;
            } else {
                let mut k: usize = 0;
                while k < CHUNK
                    invariant
                        0 <= k <= CHUNK,
                        mults@.len() == j * CHUNK + k,
                        j * CHUNK + CHUNK <= n,
                        full == n as int / CHUNK as int,
                        j < full,
                        e_j == after_chunks(e0, j as nat),
                        e_j.wf(),
                        self.model() == chunk_step(e_j),
                        self.inv(),
                        !e_j.filter.step().did_change,
                        self.amplitude == e_j.amplitude,
                        amp_fits(self.amplitude as int),
                        forall|i: int| 0 <= i < j * CHUNK ==> #[trigger] mults@[i] as int
                            == mult_at(e0, n as int, i),
                        forall|i: int| 0 <= i < j * CHUNK + k ==> amp_fits(
                            #[trigger] mults@[i] as int,
                        ),
                        forall|i: int| j * CHUNK <= i < j * CHUNK + k ==> #[trigger] mults@[i]
                            == self.amplitude,
                    decreases CHUNK - k,
                {
                    mults.push(self.amplitude);
                    k = k + 1;
                }
            }
            proof {
                assert(self.model() == chunk_step(e_j));
                assert forall|i: int| j * CHUNK <= i < j * CHUNK + CHUNK implies (
                #[trigger] mults@[i]) as int == mult_at(e0, n as int, i) by {
                    let kk = i - j * CHUNK;
                    lemma_fundamental_div_mod_converse(i, CHUNK as int, j as int, kk);
                    assert(i / (CHUNK as int) == j as int);
                    assert(i % (CHUNK as int) == kk);
                }
            }
            j = j + 1;
        }
        let mut i: usize = full * CHUNK;
        proof {
            lemma_after_chunks_wf(e0, full as nat);
        }
        while i < n
            invariant
                full * CHUNK <= i <= n,
                full == n as int / CHUNK as int,
                full * CHUNK <= n,
                self.inv(),
                self.model() == after_chunks(e0, full as nat),
                e0.wf(),
                mults@.len() == i,
                amp_fits(self.amplitude as int),
                forall|t: int| 0 <= t < full * CHUNK ==> #[trigger] mults@[t] as int == mult_at(
                    e0,
                    n as int,
                    t,
                ),
                forall|t: int| 0 <= t < i ==> amp_fits(#[trigger] mults@[t] as int),
                forall|t: int| full * CHUNK <= t < i ==> #[trigger] mults@[t]
                    == self.amplitude,
            decreases n - i,
        {
            mults.push(self.amplitude);
            i = i + 1;
        }
        proof {
            assert forall|t: int| full * CHUNK <= t < n implies #[trigger] mults@[t] as int
                == mult_at(e0, n as int, t) by {
                lemma_div_is_ordered(full * CHUNK, t, CHUNK as int);
                lemma_div_multiples_vanish(full as int, CHUNK as int);
                assert(t / (CHUNK as int) >= full as int);
            }
            assert forall|t: int| 0 <= t < n implies #[trigger] mults@[t] as int == mult_at(
                e0,
                n as int,
                t,
            ) by {
            }
        }
        mults
    }

    /// Produces one block of output audio: applies any queued update
    /// events to the smoothing filter, then scales every channel's samples
    /// by the per-sample multipliers of the chunked smoothing loop. All
    /// channels must carry the same number of samples.
    pub fn process(&mut self, updates: &Vec<StateUpdate>, input: &Vec<Vec<i64>>) -> (out: Vec<
        Vec<i64>,
    >)
        requires
            old(self).inv(),
            forall|k: int| 0 <= k < updates@.len() ==> fits(#[trigger] updates@[k].knob_value()),
            forall|c: int| 0 <= c < input@.len() ==> (#[trigger] input@[c]@.len())
                == input@[0]@.len(),
            forall|c: int, i: int| 0 <= c < input@.len() && 0 <= i < input@[c]@.len()
                ==> sample_fits(#[trigger] input@[c]@[i] as int),
        ensures
            final(self).inv(),
            out@.len() == input@.len(),
            forall|c: int| 0 <= c < out@.len() ==> (#[trigger] out@[c]@.len())
                == input@[c]@.len(),
            ({
                let e1 = EngineModel {
                    filter: filter_after_updates(old(self).model().filter, updates@),
                    amplitude: old(self).model().amplitude,
                };
                let n = if input@.len() == 0 { 0int } else { input@[0]@.len() as int };
                &&& (forall|c: int, i: int| 0 <= c < out@.len() && 0 <= i < out@[c]@.len()
                    ==> (#[trigger] out@[c]@[i]) as int == scale_sample(
                        input@[c]@[i] as int,
                        mult_at(e1, n, i),
                    ))
                &&& final(self).model() == after_chunks(e1, (n / CHUNK as int) as nat)
            }),
    {
        self.apply_updates(updates);
        let n: usize = if input.len() == 0 {
            0
        } else {
            input[0].len()
        };
        let mults = self.compute_multipliers(n);
        let mut out: Vec<Vec<i64>> = Vec::new();
        let channels = input.len();
        let mut c: usize = 0;
        while c < channels
            invariant
                c <= channels,
                channels == input@.len(),
                out@.len() == c,
                mults@.len() == n,
                n as int == if input@.len() == 0 { 0int } else { input@[0]@.len() as int },
                forall|t: int| 0 <= t < input@.len() ==> (#[trigger] input@[t]@.len())
                    == input@[0]@.len(),
                forall|t: int, i: int| 0 <= t < input@.len() && 0 <= i < input@[t]@.len()
                    ==> sample_fits(#[trigger] input@[t]@[i] as int),
                forall|i: int| 0 <= i < n ==> amp_fits(#[trigger] mults@[i] as int),
                forall|t: int| 0 <= t < c ==> (#[trigger] out@[t]@.len()) == input@[t]@.len(),
                forall|t: int, i: int| 0 <= t < c && 0 <= i < out@[t]@.len()
                    ==> (#[trigger] out@[t]@[i]) as int == scale_sample(
                        input@[t]@[i] as int,
                        mults@[i] as int,
                    ),
            decreases channels - c,
        {
            let channel_out = scale_channel(&input[c], &mults);
            out.push(channel_out);
            c = c + 1;
        }
        out
    }
}

/// Scales one channel's samples by the per-sample multipliers, entry by
/// entry, in fixed point.
pub fn scale_channel(samples: &Vec<i64>, mults: &Vec<i64>) -> (out: Vec<i64>)
    requires
        samples@.len() == mults@.len(),
        forall|i: int| 0 <= i < samples@.len() ==> sample_fits(#[trigger] samples@[i] as int),
        forall|i: int| 0 <= i < mults@.len() ==> amp_fits(#[trigger] mults@[i] as int),
    ensures
        out@.len() == samples@.len(),
        forall|i: int| 0 <= i < out@.len() ==> (#[trigger] out@[i]) as int == scale_sample(
            samples@[i] as int,
            mults@[i] as int,
        ),
{
    let count = samples.len();
    let mut out: Vec<i64> = Vec::new();
    let mut i: usize = 0;
    while i < count
        invariant
            i <= count,
            count == samples@.len(),
            samples@.len() == mults@.len(),
            forall|t: int| 0 <= t < samples@.len() ==> sample_fits(#[trigger] samples@[t] as int),
            forall|t: int| 0 <= t < mults@.len() ==> amp_fits(#[trigger] mults@[t] as int),
            out@.len() == i,
            forall|t: int| 0 <= t < i ==> (#[trigger] out@[t]) as int == scale_sample(
                samples@[t] as int,
                mults@[t] as int,
            ),
        decreases count - i,
    {
        let s: i64 = samples[i];
        let m: i64 = mults[i];
        let sa: i64 = if s >= 0 {
            s
        } else {
            -s
        };
        let ma: i64 = if m >= 0 {
            m
        } else {
            -m
        };
        proof {
            assert(sa * ma <= 2_000_000_000_000_000_000) by (nonlinear_arith)
                requires
                    0 <= sa <= SAMPLE_LIMIT,
                    0 <= ma <= 2 * VALUE_LIMIT,
            ;
            lemma_div_pos_is_pos(sa * ma, UNIT as int);
            lemma_div_nonincreasing(sa * ma, UNIT as int);
        }
        let p: i64 = sa * ma / UNIT;
        let o: i64 = if (s >= 0) == (m >= 0) {
            p
        } else {
            -p
        };
        out.push(o);
        i = i + 1;
    }
    out
}

} // verus!
