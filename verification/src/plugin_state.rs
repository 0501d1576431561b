//! The state hub: single authoritative owner of the canonical parameter
//! values, arbitration point for writers, and fan-out point for updates.
//!
//! Every mutation funnels through a small set of methods. Host-originated
//! changes (`set_parameter`) are mirrored to the audio queue always and to
//! the UI queue only while a UI consumer is subscribed; UI-originated
//! changes (`set_amplitude_control`) go to the audio queue and are reported
//! back to the host as an automation notice, but are not echoed to the UI.

use vstd::prelude::*;

pub use crate::channel::StateUpdate;
use crate::channel::UpdateChannel;
use crate::text::{
    decimal_value, hundredths_string, hundredths_text, parse_fixed, parse_ok,
    rounded_hundredths,
};
use crate::{fits, HALF_UNIT, UNIT};

verus! {

/// Number of parameter slots the hub stores. Slot 0 is the amplitude knob;
/// the remaining slots are reserved.
pub const PARAM_COUNT: usize = 4;

/// Mathematical state of the hub: canonical parameter values, the UI
/// subscription flag, and the two outgoing queues (hub to audio engine, hub
/// to UI consumer), each as the sequence of queued messages, oldest first.
#[verifier::ext_equal]
pub struct HubModel {
    pub params: Seq<i64>,
    pub subscribed: bool,
    pub dsp_queue: Seq<StateUpdate>,
    pub ui_queue: Seq<StateUpdate>,
}

impl HubModel {
    /// Well-formed hub states: the parameter bank has exactly
    /// [`PARAM_COUNT`] slots, each within arithmetic range.
    pub open spec fn wf(self) -> bool {
        &&& self.params.len() == PARAM_COUNT
        &&& (forall|i: int| 0 <= i < self.params.len() ==> fits(#[trigger] self.params[i] as int))
    }

    /// The initial hub: amplitude at 0.5 (unity gain), reserved slots at 0,
    /// no subscriber, both queues empty.
    pub open spec fn init() -> HubModel {
        HubModel {
            params: seq![HALF_UNIT, 0i64, 0i64, 0i64],
            subscribed: false,
            dsp_queue: Seq::empty(),
            ui_queue: Seq::empty(),
        }
    }

    /// Effect of a host-originated `set_parameter` call: the update message
    /// goes to the UI queue only while subscribed, always to the audio
    /// queue, and the raw value is stored in the addressed slot.
    pub open spec fn set_param(self, index: int, value: i64) -> HubModel {
        HubModel {
            params: self.params.update(index, value),
            subscribed: self.subscribed,
            dsp_queue: self.dsp_queue.push(StateUpdate::SetKnob(value)),
            ui_queue: if self.subscribed {
                self.ui_queue.push(StateUpdate::SetKnob(value))
            } else {
                self.ui_queue
            },
        }
    }

    /// Effect of a UI-originated `set_amplitude_control` call: the value is
    /// stored in slot 0 and sent to the audio queue, but not echoed back to
    /// the UI queue — the UI already holds the authoritative value.
    pub open spec fn set_amplitude(self, value: i64) -> HubModel {
        HubModel {
            params: self.params.update(0, value),
            subscribed: self.subscribed,
            dsp_queue: self.dsp_queue.push(StateUpdate::SetKnob(value)),
            ui_queue: self.ui_queue,
        }
    }

    /// Effect of toggling the UI subscription flag.
    pub open spec fn set_subscription(self, enabled: bool) -> HubModel {
        HubModel { subscribed: enabled, ..self }
    }
}

/// VST-accessible long-term plugin state storage: the canonical parameter
/// bank, the UI subscription flag and the producer ends of both update
/// queues. A host-facing shell is expected to wrap one value of this type in
/// a mutual-exclusion lock and keep every critical section to a single
/// method call.
pub struct PluginState {
    state_record: Vec<i64>,
    editor_is_open: bool,
    to_dsp: UpdateChannel,
    to_editor: UpdateChannel,
}

impl PluginState {
    /// Mathematical view of the hub.
    pub closed spec fn model(self) -> HubModel {
        HubModel {
            params: self.state_record@,
            subscribed: self.editor_is_open,
            dsp_queue: self.to_dsp@,
            ui_queue: self.to_editor@,
        }
    }

    pub open spec fn inv(self) -> bool {
        self.model().wf()
    }

    pub fn new() -> (r: Self)
        ensures
            r.model() == HubModel::init(),
            r.inv(),
    {
        let mut state_record: Vec<i64> = Vec::new();
        state_record.push(HALF_UNIT);
        state_record.push(0);
        state_record.push(0);
        state_record.push(0);
        let r = PluginState {
            state_record,
            editor_is_open: false,
            to_dsp: UpdateChannel::new(),
            to_editor: UpdateChannel::new(),
        };
        proof {
            assert(r.model() =~= HubModel::init());
        }
        r
    }

    /// Accepts a new value for a parameter slot. No validity check is made
    /// beyond the arithmetic range: out-of-range values are accepted and
    /// stored as-is, matching host-automation conventions.
    pub fn set_parameter(&mut self, index: i32, value: i64)
        requires
            old(self).inv(),
            0 <= index < PARAM_COUNT as i32,
            fits(value as int),
        ensures
            final(self).inv(),
            final(self).model() == old(self).model().set_param(index as int, value),
    {
        let message = StateUpdate::SetKnob(value);
        if self.editor_is_open {
            self.to_editor.send(message);
        }
        self.to_dsp.send(message);
        self.state_record[index as usize] = value;
        proof {
            assert(self.model() =~= old(self).model().set_param(index as int, value));
        }
    }

    /// Returns the canonical stored value of a parameter slot.
    pub fn get_parameter(&self, index: i32) -> (v: i64)
        requires
            self.inv(),
            0 <= index < PARAM_COUNT as i32,
        ensures
            v == self.model().params[index as int],
    {
        self.state_record[index as usize]
    }

    /// Toggles whether future updates are mirrored to the UI queue. While no
    /// UI consumer exists to drain that queue, the flag stays off so that no
    /// messages accumulate.
    pub fn set_event_subscription(&mut self, enabled: bool)
        requires
            old(self).inv(),
        ensures
            final(self).inv(),
            final(self).model() == old(self).model().set_subscription(enabled),
    {
        self.editor_is_open = enabled;
        proof {
            assert(self.model() =~= old(self).model().set_subscription(enabled));
        }
    }

    /// UI-facing entry point: stores the new amplitude, re-sends it on the
    /// audio queue, and returns the `(index, value)` automation notice that
    /// the caller must forward to the host, so the host's automation
    /// recording reflects the UI-originated change.
    pub fn set_amplitude_control(&mut self, value: i64) -> (notice: (i32, i64))
        requires
            old(self).inv(),
            fits(value as int),
        ensures
            final(self).inv(),
            final(self).model() == old(self).model().set_amplitude(value),
            notice == (0i32, value),
    {
        self.state_record[0] = value;
        self.to_dsp.send(StateUpdate::SetKnob(value));
        proof {
            assert(self.model() =~= old(self).model().set_amplitude(value));
        }
        (0, value)
    }

    /// The unit label the host displays beside the amplitude value.
    pub fn get_parameter_label(&self, index: i32) -> (label: String)
        requires
            index == 0,
        ensures
            label@ == "x"@,
    {
        "x".to_owned()
    }

    /// The host-facing name of the amplitude parameter.
    pub fn get_parameter_name(&self, index: i32) -> (name: String)
        requires
            index == 0,
        ensures
            name@ == "Amplitude"@,
    {
        "Amplitude".to_owned()
    }

    /// The textual readout of the amplitude: the stored [0, 1] value is
    /// doubled into the displayed [0, 2] multiplier range and rendered with
    /// two decimal places, rounded half away from zero.
    pub fn get_parameter_text(&self, index: i32) -> (t: String)
        requires
            self.inv(),
            index == 0,
        ensures
            t@ == hundredths_text(rounded_hundredths(2 * self.model().params[0])),
    {
        proof {
            assert(fits(self.model().params[0] as int));
        }
        let v: i64 = self.state_record[0];
        let v2: i64 = 2 * v;
        let a: i64 = if v2 >= 0 {
            v2
        } else {
            -v2
        };
        let h_abs: i64 = (a + 5000) / 10000;
        let h: i64 = if v2 < 0 {
            -h_abs
        } else {
            h_abs
        };
        hundredths_string(h)
    }

    /// Textual entry of the amplitude: the text is parsed as a decimal
    /// multiplier, accepted exactly when it lies in [0, 2], and stored
    /// halved into the [0, 1] knob range through the same path as any other
    /// host-originated change. Rejected input mutates nothing.
    pub fn string_to_parameter(&mut self, index: i32, text: String) -> (accepted: bool)
        requires
            old(self).inv(),
            index == 0,
        ensures
            final(self).inv(),
            accepted <==> (parse_ok(text@) && 0 <= decimal_value(text@) <= 2 * UNIT),
            accepted ==> final(self).model() == old(self).model().set_param(
                0,
                (decimal_value(text@) / 2) as i64,
            ),
            !accepted ==> final(self).model() == old(self).model(),
    {
        match parse_fixed(text.as_str()) {
            Some(v) => {
                if v >= 0 && v <= 2 * UNIT {
                    self.set_parameter(0, v / 2);
                    true
                } else {
                    false
                }
            },
            None => false,
        }
    }

    /// Hands the audio consumer every queued update, oldest first, leaving
    /// the audio queue empty. Never blocks: an empty queue yields an empty
    /// batch.
    pub fn take_dsp_updates(&mut self) -> (updates: Vec<StateUpdate>)
        requires
            old(self).inv(),
        ensures
            final(self).inv(),
            updates@ == old(self).model().dsp_queue,
            final(self).model() == (HubModel { dsp_queue: Seq::empty(), ..old(self).model() }),
    {
        let mut updates: Vec<StateUpdate> = Vec::new();
        while self.to_dsp.len() > 0
            invariant
                self.inv(),
                updates@ + self.to_dsp@ == old(self).to_dsp@,
                self.state_record@ == old(self).state_record@,
                self.editor_is_open == old(self).editor_is_open,
                self.to_editor@ == old(self).to_editor@,
            decreases self.to_dsp@.len(),
        {
            if let Some(message) = self.to_dsp.try_receive() {
                updates.push(message);
            }
            proof {
                assert(updates@ + self.to_dsp@ =~= old(self).to_dsp@);
            }
        }
        proof {
            assert(updates@ =~= old(self).model().dsp_queue);
            assert(self.model() =~= (HubModel { dsp_queue: Seq::empty(), ..old(self).model() }));
        }
        updates
    }

    /// Hands the UI consumer the oldest queued update, if any. Never blocks.
    pub fn poll_editor_update(&mut self) -> (r: Option<StateUpdate>)
        requires
            old(self).inv(),
        ensures
            final(self).inv(),
            match r {
                Some(message) => old(self).model().ui_queue.len() > 0
                    && message == old(self).model().ui_queue.first()
                    && final(self).model() == (HubModel {
                        ui_queue: old(self).model().ui_queue.drop_first(),
                        ..old(self).model()
                    }),
                None => old(self).model().ui_queue.len() == 0
                    && final(self).model() == old(self).model(),
            },
    {
        let r = self.to_editor.try_receive();
        proof {
            if r is Some {
                assert(self.model() =~= (HubModel {
                    ui_queue: old(self).model().ui_queue.drop_first(),
                    ..old(self).model()
                }));
            } else {
                assert(self.model() =~= old(self).model());
            }
        }
        r
    }
}

/// The hub state after a sequence of host-originated `set_parameter` calls,
/// oldest first; each call carries a slot index and a value.
pub open spec fn hub_after_sets(h: HubModel, calls: Seq<(int, i64)>) -> HubModel
    decreases calls.len(),
{
    if calls.len() == 0 {
        h
    } else {
        hub_after_sets(h.set_param(calls.first().0, calls.first().1), calls.drop_first())
    }
}

/// Subscription gating law, gating half: while the subscription flag is
/// off, no number of `set_parameter` calls adds any message to the UI
/// queue — nothing accumulates for an absent consumer.
pub proof fn lemma_subscription_gating(h: HubModel, calls: Seq<(int, i64)>)
    requires
        !h.subscribed,
    ensures
        hub_after_sets(h, calls).ui_queue == h.ui_queue,
        !hub_after_sets(h, calls).subscribed,
    decreases calls.len(),
{
    if calls.len() > 0 {
        lemma_subscription_gating(h.set_param(calls.first().0, calls.first().1), calls.drop_first());
    }
}

/// Subscription gating law, delivery half: while subscribed, each call
/// appends exactly its own update message, in call order. Together with the
/// gating half this means re-enabling the subscription delivers only
/// subsequent updates: disabling left nothing queued to replay.
pub proof fn lemma_subscribed_delivery(h: HubModel, calls: Seq<(int, i64)>)
    requires
        h.subscribed,
    ensures
        hub_after_sets(h, calls).ui_queue == h.ui_queue + calls.map_values(
            |c: (int, i64)| StateUpdate::SetKnob(c.1),
        ),
    decreases calls.len(),
{
    let f = |c: (int, i64)| StateUpdate::SetKnob(c.1);
    if calls.len() == 0 {
        assert(h.ui_queue + calls.map_values(f) =~= h.ui_queue);
    } else {
        let h1 = h.set_param(calls.first().0, calls.first().1);
        lemma_subscribed_delivery(h1, calls.drop_first());
        assert(h1.ui_queue + calls.drop_first().map_values(f) =~= h.ui_queue + calls.map_values(f));
    }
}

/// Audio delivery law: the audio queue receives every update message,
/// subscribed or not, in call order.
pub proof fn lemma_audio_delivery(h: HubModel, calls: Seq<(int, i64)>)
    ensures
        hub_after_sets(h, calls).dsp_queue == h.dsp_queue + calls.map_values(
            |c: (int, i64)| StateUpdate::SetKnob(c.1),
        ),
    decreases calls.len(),
{
    let f = |c: (int, i64)| StateUpdate::SetKnob(c.1);
    if calls.len() == 0 {
        assert(h.dsp_queue + calls.map_values(f) =~= h.dsp_queue);
    } else {
        let h1 = h.set_param(calls.first().0, calls.first().1);
        lemma_audio_delivery(h1, calls.drop_first());
        assert(h1.dsp_queue + calls.drop_first().map_values(f) =~= h.dsp_queue + calls.map_values(f));
    }
}

} // verus!
