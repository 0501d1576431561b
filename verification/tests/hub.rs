//! Behavior of the state hub: canonical storage, fan-out and subscription
//! gating.

use ampli_fe::channel::StateUpdate;
use ampli_fe::plugin_state::PluginState;

#[test]
fn initial_state() {
    let mut hub = PluginState::new();
    assert_eq!(hub.get_parameter(0), 500_000);
    assert_eq!(hub.get_parameter(1), 0);
    assert_eq!(hub.get_parameter(2), 0);
    assert_eq!(hub.get_parameter(3), 0);
    assert!(hub.take_dsp_updates().is_empty());
    assert_eq!(hub.poll_editor_update(), None);
}

#[test]
fn set_parameter_stores_and_routes_to_audio() {
    let mut hub = PluginState::new();
    hub.set_parameter(0, 750_000);
    assert_eq!(hub.get_parameter(0), 750_000);
    assert_eq!(hub.take_dsp_updates(), vec![StateUpdate::SetKnob(750_000)]);
    assert!(hub.take_dsp_updates().is_empty());
}

#[test]
fn out_of_range_values_are_stored_as_is() {
    let mut hub = PluginState::new();
    hub.set_parameter(0, -400_000);
    assert_eq!(hub.get_parameter(0), -400_000);
    hub.set_parameter(1, 9_000_000);
    assert_eq!(hub.get_parameter(1), 9_000_000);
}

#[test]
fn ui_queue_gated_by_subscription() {
    let mut hub = PluginState::new();
    // No subscriber: nothing accumulates, however many updates occur.
    hub.set_parameter(0, 100_000);
    hub.set_parameter(0, 200_000);
    hub.set_parameter(0, 300_000);
    assert_eq!(hub.poll_editor_update(), None);
    // After enabling, only subsequent updates are delivered: no backlog.
    hub.set_event_subscription(true);
    assert_eq!(hub.poll_editor_update(), None);
    hub.set_parameter(0, 400_000);
    hub.set_parameter(0, 500_000);
    assert_eq!(hub.poll_editor_update(), Some(StateUpdate::SetKnob(400_000)));
    assert_eq!(hub.poll_editor_update(), Some(StateUpdate::SetKnob(500_000)));
    assert_eq!(hub.poll_editor_update(), None);
    // Disabling gates again.
    hub.set_event_subscription(false);
    hub.set_parameter(0, 600_000);
    assert_eq!(hub.poll_editor_update(), None);
}

#[test]
fn amplitude_control_notifies_host_not_ui() {
    let mut hub = PluginState::new();
    hub.set_event_subscription(true);
    let notice = hub.set_amplitude_control(250_000);
    assert_eq!(notice, (0, 250_000));
    assert_eq!(hub.get_parameter(0), 250_000);
    // The audio queue hears the change; the UI queue does not.
    assert_eq!(hub.take_dsp_updates(), vec![StateUpdate::SetKnob(250_000)]);
    assert_eq!(hub.poll_editor_update(), None);
}

#[test]
fn both_mutation_paths_share_storage_and_audio_queue() {
    let mut hub = PluginState::new();
    hub.set_parameter(0, 100_000);
    hub.set_amplitude_control(200_000);
    hub.set_parameter(0, 300_000);
    assert_eq!(hub.get_parameter(0), 300_000);
    assert_eq!(
        hub.take_dsp_updates(),
        vec![
            StateUpdate::SetKnob(100_000),
            StateUpdate::SetKnob(200_000),
            StateUpdate::SetKnob(300_000),
        ]
    );
}
