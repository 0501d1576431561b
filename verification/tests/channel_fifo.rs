//! FIFO behavior of the update queues.

use ampli_fe::channel::{StateUpdate, UpdateChannel};

#[test]
fn delivers_in_send_order() {
    let mut c = UpdateChannel::new();
    c.send(StateUpdate::SetKnob(1));
    c.send(StateUpdate::SetKnob(2));
    c.send(StateUpdate::SetKnob(3));
    assert_eq!(c.len(), 3);
    assert_eq!(c.try_receive(), Some(StateUpdate::SetKnob(1)));
    assert_eq!(c.try_receive(), Some(StateUpdate::SetKnob(2)));
    assert_eq!(c.try_receive(), Some(StateUpdate::SetKnob(3)));
    assert_eq!(c.try_receive(), None);
}

#[test]
fn empty_queue_never_blocks() {
    let mut c = UpdateChannel::new();
    assert_eq!(c.len(), 0);
    assert_eq!(c.try_receive(), None);
    assert_eq!(c.try_receive(), None);
}

#[test]
fn interleaved_sends_and_receives_keep_order() {
    let mut c = UpdateChannel::new();
    c.send(StateUpdate::SetKnob(10));
    c.send(StateUpdate::SetKnob(20));
    assert_eq!(c.try_receive(), Some(StateUpdate::SetKnob(10)));
    c.send(StateUpdate::SetKnob(30));
    assert_eq!(c.try_receive(), Some(StateUpdate::SetKnob(20)));
    assert_eq!(c.try_receive(), Some(StateUpdate::SetKnob(30)));
    assert_eq!(c.try_receive(), None);
}
