use serial_link::scripted::{LinkEvent, ScriptedSerial, ScriptedTimer};
use serial_link::serial::{read_with_timeout, Error};
use serial_link::timing::Millisecond;

fn script(events: &[LinkEvent]) -> ScriptedSerial {
    let mut v = Vec::new();
    for e in events {
        v.push(*e);
    }
    ScriptedSerial::new(v)
}

#[test]
fn reads_bytes_in_delivery_order() {
    let mut serial = script(&[
        LinkEvent::Byte(0x10),
        LinkEvent::Idle,
        LinkEvent::Byte(0x20),
        LinkEvent::Byte(0x30),
    ]);
    let mut timer = ScriptedTimer::new(3);
    let timeout = Millisecond(50);

    assert!(matches!(read_with_timeout(&mut serial, &mut timer, timeout), Ok(0x10)));
    assert!(matches!(read_with_timeout(&mut serial, &mut timer, timeout), Ok(0x20)));
    assert!(matches!(read_with_timeout(&mut serial, &mut timer, timeout), Ok(0x30)));
    assert_eq!(serial.delivered().as_slice(), &[0x10, 0x20, 0x30]);
}

#[test]
fn byte_racing_the_expiry_still_wins() {
    // The timer expires on its very first poll, but the channel is polled
    // first in each iteration, so an immediately available byte is delivered.
    let mut serial = script(&[LinkEvent::Byte(0x77)]);
    let mut timer = ScriptedTimer::new(0);
    assert!(matches!(read_with_timeout(&mut serial, &mut timer, Millisecond(1)), Ok(0x77)));
}

#[test]
fn timeout_when_silent_leaves_channel_untouched() {
    let mut serial = script(&[]);
    let mut timer = ScriptedTimer::new(2);
    let timeout = Millisecond(50);

    assert!(matches!(
        read_with_timeout(&mut serial, &mut timer, timeout),
        Err(Error::TimedOut)
    ));
    assert!(serial.delivered().is_empty());

    // A fresh call with the same inputs behaves identically.
    assert!(matches!(
        read_with_timeout(&mut serial, &mut timer, timeout),
        Err(Error::TimedOut)
    ));
    assert!(serial.delivered().is_empty());
}

#[test]
fn timeout_when_bytes_stop_arriving() {
    // One idle poll per armed timeout is tolerated; pure silence afterwards
    // runs the timer down.
    let mut serial = script(&[LinkEvent::Idle, LinkEvent::Byte(0x42)]);
    let mut timer = ScriptedTimer::new(3);
    let timeout = Millisecond(50);

    assert!(matches!(read_with_timeout(&mut serial, &mut timer, timeout), Ok(0x42)));
    assert!(matches!(
        read_with_timeout(&mut serial, &mut timer, timeout),
        Err(Error::TimedOut)
    ));
    assert_eq!(serial.delivered().as_slice(), &[0x42]);
}

#[test]
fn hardware_error_is_propagated_unchanged() {
    let mut serial = script(&[LinkEvent::Fault(9)]);
    let mut timer = ScriptedTimer::new(5);
    assert!(matches!(
        read_with_timeout(&mut serial, &mut timer, Millisecond(50)),
        Err(Error::Serial(9))
    ));
    assert!(serial.delivered().is_empty());
}
