use serial_link::recognizers::{CrLfTerminated, NeverAccepts, NewestByteIs};
use serial_link::scripted::{LinkEvent, ScriptedSerial, ScriptedTimer};
use serial_link::serial::{read_until_message, Error, Recognizer};
use serial_link::timing::Millisecond;

fn byte_script(bytes: &[u8]) -> ScriptedSerial {
    let mut v = Vec::new();
    for b in bytes {
        v.push(LinkEvent::Byte(*b));
    }
    ScriptedSerial::new(v)
}

#[test]
fn crlf_frame_after_three_bytes() {
    // Buffer of four, incoming "A\r\n": after two bytes the recognizer still
    // says not yet; the third byte completes the frame.
    let parser = CrLfTerminated;
    assert!(parser.recognize(&[0x41, 0x0D, 0x00, 0x00], 2).is_none());
    assert_eq!(
        parser.recognize(&[0x41, 0x0D, 0x0A, 0x00], 3),
        Some(vec![0x00, 0x41, 0x0D, 0x0A])
    );

    let mut serial = byte_script(&[0x41, 0x0D, 0x0A]);
    let mut timer = ScriptedTimer::new(2);
    let mut buffer = vec![0u8; 4];
    let frame = read_until_message(&mut serial, &mut timer, Millisecond(50), &mut buffer, &parser);
    match frame {
        Ok(window) => {
            // The ring window ends with exactly the delivered bytes.
            assert_eq!(window, vec![0x00, 0x41, 0x0D, 0x0A]);
        },
        Err(_) => panic!("expected a frame"),
    }
    assert_eq!(buffer, vec![0x41, 0x0D, 0x0A, 0x00]);
}

#[test]
fn frame_exactly_as_long_as_the_buffer() {
    // A frame whose length equals the buffer length: the write index comes
    // back to zero exactly when the terminator arrives.
    let parser = CrLfTerminated;
    let mut serial = byte_script(&[0x41, 0x42, 0x0D, 0x0A]);
    let mut timer = ScriptedTimer::new(2);
    let mut buffer = vec![0u8; 4];
    let frame = read_until_message(&mut serial, &mut timer, Millisecond(50), &mut buffer, &parser);
    assert_eq!(frame.ok(), Some(vec![0x41, 0x42, 0x0D, 0x0A]));
    assert_eq!(buffer, vec![0x41, 0x42, 0x0D, 0x0A]);
}

#[test]
fn frame_recognized_after_wraparound() {
    // Five bytes into a buffer of four: the oldest byte is overwritten and
    // the window is read in ring order.
    let parser = CrLfTerminated;
    let mut serial = byte_script(&[0x41, 0x42, 0x43, 0x0D, 0x0A]);
    let mut timer = ScriptedTimer::new(2);
    let mut buffer = vec![0u8; 4];
    let frame = read_until_message(&mut serial, &mut timer, Millisecond(50), &mut buffer, &parser);
    assert_eq!(frame.ok(), Some(vec![0x42, 0x43, 0x0D, 0x0A]));
    assert_eq!(buffer, vec![0x0A, 0x42, 0x43, 0x0D]);
}

#[test]
fn newest_byte_found_across_wraparound() {
    // Buffer of two, bytes 1, 2, 3: after the third byte the buffer holds
    // [3, 2] and the cursor is back at 1, yet the recognizer is handed the
    // true cursor and identifies 3 as the newest byte.
    let parser = NewestByteIs { target: 0x03 };
    assert_eq!(parser.recognize(&[0x03, 0x02], 1), Some(0x03));

    let mut serial = byte_script(&[0x01, 0x02, 0x03]);
    let mut timer = ScriptedTimer::new(2);
    let mut buffer = vec![0u8; 2];
    let frame = read_until_message(&mut serial, &mut timer, Millisecond(50), &mut buffer, &parser);
    assert!(matches!(frame, Ok(0x03)));
    assert_eq!(buffer, vec![0x03, 0x02]);
}

#[test]
fn never_accepting_recognizer_times_out_once_silent() {
    let parser = NeverAccepts;
    let mut serial = byte_script(&[0x01, 0x02]);
    let mut timer = ScriptedTimer::new(3);
    let mut buffer = vec![0u8; 8];
    let frame = read_until_message(&mut serial, &mut timer, Millisecond(50), &mut buffer, &parser);
    assert!(matches!(frame, Err(Error::TimedOut)));
    assert_eq!(serial.delivered().as_slice(), &[0x01, 0x02]);
}

#[test]
fn hardware_error_short_circuits_assembly() {
    // A fault injected mid-frame aborts immediately: the error is returned
    // unchanged, the byte scripted after the fault is never polled, and the
    // partial frame stays in the buffer.
    let parser = NewestByteIs { target: 0x7F };
    let mut serial = ScriptedSerial::new(vec![
        LinkEvent::Byte(0x01),
        LinkEvent::Fault(5),
        LinkEvent::Byte(0x02),
    ]);
    let mut timer = ScriptedTimer::new(3);
    let mut buffer = vec![0u8; 4];
    let frame = read_until_message(&mut serial, &mut timer, Millisecond(50), &mut buffer, &parser);
    assert!(matches!(frame, Err(Error::Serial(5))));
    assert_eq!(serial.events_consumed(), 2);
    assert_eq!(serial.delivered().as_slice(), &[0x01]);
    assert_eq!(buffer, vec![0x01, 0x00, 0x00, 0x00]);
}

#[test]
fn one_byte_frame_is_valid() {
    // The recognizer is consulted after the very first byte.
    let parser = NewestByteIs { target: 0x0A };
    let mut serial = byte_script(&[0x0A]);
    let mut timer = ScriptedTimer::new(2);
    let mut buffer = vec![0u8; 4];
    let frame = read_until_message(&mut serial, &mut timer, Millisecond(50), &mut buffer, &parser);
    assert!(matches!(frame, Ok(0x0A)));
}
