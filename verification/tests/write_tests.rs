use serial_link::scripted::ScriptedWriter;
use serial_link::serial::write_all;

#[test]
fn empty_write_succeeds_with_zero_interactions() {
    // Capacity zero: the very first offered byte would fail, so success on
    // the empty buffer shows the peripheral was never touched.
    let mut writer = ScriptedWriter::new(0, 0, 9);
    assert!(write_all(&mut writer, &[]).is_ok());
    assert!(writer.accepted().is_empty());
}

#[test]
fn writes_every_byte_in_order() {
    let mut writer = ScriptedWriter::new(8, 0, 9);
    assert!(write_all(&mut writer, &[0x01, 0x02, 0x03]).is_ok());
    assert_eq!(writer.accepted().as_slice(), &[0x01, 0x02, 0x03]);
}

#[test]
fn spins_through_a_busy_peripheral() {
    // Two pending polls before the peripheral starts answering.
    let mut writer = ScriptedWriter::new(8, 2, 9);
    assert!(write_all(&mut writer, &[0xAA, 0xBB]).is_ok());
    assert_eq!(writer.accepted().as_slice(), &[0xAA, 0xBB]);
}

#[test]
fn hardware_error_aborts_with_a_prefix_transmitted() {
    let mut writer = ScriptedWriter::new(2, 0, 5);
    let r = write_all(&mut writer, &[0x01, 0x02, 0x03, 0x04]);
    assert_eq!(r, Err(5));
    assert_eq!(writer.accepted().as_slice(), &[0x01, 0x02]);
}
