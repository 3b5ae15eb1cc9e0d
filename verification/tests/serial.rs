use esp32s3_i2s_mic_idf::serial::{baud_rate, copy_step, port_name, CopyAction, PortRead};

#[test]
fn arguments_have_defaults() {
    assert_eq!(port_name(None), "/dev/cu.usbmodem2101");
    assert_eq!(port_name(Some("/dev/ttyACM0".to_string())), "/dev/ttyACM0");
    assert_eq!(baud_rate(None), Some(921600));
}

#[test]
fn a_baud_rate_is_a_number() {
    for text in [
        "115200", "0", "007", "+9600", "4294967295", "4294967296", "99999999999999999999", "",
        "+", "-1", "++1", "9600 ", " 9600", "96_00", "0x10", "12a4", "\u{661}",
    ] {
        assert_eq!(baud_rate(Some(text.to_string())), text.parse::<u32>().ok());
    }
    assert_eq!(baud_rate(Some("115200".to_string())), Some(115200));
    assert_eq!(baud_rate(Some("4294967296".to_string())), None);
}

#[test]
fn quiet_is_no_error() {
    assert_eq!(copy_step(PortRead::Bytes(17)), CopyAction::Copy(17));
    assert_eq!(copy_step(PortRead::Bytes(0)), CopyAction::Next);
    assert_eq!(copy_step(PortRead::TimedOut), CopyAction::Next);
    assert_eq!(copy_step(PortRead::Failed), CopyAction::Stop);
}
