use peripheral_forensic::device::{Bus, Confidence, MitreRef};
use peripheral_forensic::setupapi::{civil_to_epoch, parse_setupapi, parse_timestamp};

const VISTA_USB: &str = "[Device Install (Hardware initiated) - USB\\VID_0781&PID_5583\\1234567890AB 2023/04/15 14:23:11.456]";

#[test]
fn parses_vista_usb_header() {
    let conns = parse_setupapi(VISTA_USB, "setupapi.dev.log");
    assert_eq!(conns.len(), 1);
    let c = &conns[0];
    assert_eq!(c.bus, Bus::Usb);
    assert_eq!(c.vid, Some(0x0781));
    assert_eq!(c.pid, Some(0x5583));
    assert_eq!(c.device_serial.as_deref(), Some("1234567890AB"));
    assert!(!c.serial_is_os_generated);
    assert_eq!(c.device_instance_id, "USB\\VID_0781&PID_5583\\1234567890AB");
    assert_eq!(c.source.file, "setupapi.dev.log");
    assert_eq!(c.source.line, 1);
}

#[test]
fn section_marker_prefix_is_stripped() {
    let line =
        ">>>  [Device Install (Hardware initiated) - USB\\VID_0781&PID_5583\\AB 2023/04/15 14:23:11.456]";
    let conns = parse_setupapi(line, "f");
    assert_eq!(conns.len(), 1, "the `>>>` section marker must be stripped");
    assert_eq!(conns[0].vid, Some(0x0781));
}

#[test]
fn install_time_is_authoritative() {
    let c = &parse_setupapi(VISTA_USB, "f")[0];
    let s = c.first_install.expect("first_install present");
    assert_eq!(s.confidence, Confidence::Authoritative);
    assert_eq!(s.value, 1_681_568_591);
    assert_eq!(c.last_arrival, None);
    assert_eq!(c.last_removal, None);
}

#[test]
fn parses_xp_header() {
    let xp = "[2005/05/12 12:34:56 1234.5678] Device Install - USB\\VID_04E8&PID_6860\\0123456789";
    let conns = parse_setupapi(xp, "setupapi.log");
    assert_eq!(conns.len(), 1);
    let c = &conns[0];
    assert_eq!(c.vid, Some(0x04E8));
    assert_eq!(c.pid, Some(0x6860));
    assert_eq!(c.device_serial.as_deref(), Some("0123456789"));
    assert_eq!(c.first_install.map(|s| s.value), Some(1_115_901_296));
}

#[test]
fn os_generated_serial_is_flagged_and_not_kept_as_device_serial() {
    let line = "[Device Install (Hardware initiated) - USBSTOR\\Disk&Ven_Generic&Prod_Flash\\7&1c2c4f0a&0 2024/01/02 03:04:05.000]";
    let c = &parse_setupapi(line, "f")[0];
    assert!(c.serial_is_os_generated, "2nd-char-& serial must be flagged");
    assert_eq!(
        c.device_serial, None,
        "OS-generated serial must not be reported as a real iSerial"
    );
}

#[test]
fn dma_bus_attaches_t1200_and_dma_flag() {
    let line = "[Device Install (Hardware initiated) - 1394\\SONY&CAMERA\\0123 2024/01/02 03:04:05.000]";
    let c = &parse_setupapi(line, "f")[0];
    assert_eq!(c.bus, Bus::FireWire);
    assert!(c.dma_capable);
    assert!(c.mitre.contains(&MitreRef("T1200")));
}

#[test]
fn mass_storage_attaches_exfil_mitre() {
    let c = &parse_setupapi(VISTA_USB, "f")[0];
    assert!(c.mitre.contains(&MitreRef("T1052.001")));
}

#[test]
fn volume_serial_is_distinct_field_from_device_serial() {
    let c = &parse_setupapi(VISTA_USB, "f")[0];
    assert!(c.device_serial.is_some());
    assert_eq!(c.volume_serial, None);
}

#[test]
fn parse_timestamp_rejects_malformed_components() {
    assert_eq!(parse_timestamp("2023/04/15 14:23:11.456"), Some(1_681_568_591));
    assert_eq!(parse_timestamp("2024/01/02/03 04:05:06"), None);
    assert_eq!(parse_timestamp("2024/01/02 04:05:06:07"), None);
    assert_eq!(parse_timestamp("2024/01/02 25:00:00"), None);
    assert_eq!(parse_timestamp("2024/01/02 00:60:00"), None);
    assert_eq!(parse_timestamp("2024/01/02 00:00:61"), None);
    let bad = "[Device Install - USB\\VID_0781&PID_5583\\X 2024/01/02 25:00:00]";
    assert!(parse_setupapi(bad, "f").is_empty());
}

#[test]
fn non_matching_lines_are_skipped_never_panic() {
    let junk = ">>>  [Setup online Device Install (Hardware initiated)]\n\
                not a header at all\n\
                [no closing bracket\n\
                \n\
                [Some Note Without A Path 2024/01/02 03:04:05.000]";
    assert!(parse_setupapi(junk, "f").is_empty());
}

#[test]
fn garbled_and_empty_input_never_panics() {
    assert!(parse_setupapi("", "f").is_empty());
    assert!(parse_setupapi("\u{feff}\0\\\\\\[[[]]]", "f").is_empty());
    assert!(parse_setupapi("[USB\\VID_0781&PID_5583\\X 9999/99/99 99:99:99]", "f").is_empty());
}

#[test]
fn missing_serial_segment_yields_none_serial() {
    let line = "[Device Install (Hardware initiated) - PCI\\VEN_8086&DEV_1234 2024/01/02 03:04:05.000]";
    let c = &parse_setupapi(line, "f")[0];
    assert_eq!(c.bus, Bus::Pcie);
    assert_eq!(c.device_serial, None);
    assert!(!c.serial_is_os_generated);
    assert!(c.dma_capable);
}

#[test]
fn civil_to_epoch_matches_known_instants() {
    assert_eq!(civil_to_epoch(1970, 1, 1, 0, 0, 0), Some(0));
    assert_eq!(civil_to_epoch(2000, 3, 1, 0, 0, 0), Some(951_868_800));
    assert_eq!(civil_to_epoch(2024, 2, 29, 12, 0, 0), Some(1_709_208_000));
    assert_eq!(civil_to_epoch(1, 1, 1, 0, 0, 0), Some(-62_135_596_800));
    assert_eq!(civil_to_epoch(9999, 12, 31, 23, 59, 59), Some(253_402_300_799));
}

#[test]
fn civil_to_epoch_rejects_out_of_range_fields() {
    assert_eq!(civil_to_epoch(0, 1, 1, 0, 0, 0), None);
    assert_eq!(civil_to_epoch(10_000, 1, 1, 0, 0, 0), None);
    assert_eq!(civil_to_epoch(i64::MAX, 1, 1, 0, 0, 0), None);
    assert_eq!(civil_to_epoch(2024, 13, 1, 0, 0, 0), None);
    assert_eq!(civil_to_epoch(2024, 1, 32, 0, 0, 0), None);
    assert_eq!(civil_to_epoch(2024, 1, 1, 0, 0, -1), None);
}

#[test]
fn leap_second_and_crlf_lines_are_handled() {
    assert_eq!(parse_timestamp("  2016/12/31 23:59:60  "), Some(1_483_228_800));
    let text = "junk\r\n[Device Install - USB\\VID_0781&PID_5583\\S1 2023/04/15 14:23:11.456]\r\nmore";
    let conns = parse_setupapi(text, "f");
    assert_eq!(conns.len(), 1);
    assert_eq!(conns[0].source.line, 2);
    assert_eq!(conns[0].device_serial.as_deref(), Some("S1"));
}

#[test]
fn longest_instance_token_wins() {
    let line = "[Device Install - USB\\A USBSTOR\\Disk&Ven_X\\LONGSERIAL 2023/04/15 14:23:11]";
    let c = &parse_setupapi(line, "f")[0];
    assert_eq!(c.device_instance_id, "USBSTOR\\Disk&Ven_X\\LONGSERIAL");
    assert_eq!(c.vid, None);
}

#[test]
fn signed_timestamp_fields_follow_integer_parsing() {
    assert_eq!(parse_timestamp("+2023/04/15 14:23:11"), Some(1_681_568_591));
    assert_eq!(parse_timestamp("2023/-4/15 14:23:11"), None);
    assert_eq!(parse_timestamp("2023/04/15"), None);
}
