use peripheral_forensic::device::{Bus, Confidence};
use peripheral_forensic::linux_syslog::{month_number, parse_linux_syslog};
use peripheral_forensic::setupapi::civil_to_epoch;

const BLOCK: &str = "\
Mar 24 15:47:28 kernel: [    1.501698] usb 2-1: new full-speed USB device number 2 using ohci-pci
Mar 24 15:47:28 kernel: [    2.350118] usb 2-1: New USB device found, idVendor=0781, idProduct=5583, bcdDevice= 1.00
Mar 24 15:47:28 kernel: [    2.350126] usb 2-1: New USB device strings: Mfr=1, Product=3, SerialNumber=2
Mar 24 15:47:28 kernel: [    2.350143] usb 2-1: Product: Ultra Fit
Mar 24 15:47:28 kernel: [    2.350146] usb 2-1: Manufacturer: SanDisk
Mar 24 15:47:28 kernel: [    2.350150] usb 2-1: SerialNumber: 0123ABCD4567
Mar 24 15:47:29 kernel: [    2.400000] some unrelated line without a device";

#[test]
fn parses_a_usb_block_into_a_connection() {
    let conns = parse_linux_syslog(BLOCK, "syslog", 2026);
    assert_eq!(conns.len(), 1);
    let c = &conns[0];
    assert_eq!(c.bus, Bus::Usb);
    assert_eq!(c.vid, Some(0x0781));
    assert_eq!(c.pid, Some(0x5583));
    assert_eq!(c.device_serial.as_deref(), Some("0123ABCD4567"));
    assert_eq!(c.friendly_name.as_deref(), Some("Ultra Fit"));
    assert_eq!(c.device_instance_id, "usb/2-1");
    assert_eq!(
        c.first_install.as_ref().map(|s| s.value),
        civil_to_epoch(2026, 3, 24, 15, 47, 28)
    );
    assert_eq!(c.source.line, 2);
}

#[test]
fn two_devices_and_a_serialless_device() {
    let text = "\
Jan  2 00:00:00 kernel: usb 1-1: New USB device found, idVendor=abcd, idProduct=0001
Jan  2 00:00:00 kernel: usb 1-1: Product: Tablet
Feb 15 12:00:00 kernel: usb 3-2: New USB device found, idVendor=1234, idProduct=5678
Feb 15 12:00:00 kernel: usb 9-9: Product: WrongBus
Feb 15 12:00:00 kernel: usb 3-2: SerialNumber: SN9";
    let conns = parse_linux_syslog(text, "dmesg", 2026);
    assert_eq!(conns.len(), 2);
    assert_eq!(conns[0].device_serial, None);
    assert_eq!(conns[0].friendly_name.as_deref(), Some("Tablet"));
    assert_eq!(conns[1].device_serial.as_deref(), Some("SN9"));
    assert_eq!(conns[1].friendly_name, None);
}

#[test]
fn malformed_lines_and_bad_month_never_panic() {
    assert!(parse_linux_syslog("", "f", 2026).is_empty());
    assert!(parse_linux_syslog("not a kernel line at all\n\0\0", "f", 2026).is_empty());
    assert_eq!(month_number("Zzz"), None);
    let c = &parse_linux_syslog(
        "Zzz 99 99:99:99 kernel: usb 2-1: New USB device found, idVendor=0781, idProduct=5583",
        "f",
        2026,
    )[0];
    assert_eq!(c.first_install, None);
    assert_eq!(c.vid, Some(0x0781));
}

#[test]
fn month_numbers_cover_the_year() {
    let names = ["Jan", "Feb", "Mar", "Apr", "May", "Jun", "Jul", "Aug", "Sep", "Oct", "Nov", "Dec"];
    for (i, n) in names.iter().enumerate() {
        assert_eq!(month_number(n), Some(i as i64 + 1));
    }
    assert_eq!(month_number("jan"), None);
}

#[test]
fn syslog_stamp_is_authoritative_with_the_reference_year() {
    let line = "Dec 31 23:59:59 host kernel: usb 1-2: New USB device found, idVendor=80ee, idProduct=0021";
    let c = &parse_linux_syslog(line, "syslog", 2020)[0];
    let s = c.first_install.expect("stamp");
    assert_eq!(s.confidence, Confidence::Authoritative);
    assert_eq!(s.value, 1_609_459_199);
    assert_eq!(c.vid, Some(0x80ee));
    assert_eq!(c.pid, Some(0x0021));
    assert!(!c.dma_capable);
    assert!(c.mitre.is_empty());
}

#[test]
fn short_or_non_hex_id_fields_are_none() {
    let line = "Jan  1 00:00:00 kernel: usb 1-1: New USB device found, idVendor=12, idProduct=zzzz";
    let c = &parse_linux_syslog(line, "f", 2026)[0];
    assert_eq!(c.vid, None);
    assert_eq!(c.pid, None);
}
