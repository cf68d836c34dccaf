//! Concrete instances of the library's laws.

use peripheral_forensic::analyzer::{audit, DeviceAnomaly};
use peripheral_forensic::device::{Bus, Confidence, DeviceConnection};
use peripheral_forensic::linux_syslog::parse_linux_syslog;
use peripheral_forensic::setupapi::parse_setupapi;
use peripheral_forensic::usb_ids::UsbIdDb;

const LOG: &str = "\
>>>  [Device Install (Hardware initiated) - USB\\VID_0781&PID_5583\\SERIAL1 2023/04/15 14:23:11.456]
noise
>>>  [Device Install (Hardware initiated) - PCI\\VEN_8086&DEV_15EF\\3&11583659&0&FE 2023/07/01 08:30:45.678]
[2005/05/12 12:34:56 1234.5678] Device Install - USBSTOR\\Disk&Ven_X\\7&abc&0
";

const SYSLOG: &str = "\
Mar 24 15:47:28 host kernel: [ 2.35] usb 2-1: New USB device found, idVendor=80ee, idProduct=0021, bcdDevice= 1.00
Mar 24 15:47:28 host kernel: [ 2.35] usb 2-1: Product: USB Tablet
Mar 24 15:47:29 host kernel: [ 2.40] usb 1-1: New USB device found, idVendor=1d6b, idProduct=0002
Mar 24 15:47:29 host kernel: [ 2.41] usb 1-1: SerialNumber: 0000:00:06.0
";

fn consistent(c: &DeviceConnection) -> bool {
    (!c.serial_is_os_generated || c.device_serial.is_none())
        && c.volume_serial.is_none()
        && c.dma_capable == c.bus.is_dma_capable()
}

#[test]
fn setupapi_records_keep_their_promises() {
    let conns = parse_setupapi(LOG, "setupapi.dev.log");
    assert_eq!(conns.len(), 3);
    for c in &conns {
        assert!(consistent(c));
        assert_eq!(c.first_install.map(|s| s.confidence), Some(Confidence::Authoritative));
        assert_eq!(c.source.file, "setupapi.dev.log");
        assert!(c.source.line >= 1);
        assert_eq!(c.source.key_path, None);
    }
    let lines: Vec<usize> = conns.iter().map(|c| c.source.line).collect();
    assert_eq!(lines, vec![1, 3, 4]);
    assert!(conns[1].dma_capable && conns[1].serial_is_os_generated);
    assert_eq!(conns[1].device_serial, None);
    assert_eq!(conns[2].device_serial, None);
}

#[test]
fn syslog_records_keep_their_promises() {
    let conns = parse_linux_syslog(SYSLOG, "syslog", 2024);
    assert_eq!(conns.len(), 2);
    for c in &conns {
        assert!(consistent(c));
        assert_eq!(c.bus, Bus::Usb);
        assert_eq!(c.first_install.map(|s| s.confidence), Some(Confidence::Authoritative));
        assert_eq!(c.source.file, "syslog");
    }
    assert!(conns[0].source.line < conns[1].source.line);
    assert_eq!((conns[0].source.line, conns[1].source.line), (1, 3));
}

#[test]
fn auditing_two_batches_is_auditing_each() {
    let a = parse_setupapi(LOG, "a");
    let b = parse_linux_syslog(SYSLOG, "b", 2024);
    let mut ab = a.clone();
    ab.extend(b.iter().cloned());
    let mut expected = audit(&a);
    expected.extend(audit(&b));
    assert_eq!(audit(&ab), expected);
}

#[test]
fn every_anomaly_names_an_audited_device_and_hedges() {
    let devices = parse_setupapi(LOG, "setupapi.dev.log");
    let anomalies = audit(&devices);
    assert!(!anomalies.is_empty());
    for a in &anomalies {
        let id = match a {
            DeviceAnomaly::DmaCapableDevice { instance_id, .. }
            | DeviceAnomaly::MassStorageConnected { instance_id }
            | DeviceAnomaly::HidDevice { instance_id }
            | DeviceAnomaly::OsGeneratedSerial { instance_id } => instance_id,
        };
        assert!(devices.iter().any(|d| &d.device_instance_id == id));
        assert!(a.note().contains("consistent with"));
    }
}

#[test]
fn products_are_filed_only_under_known_vendors() {
    let text = "\t0001  Orphan before any vendor\n\
                1234  Vendor A\n\
                \t0001  Product of A\n\
                not a vendor line\n\
                \t0002  Orphan after a section line\n";
    let db = UsbIdDb::parse(text);
    assert_eq!(db.product_name(0x1234, 0x0001), Some("Product of A"));
    assert_eq!(db.vendor_name(0x1234), Some("Vendor A"));
    assert_eq!(db.vendor_count(), 1);
    for pid in [0x0001u16, 0x0002] {
        for vid in [0x0000u16, 0x1234, 0xffff] {
            if db.product_name(vid, pid).is_some() {
                assert!(db.vendor_name(vid).is_some());
            }
        }
    }
}

#[test]
fn enumerator_case_never_changes_the_bus_and_no_bus_is_dma_and_storage() {
    for e in ["usbstor", "UsbStor", "1394", "pci", "Thunderbolt", "nvme", "sd", "hid"] {
        assert_eq!(Bus::from_enumerator(e), Bus::from_enumerator(&e.to_ascii_uppercase()));
    }
    for b in [
        Bus::Usb, Bus::Mtp, Bus::FireWire, Bus::Thunderbolt, Bus::Pcie, Bus::Esata, Bus::SdMmc,
        Bus::Bluetooth, Bus::ExpressCard, Bus::ScsiSas, Bus::Nvme, Bus::Unknown,
    ] {
        assert!(!(b.is_dma_capable() && b.is_mass_storage()));
    }
}

#[test]
fn a_section_marker_and_the_blanks_after_it_change_nothing() {
    let bare = "[Device Install (Hardware initiated) - USB\\VID_0781&PID_5583\\AB 2023/04/15 14:23:11.456]";
    let plain = parse_setupapi(bare, "f");
    assert_eq!(plain.len(), 1);
    assert_eq!(plain[0].vid, Some(0x0781));
    for marked in [format!(">>>  {bare}"), format!("<<<  {bare}"), format!(">>>\t{bare}"), format!("<<<{bare}")] {
        assert_eq!(parse_setupapi(&marked, "f"), plain);
    }
}

#[test]
fn only_unindented_entry_lines_add_vendors() {
    let text = "# 1234  Commented Vendor\n\t5678  Indented Product\n\t\t9abc  Interface\n\nC 00  Class\n0781  SanDisk Corp.\n\t5583  Ultra Fit\n";
    let db = UsbIdDb::parse(text);
    assert_eq!(db.vendor_count(), 1);
    assert_eq!(db.vendor_name(0x0781), Some("SanDisk Corp."));
    assert_eq!(db.vendor_name(0x1234), None);
    assert_eq!(db.vendor_name(0x5678), None);
    assert_eq!(db.vendor_name(0x9abc), None);
    assert_eq!(db.product_name(0x0781, 0x5583), Some("Ultra Fit"));
}
