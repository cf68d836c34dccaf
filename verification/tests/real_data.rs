//! End-to-end checks against spec-exact SetupAPI text logs written in the
//! Microsoft SetupAPI text-log grammar (Vista+ and XP section headers).

use peripheral_forensic::analyzer::{audit, DeviceAnomaly};
use peripheral_forensic::device::{Bus, Confidence};
use peripheral_forensic::setupapi::parse_setupapi;

const DEV_LOG: &str = "\
[Device Install Log]
     OS Version = 10.0.19045
     Service Pack = 0.0
     Suite = 0x0100
     ProductType = 1
     Architecture = amd64

[BeginLog]

>>>  [Device Install (Hardware initiated) - USB\\VID_0781&PID_5583\\4C530001234567890123 2023/04/15 14:23:11.456]
>>>  Section start 2023/04/15 14:23:11.456
     ump: Creating Install Process: DrvInst.exe 14:23:11.458
     ndv: Retrieving device info...
<<<  Section end 2023/04/15 14:23:12.901
<<<  [Exit status: SUCCESS]

>>>  [Device Install (Hardware initiated) - USBSTOR\\Disk&Ven_SanDisk&Prod_Cruzer_Fit&Rev_1.00\\4C530001234567890123&0 2023/04/15 14:23:13.002]
>>>  Section start 2023/04/15 14:23:13.002
     dvi: Selected driver installs from section [disk_install.NT]
<<<  Section end 2023/04/15 14:23:14.120
<<<  [Exit status: SUCCESS]

>>>  [Device Install (Hardware initiated) - 1394\\Sony&DCR-TRV900\\0800460101234567 2023/05/02 09:10:11.000]
>>>  Section start 2023/05/02 09:10:11.000
<<<  Section end 2023/05/02 09:10:12.500
<<<  [Exit status: SUCCESS]

>>>  [Device Install (Hardware initiated) - HID\\VID_046D&PID_C52B&MI_00\\7&1c2c4f0a&0&0000 2023/06/20 18:00:00.123]
>>>  Section start 2023/06/20 18:00:00.123
<<<  Section end 2023/06/20 18:00:01.004
<<<  [Exit status: SUCCESS]

>>>  [Device Install (Hardware initiated) - PCI\\VEN_8086&DEV_15EF&SUBSYS_00000000&REV_06\\3&11583659&0&FE 2023/07/01 08:30:45.678]
>>>  Section start 2023/07/01 08:30:45.678
<<<  Section end 2023/07/01 08:30:46.000
<<<  [Exit status: SUCCESS]
";

const XP_LOG: &str = "\
[SetupAPI Log]
OS Version = 5.1.2600 Service Pack 3
Platform ID = 2 (NT)
Service Pack = 3.0
Suite = 0x0100
Product Type = 1
Architecture = x86
[2005/05/12 12:34:56 1234.5678] Device Install - USB\\VID_04E8&PID_6860\\0123456789ABCDEF
#-019 Searching for hardware ID(s): usb\\vid_04e8&pid_6860&rev_0400,usb\\vid_04e8&pid_6860
#-198 Command line processed: C:\\WINDOWS\\system32\\services.exe
[2005/05/12 12:40:02 1234.5679] Device Install - USBSTOR\\Disk&Ven_Kingston&Prod_DataTraveler_2.0&Rev_1.00\\5B6C0A1B2C3D&0
#-019 Searching for hardware ID(s): usbstor\\diskkingston_datatraveler_2.01.00
";

#[test]
fn vista_log_parses_devices_with_authoritative_first_install() {
    let devices = parse_setupapi(DEV_LOG, "setupapi.dev.log");
    assert!(
        devices.len() >= 5,
        "expected the 5 device-install headers, got {}",
        devices.len()
    );
    for d in &devices {
        if let Some(s) = d.first_install {
            assert_eq!(s.confidence, Confidence::Authoritative);
        }
    }
    let sandisk = devices
        .iter()
        .find(|d| d.vid == Some(0x0781) && d.pid == Some(0x5583))
        .expect("SanDisk USB device present");
    assert_eq!(sandisk.bus, Bus::Usb);
    assert_eq!(
        sandisk.device_serial.as_deref(),
        Some("4C530001234567890123")
    );
    assert!(!sandisk.serial_is_os_generated);
    assert_eq!(sandisk.volume_serial, None);
}

#[test]
fn vista_log_audit_surfaces_dma_storage_hid_and_os_serial() {
    let devices = parse_setupapi(DEV_LOG, "setupapi.dev.log");
    let anomalies = audit(&devices);
    let codes: Vec<&str> = anomalies.iter().map(DeviceAnomaly::code).collect();
    assert!(codes.contains(&"PERIPHERAL-DMA-CAPABLE-DEVICE"), "got {codes:?}");
    assert!(codes.contains(&"PERIPHERAL-MASS-STORAGE-CONNECTED"), "got {codes:?}");
    assert!(codes.contains(&"PERIPHERAL-HID-DEVICE"), "got {codes:?}");
    assert!(codes.contains(&"PERIPHERAL-OS-GENERATED-SERIAL"), "got {codes:?}");
    assert!(!anomalies.is_empty());
    for a in &anomalies {
        let note = a.note();
        assert!(
            note.to_ascii_lowercase().contains("consistent with"),
            "an anomaly note must hedge: {note}"
        );
    }
}

#[test]
fn vista_log_records_each_header_in_order() {
    let devices = parse_setupapi(DEV_LOG, "setupapi.dev.log");
    assert_eq!(devices.len(), 5);
    let buses: Vec<Bus> = devices.iter().map(|d| d.bus).collect();
    assert_eq!(buses, vec![Bus::Usb, Bus::Usb, Bus::FireWire, Bus::Unknown, Bus::Pcie]);
    assert_eq!(devices[0].source.line, 10);
    assert!(devices[3].serial_is_os_generated);
    assert_eq!(devices[3].device_serial, None);
    assert!(devices[4].dma_capable);
    assert_eq!(devices[0].first_install.map(|s| s.value), Some(1_681_568_591));
}

#[test]
fn xp_log_parses_both_grammars() {
    let devices = parse_setupapi(XP_LOG, "setupapi.log");
    assert!(
        devices.len() >= 2,
        "expected 2 XP device-install lines, got {}",
        devices.len()
    );
    let samsung = devices
        .iter()
        .find(|d| d.vid == Some(0x04E8) && d.pid == Some(0x6860))
        .expect("XP-format Samsung USB device present");
    assert_eq!(samsung.device_serial.as_deref(), Some("0123456789ABCDEF"));
    assert_eq!(samsung.bus, Bus::Usb);
}
