use peripheral_forensic::analyzer::{audit, Category, DeviceAnomaly, Severity};
use peripheral_forensic::device::{Bus, DeviceConnection, MitreRef, Provenance};

fn conn(instance_id: &str, bus: Bus, dma: bool, os_serial: bool) -> DeviceConnection {
    DeviceConnection {
        bus,
        device_class_guid: None,
        vid: None,
        pid: None,
        device_serial: None,
        serial_is_os_generated: os_serial,
        friendly_name: None,
        device_instance_id: instance_id.to_string(),
        first_install: None,
        last_install: None,
        last_arrival: None,
        last_removal: None,
        parent_id_prefix: None,
        volume_guid: None,
        drive_letter: None,
        volume_serial: None,
        disk_signature: None,
        dma_capable: dma,
        mitre: vec![MitreRef("T1200")],
        source: Provenance { file: "f".into(), line: 1, key_path: None },
    }
}

fn codes(a: &[DeviceAnomaly]) -> Vec<&str> {
    a.iter().map(DeviceAnomaly::code).collect()
}

#[test]
fn dma_device_is_flagged_high_threat() {
    let a = audit(&[conn("1394\\X\\0", Bus::FireWire, true, false)]);
    assert!(codes(&a).contains(&"PERIPHERAL-DMA-CAPABLE-DEVICE"));
    let dma = a.iter().find(|x| x.code() == "PERIPHERAL-DMA-CAPABLE-DEVICE").unwrap();
    assert_eq!(dma.severity(), Some(Severity::High));
    assert_eq!(dma.category(), Category::Threat);
    assert!(dma.mitre().contains(&"T1200"));
}

#[test]
fn mass_storage_is_flagged_medium_threat() {
    let a = audit(&[conn("USBSTOR\\Disk\\X", Bus::Usb, false, false)]);
    assert!(codes(&a).contains(&"PERIPHERAL-MASS-STORAGE-CONNECTED"));
    let ms = a.iter().find(|x| x.code() == "PERIPHERAL-MASS-STORAGE-CONNECTED").unwrap();
    assert_eq!(ms.severity(), Some(Severity::Medium));
    assert!(ms.mitre().contains(&"T1052.001"));
    assert!(ms.mitre().contains(&"T1091"));
}

#[test]
fn hid_device_is_flagged() {
    assert!(codes(&audit(&[conn("BTHENUM\\X", Bus::Bluetooth, false, false)]))
        .contains(&"PERIPHERAL-HID-DEVICE"));
    assert!(codes(&audit(&[conn("HID\\VID_046D&PID_C52B\\X", Bus::Usb, false, false)]))
        .contains(&"PERIPHERAL-HID-DEVICE"));
}

#[test]
fn os_generated_serial_is_flagged_low_integrity() {
    let a = audit(&[conn("USBSTOR\\Disk\\7&abc&0", Bus::Usb, false, true)]);
    assert!(codes(&a).contains(&"PERIPHERAL-OS-GENERATED-SERIAL"));
    let os = a.iter().find(|x| x.code() == "PERIPHERAL-OS-GENERATED-SERIAL").unwrap();
    assert_eq!(os.severity(), Some(Severity::Low));
    assert_eq!(os.category(), Category::Integrity);
    assert!(os.mitre().is_empty());
}

#[test]
fn benign_non_storage_non_dma_device_fires_nothing() {
    let a = audit(&[conn("WpdBusEnumRoot\\X", Bus::Mtp, false, false)]);
    assert!(a.is_empty(), "got {:?}", codes(&a));
}

#[test]
fn findings_are_hedged_observations_never_verdicts() {
    let a = audit(&[
        conn("1394\\X\\0", Bus::FireWire, true, false),
        conn("USBSTOR\\Disk\\7&abc&0", Bus::Usb, false, true),
        conn("BTHENUM\\X", Bus::Bluetooth, false, false),
    ]);
    assert_eq!(a.len(), 4, "DMA + (mass-storage + os-serial) + hid = 4 findings");
    for anomaly in &a {
        let note = anomaly.note().to_ascii_lowercase();
        assert!(note.contains("consistent with"), "must hedge: {note}");
        for forbidden in ["proves", "confirms", "definitely"] {
            assert!(!note.contains(forbidden), "must stay an observation: {note}");
        }
    }
}

#[test]
fn note_quotes_the_instance_id_and_names_the_bus() {
    let a = audit(&[conn("1394\\X\\0", Bus::FireWire, true, false)]);
    assert_eq!(
        a[0].note(),
        "a FireWire device (\"1394\\\\X\\\\0\") connected; the bus is bus-mastering DMA-capable, consistent with a direct-memory-access attack surface (MITRE T1200)"
    );
}

#[test]
fn audit_keeps_device_order_and_anomaly_order() {
    let a = audit(&[
        conn("PCI\\VEN_8086\\3&11583659&0&FE", Bus::Pcie, true, true),
        conn("usbstor\\disk\\1", Bus::Usb, false, false),
    ]);
    assert_eq!(
        codes(&a),
        vec![
            "PERIPHERAL-DMA-CAPABLE-DEVICE",
            "PERIPHERAL-OS-GENERATED-SERIAL",
            "PERIPHERAL-MASS-STORAGE-CONNECTED"
        ]
    );
}

#[test]
fn a_usb_hid_is_not_counted_as_mass_storage() {
    let a = audit(&[conn("USB\\VID_046D&PID_C52B&MI_00\\x&HID", Bus::Usb, false, false)]);
    assert_eq!(codes(&a), vec!["PERIPHERAL-HID-DEVICE"]);
}

#[test]
fn empty_input_has_no_anomalies() {
    assert!(audit(&[]).is_empty());
}
