use peripheral_forensic::device::{Bus, Confidence};
use peripheral_forensic::hive::HiveEntry;
use peripheral_forensic::registry::{
    device_path_instance, dos_drive_letter, parse_vid_pid, registry_connections, InstanceKey,
    PropertyKey,
};

fn u16le(s: &str) -> Vec<u8> {
    s.encode_utf16().flat_map(u16::to_le_bytes).collect()
}

/// The little-endian FILETIME of a Unix epoch second.
fn filetime(epoch: u64) -> Vec<u8> {
    ((epoch + 11_644_473_600) * 10_000_000).to_le_bytes().to_vec()
}

fn prop(name: &str, epoch: u64) -> PropertyKey {
    PropertyKey { name: name.to_string(), default_data: Some(filetime(epoch)), leaves: vec![] }
}

fn instance(cs: &str, class: &str, vendor: &str, inst: &str) -> InstanceKey {
    InstanceKey {
        control_set: cs.to_string(),
        class: class.to_string(),
        vendor: vendor.to_string(),
        instance: inst.to_string(),
        friendly_name: None,
        parent_id_prefix: None,
        properties: vec![],
    }
}

#[test]
fn parse_vid_pid_handles_absent_and_malformed() {
    assert_eq!(
        parse_vid_pid("VID_0781&PID_5583"),
        (Some(0x0781), Some(0x5583))
    );
    assert_eq!(parse_vid_pid("Disk&Ven_Gen&Prod_Flash"), (None, None));
    assert_eq!(parse_vid_pid("VID_07&PID_ZZZZ"), (None, None));
}

#[test]
fn parse_vid_pid_reads_only_four_digits_and_skips_bad_segments() {
    assert_eq!(parse_vid_pid("VID_0781x&PID_55831"), (Some(0x0781), Some(0x5583)));
    assert_eq!(parse_vid_pid("VID_zz&VID_1234"), (Some(0x1234), None));
    assert_eq!(parse_vid_pid(""), (None, None));
}

#[test]
fn dos_drive_letter_extracts_only_well_formed_names() {
    assert_eq!(dos_drive_letter("\\DosDevices\\E:"), Some('E'));
    assert_eq!(dos_drive_letter("\\DosDevices\\c:"), Some('C'));
    assert_eq!(dos_drive_letter("\\??\\Volume{1234}"), None);
    assert_eq!(dos_drive_letter("\\DosDevices\\"), None);
    assert_eq!(dos_drive_letter("\\DosDevices\\EE:"), None);
    assert_eq!(dos_drive_letter("\\DosDevices\\1:"), None);
}

#[test]
fn device_path_instance_extracts_the_instance_or_rejects() {
    let dev = "\\??\\SCSI#Disk&Ven_Test&Prod_X#5&join123&0#{53f5630d-b6bf-11d0-94f2-00a0c91efb8b}";
    assert_eq!(
        device_path_instance(&u16le(dev)).as_deref(),
        Some("5&join123&0")
    );
    assert_eq!(
        device_path_instance(&u16le("\\??\\USBSTOR#Disk&Ven#INST42")).as_deref(),
        Some("INST42")
    );
    assert_eq!(
        device_path_instance(&[0x11, 0x22, 0x33, 0x44, 0, 0, 0, 0, 0, 0, 0, 0]),
        None
    );
    assert_eq!(device_path_instance(&[0, 0]), None);
    assert_eq!(device_path_instance(&[1, 2, 3]), None);
    assert_eq!(device_path_instance(&u16le("C:\\not-a-device-path")), None);
    assert_eq!(device_path_instance(&u16le("\\??\\onlyonepart")), None);
    assert_eq!(
        device_path_instance(&[0x00, 0xD8, 0x00, 0xD8, 0x00, 0x00, 0x00, 0x00]),
        None
    );
}

#[test]
fn device_path_instance_decodes_surrogate_pairs() {
    // U+1F600 as a surrogate pair inside the instance component.
    let raw = u16le("\\??\\USB#Ven#A\u{1F600}B");
    assert_eq!(device_path_instance(&raw).as_deref(), Some("A\u{1F600}B"));
    // An empty instance after the GUID is dropped → None.
    assert_eq!(device_path_instance(&u16le("\\??\\USB#Ven##{x}")), None);
}

#[test]
fn instance_keys_decode_into_connections_on_every_branch() {
    // SCSI: 0064 first-install + 0066 last-arrival, a FriendlyName, an
    // OS-generated serial.
    let mut scsi = instance(
        "ControlSet001",
        "SCSI",
        "Disk&Ven_Test&Prod_Disk",
        "4&2617aeae&0&000000",
    );
    scsi.friendly_name = Some(u16le("Test Virtual Disk\0"));
    scsi.properties = vec![prop("0064", 1_600_357_894), prop("0066", 1_600_478_558)];
    // USBSTOR: first-install through the 0065 fallback, 0067 last-removal.
    let mut usbstor = instance(
        "ControlSet001",
        "USBSTOR",
        "Disk&Ven_Gen&Prod_Flash",
        "AA00000000000001&0",
    );
    usbstor.properties = vec![prop("0065", 1_500_000_000), prop("0067", 1_500_009_999)];
    // USB: VID/PID and a real iSerial.
    let usb = instance("ControlSet001", "USB", "VID_0781&PID_5583", "0123456789AB");
    let conns = registry_connections(&[scsi, usbstor, usb], &[], "SYNTHETIC");
    assert_eq!(conns.len(), 3);

    let scsi = &conns[0];
    assert_eq!(scsi.bus, Bus::ScsiSas);
    assert_eq!(scsi.device_instance_id, "SCSI\\Disk&Ven_Test&Prod_Disk\\4&2617aeae&0&000000");
    assert_eq!(scsi.friendly_name.as_deref(), Some("Test Virtual Disk"));
    assert_eq!(scsi.first_install.as_ref().map(|s| s.value), Some(1_600_357_894));
    assert_eq!(
        scsi.first_install.as_ref().map(|s| s.confidence),
        Some(Confidence::Authoritative)
    );
    assert_eq!(scsi.last_arrival.as_ref().map(|s| s.value), Some(1_600_478_558));
    assert_eq!(
        scsi.last_arrival.as_ref().map(|s| s.confidence),
        Some(Confidence::Inferred)
    );
    assert_eq!(scsi.last_removal, None);
    assert!(scsi.serial_is_os_generated);
    assert_eq!(scsi.device_serial, None);
    assert_eq!(
        scsi.source.key_path.as_deref(),
        Some("ControlSet001\\Enum\\SCSI\\Disk&Ven_Test&Prod_Disk\\4&2617aeae&0&000000")
    );
    assert_eq!(scsi.source.line, 0);
    assert!(!scsi.dma_capable);
    assert!(scsi.mitre.is_empty());

    let usbstor = &conns[1];
    assert_eq!(usbstor.bus, Bus::Usb);
    assert_eq!(usbstor.first_install.as_ref().map(|s| s.value), Some(1_500_000_000));
    assert_eq!(usbstor.last_removal.as_ref().map(|s| s.value), Some(1_500_009_999));
    assert_eq!(usbstor.friendly_name, None);
    assert_eq!(usbstor.device_serial.as_deref(), Some("AA00000000000001&0"));

    let usb = &conns[2];
    assert_eq!(usb.bus, Bus::Usb);
    assert_eq!(usb.vid, Some(0x0781));
    assert_eq!(usb.pid, Some(0x5583));
    assert_eq!(usb.device_serial.as_deref(), Some("0123456789AB"));
    assert!(!usb.serial_is_os_generated);
    assert_eq!(usb.first_install, None);
}

#[test]
fn thunderbolt_instances_are_dma_capable() {
    let mut tb = instance("ControlSet001", "THUNDERBOLT", "VEN_TB&DEV_DOCK", "TB0001");
    tb.friendly_name = Some(u16le("CalDigit TS4 Dock"));
    tb.properties = vec![prop("0066", 1_700_000_000)];
    let conns = registry_connections(&[tb], &[], "SYSTEM");
    assert_eq!(conns[0].bus, Bus::Thunderbolt);
    assert!(conns[0].dma_capable);
    assert_eq!(conns[0].friendly_name.as_deref(), Some("CalDigit TS4 Dock"));
    assert_eq!(conns[0].last_arrival.as_ref().map(|s| s.value), Some(1_700_000_000));
}

#[test]
fn mounted_devices_device_path_joins_a_drive_letter() {
    let dev = instance("ControlSet001", "SCSI", "Disk&Ven_Test&Prod_X", "5&join123&0");
    let other = instance("ControlSet001", "USB", "VID_0781&PID_5583", "SER1");
    let mounted = vec![
        HiveEntry {
            name: "\\DosDevices\\E:".to_string(),
            data: Some(u16le("\\??\\SCSI#Disk&Ven_Test&Prod_X#5&join123&0#{53f5630d-b6bf-11d0-94f2-00a0c91efb8b}")),
        },
        HiveEntry {
            name: "\\DosDevices\\C:".to_string(),
            data: Some(vec![0x11, 0x22, 0x33, 0x44, 0, 0, 0, 0, 0, 0, 0, 0]),
        },
        HiveEntry {
            name: "\\??\\Volume{1234}".to_string(),
            data: Some(u16le("\\??\\SCSI#Disk&Ven_Test&Prod_X#5&join123&0#{53f5630d-b6bf-11d0-94f2-00a0c91efb8b}")),
        },
    ];
    let conns = registry_connections(&[dev, other], &mounted, "SYNTHETIC");
    assert_eq!(conns[0].drive_letter, Some('E'));
    assert_eq!(conns[1].drive_letter, None);
}

#[test]
fn a_later_mounted_devices_value_overrides_an_earlier_one() {
    let dev = instance("ControlSet001", "USBSTOR", "Disk&Ven", "INST42");
    let path = u16le("\\??\\USBSTOR#Disk&Ven#INST42");
    let mounted = vec![
        HiveEntry { name: "\\DosDevices\\E:".to_string(), data: Some(path.clone()) },
        HiveEntry { name: "\\DosDevices\\g:".to_string(), data: Some(path) },
    ];
    let conns = registry_connections(&[dev], &mounted, "SYSTEM");
    assert_eq!(conns[0].drive_letter, Some('G'));
}

#[test]
fn win7_nested_property_layout_is_decoded() {
    let mut dev = instance("ControlSet001", "USBSTOR", "Disk&Ven_SanDisk", "7&win7serial&0");
    dev.properties = vec![PropertyKey {
        name: "00000064".to_string(),
        default_data: None,
        leaves: vec![HiveEntry { name: "00000000".to_string(), data: Some(filetime(1_427_135_471)) }],
    }];
    let conns = registry_connections(&[dev], &[], "SYSTEM");
    assert_eq!(
        conns[0].first_install.as_ref().map(|s| s.value),
        Some(1_427_135_471)
    );
}

#[test]
fn unusable_property_data_falls_back_or_yields_nothing() {
    let mut dev = instance("ControlSet001", "USB", "VID_0001&PID_0002", "S");
    dev.properties = vec![
        // 0064 present but a zero FILETIME → fall back to 0065.
        PropertyKey { name: "64".to_string(), default_data: Some(vec![0; 8]), leaves: vec![] },
        prop("0065", 1_234_567_890),
        // 0066 shorter than 8 bytes.
        PropertyKey { name: "0066".to_string(), default_data: Some(vec![1, 2, 3]), leaves: vec![] },
    ];
    let conns = registry_connections(&[dev], &[], "SYSTEM");
    assert_eq!(conns[0].first_install.as_ref().map(|s| s.value), Some(1_234_567_890));
    assert_eq!(conns[0].last_arrival, None);
}

#[test]
fn a_non_ascii_first_character_before_an_ampersand_marks_an_os_generated_serial() {
    let generated = instance("ControlSet001", "USBSTOR", "Disk&Ven_X&Prod_Y", "é&0");
    let real = instance("ControlSet001", "USBSTOR", "Disk&Ven_X&Prod_Y", "é0&0");
    let conns = registry_connections(&[generated, real], &[], "SYSTEM");
    assert!(conns[0].serial_is_os_generated);
    assert_eq!(conns[0].device_serial, None);
    assert!(!conns[1].serial_is_os_generated);
    assert_eq!(conns[1].device_serial.as_deref(), Some("é0&0"));
}
