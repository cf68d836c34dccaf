use peripheral_forensic::emdmgmt::{emd_volumes, parse_emd_name};
use peripheral_forensic::hive::HiveEntry;
use peripheral_forensic::mounted_volumes::{decode_mbr, dos_drive_letter, mounted_volumes, volume_guid};
use peripheral_forensic::mountpoints2::user_mounts;
use peripheral_forensic::volume_info::{drive_letter, volume_labels};

fn u16le(s: &str) -> Vec<u8> {
    s.encode_utf16().flat_map(u16::to_le_bytes).collect()
}

#[test]
fn parse_emd_name_splits_prefix_label_and_serial() {
    assert_eq!(
        parse_emd_name("JOJ___Authorized USB_1551191358"),
        Some(("Authorized USB".to_string(), 1_551_191_358))
    );
    assert_eq!(
        parse_emd_name("TO_B__IAMAN $_@_2657770370"),
        Some(("IAMAN $_@".to_string(), 2_657_770_370))
    );
    assert_eq!(
        parse_emd_name("ED_Q___3389815368"),
        Some((String::new(), 3_389_815_368))
    );
    assert_eq!(
        parse_emd_name("PFX__My__Disk_42"),
        Some(("Disk".to_string(), 42))
    );
    assert_eq!(parse_emd_name("Label_42"), Some(("Label".to_string(), 42)));
    assert_eq!(parse_emd_name("NoSerialHere"), None);
    assert_eq!(parse_emd_name("Prefix__Label_notanumber"), None);
}

#[test]
fn emd_serial_past_u32_is_rejected() {
    assert_eq!(parse_emd_name("P__L_4294967295"), Some(("L".to_string(), u32::MAX)));
    assert_eq!(parse_emd_name("P__L_4294967296"), None);
    assert_eq!(parse_emd_name("P__L_"), None);
}

#[test]
fn emd_volumes_keep_decodable_names_in_order() {
    let names = vec![
        "PFX__TESTUSB_1234567890".to_string(),
        "NoSerialHere".to_string(),
        "X__Other_7".to_string(),
    ];
    let vols = emd_volumes(&names, "SOFTWARE");
    assert_eq!(vols.len(), 2);
    assert_eq!(vols[0].volume_label, "TESTUSB");
    assert_eq!(vols[0].volume_serial, 1_234_567_890);
    assert_eq!(vols[0].source.file, "SOFTWARE");
    assert_eq!(
        vols[0].source.key_path.as_deref(),
        Some("Microsoft\\Windows NT\\CurrentVersion\\EMDMgmt\\PFX__TESTUSB_1234567890")
    );
    assert_eq!(vols[1].volume_label, "Other");
    assert_eq!(vols[1].volume_serial, 7);
}

#[test]
fn dos_drive_letter_reads_only_well_formed_names() {
    assert_eq!(dos_drive_letter("\\DosDevices\\E:"), Some('E'));
    assert_eq!(dos_drive_letter("\\DosDevices\\c:"), Some('C'));
    assert_eq!(dos_drive_letter("\\??\\Volume{1234}"), None);
    assert_eq!(dos_drive_letter("\\DosDevices\\EE:"), None);
}

#[test]
fn volume_guid_reads_only_volume_names() {
    assert_eq!(
        volume_guid("\\??\\Volume{A2F2048E-D228-11E4-B630-000C29FF2429}").as_deref(),
        Some("{a2f2048e-d228-11e4-b630-000c29ff2429}")
    );
    assert_eq!(volume_guid("\\DosDevices\\E:"), None);
    assert_eq!(volume_guid("\\??\\Volumexyz"), None);
}

#[test]
fn decode_mbr_reads_signature_and_offset_or_rejects() {
    assert_eq!(
        decode_mbr(&[0x4c, 0x03, 0x21, 0xe2, 0, 0, 1, 0, 0, 0, 0, 0]),
        Some((0xE221_034C, 0x1_0000))
    );
    assert_eq!(decode_mbr(&[0; 216]), None);
    assert_eq!(decode_mbr(&[1, 2, 3]), None);
}

#[test]
fn decode_mbr_reads_all_eight_offset_bytes() {
    assert_eq!(
        decode_mbr(&[0xff, 0xff, 0xff, 0xff, 1, 2, 3, 4, 5, 6, 7, 8]),
        Some((u32::MAX, 0x0807_0605_0403_0201))
    );
}

#[test]
fn mounted_volumes_bridge_letter_and_guid_records() {
    let mbr = vec![0x11, 0x22, 0x33, 0x44, 0, 0x7e, 0, 0, 0, 0, 0, 0];
    let entries = vec![
        HiveEntry { name: "\\DosDevices\\E:".to_string(), data: Some(u16le("\\??\\SCSI#Disk&Ven_Test&Prod_X#5&join123&0#{53f5630d-b6bf-11d0-94f2-00a0c91efb8b}")) },
        HiveEntry { name: "\\DosDevices\\C:".to_string(), data: Some(mbr.clone()) },
        HiveEntry { name: "\\??\\Volume{ABCD}".to_string(), data: Some(mbr) },
        HiveEntry { name: "\\GLOBAL??\\BogusLink".to_string(), data: Some(vec![0; 12]) },
        HiveEntry { name: "\\DosDevices\\F:".to_string(), data: None },
    ];
    let vols = mounted_volumes(&entries, "SYNTHETIC");
    assert_eq!(vols.len(), 2);
    assert_eq!(vols[0].drive_letter, Some('C'));
    assert_eq!(vols[0].volume_guid, None);
    assert_eq!(vols[0].disk_signature, 0x4433_2211);
    assert_eq!(vols[0].partition_offset, 0x7e00);
    assert_eq!(vols[0].source.key_path.as_deref(), Some("MountedDevices\\\\DosDevices\\C:"));
    assert_eq!(vols[1].drive_letter, None);
    assert_eq!(vols[1].volume_guid.as_deref(), Some("{abcd}"));
    // The two records name the same volume.
    assert_eq!(
        (vols[0].disk_signature, vols[0].partition_offset),
        (vols[1].disk_signature, vols[1].partition_offset)
    );
}

#[test]
fn drive_letter_accepts_only_well_formed_names() {
    assert_eq!(drive_letter("E:"), Some('E'));
    assert_eq!(drive_letter("c:"), Some('C'));
    assert_eq!(drive_letter("ZZ:"), None);
    assert_eq!(drive_letter("E"), None);
    assert_eq!(drive_letter("1:"), None);
    assert_eq!(drive_letter(""), None);
}

#[test]
fn volume_labels_keep_labelled_drives_only() {
    let entries = vec![
        HiveEntry { name: "E:".to_string(), data: Some(u16le("TESTLABEL\0")) },
        HiveEntry { name: "C:".to_string(), data: Some(vec![0, 0, 0, 0]) },
        HiveEntry { name: "ZZ:".to_string(), data: Some(u16le("BOGUS")) },
    ];
    let labels = volume_labels(&entries, "SOFTWARE");
    assert_eq!(labels.len(), 1);
    assert_eq!(labels[0].drive_letter, 'E');
    assert_eq!(labels[0].volume_label, "TESTLABEL");
    assert!(labels[0].source.key_path.is_some());
}

#[test]
fn user_mounts_keep_guid_subkeys_with_their_mount_time() {
    // FILETIME of epoch 1_427_230_953.
    let ft = (1_427_230_953u64 + 11_644_473_600) * 10_000_000;
    let subs = vec![
        ("{A2F2048E-D228-11E4-B630-000C29FF2429}".to_string(), ft),
        ("##server#share".to_string(), ft),
        ("{00000000-0000-0000-0000-000000000000}".to_string(), 0),
    ];
    let mounts = user_mounts(&subs, "NTUSER.DAT");
    assert_eq!(mounts.len(), 2);
    assert_eq!(mounts[0].volume_guid, "{a2f2048e-d228-11e4-b630-000c29ff2429}");
    assert_eq!(mounts[0].last_mounted, Some(1_427_230_953));
    assert!(mounts[0].source.key_path.is_some());
    // A zero FILETIME is no usable mount time.
    assert_eq!(mounts[1].last_mounted, None);
}

#[test]
fn volume_labels_decode_lossily_up_to_the_first_nul() {
    // "A", an unpaired high surrogate, "B", a NUL, then text that is cut off;
    // a trailing odd byte is no code unit.
    let mut lossy = vec![0x41, 0x00, 0x00, 0xD8, 0x42, 0x00, 0x00, 0x00];
    lossy.extend(u16le("HIDDEN"));
    // A surrogate pair (U+1F600) and a trailing odd byte.
    let paired = vec![0x3D, 0xD8, 0x00, 0xDE, 0x43, 0x00, 0x7A];
    let entries = vec![
        HiveEntry { name: "F:".to_string(), data: Some(lossy) },
        HiveEntry { name: "G:".to_string(), data: Some(paired) },
    ];
    let labels = volume_labels(&entries, "SOFTWARE");
    assert_eq!(labels.len(), 2);
    assert_eq!(labels[0].volume_label, "A\u{FFFD}B");
    assert_eq!(labels[1].volume_label, "\u{1F600}C");
}
