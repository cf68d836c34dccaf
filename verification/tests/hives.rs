//! The hive readers run end to end on in-memory REGF hives built here: a
//! base block, one hive bin, and `nk` / `vk` / `li` / value-list / data cells
//! laid out the way `winreg_core` reads them.

use peripheral_forensic::device::{Bus, Confidence};
use peripheral_forensic::emdmgmt::parse_emdmgmt;
use peripheral_forensic::hive::RegHive;
use peripheral_forensic::mounted_volumes::parse_mounted_volumes;
use peripheral_forensic::mountpoints2::parse_mountpoints2;
use peripheral_forensic::registry::parse_registry;
use peripheral_forensic::shellbag::parse_shellbags;
use peripheral_forensic::volume_info::parse_volume_info_cache;

const REG_SZ: u32 = 1;
const REG_BINARY: u32 = 3;
const REG_DWORD: u32 = 4;
const PROPS: &str = "Properties\\{83da6326-97a6-4088-9453-a1923f573b29}";

/// The FILETIME of a Unix epoch second.
fn ft(epoch: u64) -> u64 {
    (epoch + 11_644_473_600) * 10_000_000
}

fn u16le(s: &str) -> Vec<u8> {
    s.encode_utf16().flat_map(u16::to_le_bytes).collect()
}

fn sz(s: &str) -> Vec<u8> {
    let mut v = u16le(s);
    v.extend_from_slice(&[0, 0]);
    v
}

struct Node {
    name: String,
    last_written: u64,
    values: Vec<(String, u32, Vec<u8>)>,
    children: Vec<Node>,
}

impl Node {
    fn new(name: &str, last_written: u64) -> Node {
        Node { name: name.to_string(), last_written, values: Vec::new(), children: Vec::new() }
    }

    /// The key at a `\`-separated path below this one, created as needed.
    fn key(&mut self, path: &str) -> &mut Node {
        let mut node = self;
        for part in path.split('\\').filter(|p| !p.is_empty()) {
            let lw = node.last_written;
            let i = match node.children.iter().position(|c| c.name == part) {
                Some(i) => i,
                None => {
                    node.children.push(Node::new(part, lw));
                    node.children.len() - 1
                }
            };
            node = &mut node.children[i];
        }
        node
    }

    fn value(&mut self, path: &str, name: &str, kind: u32, data: Vec<u8>) {
        self.key(path).values.push((name.to_string(), kind, data));
    }
}

/// Append a cell holding `body`; its offset is relative to the hive-bins start.
fn cell(bins: &mut Vec<u8>, body: &[u8]) -> u32 {
    let off = bins.len() as u32;
    let size = (4 + body.len() + 7) / 8 * 8;
    bins.extend_from_slice(&(-(size as i32)).to_le_bytes());
    bins.extend_from_slice(body);
    bins.resize(off as usize + size, 0);
    off
}

fn write_node(bins: &mut Vec<u8>, node: &Node, root: bool) -> u32 {
    let child_offs: Vec<u32> = node.children.iter().map(|c| write_node(bins, c, false)).collect();
    let subkeys = if child_offs.is_empty() {
        u32::MAX
    } else {
        let mut li = b"li".to_vec();
        li.extend_from_slice(&(child_offs.len() as u16).to_le_bytes());
        for o in &child_offs {
            li.extend_from_slice(&o.to_le_bytes());
        }
        cell(bins, &li)
    };
    let mut value_offs = Vec::new();
    for (name, kind, data) in &node.values {
        let (size_raw, data_field) = if data.is_empty() {
            (0u32, 0u32)
        } else if data.len() <= 4 {
            let mut inline = [0u8; 4];
            inline[..data.len()].copy_from_slice(data);
            (0x8000_0000 | data.len() as u32, u32::from_le_bytes(inline))
        } else {
            (data.len() as u32, cell(bins, data))
        };
        let mut vk = b"vk".to_vec();
        vk.extend_from_slice(&(name.len() as u16).to_le_bytes());
        vk.extend_from_slice(&size_raw.to_le_bytes());
        vk.extend_from_slice(&data_field.to_le_bytes());
        vk.extend_from_slice(&kind.to_le_bytes());
        vk.extend_from_slice(&(if name.is_empty() { 0u16 } else { 1u16 }).to_le_bytes());
        vk.extend_from_slice(&[0, 0]);
        vk.extend_from_slice(name.as_bytes());
        value_offs.push(cell(bins, &vk));
    }
    let values = if value_offs.is_empty() {
        u32::MAX
    } else {
        let list: Vec<u8> = value_offs.iter().flat_map(|o| o.to_le_bytes()).collect();
        cell(bins, &list)
    };
    let mut nk = b"nk".to_vec();
    let flags: u16 = if root { 0x0024 } else { 0x0020 };
    nk.extend_from_slice(&flags.to_le_bytes());
    nk.extend_from_slice(&node.last_written.to_le_bytes());
    nk.extend_from_slice(&0u32.to_le_bytes());
    nk.extend_from_slice(&0u32.to_le_bytes());
    nk.extend_from_slice(&(child_offs.len() as u32).to_le_bytes());
    nk.extend_from_slice(&0u32.to_le_bytes());
    nk.extend_from_slice(&subkeys.to_le_bytes());
    nk.extend_from_slice(&u32::MAX.to_le_bytes());
    nk.extend_from_slice(&(value_offs.len() as u32).to_le_bytes());
    nk.extend_from_slice(&values.to_le_bytes());
    nk.extend_from_slice(&u32::MAX.to_le_bytes());
    nk.extend_from_slice(&u32::MAX.to_le_bytes());
    nk.extend_from_slice(&[0u8; 20]);
    nk.extend_from_slice(&(node.name.len() as u16).to_le_bytes());
    nk.extend_from_slice(&0u16.to_le_bytes());
    nk.extend_from_slice(node.name.as_bytes());
    cell(bins, &nk)
}

fn hive_bytes(root: &Node) -> Vec<u8> {
    let mut bins = vec![0u8; 32];
    let root_off = write_node(&mut bins, root, true);
    let size = (bins.len() + 4095) / 4096 * 4096;
    bins.resize(size, 0);
    bins[0..4].copy_from_slice(b"hbin");
    bins[8..12].copy_from_slice(&(size as u32).to_le_bytes());
    let mut hive = vec![0u8; 4096];
    hive[0..4].copy_from_slice(b"regf");
    hive[0x04..0x08].copy_from_slice(&1u32.to_le_bytes());
    hive[0x08..0x0C].copy_from_slice(&1u32.to_le_bytes());
    hive[0x14..0x18].copy_from_slice(&1u32.to_le_bytes());
    hive[0x18..0x1C].copy_from_slice(&5u32.to_le_bytes());
    hive[0x20..0x24].copy_from_slice(&1u32.to_le_bytes());
    hive[0x24..0x28].copy_from_slice(&root_off.to_le_bytes());
    hive[0x28..0x2C].copy_from_slice(&(size as u32).to_le_bytes());
    hive[0x2C..0x30].copy_from_slice(&1u32.to_le_bytes());
    let mut sum: u32 = 0;
    for i in 0..127 {
        sum ^= u32::from_le_bytes(hive[i * 4..i * 4 + 4].try_into().unwrap());
    }
    if sum == 0 {
        sum = 1;
    }
    if sum == u32::MAX {
        sum = u32::MAX - 1;
    }
    hive[0x1FC..0x200].copy_from_slice(&sum.to_le_bytes());
    hive.extend_from_slice(&bins);
    hive
}

fn open(root: &Node) -> RegHive {
    RegHive::from_bytes(hive_bytes(root)).expect("valid REGF")
}

/// The three device instances of the USB `SYSTEM` fixture.
fn usb_system() -> RegHive {
    let mut root = Node::new("ROOT", ft(1_600_000_000));
    let scsi = "ControlSet001\\Enum\\SCSI\\Disk&Ven_Test&Prod_Disk\\4&2617aeae&0&000000";
    root.value(scsi, "FriendlyName", REG_SZ, sz("Test Virtual Disk"));
    root.value(&format!("{scsi}\\{PROPS}\\0064"), "", REG_BINARY, ft(1_600_357_894).to_le_bytes().to_vec());
    root.value(&format!("{scsi}\\{PROPS}\\0066"), "", REG_BINARY, ft(1_600_478_558).to_le_bytes().to_vec());
    let stor = "ControlSet001\\Enum\\USBSTOR\\Disk&Ven_Gen&Prod_Flash\\AA01234567&0";
    root.value(&format!("{stor}\\{PROPS}\\0065"), "", REG_BINARY, ft(1_500_000_000).to_le_bytes().to_vec());
    root.value(&format!("{stor}\\{PROPS}\\0067"), "", REG_BINARY, ft(1_500_009_999).to_le_bytes().to_vec());
    root.key("ControlSet001\\Enum\\USB\\VID_0781&PID_5583\\0123456789AB");
    open(&root)
}

#[test]
fn built_hives_open_and_garbage_does_not() {
    assert!(RegHive::from_bytes(vec![0; 100]).is_none());
    let mut bytes = hive_bytes(&Node::new("ROOT", 0));
    bytes[0x30] ^= 1; // breaks the base-block checksum
    assert!(RegHive::from_bytes(bytes).is_none());
}

#[test]
fn synthetic_hive_exercises_every_branch() {
    let conns = parse_registry(&usb_system(), "SYNTHETIC");
    let by = |needle: &str| {
        conns
            .iter()
            .find(|c| c.device_instance_id.contains(needle))
            .expect("device present")
    };
    let scsi = by("Disk&Ven_Test&Prod_Disk");
    assert_eq!(scsi.bus, Bus::ScsiSas);
    assert_eq!(scsi.friendly_name.as_deref(), Some("Test Virtual Disk"));
    assert_eq!(scsi.first_install.as_ref().map(|s| s.value), Some(1_600_357_894));
    assert_eq!(scsi.last_arrival.as_ref().map(|s| s.value), Some(1_600_478_558));
    assert_eq!(scsi.last_removal, None);
    assert!(scsi.serial_is_os_generated);
    assert!(scsi.source.key_path.is_some());

    let usbstor = by("Disk&Ven_Gen&Prod_Flash");
    assert_eq!(usbstor.bus, Bus::Usb);
    assert_eq!(usbstor.first_install.as_ref().map(|s| s.value), Some(1_500_000_000));
    assert_eq!(usbstor.last_removal.as_ref().map(|s| s.value), Some(1_500_009_999));
    assert_eq!(usbstor.friendly_name, None);

    let usb = by("VID_0781&PID_5583");
    assert_eq!(usb.bus, Bus::Usb);
    assert_eq!(usb.vid, Some(0x0781));
    assert_eq!(usb.pid, Some(0x5583));
    assert_eq!(usb.device_serial.as_deref(), Some("0123456789AB"));
    assert!(!usb.serial_is_os_generated);
}

#[test]
fn registry_walk_order_is_control_set_then_class() {
    let mut root = Node::new("ROOT", ft(1_600_000_000));
    root.key("ControlSet002\\Enum\\USB\\VID_0001&PID_0001\\B");
    root.key("ControlSet001\\Enum\\SCSI\\Disk\\C");
    root.key("ControlSet001\\Enum\\USBSTOR\\Disk\\A");
    root.key("ControlSet001\\Enum\\1394\\Cam\\X");
    let conns = parse_registry(&open(&root), "SYSTEM");
    let ids: Vec<&str> = conns.iter().map(|c| c.device_instance_id.as_str()).collect();
    assert_eq!(ids, vec!["USBSTOR\\Disk\\A", "SCSI\\Disk\\C", "USB\\VID_0001&PID_0001\\B"]);
    assert_eq!(
        conns[2].source.key_path.as_deref(),
        Some("ControlSet002\\Enum\\USB\\VID_0001&PID_0001\\B")
    );
    assert_eq!(conns[2].first_install.map(|s| s.confidence), None::<Confidence>);
}

#[test]
fn thunderbolt_dock_is_read_from_its_enum_class() {
    let mut root = Node::new("ROOT", ft(1_600_000_000));
    let tb = "ControlSet001\\Enum\\THUNDERBOLT\\VEN_TB&DEV_DOCK\\TB0001";
    root.value(tb, "FriendlyName", REG_SZ, sz("CalDigit TS4 Dock"));
    root.value(&format!("{tb}\\{PROPS}\\0066"), "", REG_BINARY, ft(1_700_000_000).to_le_bytes().to_vec());
    let conns = parse_registry(&open(&root), "SYSTEM");
    assert_eq!(conns.len(), 1);
    assert_eq!(conns[0].bus, Bus::Thunderbolt);
    assert!(conns[0].dma_capable);
    assert_eq!(conns[0].friendly_name.as_deref(), Some("CalDigit TS4 Dock"));
    assert_eq!(conns[0].last_arrival.as_ref().map(|s| s.value), Some(1_700_000_000));
}

fn mounted_devices_hive() -> RegHive {
    let mut root = Node::new("ROOT", ft(1_600_000_000));
    root.key("ControlSet001\\Enum\\SCSI\\Disk&Ven_Test&Prod_X\\5&join123&0");
    let dev = "\\??\\SCSI#Disk&Ven_Test&Prod_X#5&join123&0#{53f5630d-b6bf-11d0-94f2-00a0c91efb8b}";
    root.value("MountedDevices", "\\DosDevices\\E:", REG_BINARY, u16le(dev));
    root.value(
        "MountedDevices",
        "\\DosDevices\\C:",
        REG_BINARY,
        vec![0x11, 0x22, 0x33, 0x44, 0, 0x10, 0, 0, 0, 0, 0, 0],
    );
    root.value(
        "MountedDevices",
        "\\??\\Volume{a2f2048e-d228-11e4-b630-000c29ff2429}",
        REG_BINARY,
        u16le("\\??\\STORAGE#Volume#{a2f2048e-d228-11e4-b630-000c29ff2429}#{53f5630d-b6bf-11d0-94f2-00a0c91efb8b}"),
    );
    root.value("MountedDevices", "\\GLOBAL??\\BogusLink", REG_BINARY, vec![1; 12]);
    open(&root)
}

#[test]
fn mounted_devices_join_sets_drive_letter_on_the_matching_device() {
    let conns = parse_registry(&mounted_devices_hive(), "SYNTHETIC");
    let dev = conns
        .iter()
        .find(|c| c.device_instance_id.ends_with("5&join123&0"))
        .expect("device present");
    assert_eq!(dev.drive_letter, Some('E'));
}

#[test]
fn synthetic_mounted_devices_hive_yields_the_mbr_volume() {
    let vols = parse_mounted_volumes(&mounted_devices_hive(), "SYNTHETIC");
    let c = vols
        .iter()
        .find(|v| v.drive_letter == Some('C'))
        .expect("C: MBR record present");
    assert_eq!(c.disk_signature, 0x4433_2211);
    assert_eq!(c.partition_offset, 0x1000);
    assert!(c.source.key_path.is_some());
    assert_eq!(vols.len(), 1);
}

#[test]
fn win7_nested_property_layout_filetime_is_decoded() {
    let mut root = Node::new("ROOT", ft(1_600_000_000));
    let inst = "ControlSet001\\Enum\\USBSTOR\\Disk&Ven_SanDisk&Prod_Cruzer_Fit\\7&win7serial&0";
    root.value(
        &format!("{inst}\\{PROPS}\\00000064\\00000000"),
        "Data",
        REG_BINARY,
        ft(1_427_135_471).to_le_bytes().to_vec(),
    );
    let conns = parse_registry(&open(&root), "SYNTHETIC");
    let dev = conns
        .iter()
        .find(|c| c.device_instance_id.ends_with("7&win7serial&0"))
        .expect("Win7 device present");
    assert_eq!(dev.first_install.as_ref().map(|s| s.value), Some(1_427_135_471));
}

#[test]
fn synthetic_emdmgmt_hive_decodes_the_volume() {
    let mut root = Node::new("ROOT", ft(1_600_000_000));
    root.key("Microsoft\\Windows NT\\CurrentVersion\\EMDMgmt\\PFX__TESTUSB_1234567890");
    root.key("Microsoft\\Windows NT\\CurrentVersion\\EMDMgmt\\NoSerialHere");
    let vols = parse_emdmgmt(&open(&root), "SOFTWARE");
    let v = vols
        .iter()
        .find(|v| v.volume_label == "TESTUSB")
        .expect("labelled volume present");
    assert_eq!(v.volume_serial, 1_234_567_890);
    assert!(v.source.key_path.is_some());
    assert_eq!(vols.len(), 1);
}

#[test]
fn a_hive_without_emdmgmt_yields_nothing() {
    assert!(parse_emdmgmt(&usb_system(), "SYSTEM").is_empty());
}

#[test]
fn synthetic_mountpoints2_decodes_guid_mounts_only() {
    let mut root = Node::new("ROOT", ft(1_600_000_000));
    let mp2 = "Software\\Microsoft\\Windows\\CurrentVersion\\Explorer\\MountPoints2";
    root.key(&format!("{mp2}\\{{a2f2048e-d228-11e4-b630-000c29ff2429}}")).last_written = ft(1_427_230_953);
    root.key(&format!("{mp2}\\##server#share"));
    let mounts = parse_mountpoints2(&open(&root), "NTUSER.DAT");
    assert_eq!(mounts.len(), 1);
    assert_eq!(mounts[0].volume_guid, "{a2f2048e-d228-11e4-b630-000c29ff2429}");
    assert_eq!(mounts[0].last_mounted, Some(1_427_230_953));
    assert!(mounts[0].source.key_path.is_some());
}

#[test]
fn a_hive_without_mountpoints2_yields_nothing() {
    assert!(parse_mountpoints2(&usb_system(), "NTUSER.DAT").is_empty());
}

#[test]
fn synthetic_volume_info_cache_decodes_labelled_drives_only() {
    let mut root = Node::new("ROOT", ft(1_600_000_000));
    let cache = "Microsoft\\Windows Search\\VolumeInfoCache";
    root.value(&format!("{cache}\\E:"), "VolumeLabel", REG_SZ, sz("TESTLABEL"));
    root.value(&format!("{cache}\\C:"), "VolumeLabel", REG_DWORD, vec![0, 0, 0, 0]);
    root.value(&format!("{cache}\\ZZ:"), "VolumeLabel", REG_SZ, sz("BOGUS"));
    let labels = parse_volume_info_cache(&open(&root), "SOFTWARE");
    assert_eq!(labels.len(), 1);
    assert_eq!(labels[0].drive_letter, 'E');
    assert_eq!(labels[0].volume_label, "TESTLABEL");
    assert!(labels[0].source.key_path.is_some());
}

#[test]
fn a_hive_without_the_cache_yields_nothing() {
    assert!(parse_volume_info_cache(&usb_system(), "SYSTEM").is_empty());
}

/// An `ITEMIDLIST` holding one shell item, then the terminator.
fn idlist(item: &[u8]) -> Vec<u8> {
    let mut v = Vec::new();
    v.extend_from_slice(&((item.len() + 2) as u16).to_le_bytes());
    v.extend_from_slice(item);
    v.extend_from_slice(&[0, 0]);
    v
}

/// A root item naming My Computer by its shell-folder GUID.
fn my_computer() -> Vec<u8> {
    let mut v = vec![0x1f, 0x50];
    v.extend_from_slice(&[
        0xE0, 0x4F, 0xD0, 0x20, 0xEA, 0x3A, 0x69, 0x10, 0xA2, 0xD8, 0x08, 0x00, 0x2B, 0x30, 0x30,
        0x9D,
    ]);
    idlist(&v)
}

/// A drive-letter volume item.
fn volume(drive: &str) -> Vec<u8> {
    let mut v = vec![0x2f];
    v.extend_from_slice(drive.as_bytes());
    v.resize(23, 0);
    idlist(&v)
}

/// A directory file-entry item with an ASCII short name.
fn directory(name: &str) -> Vec<u8> {
    let mut v = vec![0x31, 0x00];
    v.extend_from_slice(&[0; 10]);
    v.extend_from_slice(name.as_bytes());
    v.push(0);
    if v.len() % 2 != 0 {
        v.push(0);
    }
    idlist(&v)
}

fn bagmru_hive() -> RegHive {
    let mut root = Node::new("ROOT", ft(1_600_000_000));
    let bag = "Software\\Microsoft\\Windows\\Shell\\BagMRU";
    root.value(bag, "0", REG_BINARY, my_computer());
    root.value(bag, "MRUListEx", REG_BINARY, vec![0, 0, 0, 0, 0xff, 0xff, 0xff, 0xff]);
    root.value(&format!("{bag}\\0"), "0", REG_BINARY, volume("E:\\"));
    root.value(&format!("{bag}\\0\\0"), "0", REG_BINARY, directory("photos"));
    root.key(&format!("{bag}\\0\\0\\0"));
    root.key(&format!("{bag}\\Foo"));
    open(&root)
}

#[test]
fn surfaces_the_volume_and_the_folder_browsed_on_it() {
    let entries = parse_shellbags(&bagmru_hive(), "NTUSER.DAT");
    assert_eq!(entries.len(), 2);
    assert!(entries.iter().all(|e| e.drive_letter == Some('E')));
    let folder = entries
        .iter()
        .find(|e| e.path.contains("photos"))
        .expect("the browsed E:\\photos folder is surfaced");
    assert!(folder.path.contains("E:"));
    assert_eq!(folder.last_write, Some(1_600_000_000));
    assert_eq!(folder.source.file, "NTUSER.DAT");
    assert!(folder
        .source
        .key_path
        .as_deref()
        .is_some_and(|k| k.contains("BagMRU")));
}

#[test]
fn shellbag_paths_join_the_items_from_the_root() {
    let entries = parse_shellbags(&bagmru_hive(), "NTUSER.DAT");
    let paths: Vec<&str> = entries.iter().map(|e| e.path.as_str()).collect();
    assert_eq!(paths, vec!["My Computer\\E:\\", "My Computer\\E:\\\\photos"]);
    assert_eq!(
        entries[1].source.key_path.as_deref(),
        Some("Software\\Microsoft\\Windows\\Shell\\BagMRU\\0\\0\\0")
    );
}

#[test]
fn a_hive_without_bagmru_yields_nothing() {
    assert!(parse_shellbags(&usb_system(), "NTUSER.DAT").is_empty());
}

#[test]
fn property_subtree_names_match_without_case() {
    let mut root = Node::new("ROOT", ft(1_600_000_000));
    let inst = "ControlSet001\\Enum\\USB\\VID_0781&PID_5583\\SER";
    root.value(
        &format!("{inst}\\properties\\{{83DA6326-97A6-4088-9453-A1923F573B29}}\\0064"),
        "",
        REG_BINARY,
        ft(1_234_567_890).to_le_bytes().to_vec(),
    );
    root.value(inst, "friendlyname", REG_SZ, sz("Cruzer"));
    let conns = parse_registry(&open(&root), "SYSTEM");
    assert_eq!(conns.len(), 1);
    assert_eq!(conns[0].first_install.as_ref().map(|s| s.value), Some(1_234_567_890));
    assert_eq!(conns[0].friendly_name.as_deref(), Some("Cruzer"));
}

fn find(hay: &[u8], needle: &[u8]) -> usize {
    hay.windows(needle.len()).position(|w| w == needle).expect("present")
}

fn put32(bytes: &mut [u8], at: usize, v: u32) {
    bytes[at..at + 4].copy_from_slice(&v.to_le_bytes());
}

/// A hive with an `EMDMgmt` volume, a `MountPoints2` mount and two MBR
/// records in `MountedDevices`.
fn several_artifacts() -> Vec<u8> {
    let mut root = Node::new("ROOT", ft(1_427_230_953));
    root.key("Microsoft\\Windows NT\\CurrentVersion\\EMDMgmt\\PFX__TESTUSB_1234567890");
    root.key("Alpha\\One");
    root.key("Bravo\\Two");
    root.key("Software\\Microsoft\\Windows\\CurrentVersion\\Explorer\\MountPoints2\\{A2F2048E-D228-11E4-B630-000C29FF2429}");
    root.value("MountedDevices", "\\DosDevices\\E:", REG_BINARY, vec![0x11, 0x22, 0x33, 0x44, 0, 0x10, 0, 0, 0, 0, 0, 0]);
    root.value("MountedDevices", "\\DosDevices\\F:", REG_BINARY, vec![0x55, 0x66, 0x77, 0x88, 0, 0x20, 0, 0, 0, 0, 0, 0]);
    hive_bytes(&root)
}

/// The image position of the body of the key node named `name`.
fn nk_body(bytes: &[u8], name: &[u8]) -> usize {
    find(bytes, name) - 76
}

#[test]
fn the_crafted_hive_fixture_reads_whole_before_it_is_crafted() {
    let hive = RegHive::from_bytes(several_artifacts()).expect("valid REGF");
    assert_eq!(parse_emdmgmt(&hive, "SOFTWARE").len(), 1);
    assert_eq!(parse_mountpoints2(&hive, "NTUSER.DAT").len(), 1);
    assert_eq!(parse_mounted_volumes(&hive, "SYSTEM").len(), 2);
}

#[test]
fn a_cell_too_short_for_its_size_field_leaves_only_its_key_unread() {
    let mut bytes = several_artifacts();
    let body = nk_body(&bytes, b"EMDMgmt");
    // The subkey index now names a cell whose size field reads -1.
    put32(&mut bytes, body + 28, 16);
    put32(&mut bytes, 4096 + 16, u32::MAX);
    let hive = RegHive::from_bytes(bytes).expect("valid REGF");
    assert!(parse_emdmgmt(&hive, "SOFTWARE").is_empty());
    assert_eq!(parse_mountpoints2(&hive, "NTUSER.DAT").len(), 1);
    assert_eq!(parse_mounted_volumes(&hive, "SYSTEM").len(), 2);
}

#[test]
fn a_root_index_that_lists_itself_is_not_followed() {
    let mut bytes = several_artifacts();
    let body = nk_body(&bytes, b"EMDMgmt");
    let index = u32::from_le_bytes(bytes[body + 28..body + 32].try_into().unwrap()) as usize;
    let index_body = 4096 + index + 4;
    bytes[index_body..index_body + 2].copy_from_slice(b"ri");
    put32(&mut bytes, index_body + 4, index as u32);
    let hive = RegHive::from_bytes(bytes).expect("valid REGF");
    assert!(parse_emdmgmt(&hive, "SOFTWARE").is_empty());
    assert_eq!(parse_mountpoints2(&hive, "NTUSER.DAT").len(), 1);
}

#[test]
fn value_data_in_a_too_short_cell_counts_as_unreadable() {
    let mut bytes = several_artifacts();
    // The `E:` value's data offset (8 bytes into its `vk` body, whose name
    // starts 20 bytes in) now names a cell whose size field reads -2.
    let vk_body = find(&bytes, b"\\DosDevices\\E:") - 20;
    put32(&mut bytes, vk_body + 8, 16);
    put32(&mut bytes, 4096 + 16, u32::MAX - 1);
    let hive = RegHive::from_bytes(bytes).expect("valid REGF");
    let vols = parse_mounted_volumes(&hive, "SYSTEM");
    assert_eq!(vols.len(), 1);
    assert_eq!(vols[0].drive_letter, Some('F'));
}

fn get32(bytes: &[u8], at: usize) -> u32 {
    u32::from_le_bytes(bytes[at..at + 4].try_into().unwrap())
}

#[test]
fn root_indexes_nested_below_root_indexes_are_followed() {
    let mut bytes = several_artifacts();
    let emd = nk_body(&bytes, b"EMDMgmt");
    let leaf = get32(&bytes, emd + 28);
    // Turn the one-entry `li` cells of Alpha and Bravo into root indexes:
    // Bravo's lists Alpha's, which lists EMDMgmt's own leaf.
    let alpha = get32(&bytes, nk_body(&bytes, b"Alpha") + 28) as usize;
    let bravo = get32(&bytes, nk_body(&bytes, b"Bravo") + 28) as usize;
    bytes[4096 + alpha + 4..4096 + alpha + 6].copy_from_slice(b"ri");
    put32(&mut bytes, 4096 + alpha + 8, leaf);
    bytes[4096 + bravo + 4..4096 + bravo + 6].copy_from_slice(b"ri");
    put32(&mut bytes, 4096 + bravo + 8, alpha as u32);
    put32(&mut bytes, emd + 28, bravo as u32);
    let hive = RegHive::from_bytes(bytes).expect("valid REGF");
    let vols = parse_emdmgmt(&hive, "SOFTWARE");
    assert_eq!(vols.len(), 1);
    assert_eq!(vols[0].volume_serial, 1_234_567_890);
}
