use peripheral_forensic::shellbag::{
    display_name_of, drive_letter, reconcile, reconstruct_path, volume_entry, Recon, ShellItemInfo,
};

fn item(volume: bool, name: Option<&str>, long_name: Option<&str>, guid: Option<&str>) -> ShellItemInfo {
    ShellItemInfo {
        volume,
        name: name.map(str::to_string),
        long_name: long_name.map(str::to_string),
        guid: guid.map(str::to_string),
    }
}

#[test]
fn reconcile_flags_a_drive_present_in_both_as_confirmed() {
    let r = reconcile(&[Some('Z')], &['Z']);
    assert_eq!(r.confirmed, vec!['Z']);
    assert!(r.false_positive.is_empty());
    assert!(r.oracle_only.is_empty());
}

#[test]
fn reconcile_flags_our_drive_absent_from_oracle_as_a_false_positive() {
    let r = reconcile(&[Some('E')], &['Z']);
    assert_eq!(r.false_positive, vec!['E']);
    assert!(r.confirmed.is_empty());
    assert_eq!(r.oracle_only, vec!['Z']);
}

#[test]
fn reconcile_reports_oracle_only_drives_as_a_completeness_gap() {
    let r = reconcile(&[Some('Z')], &['Z', 'E']);
    assert_eq!(r.confirmed, vec!['Z']);
    assert!(r.false_positive.is_empty());
    assert_eq!(r.oracle_only, vec!['E']);
}

#[test]
fn reconcile_ignores_none_entries_and_deduplicates() {
    let r = reconcile(&[None, Some('Z'), Some('Z'), None], &['Z', 'Z']);
    assert_eq!(r.confirmed, vec!['Z']);
    assert!(r.false_positive.is_empty());
    assert!(r.oracle_only.is_empty());
}

#[test]
fn reconcile_of_two_empty_sets_is_clean() {
    assert_eq!(reconcile(&[], &[]), Recon::default());
}

#[test]
fn reconcile_sorts_each_list() {
    let r = reconcile(&[Some('Z'), Some('E'), Some('C'), Some('Q')], &['Q', 'D', 'C', 'A']);
    assert_eq!(r.confirmed, vec!['C', 'Q']);
    assert_eq!(r.false_positive, vec!['E', 'Z']);
    assert_eq!(r.oracle_only, vec!['A', 'D']);
}

#[test]
fn display_name_prefers_long_then_short_then_guid() {
    assert_eq!(display_name_of(&item(false, Some("PHOTOS~1"), Some("photos"), None)).as_deref(), Some("photos"));
    assert_eq!(display_name_of(&item(false, Some("E:\\"), None, Some("G"))).as_deref(), Some("E:\\"));
    assert_eq!(display_name_of(&item(false, None, None, Some("{GUID}"))).as_deref(), Some("{GUID}"));
    assert_eq!(display_name_of(&item(false, None, None, None)), None);
}

#[test]
fn path_joins_display_names_with_backslashes() {
    let items = vec![
        item(false, Some("My Computer"), None, Some("{20D04FE0-3AEA-1069-A2D8-08002B30309D}")),
        item(true, Some("E:\\"), None, None),
        item(false, None, None, None),
        item(false, Some("PHOTOS"), Some("photos"), None),
    ];
    assert_eq!(reconstruct_path(&items), "My Computer\\E:\\\\photos");
    assert_eq!(reconstruct_path(&[]), "");
}

#[test]
fn drive_letter_reads_a_letter_colon_name() {
    assert_eq!(drive_letter(&item(true, Some("e:\\"), None, None)), Some('E'));
    assert_eq!(drive_letter(&item(true, Some("E:"), None, None)), Some('E'));
    assert_eq!(drive_letter(&item(true, Some("1:\\"), None, None)), None);
    assert_eq!(drive_letter(&item(true, Some("E"), None, None)), None);
    assert_eq!(drive_letter(&item(true, None, None, Some("{GUID}"))), None);
}

#[test]
fn volume_entry_surfaces_only_paths_through_a_volume() {
    let computer = item(false, Some("My Computer"), None, None);
    let volume = item(true, Some("E:\\"), None, None);
    let folder = item(false, Some("photos"), None, None);
    assert_eq!(
        volume_entry(&[computer.clone()], Some(1), "Software\\Microsoft\\Windows\\Shell\\BagMRU\\0", "NTUSER.DAT"),
        None
    );
    let e = volume_entry(
        &[computer, volume, folder],
        Some(1_600_000_000),
        "Software\\Microsoft\\Windows\\Shell\\BagMRU\\0\\0\\0",
        "NTUSER.DAT",
    )
    .expect("a volume path is surfaced");
    assert_eq!(e.path, "My Computer\\E:\\\\photos");
    assert_eq!(e.drive_letter, Some('E'));
    assert_eq!(e.last_write, Some(1_600_000_000));
    assert_eq!(e.source.file, "NTUSER.DAT");
    assert_eq!(e.source.line, 0);
    assert_eq!(
        e.source.key_path.as_deref(),
        Some("Software\\Microsoft\\Windows\\Shell\\BagMRU\\0\\0\\0")
    );
}
