//! MBR-signature volume bridge: decode `MountedDevices` MBR records from a
//! Windows `SYSTEM` hive.
//!
//! `MountedDevices` stores, for each mount name, a REG_BINARY value. A
//! 12-byte value is an MBR record: a 4-byte disk signature followed by an
//! 8-byte partition byte-offset. A drive letter (`\DosDevices\X:`) and a
//! volume GUID (`\??\Volume{...}`) that point at the same record name the
//! same volume.

use vstd::prelude::*;
use crate::text::{
    starts_with, is_ascii_alpha, ascii_upper, seq_lower, chars_of, has_prefix, char_is_alpha,
    char_upper, copy_range, lower_chars, string_of, join_with, is_ascii_upper, lemma_upper_of_alpha,
};
use crate::device::{Provenance, ProvenanceView};
use crate::hive::{RegHive, HiveEntry, HiveEntryView, entry_views, read_value_entries, value_entries_at};

verus! {

/// One `MountedDevices` MBR record: a mount name resolved to its disk
/// signature and partition offset.
#[derive(Debug, Clone, PartialEq, Eq)]
pub struct MountedVolume {
    /// The drive letter, when the mount name was `\DosDevices\X:` (upper-cased).
    pub drive_letter: Option<char>,
    /// The volume GUID, when the mount name was `\??\Volume{GUID}` (lower-cased, braces).
    pub volume_guid: Option<String>,
    /// MBR disk signature (the first 4 bytes of the record, little-endian).
    pub disk_signature: u32,
    /// Partition byte-offset within the disk (the next 8 bytes, little-endian).
    pub partition_offset: u64,
    /// Where the record was decoded from.
    pub source: Provenance,
}

pub struct MountedVolumeView {
    pub drive_letter: Option<char>,
    pub volume_guid: Option<Seq<char>>,
    pub disk_signature: u32,
    pub partition_offset: u64,
    pub source: ProvenanceView,
}

impl View for MountedVolume {
    type V = MountedVolumeView;

    open spec fn view(&self) -> MountedVolumeView {
        MountedVolumeView {
            drive_letter: self.drive_letter,
            volume_guid: crate::device::opt_view(self.volume_guid),
            disk_signature: self.disk_signature,
            partition_offset: self.partition_offset,
            source: self.source@,
        }
    }
}

/// The drive letter of a `\DosDevices\X:` mount name, upper-cased.
pub open spec fn dos_letter_of(name: Seq<char>) -> Option<char> {
    let p = "\\DosDevices\\"@;
    if starts_with(name, p) && name.len() == p.len() + 2 && is_ascii_alpha(name[p.len() as int])
        && name[p.len() as int + 1] == ':' {
        Some(ascii_upper(name[p.len() as int]))
    } else {
        None
    }
}

/// The volume GUID of a `\??\Volume{GUID}` mount name, lower-cased.
pub open spec fn volume_guid_of(name: Seq<char>) -> Option<Seq<char>> {
    let p = "\\??\\Volume"@;
    if starts_with(name, p) {
        let g = name.skip(p.len() as int);
        if g.len() > 0 && g[0] == '{' && g.last() == '}' {
            Some(seq_lower(g))
        } else {
            None
        }
    } else {
        None
    }
}

/// A 12-byte MBR record as (disk signature, partition offset), both
/// little-endian.
pub open spec fn mbr_of(raw: Seq<u8>) -> Option<(u32, u64)> {
    if raw.len() == 12 {
        Some(
            (
                (raw[0] + raw[1] * 0x100 + raw[2] * 0x1_0000 + raw[3] * 0x100_0000) as u32,
                (raw[4] + raw[5] * 0x100 + raw[6] * 0x1_0000 + raw[7] * 0x100_0000 + raw[8]
                    * 0x1_0000_0000 + raw[9] * 0x100_0000_0000 + raw[10] * 0x1_0000_0000_0000
                    + raw[11] * 0x100_0000_0000_0000) as u64,
            ),
        )
    } else {
        None
    }
}

/// Extract the drive letter from a `\DosDevices\X:` mount name, upper-cased.
pub fn dos_drive_letter(name: &str) -> (r: Option<char>)
    ensures
        r == dos_letter_of(name@),
{
    let v = chars_of(name);
    let p = chars_of("\\DosDevices\\");
    proof {
        vstd::string::axiom_str_literal_len("\\DosDevices\\");
        reveal_strlit("\\DosDevices\\");
    }
    if has_prefix(v.as_slice(), p.as_slice()) && v.len() == 14 && char_is_alpha(v[12]) && v[13]
        == ':' {
        Some(char_upper(v[12]))
    } else {
        None
    }
}

/// Extract the volume GUID from a `\??\Volume{GUID}` mount name
/// (lower-cased, braces kept).
pub fn volume_guid(name: &str) -> (r: Option<String>)
    ensures
        crate::device::opt_view(r) == volume_guid_of(name@),
{
    let v = chars_of(name);
    let p = chars_of("\\??\\Volume");
    proof {
        vstd::string::axiom_str_literal_len("\\??\\Volume");
        reveal_strlit("\\??\\Volume");
    }
    if !has_prefix(v.as_slice(), p.as_slice()) {
        return None;
    }
    let g = copy_range(v.as_slice(), 10, v.len());
    assert(g@ == v@.skip(10));
    if g.len() > 0 && g[0] == '{' && g[g.len() - 1] == '}' {
        let l = lower_chars(g.as_slice());
        Some(string_of(l.as_slice()))
    } else {
        None
    }
}

/// Decode a 12-byte MBR `MountedDevices` value into
/// `(disk_signature, partition_offset)`; `None` for any other length.
pub fn decode_mbr(raw: &[u8]) -> (r: Option<(u32, u64)>)
    ensures
        r == mbr_of(raw@),
{
    if raw.len() != 12 {
        return None;
    }
    let sig: u32 = raw[0] as u32 + raw[1] as u32 * 0x100 + raw[2] as u32 * 0x1_0000 + raw[3] as u32
        * 0x100_0000;
    let off: u64 = raw[4] as u64 + raw[5] as u64 * 0x100 + raw[6] as u64 * 0x1_0000 + raw[7] as u64
        * 0x100_0000 + raw[8] as u64 * 0x1_0000_0000 + raw[9] as u64 * 0x100_0000_0000
        + raw[10] as u64 * 0x1_0000_0000_0000 + raw[11] as u64 * 0x100_0000_0000_0000;
    Some((sig, off))
}

pub open spec fn mounted_path() -> Seq<char> {
    "MountedDevices"@
}

/// The MBR records of `MountedDevices` values (name, data), in order: a name
/// that is neither a drive letter nor a volume GUID, or data that is absent
/// or not a 12-byte record, is skipped.
pub open spec fn volumes_from(es: Seq<HiveEntryView>, file: Seq<char>, k: int) -> Seq<
    MountedVolumeView,
>
    decreases es.len() - k,
{
    if k < 0 || k >= es.len() {
        Seq::empty()
    } else {
        let rest = volumes_from(es, file, k + 1);
        let e = es[k];
        let letter = dos_letter_of(e.name);
        let guid = volume_guid_of(e.name);
        if letter is None && guid is None {
            rest
        } else {
            match e.data {
                Some(d) => match mbr_of(d) {
                    Some((sig, off)) => seq![
                        MountedVolumeView {
                            drive_letter: letter,
                            volume_guid: guid,
                            disk_signature: sig,
                            partition_offset: off,
                            source: ProvenanceView {
                                file,
                                line: 0,
                                key_path: Some(mounted_path() + seq!['\\'] + e.name),
                            },
                        },
                    ] + rest,
                    None => rest,
                },
                None => rest,
            }
        }
    }
}

pub open spec fn volume_views(v: Seq<MountedVolume>) -> Seq<MountedVolumeView> {
    v.map_values(|m: MountedVolume| m@)
}

/// The MBR volume records of `MountedDevices` values (name, raw data), in order.
pub fn mounted_volumes(entries: &[HiveEntry], file: &str) -> (r: Vec<MountedVolume>)
    ensures
        volume_views(r@) == volumes_from(entry_views(entries@), file@, 0),
{
    let ghost ev = entry_views(entries@);
    let f = chars_of(file);
    let base = chars_of("MountedDevices");
    let mut out: Vec<MountedVolume> = Vec::new();
    let mut k: usize = 0;
    while k < entries.len()
        invariant
            k <= entries@.len(),
            ev == entry_views(entries@),
            f@ == file@,
            base@ == mounted_path(),
            volume_views(out@) + volumes_from(ev, file@, k as int) == volumes_from(ev, file@, 0),
        decreases entries@.len() - k,
    {
        let e = &entries[k];
        assert(e@ == ev[k as int]);
        let ghost before = volume_views(out@);
        let letter = dos_drive_letter(e.name.as_str());
        let guid = volume_guid(e.name.as_str());
        if letter.is_some() || guid.is_some() {
            match &e.data {
                Some(d) => match decode_mbr(d.as_slice()) {
                    Some((sig, off)) => {
                        let name = chars_of(e.name.as_str());
                        let path = join_with(base.as_slice(), '\\', name.as_slice());
                        let m = MountedVolume {
                            drive_letter: letter,
                            volume_guid: guid,
                            disk_signature: sig,
                            partition_offset: off,
                            source: Provenance {
                                file: string_of(f.as_slice()),
                                line: 0,
                                key_path: Some(string_of(path.as_slice())),
                            },
                        };
                        out.push(m);
                        assert(volume_views(out@) == before.push(m@));
                    },
                    None => {},
                },
                None => {},
            }
        }
        assert(volume_views(out@) + volumes_from(ev, file@, k + 1) =~= volumes_from(
            ev,
            file@,
            0,
        ));
        k = k + 1;
    }
    assert(volume_views(out@) =~= volumes_from(ev, file@, 0));
    out
}

/// Parse `MountedDevices` MBR records from an opened `SYSTEM` hive: the
/// values of `MountedDevices` (none when it is absent), decoded by
/// [`mounted_volumes`].
pub fn parse_mounted_volumes(hive: &RegHive, file: &str) -> (r: Vec<MountedVolume>)
    ensures
        volume_views(r@) == volumes_from(value_entries_at(hive.data(), mounted_path()), file@, 0),
{
    let es = read_value_entries(hive, "MountedDevices");
    let r = mounted_volumes(es.as_slice(), file);
    assert(volume_views(r@) == volumes_from(entry_views(es@), file@, 0));
    r
}

/// A mount name is never both a drive letter and a volume GUID, and a drive
/// letter read from one is an upper-case ASCII letter.
proof fn lemma_mount_name(name: Seq<char>)
    ensures
        !(dos_letter_of(name) is Some && volume_guid_of(name) is Some),
        dos_letter_of(name) matches Some(l) ==> is_ascii_upper(l),
{
    reveal_strlit("\\DosDevices\\");
    reveal_strlit("\\??\\Volume");
    if dos_letter_of(name) is Some {
        assert(name[1] == "\\DosDevices\\"@[1]);
        lemma_upper_of_alpha(name["\\DosDevices\\"@.len() as int]);
        if volume_guid_of(name) is Some {
            assert(name[1] == "\\??\\Volume"@[1]);
        }
    }
}

proof fn lemma_volumes_from(es: Seq<HiveEntryView>, file: Seq<char>, k: int)
    requires
        0 <= k,
    ensures
        forall|i: int|
            0 <= i < volumes_from(es, file, k).len() ==> mounted_record(
                #[trigger] volumes_from(es, file, k)[i],
                file,
            ),
    decreases es.len() - k,
{
    if k < es.len() {
        lemma_volumes_from(es, file, k + 1);
        lemma_mount_name(es[k].name);
        let all = volumes_from(es, file, k);
        let rest = volumes_from(es, file, k + 1);
        assert forall|i: int| 0 <= i < all.len() implies mounted_record(#[trigger] all[i], file) by {
            if all.len() > rest.len() && i > 0 {
                assert(all[i] == rest[i - 1]);
            }
        }
    }
}

/// A decoded MBR record names exactly one of a drive letter (upper-case) or
/// a volume GUID, and its provenance is the `MountedDevices` value it came
/// from in `file`.
pub open spec fn mounted_record(m: MountedVolumeView, file: Seq<char>) -> bool {
    &&& (m.drive_letter is Some) != (m.volume_guid is Some)
    &&& m.drive_letter matches Some(l) ==> is_ascii_upper(l)
    &&& m.source.file == file
    &&& m.source.line == 0
    &&& m.source.key_path is Some
}

/// Every MBR record decoded from `MountedDevices` keeps [`mounted_record`].
pub proof fn law_mounted_records(es: Seq<HiveEntryView>, file: Seq<char>, i: int)
    requires
        0 <= i < volumes_from(es, file, 0).len(),
    ensures
        mounted_record(volumes_from(es, file, 0)[i], file),
{
    lemma_volumes_from(es, file, 0);
}

} // verus!
