//! Volume-label source: decode `VolumeInfoCache` from a Windows `SOFTWARE` hive.
//!
//! `SOFTWARE\Microsoft\Windows Search\VolumeInfoCache\<X:>` caches, per
//! mounted volume, the drive letter it was seen at and its volume label.

use vstd::prelude::*;
use crate::text::{is_ascii_upper, lemma_upper_of_alpha, is_ascii_alpha, ascii_upper, chars_of, char_is_alpha, char_upper, string_of, join_with};
use crate::device::{Provenance, ProvenanceView};
use crate::hive::{RegHive, HiveEntry, HiveEntryView, entry_views, utf16le_text, decode_utf16le, read_subkey_value_entries, subkey_value_entries_at};

verus! {

/// The Windows Search `VolumeInfoCache` path (a `SOFTWARE`-hive key).
pub open spec fn cache_path() -> Seq<char> {
    "Microsoft\\Windows Search\\VolumeInfoCache"@
}

/// A cached volume label keyed by the drive letter it was mounted at.
#[derive(Debug, Clone, PartialEq, Eq)]
pub struct VolumeLabel {
    /// The drive letter the volume was mounted as (upper-cased, e.g. `E`).
    pub drive_letter: char,
    /// The volume label (never empty: unlabelled volumes are omitted).
    pub volume_label: String,
    /// Where the record was decoded from.
    pub source: Provenance,
}

pub struct VolumeLabelView {
    pub drive_letter: char,
    pub volume_label: Seq<char>,
    pub source: ProvenanceView,
}

impl View for VolumeLabel {
    type V = VolumeLabelView;

    open spec fn view(&self) -> VolumeLabelView {
        VolumeLabelView {
            drive_letter: self.drive_letter,
            volume_label: self.volume_label@,
            source: self.source@,
        }
    }
}

/// An `X:` name's drive letter, upper-cased.
pub open spec fn drive_letter_of(name: Seq<char>) -> Option<char> {
    if name.len() == 2 && is_ascii_alpha(name[0]) && name[1] == ':' {
        Some(ascii_upper(name[0]))
    } else {
        None
    }
}

/// Extract the drive letter from an `X:` subkey name, upper-cased; `None`
/// for any other name.
pub fn drive_letter(name: &str) -> (r: Option<char>)
    ensures
        r == drive_letter_of(name@),
{
    let v = chars_of(name);
    if v.len() == 2 && char_is_alpha(v[0]) && v[1] == ':' {
        Some(char_upper(v[0]))
    } else {
        None
    }
}

/// The labels of the cache's subkeys (each with its `VolumeLabel` data), in
/// order: a subkey whose name is not `X:`, or whose label text is absent or
/// empty, is skipped.
pub open spec fn labels_from(es: Seq<HiveEntryView>, file: Seq<char>, k: int) -> Seq<
    VolumeLabelView,
>
    decreases es.len() - k,
{
    if k < 0 || k >= es.len() {
        Seq::empty()
    } else {
        let rest = labels_from(es, file, k + 1);
        let e = es[k];
        match (drive_letter_of(e.name), e.data) {
            (Some(letter), Some(d)) => if utf16le_text(d).len() > 0 {
                seq![
                    VolumeLabelView {
                        drive_letter: letter,
                        volume_label: utf16le_text(d),
                        source: ProvenanceView {
                            file,
                            line: 0,
                            key_path: Some(cache_path() + seq!['\\'] + e.name),
                        },
                    },
                ] + rest
            } else {
                rest
            },
            _ => rest,
        }
    }
}

pub open spec fn label_views(v: Seq<VolumeLabel>) -> Seq<VolumeLabelView> {
    v.map_values(|e: VolumeLabel| e@)
}

/// The volume labels of `VolumeInfoCache` subkeys (each entry: a subkey name
/// and the raw data of its `VolumeLabel` value), in order.
pub fn volume_labels(entries: &[HiveEntry], file: &str) -> (r: Vec<VolumeLabel>)
    ensures
        label_views(r@) == labels_from(entry_views(entries@), file@, 0),
{
    let ghost ev = entry_views(entries@);
    let f = chars_of(file);
    let base = chars_of("Microsoft\\Windows Search\\VolumeInfoCache");
    let mut out: Vec<VolumeLabel> = Vec::new();
    let mut k: usize = 0;
    while k < entries.len()
        invariant
            k <= entries@.len(),
            ev == entry_views(entries@),
            f@ == file@,
            base@ == cache_path(),
            label_views(out@) + labels_from(ev, file@, k as int) == labels_from(ev, file@, 0),
        decreases entries@.len() - k,
    {
        let e = &entries[k];
        assert(e@ == ev[k as int]);
        let ghost before = label_views(out@);
        let letter = drive_letter(e.name.as_str());
        match (letter, &e.data) {
            (Some(letter), Some(d)) => {
                let label = decode_utf16le(d.as_slice());
                let lc = chars_of(label.as_str());
                if lc.len() > 0 {
                    let name = chars_of(e.name.as_str());
                    let path = join_with(base.as_slice(), '\\', name.as_slice());
                    let v = VolumeLabel {
                        drive_letter: letter,
                        volume_label: label,
                        source: Provenance {
                            file: string_of(f.as_slice()),
                            line: 0,
                            key_path: Some(string_of(path.as_slice())),
                        },
                    };
                    out.push(v);
                    assert(label_views(out@) == before.push(v@));
                }
            },
            _ => {},
        }
        assert(label_views(out@) + labels_from(ev, file@, k + 1) =~= labels_from(ev, file@, 0));
        k = k + 1;
    }
    assert(label_views(out@) =~= labels_from(ev, file@, 0));
    out
}

/// Parse `VolumeInfoCache` volume labels from an opened `SOFTWARE` hive: the
/// cache's subkeys with their `VolumeLabel` data (none when the cache is
/// absent), decoded by [`volume_labels`].
pub fn parse_volume_info_cache(hive: &RegHive, file: &str) -> (r: Vec<VolumeLabel>)
    ensures
        label_views(r@) == labels_from(
            subkey_value_entries_at(hive.data(), cache_path(), "VolumeLabel"@),
            file@,
            0,
        ),
{
    let es = read_subkey_value_entries(
        hive,
        "Microsoft\\Windows Search\\VolumeInfoCache",
        "VolumeLabel",
    );
    let r = volume_labels(es.as_slice(), file);
    assert(label_views(r@) == labels_from(entry_views(es@), file@, 0));
    r
}


// ---------------------------------------------------------------------------
// Laws
// ---------------------------------------------------------------------------

/// A cached label record: an upper-case drive letter, a non-empty label, and
/// the cache subkey it came from in `file`.
pub open spec fn label_record(v: VolumeLabelView, file: Seq<char>) -> bool {
    &&& is_ascii_upper(v.drive_letter)
    &&& v.volume_label.len() > 0
    &&& v.source.file == file
    &&& v.source.line == 0
    &&& v.source.key_path is Some
}

proof fn lemma_labels_from(es: Seq<HiveEntryView>, file: Seq<char>, k: int)
    requires
        0 <= k,
    ensures
        forall|i: int|
            0 <= i < labels_from(es, file, k).len() ==> label_record(
                #[trigger] labels_from(es, file, k)[i],
                file,
            ),
    decreases es.len() - k,
{
    if k < es.len() {
        lemma_labels_from(es, file, k + 1);
        let name = es[k].name;
        if drive_letter_of(name) is Some {
            lemma_upper_of_alpha(name[0]);
        }
        let all = labels_from(es, file, k);
        let rest = labels_from(es, file, k + 1);
        assert forall|i: int| 0 <= i < all.len() implies label_record(#[trigger] all[i], file) by {
            if all.len() > rest.len() && i > 0 {
                assert(all[i] == rest[i - 1]);
            }
        }
    }
}

/// Every cached label keeps [`label_record`]: unlabelled volumes are omitted,
/// and the drive letter is upper-cased.
pub proof fn law_volume_labels(es: Seq<HiveEntryView>, file: Seq<char>, i: int)
    requires
        0 <= i < labels_from(es, file, 0).len(),
    ensures
        label_record(labels_from(es, file, 0)[i], file),
{
    lemma_labels_from(es, file, 0);
}

} // verus!
