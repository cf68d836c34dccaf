//! Volume label + serial history: decode `EMDMgmt` from a Windows `SOFTWARE` hive.
//!
//! `SOFTWARE\Microsoft\Windows NT\CurrentVersion\EMDMgmt` is the ReadyBoost
//! device cache: one subkey per volume Windows evaluated, named
//! `<device-prefix>__<VolumeLabel>_<VolumeSerialNumber>` (the serial in
//! decimal). It is a durable record of a removable volume's label and 4-byte
//! volume serial.

use vstd::prelude::*;
use crate::text::{rpos_pat_before, chars_of, rfind_pat, copy_range, string_of, join_with, lemma_rpos_pat_before};
use crate::numbers::{parse_unsigned, parse_unsigned_exec};
use crate::device::{Provenance, ProvenanceView};
use crate::hive::{RegHive, read_subkey_names, subkey_names_at};

verus! {

/// The `EMDMgmt` (ReadyBoost) cache path in a `SOFTWARE` hive.
pub open spec fn emd_path() -> Seq<char> {
    "Microsoft\\Windows NT\\CurrentVersion\\EMDMgmt"@
}

/// One cached volume: its label and 4-byte volume serial number.
#[derive(Debug, Clone, PartialEq, Eq)]
pub struct EmdVolume {
    /// The volume label (may be empty: an unlabelled volume still has a serial).
    pub volume_label: String,
    /// The 4-byte volume serial number.
    pub volume_serial: u32,
    /// Where the record was decoded from.
    pub source: Provenance,
}

pub struct EmdVolumeView {
    pub volume_label: Seq<char>,
    pub volume_serial: u32,
    pub source: ProvenanceView,
}

impl View for EmdVolume {
    type V = EmdVolumeView;

    open spec fn view(&self) -> EmdVolumeView {
        EmdVolumeView {
            volume_label: self.volume_label@,
            volume_serial: self.volume_serial,
            source: self.source@,
        }
    }
}

/// `<prefix>__<label>_<serial>` decoded: the serial is the decimal text after
/// the last `_` (it must fit `u32`); the label is the text before it, from
/// after the last `__` when there is one.
pub open spec fn emd_name(name: Seq<char>) -> Option<(Seq<char>, u32)> {
    let i = rpos_pat_before(name, "_"@, name.len() as int);
    if i < 0 {
        None
    } else {
        let rest = name.take(i);
        match parse_unsigned(name.skip(i + 1), 10, 0xffff_ffff) {
            None => None,
            Some(v) => {
                let j = rpos_pat_before(rest, "__"@, rest.len() as int);
                let label = if j >= 0 {
                    rest.skip(j + 2)
                } else {
                    rest
                };
                Some((label, v as u32))
            },
        }
    }
}

/// The volumes the `EMDMgmt` subkey names describe, in order; a name without
/// a trailing decimal serial is skipped.
pub open spec fn emd_volumes_from(names: Seq<Seq<char>>, file: Seq<char>, k: int) -> Seq<
    EmdVolumeView,
>
    decreases names.len() - k,
{
    if k < 0 || k >= names.len() {
        Seq::empty()
    } else {
        let rest = emd_volumes_from(names, file, k + 1);
        match emd_name(names[k]) {
            Some((label, serial)) => seq![
                EmdVolumeView {
                    volume_label: label,
                    volume_serial: serial,
                    source: ProvenanceView {
                        file,
                        line: 0,
                        key_path: Some(emd_path() + seq!['\\'] + names[k]),
                    },
                },
            ] + rest,
            None => rest,
        }
    }
}

pub open spec fn emd_views(v: Seq<EmdVolume>) -> Seq<EmdVolumeView> {
    v.map_values(|e: EmdVolume| e@)
}

fn emd_name_chars(name: &[char]) -> (r: Option<(Vec<char>, u32)>)
    ensures
        match r {
            Some((l, s)) => emd_name(name@) == Some((l@, s)),
            None => emd_name(name@) is None,
        },
{
    let us = chars_of("_");
    let dus = chars_of("__");
    proof {
        vstd::string::axiom_str_literal_len("__");
        reveal_strlit("__");
    }
    let i = match rfind_pat(name, us.as_slice(), name.len()) {
        Some(i) => i,
        None => return None,
    };
    proof {
        lemma_rpos_pat_before(name@, us@, name@.len() as int);
    }
    let rest = copy_range(name, 0, i);
    assert(rest@ == name@.take(i as int));
    let tail = copy_range(name, i + 1, name.len());
    assert(tail@ == name@.skip(i + 1));
    let v = match parse_unsigned_exec(tail.as_slice(), 10, 0xffff_ffff) {
        Some(v) => v,
        None => return None,
    };
    match rfind_pat(rest.as_slice(), dus.as_slice(), rest.len()) {
        Some(j) => {
            proof {
                lemma_rpos_pat_before(rest@, dus@, rest@.len() as int);
            }
            let label = copy_range(rest.as_slice(), j + 2, rest.len());
            assert(label@ == rest@.skip(j + 2));
            Some((label, v as u32))
        },
        None => Some((rest, v as u32)),
    }
}

/// Decode an `EMDMgmt` subkey name `<prefix>__<label>_<serial>` into
/// `(label, serial)`; `None` when there is no trailing decimal serial.
pub fn parse_emd_name(name: &str) -> (r: Option<(String, u32)>)
    ensures
        match r {
            Some((l, s)) => emd_name(name@) == Some((l@, s)),
            None => emd_name(name@) is None,
        },
{
    let v = chars_of(name);
    match emd_name_chars(v.as_slice()) {
        Some((l, s)) => Some((string_of(l.as_slice()), s)),
        None => None,
    }
}

/// The volume records of `EMDMgmt` subkey names, in order.
pub fn emd_volumes(names: &[String], file: &str) -> (r: Vec<EmdVolume>)
    ensures
        emd_views(r@) == emd_volumes_from(names@.map_values(|s: String| s@), file@, 0),
{
    let ghost nv = names@.map_values(|s: String| s@);
    let f = chars_of(file);
    let base = chars_of("Microsoft\\Windows NT\\CurrentVersion\\EMDMgmt");
    let mut out: Vec<EmdVolume> = Vec::new();
    let mut k: usize = 0;
    while k < names.len()
        invariant
            k <= names@.len(),
            nv == names@.map_values(|s: String| s@),
            f@ == file@,
            base@ == emd_path(),
            emd_views(out@) + emd_volumes_from(nv, file@, k as int) == emd_volumes_from(
                nv,
                file@,
                0,
            ),
        decreases names@.len() - k,
    {
        let name = chars_of(names[k].as_str());
        assert(name@ == nv[k as int]);
        let ghost before = emd_views(out@);
        match emd_name_chars(name.as_slice()) {
            Some((label, serial)) => {
                let path = join_with(base.as_slice(), '\\', name.as_slice());
                let v = EmdVolume {
                    volume_label: string_of(label.as_slice()),
                    volume_serial: serial,
                    source: Provenance {
                        file: string_of(f.as_slice()),
                        line: 0,
                        key_path: Some(string_of(path.as_slice())),
                    },
                };
                out.push(v);
                assert(emd_views(out@) == before.push(v@));
            },
            None => {},
        }
        assert(emd_views(out@) + emd_volumes_from(nv, file@, k + 1) =~= emd_volumes_from(
            nv,
            file@,
            0,
        ));
        k = k + 1;
    }
    assert(emd_views(out@) =~= emd_volumes_from(nv, file@, 0));
    out
}

/// Parse `EMDMgmt` volume records from an opened `SOFTWARE` hive: the
/// subkey names of the cache key (none when it is absent), decoded by
/// [`emd_volumes`]. `file` is recorded as each record's provenance file.
pub fn parse_emdmgmt(hive: &RegHive, file: &str) -> (r: Vec<EmdVolume>)
    ensures
        emd_views(r@) == emd_volumes_from(subkey_names_at(hive.data(), emd_path()), file@, 0),
{
    let names = read_subkey_names(hive, "Microsoft\\Windows NT\\CurrentVersion\\EMDMgmt");
    let r = emd_volumes(names.as_slice(), file);
    assert(emd_views(r@) == emd_volumes_from(names@.map_values(|s: String| s@), file@, 0));
    r
}

} // verus!
