//! Per-user volume mounts: decode `MountPoints2` from a Windows `NTUSER.DAT` hive.
//!
//! `NTUSER\Software\Microsoft\Windows\CurrentVersion\Explorer\MountPoints2\{GUID}`
//! records every volume the user mounted, keyed by the volume GUID; the
//! subkey's last-written time is the last time that user mounted it.

use vstd::prelude::*;
use crate::text::{is_ascii_upper, seq_lower, chars_of, lower_chars, string_of, join_with};
use crate::device::{Provenance, ProvenanceView};
use crate::hive::{RegHive, filetime_seconds, filetime_to_epoch, read_subkey_times, subkey_times_at};

verus! {

/// The `MountPoints2` path in an `NTUSER.DAT` (user) hive.
pub open spec fn mp2_path() -> Seq<char> {
    "Software\\Microsoft\\Windows\\CurrentVersion\\Explorer\\MountPoints2"@
}

/// One per-user volume mount: the volume GUID and the last time the user mounted it.
#[derive(Debug, Clone, PartialEq, Eq)]
pub struct UserMount {
    /// The mounted volume's GUID (lower-cased, braces kept).
    pub volume_guid: String,
    /// Last-mounted time (the subkey's last-written FILETIME), epoch seconds
    /// UTC; `None` when the hive recorded no usable timestamp.
    pub last_mounted: Option<i64>,
    /// Where the record was decoded from.
    pub source: Provenance,
}

pub struct UserMountView {
    pub volume_guid: Seq<char>,
    pub last_mounted: Option<int>,
    pub source: ProvenanceView,
}

impl View for UserMount {
    type V = UserMountView;

    open spec fn view(&self) -> UserMountView {
        UserMountView {
            volume_guid: self.volume_guid@,
            last_mounted: match self.last_mounted {
                Some(t) => Some(t as int),
                None => None,
            },
            source: self.source@,
        }
    }
}

/// A `{...}` mount name.
pub open spec fn braced(name: Seq<char>) -> bool {
    name.len() > 0 && name[0] == '{' && name.last() == '}'
}

/// The mounts of the `MountPoints2` subkeys (name, last-written FILETIME),
/// in order; a name that is not `{...}` (a `##server#share` entry) is skipped.
pub open spec fn mounts_from(subs: Seq<(Seq<char>, u64)>, file: Seq<char>, k: int) -> Seq<
    UserMountView,
>
    decreases subs.len() - k,
{
    if k < 0 || k >= subs.len() {
        Seq::empty()
    } else {
        let rest = mounts_from(subs, file, k + 1);
        let (name, ft) = subs[k];
        if braced(name) {
            seq![
                UserMountView {
                    volume_guid: seq_lower(name),
                    last_mounted: filetime_seconds(ft),
                    source: ProvenanceView {
                        file,
                        line: 0,
                        key_path: Some(mp2_path() + seq!['\\'] + name),
                    },
                },
            ] + rest
        } else {
            rest
        }
    }
}

pub open spec fn mount_views(v: Seq<UserMount>) -> Seq<UserMountView> {
    v.map_values(|m: UserMount| m@)
}

pub open spec fn stamped_names(v: Seq<(String, u64)>) -> Seq<(Seq<char>, u64)> {
    v.map_values(|p: (String, u64)| (p.0@, p.1))
}

/// The user mounts of `MountPoints2` subkeys (name, last-written FILETIME), in order.
pub fn user_mounts(subs: &[(String, u64)], file: &str) -> (r: Vec<UserMount>)
    ensures
        mount_views(r@) == mounts_from(stamped_names(subs@), file@, 0),
{
    let ghost sv = stamped_names(subs@);
    let f = chars_of(file);
    let base = chars_of("Software\\Microsoft\\Windows\\CurrentVersion\\Explorer\\MountPoints2");
    let mut out: Vec<UserMount> = Vec::new();
    let mut k: usize = 0;
    while k < subs.len()
        invariant
            k <= subs@.len(),
            sv == stamped_names(subs@),
            f@ == file@,
            base@ == mp2_path(),
            mount_views(out@) + mounts_from(sv, file@, k as int) == mounts_from(sv, file@, 0),
        decreases subs@.len() - k,
    {
        let name = chars_of(subs[k].0.as_str());
        let ft = subs[k].1;
        assert(name@ == sv[k as int].0 && ft == sv[k as int].1);
        let ghost before = mount_views(out@);
        if name.len() > 0 && name[0] == '{' && name[name.len() - 1] == '}' {
            let lower = lower_chars(name.as_slice());
            let path = join_with(base.as_slice(), '\\', name.as_slice());
            let m = UserMount {
                volume_guid: string_of(lower.as_slice()),
                last_mounted: filetime_to_epoch(ft),
                source: Provenance {
                    file: string_of(f.as_slice()),
                    line: 0,
                    key_path: Some(string_of(path.as_slice())),
                },
            };
            out.push(m);
            assert(mount_views(out@) == before.push(m@));
        }
        assert(mount_views(out@) + mounts_from(sv, file@, k + 1) =~= mounts_from(sv, file@, 0));
        k = k + 1;
    }
    assert(mount_views(out@) =~= mounts_from(sv, file@, 0));
    out
}

/// Parse per-user `MountPoints2` volume mounts from an opened `NTUSER.DAT`
/// hive: the subkeys with their last-written FILETIMEs (none when the key
/// is absent), decoded by [`user_mounts`].
pub fn parse_mountpoints2(hive: &RegHive, file: &str) -> (r: Vec<UserMount>)
    ensures
        mount_views(r@) == mounts_from(subkey_times_at(hive.data(), mp2_path()), file@, 0),
{
    let subs = read_subkey_times(
        hive,
        "Software\\Microsoft\\Windows\\CurrentVersion\\Explorer\\MountPoints2",
    );
    let r = user_mounts(subs.as_slice(), file);
    assert(stamped_names(subs@) =~= subkey_times_at(hive.data(), mp2_path()));
    assert(mount_views(r@) == mounts_from(stamped_names(subs@), file@, 0));
    r
}


// ---------------------------------------------------------------------------
// Laws
// ---------------------------------------------------------------------------

/// A user mount record: a braced volume GUID with no upper-case ASCII
/// letter left in it, and the `MountPoints2` subkey it came from in `file`.
pub open spec fn mount_record(m: UserMountView, file: Seq<char>) -> bool {
    &&& braced(m.volume_guid)
    &&& forall|j: int| 0 <= j < m.volume_guid.len() ==> !is_ascii_upper(#[trigger] m.volume_guid[j])
    &&& m.source.file == file
    &&& m.source.line == 0
    &&& m.source.key_path is Some
}

proof fn lemma_mounts_from(subs: Seq<(Seq<char>, u64)>, file: Seq<char>, k: int)
    requires
        0 <= k,
    ensures
        forall|i: int|
            0 <= i < mounts_from(subs, file, k).len() ==> mount_record(
                #[trigger] mounts_from(subs, file, k)[i],
                file,
            ),
    decreases subs.len() - k,
{
    if k < subs.len() {
        lemma_mounts_from(subs, file, k + 1);
        let all = mounts_from(subs, file, k);
        let rest = mounts_from(subs, file, k + 1);
        assert forall|i: int| 0 <= i < all.len() implies mount_record(#[trigger] all[i], file) by {
            if all.len() > rest.len() && i > 0 {
                assert(all[i] == rest[i - 1]);
            }
            if all.len() > rest.len() && i == 0 {
                let g = all[0].volume_guid;
                assert(g == seq_lower(subs[k].0));
                assert(g[0] == '{' && g.last() == '}');
            }
        }
    }
}

/// Every user mount keeps [`mount_record`]: only `{GUID}` subkeys are
/// surfaced, and their GUIDs are lower-cased with the braces kept.
pub proof fn law_user_mounts(subs: Seq<(Seq<char>, u64)>, file: Seq<char>, i: int)
    requires
        0 <= i < mounts_from(subs, file, 0).len(),
    ensures
        mount_record(mounts_from(subs, file, 0)[i], file),
{
    lemma_mounts_from(subs, file, 0);
}

} // verus!
