//! Registry device source: decode USB / USBSTOR / SCSI / Thunderbolt device
//! instances from a Windows `SYSTEM` hive into [`DeviceConnection`] records,
//! complementing the `setupapi` source.
//!
//! Device instances live under
//! `ControlSet00X\Enum\{USBSTOR,USB,SCSI,THUNDERBOLT}\<Ven&Prod>\<instance>`.
//! Per-device timestamps live in the undocumented device-property subtree
//! `Properties\{83da6326-97a6-4088-9453-a1923f573b29}\<PROP>` whose default
//! value is a `FILETIME`: `0064` install, `0065` first-install (documented,
//! authoritative), `0066` last-arrival and `0067` last-removal (undocumented,
//! inferred). Windows 7 stores the `FILETIME` instead in the `Data` value of
//! a nested `00000000` leaf under an 8-hex-digit property key.

use vstd::prelude::*;
use crate::text::{
    is_ascii_upper, lemma_upper_of_alpha, starts_with, split_char, chars_of, string_of, copy_range, has_prefix, pat_at,
    same_chars, split_on, seqs_view, opt_seq, join_with, char_from_u32,
};
use crate::numbers::{parse_unsigned, parse_unsigned_exec};
use crate::device::{
    Bus, Confidence, Stamp, Provenance, ProvenanceView, DeviceConnection, ConnectionView, dma_bus, opt_view, conn_views, consistent_record, stamped,
};
use crate::hive::{
    RegHive, RegKey, HiveEntry, HiveEntryView, entry_views, read_value_entries, filetime_seconds,
    filetime_to_epoch, utf16le_text, decode_utf16le, subkeys, subkey, key_name, key_value,
    value_raw, subkeys_at, listed_subkeys, subkey_cells_at, subkey_of, key_name_at, named_data,
    value_entries_at,
};
use crate::mountpoints2::braced;
use crate::mounted_volumes::dos_letter_of;
pub use crate::mounted_volumes::dos_drive_letter;

verus! {

// ---------------------------------------------------------------------------
// UTF-16 device paths
// ---------------------------------------------------------------------------

/// The UTF-16LE code units of `raw` (a trailing odd byte is not a unit).
pub open spec fn utf16_units(raw: Seq<u8>) -> Seq<u16> {
    Seq::new(raw.len() / 2, |j: int| (raw[2 * j] + raw[2 * j + 1] * 0x100) as u16)
}

pub open spec fn is_high_surrogate(u: u16) -> bool {
    0xD800 <= u && u < 0xDC00
}

pub open spec fn is_low_surrogate(u: u16) -> bool {
    0xDC00 <= u && u < 0xE000
}

/// The scalar value a surrogate pair encodes.
pub open spec fn pair_scalar(hi: u16, lo: u16) -> u32 {
    (0x10000 + (hi - 0xD800) * 0x400 + (lo - 0xDC00)) as u32
}

/// `String::from_utf16`: the text that UTF-16 code units spell, or `None`
/// when a surrogate is unpaired.
pub open spec fn utf16_text(u: Seq<u16>) -> Option<Seq<char>>
    decreases u.len(),
{
    if u.len() == 0 {
        Some(Seq::empty())
    } else if !is_high_surrogate(u[0]) && !is_low_surrogate(u[0]) {
        match utf16_text(u.skip(1)) {
            Some(t) => Some(seq![(u[0] as u32) as char] + t),
            None => None,
        }
    } else if is_high_surrogate(u[0]) && u.len() >= 2 && is_low_surrogate(u[1]) {
        match utf16_text(u.skip(2)) {
            Some(t) => Some(seq![pair_scalar(u[0], u[1]) as char] + t),
            None => None,
        }
    } else {
        None
    }
}

/// `String::from_utf16_lossy`: the text UTF-16 code units spell, each
/// unpaired surrogate replaced by U+FFFD.
pub open spec fn utf16_lossy(u: Seq<u16>) -> Seq<char>
    decreases u.len(),
{
    if u.len() == 0 {
        Seq::empty()
    } else if !is_high_surrogate(u[0]) && !is_low_surrogate(u[0]) {
        seq![(u[0] as u32) as char] + utf16_lossy(u.skip(1))
    } else if is_high_surrogate(u[0]) && u.len() >= 2 && is_low_surrogate(u[1]) {
        seq![pair_scalar(u[0], u[1]) as char] + utf16_lossy(u.skip(2))
    } else {
        seq!['\u{FFFD}'] + utf16_lossy(u.skip(1))
    }
}

/// The code units before the first zero unit.
pub open spec fn units_before_nul(u: Seq<u16>) -> Seq<u16>
    decreases u.len(),
{
    if u.len() == 0 || u[0] == 0 {
        Seq::empty()
    } else {
        seq![u[0]] + units_before_nul(u.skip(1))
    }
}

pub open spec fn prepend_text(p: Seq<char>, o: Option<Seq<char>>) -> Option<Seq<char>> {
    match o {
        Some(t) => Some(p + t),
        None => None,
    }
}

/// The instance component of a device path's `#`-separated parts: the last
/// part once a trailing `{GUID}` interface-class part is dropped, provided at
/// least two parts remain and it is not empty.
pub open spec fn instance_component(parts: Seq<Seq<char>>) -> Option<Seq<char>> {
    let kept = if parts.len() > 0 && braced(parts.last()) {
        parts.drop_last()
    } else {
        parts
    };
    if kept.len() >= 2 && kept.last().len() > 0 {
        Some(kept.last())
    } else {
        None
    }
}

/// The device instance a `MountedDevices` value names when its bytes are a
/// UTF-16LE device path `\??\<CLASS>#<Ven&Prod>#<instance>#{guid}`: `None`
/// for fewer than 8 bytes, an odd length, an unpaired surrogate, a text not
/// starting `\??\`, or no instance component.
pub open spec fn device_path_instance_of(raw: Seq<u8>) -> Option<Seq<char>> {
    if raw.len() < 8 || raw.len() % 2 != 0 {
        None
    } else {
        match utf16_text(utf16_units(raw)) {
            Some(d) => if starts_with(d, "\\??\\"@) {
                instance_component(split_char(d.skip(4), '#'))
            } else {
                None
            },
            None => None,
        }
    }
}

fn utf16_units_exec(raw: &[u8]) -> (u: Vec<u16>)
    ensures
        u@ == utf16_units(raw@),
{
    let mut u: Vec<u16> = Vec::new();
    let len = raw.len();
    let n = len / 2;
    let mut j: usize = 0;
    while j < n
        invariant
            len == raw@.len(),
            n == len / 2,
            j <= n,
            u@.len() == j,
            forall|t: int|
                0 <= t < j ==> u@[t] == (raw@[2 * t] + raw@[2 * t + 1] * 0x100) as u16,
        decreases n - j,
    {
        assert(j + j + 1 < len);
        let b: usize = j + j;
        let v: u16 = raw[b] as u16 + raw[b + 1] as u16 * 256;
        u.push(v);
        j = j + 1;
    }
    assert(u@ =~= utf16_units(raw@));
    u
}

fn utf16_text_exec(u: &[u16]) -> (r: Option<Vec<char>>)
    ensures
        opt_seq(r) == utf16_text(u@),
{
    let mut out: Vec<char> = Vec::new();
    let mut i: usize = 0;
    assert(u@.skip(0) =~= u@);
    proof {
        match utf16_text(u@) {
            Some(t) => {
                assert(out@ + t =~= t);
            },
            None => {},
        }
    }
    while i < u.len()
        invariant
            i <= u@.len(),
            utf16_text(u@) == prepend_text(out@, utf16_text(u@.skip(i as int))),
        decreases u@.len() - i,
    {
        let ghost rest = u@.skip(i as int);
        let ghost before = out@;
        let c = u[i];
        if c < 0xD800 || c >= 0xE000 {
            assert(rest.skip(1) =~= u@.skip(i + 1));
            match char_from_u32(c as u32) {
                Some(ch) => {
                    out.push(ch);
                    proof {
                        match utf16_text(u@.skip(i + 1)) {
                            Some(t) => {
                                assert(before + (seq![ch] + t) =~= out@ + t);
                            },
                            None => {},
                        }
                    }
                },
                None => {
                    return None;
                },
            }
            i = i + 1;
        } else if c < 0xDC00 && i + 1 < u.len() && u[i + 1] >= 0xDC00 && u[i + 1] < 0xE000 {
            let lo = u[i + 1];
            assert(rest.skip(2) =~= u@.skip(i + 2));
            let v: u32 = 0x10000 + (c as u32 - 0xD800) * 0x400 + (lo as u32 - 0xDC00);
            assert(v == pair_scalar(c, lo));
            match char_from_u32(v) {
                Some(ch) => {
                    out.push(ch);
                    proof {
                        match utf16_text(u@.skip(i + 2)) {
                            Some(t) => {
                                assert(before + (seq![ch] + t) =~= out@ + t);
                            },
                            None => {},
                        }
                    }
                },
                None => {
                    return None;
                },
            }
            i = i + 2;
        } else {
            return None;
        }
    }
    assert(u@.skip(i as int) =~= Seq::<u16>::empty());
    assert(out@ + Seq::<char>::empty() =~= out@);
    Some(out)
}

/// Decode a `MountedDevices` REG_BINARY value as a UTF-16LE device path and
/// return its device instance component
/// (`\??\<CLASS>#<Ven&Prod>#<instance>#{guid}` gives `<instance>`); `None`
/// for an MBR record, a non-device-path string, or malformed bytes.
pub fn device_path_instance(raw: &[u8]) -> (r: Option<String>)
    ensures
        opt_view(r) == device_path_instance_of(raw@),
{
    if raw.len() < 8 || raw.len() % 2 != 0 {
        return None;
    }
    let units = utf16_units_exec(raw);
    let d = match utf16_text_exec(units.as_slice()) {
        Some(d) => d,
        None => {
            return None;
        },
    };
    let p = chars_of("\\??\\");
    proof {
        vstd::string::axiom_str_literal_len("\\??\\");
        reveal_strlit("\\??\\");
    }
    if !has_prefix(d.as_slice(), p.as_slice()) {
        return None;
    }
    let path = copy_range(d.as_slice(), 4, d.len());
    assert(path@ == d@.skip(4));
    let parts = split_on(path.as_slice(), '#');
    let ghost ps = seqs_view(parts@);
    let n = parts.len();
    let last = &parts[n - 1];
    assert(last@ == ps.last());
    let mut m = n;
    if last.len() > 0 && last[0] == '{' && last[last.len() - 1] == '}' {
        m = n - 1;
    }
    let ghost kept = if ps.len() > 0 && braced(ps.last()) {
        ps.drop_last()
    } else {
        ps
    };
    assert(kept =~= ps.take(m as int));
    if m < 2 {
        return None;
    }
    let inst = &parts[m - 1];
    assert(inst@ == kept.last());
    if inst.len() == 0 {
        return None;
    }
    Some(string_of(inst.as_slice()))
}

// ---------------------------------------------------------------------------
// Device-instance keys
// ---------------------------------------------------------------------------

/// The raw bytes of an optional value.
pub open spec fn opt_bytes(o: Option<Vec<u8>>) -> Option<Seq<u8>> {
    match o {
        Some(d) => Some(d@),
        None => None,
    }
}

/// One subkey of a device's `Properties\{83da6326-...}` subtree: its name
/// (the property number in hex), the raw data of its default value, and its
/// own subkeys with the raw data of their `Data` value (the Windows 7
/// layout).
#[derive(Debug, Clone, PartialEq, Eq)]
pub struct PropertyKey {
    pub name: String,
    pub default_data: Option<Vec<u8>>,
    pub leaves: Vec<HiveEntry>,
}

pub struct PropertyKeyView {
    pub name: Seq<char>,
    pub default_data: Option<Seq<u8>>,
    pub leaves: Seq<HiveEntryView>,
}

impl View for PropertyKey {
    type V = PropertyKeyView;

    open spec fn view(&self) -> PropertyKeyView {
        PropertyKeyView {
            name: self.name@,
            default_data: opt_bytes(self.default_data),
            leaves: entry_views(self.leaves@),
        }
    }
}

pub open spec fn property_views(v: Seq<PropertyKey>) -> Seq<PropertyKeyView> {
    v.map_values(|p: PropertyKey| p@)
}

/// A device-instance key `<control set>\Enum\<class>\<vendor>\<instance>`
/// as read from a `SYSTEM` hive: its place in the tree, the raw data of its
/// `FriendlyName` and `ParentIdPrefix` values, and the subkeys of its
/// `Properties\{83da6326-...}` subtree (none when that subtree is absent).
#[derive(Debug, Clone, PartialEq, Eq)]
pub struct InstanceKey {
    pub control_set: String,
    pub class: String,
    pub vendor: String,
    pub instance: String,
    pub friendly_name: Option<Vec<u8>>,
    pub parent_id_prefix: Option<Vec<u8>>,
    pub properties: Vec<PropertyKey>,
}

pub struct InstanceKeyView {
    pub control_set: Seq<char>,
    pub class: Seq<char>,
    pub vendor: Seq<char>,
    pub instance: Seq<char>,
    pub friendly_name: Option<Seq<u8>>,
    pub parent_id_prefix: Option<Seq<u8>>,
    pub properties: Seq<PropertyKeyView>,
}

impl View for InstanceKey {
    type V = InstanceKeyView;

    open spec fn view(&self) -> InstanceKeyView {
        InstanceKeyView {
            control_set: self.control_set@,
            class: self.class@,
            vendor: self.vendor@,
            instance: self.instance@,
            friendly_name: opt_bytes(self.friendly_name),
            parent_id_prefix: opt_bytes(self.parent_id_prefix),
            properties: property_views(self.properties@),
        }
    }
}

pub open spec fn instance_views(v: Seq<InstanceKey>) -> Seq<InstanceKeyView> {
    v.map_values(|k: InstanceKey| k@)
}

/// The control sets walked: the same device may appear in each.
pub open spec fn control_sets() -> Seq<Seq<char>> {
    seq!["ControlSet001"@, "ControlSet002"@]
}

/// The enumerator classes walked. `SCSI` is included because virtual and
/// UASP/USB-3 disks enumerate there rather than under `USBSTOR`.
pub open spec fn enum_classes() -> Seq<Seq<char>> {
    seq!["USBSTOR"@, "USB"@, "SCSI"@, "THUNDERBOLT"@]
}

/// The bus an enumerator class implies.
pub open spec fn class_bus(class: Seq<char>) -> Bus {
    if class == "USBSTOR"@ || class == "USB"@ {
        Bus::Usb
    } else if class == "SCSI"@ {
        Bus::ScsiSas
    } else if class == "THUNDERBOLT"@ {
        Bus::Thunderbolt
    } else {
        Bus::Unknown
    }
}

// ---------------------------------------------------------------------------
// Property FILETIMEs
// ---------------------------------------------------------------------------

/// A key name read as a hex number the way `u32::from_str_radix(name, 16)`
/// reads it (so `0064` and `00000064` are both `0x64`).
pub open spec fn hex_number(name: Seq<char>) -> Option<int> {
    parse_unsigned(name, 16, 0xffff_ffff)
}

/// The first property key, from position `k`, whose name is the number `num`.
pub open spec fn find_property(props: Seq<PropertyKeyView>, num: int, k: int) -> Option<
    PropertyKeyView,
>
    decreases props.len() - k,
{
    if k < 0 || k >= props.len() {
        None
    } else if hex_number(props[k].name) == Some(num) {
        Some(props[k])
    } else {
        find_property(props, num, k + 1)
    }
}

/// The first leaf, from position `k`, whose name is the number 0.
pub open spec fn find_leaf(leaves: Seq<HiveEntryView>, k: int) -> Option<HiveEntryView>
    decreases leaves.len() - k,
{
    if k < 0 || k >= leaves.len() {
        None
    } else if hex_number(leaves[k].name) == Some(0int) {
        Some(leaves[k])
    } else {
        find_leaf(leaves, k + 1)
    }
}

/// The raw data of property `num`: its key's default value, else the `Data`
/// value of its `0` leaf.
pub open spec fn property_data(props: Seq<PropertyKeyView>, num: int) -> Option<Seq<u8>> {
    match find_property(props, num, 0) {
        Some(p) => match p.default_data {
            Some(d) => Some(d),
            None => match find_leaf(p.leaves, 0) {
                Some(l) => l.data,
                None => None,
            },
        },
        None => None,
    }
}

/// The little-endian `u64` in the first 8 bytes of `raw`.
pub open spec fn le_u64(raw: Seq<u8>) -> u64 {
    (raw[0] + raw[1] * 0x100 + raw[2] * 0x1_0000 + raw[3] * 0x100_0000 + raw[4] * 0x1_0000_0000
        + raw[5] * 0x100_0000_0000 + raw[6] * 0x1_0000_0000_0000 + raw[7]
        * 0x100_0000_0000_0000) as u64
}

/// Property `num` as Unix epoch seconds: its data's first 8 bytes as a
/// `FILETIME`; `None` when the property is absent, shorter than 8 bytes, or
/// not a representable post-epoch `FILETIME`.
pub open spec fn property_seconds(props: Seq<PropertyKeyView>, num: int) -> Option<int> {
    match property_data(props, num) {
        Some(d) => if d.len() >= 8 {
            filetime_seconds(le_u64(d))
        } else {
            None
        },
        None => None,
    }
}

fn hex_number_exec(name: &str) -> (r: Option<u64>)
    ensures
        match r {
            Some(v) => hex_number(name@) == Some(v as int),
            None => hex_number(name@) is None,
        },
{
    let v = chars_of(name);
    parse_unsigned_exec(v.as_slice(), 16, 0xffff_ffff)
}

fn find_property_exec(props: &[PropertyKey], num: u64) -> (r: Option<usize>)
    ensures
        match r {
            Some(k) => k < props@.len() && find_property(property_views(props@), num as int, 0)
                == Some(props@[k as int]@),
            None => find_property(property_views(props@), num as int, 0) is None,
        },
{
    let ghost pv = property_views(props@);
    let mut k: usize = 0;
    while k < props.len()
        invariant
            k <= props@.len(),
            pv == property_views(props@),
            find_property(pv, num as int, 0) == find_property(pv, num as int, k as int),
        decreases props@.len() - k,
    {
        let h = hex_number_exec(props[k].name.as_str());
        match h {
            Some(v) => {
                if v == num {
                    return Some(k);
                }
            },
            None => {},
        }
        k = k + 1;
    }
    None
}

fn find_leaf_exec(leaves: &[HiveEntry]) -> (r: Option<usize>)
    ensures
        match r {
            Some(k) => k < leaves@.len() && find_leaf(entry_views(leaves@), 0) == Some(
                leaves@[k as int]@,
            ),
            None => find_leaf(entry_views(leaves@), 0) is None,
        },
{
    let ghost lv = entry_views(leaves@);
    let mut k: usize = 0;
    while k < leaves.len()
        invariant
            k <= leaves@.len(),
            lv == entry_views(leaves@),
            find_leaf(lv, 0) == find_leaf(lv, k as int),
        decreases leaves@.len() - k,
    {
        let h = hex_number_exec(leaves[k].name.as_str());
        match h {
            Some(v) => {
                if v == 0 {
                    return Some(k);
                }
            },
            None => {},
        }
        k = k + 1;
    }
    None
}

/// Read property `num` (e.g. `0x64`) as Unix epoch seconds, from either
/// device-property-store layout.
fn property_seconds_exec(props: &[PropertyKey], num: u64) -> (r: Option<i64>)
    ensures
        match r {
            Some(s) => property_seconds(property_views(props@), num as int) == Some(s as int),
            None => property_seconds(property_views(props@), num as int) is None,
        },
{
    let p = match find_property_exec(props, num) {
        Some(k) => &props[k],
        None => {
            return None;
        },
    };
    let raw: &Vec<u8> = match &p.default_data {
        Some(d) => d,
        None => match find_leaf_exec(p.leaves.as_slice()) {
            Some(k) => match &p.leaves[k].data {
                Some(d) => d,
                None => {
                    return None;
                },
            },
            None => {
                return None;
            },
        },
    };
    if raw.len() < 8 {
        return None;
    }
    let ft: u64 = raw[0] as u64 + raw[1] as u64 * 0x100 + raw[2] as u64 * 0x1_0000 + raw[3] as u64
        * 0x100_0000 + raw[4] as u64 * 0x1_0000_0000 + raw[5] as u64 * 0x100_0000_0000
        + raw[6] as u64 * 0x1_0000_0000_0000 + raw[7] as u64 * 0x100_0000_0000_0000;
    assert(ft == le_u64(raw@));
    filetime_to_epoch(ft)
}

// ---------------------------------------------------------------------------
// VID / PID
// ---------------------------------------------------------------------------

/// The 4 hex digits after `tag` at the start of `seg`, read as
/// `u16::from_str_radix`.
pub open spec fn hex4_after(seg: Seq<char>, tag: Seq<char>) -> Option<u16> {
    if starts_with(seg, tag) && seg.len() >= tag.len() + 4 {
        match parse_unsigned(seg.subrange(tag.len() as int, tag.len() as int + 4), 16, 0xffff) {
            Some(v) => Some(v as u16),
            None => None,
        }
    } else {
        None
    }
}

/// The first segment, from position `k`, that yields a [`hex4_after`] value.
pub open spec fn first_hex4(segs: Seq<Seq<char>>, tag: Seq<char>, k: int) -> Option<u16>
    decreases segs.len() - k,
{
    if k < 0 || k >= segs.len() {
        None
    } else {
        match hex4_after(segs[k], tag) {
            Some(v) => Some(v),
            None => first_hex4(segs, tag, k + 1),
        }
    }
}

/// `(vid, pid)` of a `VID_xxxx&PID_xxxx` enumerator key name: among the
/// `&`-separated segments, the first `VID_` and the first `PID_` segment
/// whose next 4 characters are hex.
pub open spec fn enum_vid_pid(name: Seq<char>) -> (Option<u16>, Option<u16>) {
    let segs = split_char(name, '&');
    (first_hex4(segs, "VID_"@, 0), first_hex4(segs, "PID_"@, 0))
}

fn first_hex4_exec(segs: &Vec<Vec<char>>, tag: &[char]) -> (r: Option<u16>)
    requires
        tag@.len() == 4,
    ensures
        r == first_hex4(seqs_view(segs@), tag@, 0),
{
    let ghost sv = seqs_view(segs@);
    let mut k: usize = 0;
    while k < segs.len()
        invariant
            k <= segs@.len(),
            tag@.len() == 4,
            sv == seqs_view(segs@),
            first_hex4(sv, tag@, 0) == first_hex4(sv, tag@, k as int),
        decreases segs@.len() - k,
    {
        let seg = &segs[k];
        assert(seg@ == sv[k as int]);
        if has_prefix(seg.as_slice(), tag) && seg.len() >= 8 {
            let h = copy_range(seg.as_slice(), 4, 8);
            match parse_unsigned_exec(h.as_slice(), 16, 0xffff) {
                Some(v) => {
                    return Some(v as u16);
                },
                None => {},
            }
        }
        k = k + 1;
    }
    None
}

/// Extract `(vid, pid)` from a `VID_xxxx&PID_xxxx` enumerator key name (USB
/// only); a missing, short or non-hex field is `None`.
pub fn parse_vid_pid(name: &str) -> (r: (Option<u16>, Option<u16>))
    ensures
        r == enum_vid_pid(name@),
{
    let v = chars_of(name);
    let segs = split_on(v.as_slice(), '&');
    let vt = chars_of("VID_");
    let pt = chars_of("PID_");
    proof {
        vstd::string::axiom_str_literal_len("VID_");
        vstd::string::axiom_str_literal_len("PID_");
        reveal_strlit("VID_");
        reveal_strlit("PID_");
    }
    (first_hex4_exec(&segs, vt.as_slice()), first_hex4_exec(&segs, pt.as_slice()))
}

// ---------------------------------------------------------------------------
// The MountedDevices drive-letter join
// ---------------------------------------------------------------------------

pub open spec fn ends_with(s: Seq<char>, p: Seq<char>) -> bool {
    p.len() <= s.len() && s.skip(s.len() - p.len()) == p
}

/// A `MountedDevices` value as (drive letter, device instance), when its name
/// is `\DosDevices\X:` and its data a device path.
pub open spec fn mount_of(e: HiveEntryView) -> Option<(char, Seq<char>)> {
    match dos_letter_of(e.name) {
        Some(l) => match e.data {
            Some(d) => match device_path_instance_of(d) {
                Some(i) => Some((l, i)),
                None => None,
            },
            None => None,
        },
        None => None,
    }
}

/// A device instance id names the instance `inst` when it is `inst` or ends
/// with `\inst`.
pub open spec fn names_instance(id: Seq<char>, inst: Seq<char>) -> bool {
    id == inst || ends_with(id, seq!['\\'] + inst)
}

/// The drive letter the first `n` `MountedDevices` values give the device
/// instance id `id`: that of the last one naming it.
pub open spec fn joined_letter(id: Seq<char>, ms: Seq<HiveEntryView>, n: int) -> Option<char>
    decreases n,
{
    if n <= 0 || n > ms.len() {
        None
    } else {
        match mount_of(ms[n - 1]) {
            Some((l, i)) => if names_instance(id, i) {
                Some(l)
            } else {
                joined_letter(id, ms, n - 1)
            },
            None => joined_letter(id, ms, n - 1),
        }
    }
}

pub open spec fn mount_view(o: Option<(char, Vec<char>)>) -> Option<(char, Seq<char>)> {
    match o {
        Some((l, i)) => Some((l, i@)),
        None => None,
    }
}

fn mount_of_exec(e: &HiveEntry) -> (r: Option<(char, Vec<char>)>)
    ensures
        mount_view(r) == mount_of(e@),
{
    let letter = match dos_drive_letter(e.name.as_str()) {
        Some(l) => l,
        None => {
            return None;
        },
    };
    match &e.data {
        Some(d) => match device_path_instance(d.as_slice()) {
            Some(i) => Some((letter, chars_of(i.as_str()))),
            None => None,
        },
        None => None,
    }
}

fn names_instance_exec(id: &[char], inst: &[char]) -> (b: bool)
    ensures
        b == names_instance(id@, inst@),
{
    if same_chars(id, inst) {
        return true;
    }
    let n = id.len();
    let m = inst.len();
    let ghost suf = seq!['\\'] + inst@;
    if n > m && id[n - m - 1] == '\\' && pat_at(id, inst, n - m) {
        assert(id@.skip(n - suf.len()) =~= suf);
        true
    } else {
        proof {
            if ends_with(id@, suf) {
                assert(id@.skip(n - suf.len())[0] == id@[n - m - 1]);
                assert(id@.subrange(n - m, n as int) =~= id@.skip(n - suf.len()).skip(1));
                assert(suf.skip(1) =~= inst@);
            }
        }
        false
    }
}

fn joined_letter_exec(id: &[char], mounts: &Vec<Option<(char, Vec<char>)>>, Ghost(ms): Ghost<
    Seq<HiveEntryView>,
>) -> (r: Option<char>)
    requires
        mounts@.len() == ms.len(),
        forall|t: int| 0 <= t < ms.len() ==> mount_view(#[trigger] mounts@[t]) == mount_of(ms[t]),
    ensures
        r == joined_letter(id@, ms, ms.len() as int),
{
    let mut letter: Option<char> = None;
    let mut k: usize = 0;
    while k < mounts.len()
        invariant
            k <= mounts@.len(),
            mounts@.len() == ms.len(),
            forall|t: int|
                0 <= t < ms.len() ==> mount_view(#[trigger] mounts@[t]) == mount_of(ms[t]),
            letter == joined_letter(id@, ms, k as int),
        decreases mounts@.len() - k,
    {
        assert(mount_view(mounts@[k as int]) == mount_of(ms[k as int]));
        match &mounts[k] {
            Some((l, i)) => {
                if names_instance_exec(id, i.as_slice()) {
                    letter = Some(*l);
                }
            },
            None => {},
        }
        k = k + 1;
    }
    letter
}

// ---------------------------------------------------------------------------
// Connections
// ---------------------------------------------------------------------------

/// Windows synthesizes an instance id whose second character is `&` when
/// the device exposed no real iSerial.
pub open spec fn second_char_ampersand(s: Seq<char>) -> bool {
    s.len() > 1 && s[1] == '&'
}

/// A string value's text: the UTF-16LE decoding of its data, `None` when the
/// value is absent or its text empty.
pub open spec fn value_text(d: Option<Seq<u8>>) -> Option<Seq<char>> {
    match d {
        Some(b) => if utf16le_text(b).len() > 0 {
            Some(utf16le_text(b))
        } else {
            None
        },
        None => None,
    }
}

pub open spec fn stamp_of(s: Option<int>, c: Confidence) -> Option<Stamp> {
    match s {
        Some(v) => Some(Stamp { value: v as i64, confidence: c }),
        None => None,
    }
}

/// The device instance id `<class>\<vendor>\<instance>`.
pub open spec fn instance_id_of(k: InstanceKeyView) -> Seq<char> {
    k.class + seq!['\\'] + k.vendor + seq!['\\'] + k.instance
}

/// The key path `<control set>\Enum\<class>\<vendor>\<instance>`.
pub open spec fn key_path_of(k: InstanceKeyView) -> Seq<char> {
    k.control_set + seq!['\\'] + "Enum"@ + seq!['\\'] + k.class + seq!['\\'] + k.vendor + seq![
        '\\',
    ] + k.instance
}

/// The connection a device-instance key records, given the
/// `MountedDevices` values `ms` of the same hive.
pub open spec fn instance_connection(k: InstanceKeyView, ms: Seq<HiveEntryView>, file: Seq<char>) -> ConnectionView {
    let bus = class_bus(k.class);
    let os_gen = second_char_ampersand(k.instance);
    let first = match property_seconds(k.properties, 0x64) {
        Some(s) => Some(s),
        None => property_seconds(k.properties, 0x65),
    };
    ConnectionView {
        bus,
        device_class_guid: None,
        vid: enum_vid_pid(k.vendor).0,
        pid: enum_vid_pid(k.vendor).1,
        device_serial: if k.instance.len() > 0 && !os_gen {
            Some(k.instance)
        } else {
            None
        },
        serial_is_os_generated: os_gen,
        friendly_name: value_text(k.friendly_name),
        device_instance_id: instance_id_of(k),
        first_install: stamp_of(first, Confidence::Authoritative),
        last_install: None,
        last_arrival: stamp_of(property_seconds(k.properties, 0x66), Confidence::Inferred),
        last_removal: stamp_of(property_seconds(k.properties, 0x67), Confidence::Inferred),
        parent_id_prefix: value_text(k.parent_id_prefix),
        volume_guid: None,
        drive_letter: joined_letter(instance_id_of(k), ms, ms.len() as int),
        volume_serial: None,
        disk_signature: None,
        dma_capable: dma_bus(bus),
        mitre: Seq::empty(),
        source: ProvenanceView { file, line: 0, key_path: Some(key_path_of(k)) },
    }
}

/// The connections of device-instance keys, in order.
pub open spec fn instance_connections(ks: Seq<InstanceKeyView>, ms: Seq<HiveEntryView>, file: Seq<char>) -> Seq<ConnectionView> {
    ks.map_values(|k: InstanceKeyView| instance_connection(k, ms, file))
}

fn class_bus_exec(class: &[char]) -> (b: Bus)
    ensures
        b == class_bus(class@),
{
    if crate::text::is_str(class, "USBSTOR") || crate::text::is_str(class, "USB") {
        Bus::Usb
    } else if crate::text::is_str(class, "SCSI") {
        Bus::ScsiSas
    } else if crate::text::is_str(class, "THUNDERBOLT") {
        Bus::Thunderbolt
    } else {
        Bus::Unknown
    }
}

fn value_text_exec(d: &Option<Vec<u8>>) -> (r: Option<String>)
    ensures
        opt_view(r) == value_text(opt_bytes(*d)),
{
    match d {
        Some(b) => {
            let t = decode_utf16le(b.as_slice());
            let c = chars_of(t.as_str());
            if c.len() > 0 {
                Some(t)
            } else {
                None
            }
        },
        None => None,
    }
}

fn stamp_exec(s: Option<i64>, c: Confidence) -> (r: Option<Stamp>)
    ensures
        r == stamp_of(
            match s {
                Some(v) => Some(v as int),
                None => None,
            },
            c,
        ),
{
    match s {
        Some(v) => Some(Stamp { value: v, confidence: c }),
        None => None,
    }
}

fn instance_connection_exec(
    k: &InstanceKey,
    mounts: &Vec<Option<(char, Vec<char>)>>,
    Ghost(ms): Ghost<Seq<HiveEntryView>>,
    file: &[char],
) -> (r: DeviceConnection)
    requires
        mounts@.len() == ms.len(),
        forall|t: int| 0 <= t < ms.len() ==> mount_view(#[trigger] mounts@[t]) == mount_of(ms[t]),
    ensures
        r@ == instance_connection(k@, ms, file@),
{
    let ghost kv = k@;
    let class = chars_of(k.class.as_str());
    let vendor = chars_of(k.vendor.as_str());
    let inst = chars_of(k.instance.as_str());
    let cs = chars_of(k.control_set.as_str());
    let bus = class_bus_exec(class.as_slice());
    let (vid, pid) = parse_vid_pid(k.vendor.as_str());
    let os_gen = inst.len() > 1 && inst[1] == '&';
    let first = match property_seconds_exec(k.properties.as_slice(), 0x64) {
        Some(s) => Some(s),
        None => property_seconds_exec(k.properties.as_slice(), 0x65),
    };
    let arrival = property_seconds_exec(k.properties.as_slice(), 0x66);
    let removal = property_seconds_exec(k.properties.as_slice(), 0x67);
    let cv = join_with(class.as_slice(), '\\', vendor.as_slice());
    let id = join_with(cv.as_slice(), '\\', inst.as_slice());
    assert(id@ == instance_id_of(kv));
    let e = chars_of("Enum");
    let p1 = join_with(cs.as_slice(), '\\', e.as_slice());
    let p2 = join_with(p1.as_slice(), '\\', class.as_slice());
    let p3 = join_with(p2.as_slice(), '\\', vendor.as_slice());
    let path = join_with(p3.as_slice(), '\\', inst.as_slice());
    assert(path@ == key_path_of(kv));
    let letter = joined_letter_exec(id.as_slice(), mounts, Ghost(ms));
    let serial = if inst.len() > 0 && !os_gen {
        Some(string_of(inst.as_slice()))
    } else {
        None
    };
    let r = DeviceConnection {
        bus,
        device_class_guid: None,
        vid,
        pid,
        device_serial: serial,
        serial_is_os_generated: os_gen,
        friendly_name: value_text_exec(&k.friendly_name),
        device_instance_id: string_of(id.as_slice()),
        first_install: stamp_exec(first, Confidence::Authoritative),
        last_install: None,
        last_arrival: stamp_exec(arrival, Confidence::Inferred),
        last_removal: stamp_exec(removal, Confidence::Inferred),
        parent_id_prefix: value_text_exec(&k.parent_id_prefix),
        volume_guid: None,
        drive_letter: letter,
        volume_serial: None,
        disk_signature: None,
        dma_capable: bus.is_dma_capable(),
        mitre: Vec::new(),
        source: Provenance {
            file: string_of(file),
            line: 0,
            key_path: Some(string_of(path.as_slice())),
        },
    };
    assert(r@.mitre =~= Seq::<Seq<char>>::empty());
    r
}

/// The connections that device-instance keys record, in order, each with the
/// drive letter the `MountedDevices` values (name, raw data) of the same hive
/// give it.
pub fn registry_connections(keys: &[InstanceKey], mounted: &[HiveEntry], file: &str) -> (r: Vec<
    DeviceConnection,
>)
    ensures
        conn_views(r@) == instance_connections(instance_views(keys@), entry_views(mounted@), file@),
{
    let ghost ms = entry_views(mounted@);
    let mut mounts: Vec<Option<(char, Vec<char>)>> = Vec::new();
    let mut t: usize = 0;
    while t < mounted.len()
        invariant
            t <= mounted@.len(),
            ms == entry_views(mounted@),
            mounts@.len() == t,
            forall|j: int| 0 <= j < t ==> mount_view(#[trigger] mounts@[j]) == mount_of(ms[j]),
        decreases mounted@.len() - t,
    {
        let m = mount_of_exec(&mounted[t]);
        mounts.push(m);
        t = t + 1;
    }
    let f = chars_of(file);
    let ghost kv = instance_views(keys@);
    let mut out: Vec<DeviceConnection> = Vec::new();
    let mut i: usize = 0;
    while i < keys.len()
        invariant
            i <= keys@.len(),
            kv == instance_views(keys@),
            f@ == file@,
            mounts@.len() == ms.len(),
            forall|j: int| 0 <= j < ms.len() ==> mount_view(#[trigger] mounts@[j]) == mount_of(ms[j]),
            conn_views(out@) == instance_connections(kv.take(i as int), ms, file@),
        decreases keys@.len() - i,
    {
        let c = instance_connection_exec(&keys[i], &mounts, Ghost(ms), f.as_slice());
        let ghost before = conn_views(out@);
        out.push(c);
        assert(conn_views(out@) =~= before.push(c@));
        assert(kv.take(i + 1) =~= kv.take(i as int).push(kv[i as int]));
        assert(instance_connections(kv.take(i + 1), ms, file@) =~= instance_connections(
            kv.take(i as int),
            ms,
            file@,
        ).push(instance_connection(kv[i as int], ms, file@)));
        i = i + 1;
    }
    assert(kv.take(keys@.len() as int) =~= kv);
    out
}

// ---------------------------------------------------------------------------
// Reading the hive
// ---------------------------------------------------------------------------

/// The device-property subtree a device-instance key keeps its FILETIMEs in.
pub open spec fn property_guid() -> Seq<char> {
    "{83da6326-97a6-4088-9453-a1923f573b29}"@
}

/// The subkeys of the key at `cell` with the raw data of their `Data`
/// value; none when the subkey list is unreadable.
pub open spec fn leaves_at(data: Seq<u8>, cell: u32) -> Seq<HiveEntryView> {
    match listed_subkeys(data, cell) {
        Some(cs) => cs.map_values(
            |c: u32| HiveEntryView { name: key_name_at(data, c), data: named_data(data, c, "Data"@) },
        ),
        None => Seq::empty(),
    }
}

/// The property key at `cell`: its name, the raw data of its default value,
/// and its leaves.
pub open spec fn property_key_at(data: Seq<u8>, cell: u32) -> PropertyKeyView {
    PropertyKeyView {
        name: key_name_at(data, cell),
        default_data: named_data(data, cell, ""@),
        leaves: leaves_at(data, cell),
    }
}

/// The subkeys of the `Properties\{83da6326-...}` subtree of the instance key
/// at `cell`; none when the subtree is absent or unreadable.
pub open spec fn properties_at(data: Seq<u8>, cell: u32) -> Seq<PropertyKeyView> {
    match subkey_of(data, cell, "Properties"@) {
        Some(p) => match subkey_of(data, p, property_guid()) {
            Some(g) => match listed_subkeys(data, g) {
                Some(cs) => cs.map_values(|c: u32| property_key_at(data, c)),
                None => Seq::empty(),
            },
            None => Seq::empty(),
        },
        None => Seq::empty(),
    }
}

/// The device-instance key at `inst` below the vendor key at `vendor`.
pub open spec fn instance_key_at(
    data: Seq<u8>,
    cs: Seq<char>,
    class: Seq<char>,
    vendor: u32,
    inst: u32,
) -> InstanceKeyView {
    InstanceKeyView {
        control_set: cs,
        class,
        vendor: key_name_at(data, vendor),
        instance: key_name_at(data, inst),
        friendly_name: named_data(data, inst, "FriendlyName"@),
        parent_id_prefix: named_data(data, inst, "ParentIdPrefix"@),
        properties: properties_at(data, inst),
    }
}

/// The instance keys of the vendor key at `vendor`, in list order.
pub open spec fn vendor_instances(data: Seq<u8>, cs: Seq<char>, class: Seq<char>, vendor: u32) -> Seq<
    InstanceKeyView,
> {
    match listed_subkeys(data, vendor) {
        Some(is) => is.map_values(|i: u32| instance_key_at(data, cs, class, vendor, i)),
        None => Seq::empty(),
    }
}

/// The key path `<cs>\Enum\<class>`.
pub open spec fn class_path(cs: Seq<char>, class: Seq<char>) -> Seq<char> {
    cs + seq!['\\'] + "Enum"@ + seq!['\\'] + class
}

/// The device-instance keys under `<cs>\Enum\<class>`, vendor by vendor.
pub open spec fn class_instances(data: Seq<u8>, cs: Seq<char>, class: Seq<char>) -> Seq<InstanceKeyView> {
    subkey_cells_at(data, class_path(cs, class)).map_values(
        |v: u32| vendor_instances(data, cs, class, v),
    ).flatten()
}

/// The device-instance keys of a `SYSTEM` hive in walk order: both control
/// sets, each enumerator class in turn.
pub open spec fn registry_instances(data: Seq<u8>) -> Seq<InstanceKeyView> {
    Seq::new(8, |g: int| class_instances(data, control_sets()[g / 4], enum_classes()[g % 4])).flatten()
}

/// The raw data of `key`'s value `name` (`None` when absent or unreadable).
fn named_value_data<'h>(key: &RegKey<'h>, name: &str) -> (r: Option<Vec<u8>>)
    ensures
        opt_bytes(r) == named_data(key.data(), key.cell(), name@),
{
    match key_value(key, name) {
        Some(v) => value_raw(&v),
        None => None,
    }
}

/// The subkeys of `key` with the raw data of their `Data` value.
fn read_leaves<'h>(key: &RegKey<'h>) -> (r: Vec<HiveEntry>)
    ensures
        entry_views(r@) == leaves_at(key.data(), key.cell()),
{
    let mut out: Vec<HiveEntry> = Vec::new();
    let subs = match subkeys(key) {
        Some(s) => s,
        None => {
            assert(entry_views(out@) =~= leaves_at(key.data(), key.cell()));
            return out;
        },
    };
    let ghost cs = listed_subkeys(key.data(), key.cell()).unwrap();
    let ghost d = key.data();
    let mut i: usize = 0;
    while i < subs.len()
        invariant
            i <= subs@.len(),
            subs@.len() == cs.len(),
            forall|t: int| 0 <= t < cs.len() ==> (#[trigger] subs@[t]).cell() == cs[t] && subs@[t].data() == d,
            out@.len() == i,
            forall|t: int|
                0 <= t < i ==> (#[trigger] out@[t])@ == (HiveEntryView {
                    name: key_name_at(d, cs[t]),
                    data: named_data(d, cs[t], "Data"@),
                }),
        decreases subs@.len() - i,
    {
        let leaf = &subs[i];
        let e = HiveEntry { name: key_name(leaf), data: named_value_data(leaf, "Data") };
        out.push(e);
        i = i + 1;
    }
    assert(entry_views(out@) =~= leaves_at(key.data(), key.cell()));
    out
}

/// The subkeys of an instance key's `Properties\{83da6326-...}` subtree.
fn read_properties<'h>(inst: &RegKey<'h>) -> (r: Vec<PropertyKey>)
    ensures
        property_views(r@) == properties_at(inst.data(), inst.cell()),
{
    let mut out: Vec<PropertyKey> = Vec::new();
    let ghost d = inst.data();
    let props = match subkey(inst, "Properties") {
        Some(p) => p,
        None => {
            assert(property_views(out@) =~= properties_at(d, inst.cell()));
            return out;
        },
    };
    let guid = match subkey(&props, "{83da6326-97a6-4088-9453-a1923f573b29}") {
        Some(g) => g,
        None => {
            assert(property_views(out@) =~= properties_at(d, inst.cell()));
            return out;
        },
    };
    let subs = match subkeys(&guid) {
        Some(s) => s,
        None => {
            assert(property_views(out@) =~= properties_at(d, inst.cell()));
            return out;
        },
    };
    let ghost cs = listed_subkeys(d, guid.cell()).unwrap();
    let mut i: usize = 0;
    while i < subs.len()
        invariant
            i <= subs@.len(),
            subs@.len() == cs.len(),
            forall|t: int| 0 <= t < cs.len() ==> (#[trigger] subs@[t]).cell() == cs[t] && subs@[t].data() == d,
            out@.len() == i,
            forall|t: int| 0 <= t < i ==> (#[trigger] out@[t])@ == property_key_at(d, cs[t]),
        decreases subs@.len() - i,
    {
        let pk = &subs[i];
        let p = PropertyKey {
            name: key_name(pk),
            default_data: named_value_data(pk, ""),
            leaves: read_leaves(pk),
        };
        out.push(p);
        i = i + 1;
    }
    assert(property_views(out@) =~= properties_at(d, inst.cell()));
    out
}

fn control_set_name(i: usize) -> (s: &'static str)
    requires
        i < 2,
    ensures
        s@ == control_sets()[i as int],
{
    if i == 0 {
        "ControlSet001"
    } else {
        "ControlSet002"
    }
}

fn class_name(j: usize) -> (s: &'static str)
    requires
        j < 4,
    ensures
        s@ == enum_classes()[j as int],
{
    if j == 0 {
        "USBSTOR"
    } else if j == 1 {
        "USB"
    } else if j == 2 {
        "SCSI"
    } else {
        "THUNDERBOLT"
    }
}

/// The device-instance keys under `<cs>\Enum\<class>`, vendor by vendor, in
/// list order (none when the class key is absent).
fn read_class_instances(hive: &RegHive, cs: &str, class: &str) -> (r: Vec<InstanceKey>)
    ensures
        instance_views(r@) == class_instances(hive.data(), cs@, class@),
{
    let ghost d = hive.data();
    let mut out: Vec<InstanceKey> = Vec::new();
    let csv = chars_of(cs);
    let classv = chars_of(class);
    let e = chars_of("Enum");
    let b1 = join_with(csv.as_slice(), '\\', e.as_slice());
    let base = join_with(b1.as_slice(), '\\', classv.as_slice());
    let base_s = string_of(base.as_slice());
    assert(base_s@ == class_path(cs@, class@));
    let vendors = subkeys_at(hive, base_s.as_str());
    let ghost vs = subkey_cells_at(d, class_path(cs@, class@));
    let ghost f = |v: u32| vendor_instances(d, cs@, class@, v);
    assert(vs.take(0).map_values(f) =~= Seq::<Seq<InstanceKeyView>>::empty());
    assert(instance_views(out@) =~= vs.take(0).map_values(f).flatten());
    let mut i: usize = 0;
    while i < vendors.len()
        invariant
            i <= vendors@.len(),
            vendors@.len() == vs.len(),
            forall|t: int| 0 <= t < vs.len() ==> (#[trigger] vendors@[t]).cell() == vs[t] && vendors@[t].data() == d,
            csv@ == cs@,
            classv@ == class@,
            f == (|v: u32| vendor_instances(d, cs@, class@, v)),
            instance_views(out@) == vs.take(i as int).map_values(f).flatten(),
        decreases vendors@.len() - i,
    {
        let vendor = &vendors[i];
        let ven_name = key_name(vendor);
        let ghost before = instance_views(out@);
        let ghost vi = f(vs[i as int]);
        match subkeys(vendor) {
            Some(insts) => {
                let ghost is = listed_subkeys(d, vs[i as int]).unwrap();
                let mut j: usize = 0;
                while j < insts.len()
                    invariant
                        j <= insts@.len(),
                        insts@.len() == is.len(),
                        forall|t: int| 0 <= t < is.len() ==> (#[trigger] insts@[t]).cell() == is[t] && insts@[t].data() == d,
                        csv@ == cs@,
                        classv@ == class@,
                        ven_name@ == key_name_at(d, vs[i as int]),
                        vi == is.map_values(|n: u32| instance_key_at(d, cs@, class@, vs[i as int], n)),
                        instance_views(out@) == before + vi.take(j as int),
                    decreases insts@.len() - j,
                {
                    let inst = &insts[j];
                    let v = chars_of(ven_name.as_str());
                    let k = InstanceKey {
                        control_set: string_of(csv.as_slice()),
                        class: string_of(classv.as_slice()),
                        vendor: string_of(v.as_slice()),
                        instance: key_name(inst),
                        friendly_name: named_value_data(inst, "FriendlyName"),
                        parent_id_prefix: named_value_data(inst, "ParentIdPrefix"),
                        properties: read_properties(inst),
                    };
                    let ghost prev = out@;
                    out.push(k);
                    assert(k@ == vi[j as int]);
                    assert(instance_views(out@) =~= instance_views(prev).push(k@));
                    assert(vi.take(j + 1) =~= vi.take(j as int).push(vi[j as int]));
                    j = j + 1;
                }
                assert(vi.take(insts@.len() as int) =~= vi);
            },
            None => {
                assert(vi =~= Seq::<InstanceKeyView>::empty());
                assert(before + vi =~= before);
            },
        }
        proof {
            assert(vs.take(i + 1).map_values(f) =~= vs.take(i as int).map_values(f).push(vi));
            vs.take(i as int).map_values(f).lemma_flatten_push(vi);
        }
        i = i + 1;
    }
    assert(vs.take(vs.len() as int) =~= vs);
    out
}

/// Parse USB / USBSTOR / SCSI / Thunderbolt device instances from an opened
/// `SYSTEM` hive: both control sets, each enumerator class in turn, every
/// instance of every vendor key, each decoded by [`registry_connections`]
/// together with the hive's `MountedDevices` values. Total over a valid
/// hive: an absent or unreadable key contributes nothing.
pub fn parse_registry(hive: &RegHive, file: &str) -> (r: Vec<DeviceConnection>)
    ensures
        conn_views(r@) == instance_connections(
            registry_instances(hive.data()),
            value_entries_at(hive.data(), "MountedDevices"@),
            file@,
        ),
{
    let ghost d = hive.data();
    let ghost groups = Seq::new(8, |g: int| class_instances(d, control_sets()[g / 4], enum_classes()[g % 4]));
    let mut keys: Vec<InstanceKey> = Vec::new();
    assert(groups.take(0).flatten() =~= Seq::<InstanceKeyView>::empty());
    assert(instance_views(keys@) =~= groups.take(0).flatten());
    let mut g: usize = 0;
    while g < 8
        invariant
            g <= 8,
            groups.len() == 8,
            groups == Seq::new(8, |g: int| class_instances(d, control_sets()[g / 4], enum_classes()[g % 4])),
            d == hive.data(),
            instance_views(keys@) == groups.take(g as int).flatten(),
        decreases 8 - g,
    {
        let mut group = read_class_instances(hive, control_set_name(g / 4), class_name(g % 4));
        let ghost gv = instance_views(group@);
        let ghost before = keys@;
        keys.append(&mut group);
        proof {
            assert(gv == groups[g as int]);
            assert(groups.take(g + 1) =~= groups.take(g as int).push(gv));
            groups.take(g as int).lemma_flatten_push(gv);
            assert(instance_views(keys@) =~= instance_views(before) + gv);
        }
        g = g + 1;
    }
    assert(groups.take(8) =~= groups);
    let mounted = read_value_entries(hive, "MountedDevices");
    registry_connections(keys.as_slice(), mounted.as_slice(), file)
}

// ---------------------------------------------------------------------------
// Laws
// ---------------------------------------------------------------------------

/// What a registry record promises beyond [`consistent_record`]: its install
/// time is authoritative and its arrival and removal times inferred, it
/// carries no MITRE techniques, it names the hive file and the instance's key
/// path (line 0), and a joined drive letter is an upper-case ASCII letter.
pub open spec fn registry_record(c: ConnectionView, file: Seq<char>) -> bool {
    &&& consistent_record(c)
    &&& stamped(c.first_install, Confidence::Authoritative)
    &&& stamped(c.last_arrival, Confidence::Inferred)
    &&& stamped(c.last_removal, Confidence::Inferred)
    &&& c.last_install is None
    &&& c.mitre.len() == 0
    &&& c.source.file == file
    &&& c.source.line == 0
    &&& c.source.key_path is Some
    &&& c.drive_letter matches Some(l) ==> is_ascii_upper(l)
}

proof fn lemma_joined_letter_upper(id: Seq<char>, ms: Seq<HiveEntryView>, n: int)
    ensures
        joined_letter(id, ms, n) matches Some(l) ==> is_ascii_upper(l),
    decreases n,
{
    if 0 < n <= ms.len() {
        lemma_joined_letter_upper(id, ms, n - 1);
        let name = ms[n - 1].name;
        if dos_letter_of(name) is Some {
            lemma_upper_of_alpha(name["\\DosDevices\\"@.len() as int]);
        }
    }
}

/// Every connection decoded from device-instance keys keeps
/// [`registry_record`].
pub proof fn law_registry_records(
    ks: Seq<InstanceKeyView>,
    ms: Seq<HiveEntryView>,
    file: Seq<char>,
    i: int,
)
    requires
        0 <= i < ks.len(),
    ensures
        registry_record(instance_connections(ks, ms, file)[i], file),
{
    let k = ks[i];
    lemma_joined_letter_upper(instance_id_of(k), ms, ms.len() as int);
}

} // verus!
