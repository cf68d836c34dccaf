//! Access to Windows registry hives through `winreg_core`.
//!
//! A hive is known by the bytes it was opened from, and each of its keys and
//! values by its cell offset. A key's name and last-written time and a
//! value's name are stated over the bytes at the cell; what takes
//! `winreg_core`'s cell parsing to state (whether the hive opens and its
//! root key is found, a key's subkey and value lists, a value's data) is
//! named by a spec function of the bytes and the cell. Each trusted function
//! below makes one call and states its result over these.
//! `winreg_core` trusts the cells it reads to be well formed, so each call
//! that reads cells is made only after a verified check over the hive's
//! bytes (see `cells`) has shown that every cell it reaches is safe to read;
//! a key or value that fails the check counts as unreadable. The readers at
//! the end gather plain values (names, raw value bytes, FILETIMEs) for the
//! readers' own, verified decoding.

use vstd::prelude::*;
use std::io::Cursor;
use winreg_core::hive::Hive;
use winreg_core::key::Key;
use winreg_core::value::Value;
use crate::registry::{utf16_units, utf16_lossy, units_before_nul};
use crate::text::{seq_upper, split_char, split_on, chars_of, string_of, seqs_view};
use crate::cells::{
    cell_pos, le16_at, le64_at, cell_safe, subkeys_safe, values_safe, data_safe, root_offset, cell_ok, subkeys_ok, values_ok,
    data_ok, root_offset_of,
};

verus! {

/// `winreg_core::hive::Hive` over a byte buffer, held opaque. `Hive`, `Key`
/// and `Value` are generic over a reader bounded by `winreg_core`'s own
/// `ReadSeek` / `CellReader` traits, which a type declaration here cannot
/// name, so each is held whole.
#[verifier::external_body]
pub struct HiveHandle {
    hive: Hive<Cursor<Vec<u8>>>,
}

/// A `winreg_core::key::Key`, held opaque.
#[verifier::external_body]
pub struct KeyHandle<'h> {
    key: Key<'h>,
}

/// A `winreg_core::value::Value`, held opaque.
#[verifier::external_body]
pub struct ValueHandle<'h> {
    value: Value<'h>,
}

/// An in-memory Windows registry hive: the bytes it was opened from, and
/// `winreg_core`'s hive over a copy of them.
pub struct RegHive {
    handle: HiveHandle,
    bytes: Vec<u8>,
}

/// A key of a [`RegHive`], known by its hive and its cell offset.
pub struct RegKey<'h> {
    handle: KeyHandle<'h>,
    hive: &'h RegHive,
    cell: u32,
}

/// A value of a [`RegKey`], known by its hive and its cell offset.
pub struct RegValue<'h> {
    handle: ValueHandle<'h>,
    hive: &'h RegHive,
    cell: u32,
}

/// Whether `Hive::from_bytes` accepts a byte buffer as a REGF hive.
pub uninterp spec fn hive_opens(data: Seq<u8>) -> bool;

/// `Hive::from_bytes` on a copy of `data`: `Some` when the bytes are a valid
/// REGF hive. It returns an error for fewer than 4096 bytes, a base block
/// without the `regf` magic, a bad checksum or version, or a bad hive bin.
/// Stated: whether it opens is a function of the bytes, and an opened
/// hive's bytes hold at least a base block starting `regf`.
#[verifier::external_body]
fn open_hive(data: &Vec<u8>) -> (r: Option<HiveHandle>)
    ensures
        r is Some == hive_opens(data@),
        r is Some ==> data@.len() >= 4096 && data@[0] == 0x72 && data@[1] == 0x65 && data@[2]
            == 0x67 && data@[3] == 0x66,
{
    match Hive::from_bytes(data.clone()) {
        Ok(hive) => Some(HiveHandle { hive }),
        Err(_) => None,
    }
}

impl RegHive {
    /// The bytes the hive was opened from.
    pub closed spec fn data(&self) -> Seq<u8> {
        self.bytes@
    }

    /// Opens a hive from its bytes; `None` when they are not a valid REGF
    /// hive. An opened hive is known by these bytes, which hold at least a
    /// base block starting `regf`.
    pub fn from_bytes(data: Vec<u8>) -> (r: Option<RegHive>)
        ensures
            r is Some == hive_opens(data@),
            r matches Some(h) ==> h.data() == data@,
            r is Some ==> data@.len() >= 4096 && data@[0] == 0x72 && data@[1] == 0x65 && data@[2]
                == 0x67 && data@[3] == 0x66,
    {
        match open_hive(&data) {
            Some(handle) => Some(RegHive { handle, bytes: data }),
            None => None,
        }
    }
}

impl<'h> RegKey<'h> {
    /// The bytes of the hive the key belongs to.
    pub closed spec fn data(&self) -> Seq<u8> {
        self.hive.bytes@
    }

    /// The key's cell offset in its hive.
    pub closed spec fn cell(&self) -> u32 {
        self.cell
    }
}

impl<'h> RegValue<'h> {
    /// The bytes of the hive the value belongs to.
    pub closed spec fn data(&self) -> Seq<u8> {
        self.hive.bytes@
    }

    /// The value's cell offset in its hive.
    pub closed spec fn cell(&self) -> u32 {
        self.cell
    }
}

/// Whether `Hive::root_key` finds a key node at the root cell of a hive's
/// bytes.
pub uninterp spec fn root_opens(data: Seq<u8>) -> bool;

/// The cells of the keys `Key::subkeys` lists for the key at a cell, in list
/// order; `None` when it returns an error.
pub uninterp spec fn subkey_cells(data: Seq<u8>, cell: u32) -> Option<Seq<u32>>;

/// The cells of the values `Key::values` lists for the key at a cell, in
/// list order; `None` when it returns an error.
pub uninterp spec fn value_cells(data: Seq<u8>, cell: u32) -> Option<Seq<u32>>;

/// A stored key or value name: one character per byte when the name is
/// compressed, otherwise little-endian UTF-16 code units (a trailing odd
/// byte dropped) decoded with unpaired surrogates replaced by U+FFFD.
pub open spec fn stored_name(raw: Seq<u8>, compressed: bool) -> Seq<char> {
    if compressed {
        raw.map_values(|b: u8| (b as u32) as char)
    } else {
        utf16_lossy(utf16_units(raw))
    }
}

/// The name `Key::name` gives the key node at a cell: the name bytes after
/// the node's fixed fields (their count at +76 from the cell), compressed
/// when the node's flags (at +6) carry `0x20`.
#[verifier::opaque]
pub open spec fn key_name_at(data: Seq<u8>, cell: u32) -> Seq<char> {
    let p = cell_pos(cell as int);
    stored_name(
        data.subrange(p + 80, p + 80 + le16_at(data, p + 76)),
        (le16_at(data, p + 6) / 0x20) % 2 == 1,
    )
}

/// The FILETIME `Key::last_written_raw` gives the key node at a cell: the
/// little-endian `u64` at +8 from the cell.
#[verifier::opaque]
pub open spec fn key_written_at(data: Seq<u8>, cell: u32) -> u64 {
    le64_at(data, cell_pos(cell as int) + 8) as u64
}

/// The name `Value::name` gives the value node at a cell: empty when its
/// name length (at +6 from the cell) is zero, otherwise the name bytes at
/// +24, compressed when the node's flags (at +20) carry `0x1`.
#[verifier::opaque]
pub open spec fn value_name_at(data: Seq<u8>, cell: u32) -> Seq<char> {
    let p = cell_pos(cell as int);
    let n = le16_at(data, p + 6);
    if n == 0 {
        Seq::empty()
    } else {
        stored_name(data.subrange(p + 24, p + 24 + n), le16_at(data, p + 20) % 2 == 1)
    }
}

/// The bytes `Value::raw_data` gives for the value at a cell; `None` when it
/// returns an error.
pub uninterp spec fn value_data_at(data: Seq<u8>, cell: u32) -> Option<Seq<u8>>;

/// The subkeys of the key at `cell`, when listing them is safe; `None` when
/// it is not or the list is unreadable.
pub open spec fn listed_subkeys(data: Seq<u8>, cell: u32) -> Option<Seq<u32>> {
    if subkeys_safe(data, cell as int) {
        subkey_cells(data, cell)
    } else {
        None
    }
}

/// The values of the key at `cell`, when listing them is safe; `None` when
/// it is not or the list is unreadable.
pub open spec fn listed_values(data: Seq<u8>, cell: u32) -> Option<Seq<u32>> {
    if values_safe(data, cell as int) {
        value_cells(data, cell)
    } else {
        None
    }
}

/// The raw data of the value at `cell`, when reading it is safe; `None` when
/// it is not or the data is unreadable.
pub open spec fn value_bytes(data: Seq<u8>, cell: u32) -> Option<Seq<u8>> {
    if data_safe(data, cell as int) {
        value_data_at(data, cell)
    } else {
        None
    }
}

/// The first of `cells`, from position `k`, whose key name equals `name`
/// ASCII case-insensitively.
pub open spec fn first_named_key(data: Seq<u8>, cells: Seq<u32>, name: Seq<char>, k: int) -> Option<
    u32,
>
    decreases cells.len() - k,
{
    if k < 0 || k >= cells.len() {
        None
    } else if seq_upper(key_name_at(data, cells[k])) == seq_upper(name) {
        Some(cells[k])
    } else {
        first_named_key(data, cells, name, k + 1)
    }
}

/// The first of `cells`, from position `k`, whose value name equals `name`
/// ASCII case-insensitively.
pub open spec fn first_named_value(data: Seq<u8>, cells: Seq<u32>, name: Seq<char>, k: int) -> Option<
    u32,
>
    decreases cells.len() - k,
{
    if k < 0 || k >= cells.len() {
        None
    } else if seq_upper(value_name_at(data, cells[k])) == seq_upper(name) {
        Some(cells[k])
    } else {
        first_named_value(data, cells, name, k + 1)
    }
}

/// The cell of the subkey `name` of the key at `cell` (`Key::subkey`).
pub open spec fn subkey_of(data: Seq<u8>, cell: u32, name: Seq<char>) -> Option<u32> {
    match listed_subkeys(data, cell) {
        Some(cs) => first_named_key(data, cs, name, 0),
        None => None,
    }
}

/// The cell of the value `name` of the key at `cell` (`Key::value`).
pub open spec fn value_of(data: Seq<u8>, cell: u32, name: Seq<char>) -> Option<u32> {
    match listed_values(data, cell) {
        Some(cs) => first_named_value(data, cs, name, 0),
        None => None,
    }
}

/// The raw data of the value `name` of the key at `cell`; `None` when the
/// value is absent or unreadable.
pub open spec fn named_data(data: Seq<u8>, cell: u32, name: Seq<char>) -> Option<Seq<u8>> {
    match value_of(data, cell, name) {
        Some(v) => value_bytes(data, v),
        None => None,
    }
}

/// The non-empty pieces of `s`, in order.
pub open spec fn nonempty_parts(s: Seq<Seq<char>>) -> Seq<Seq<char>>
    decreases s.len(),
{
    if s.len() == 0 {
        Seq::empty()
    } else if s.last().len() > 0 {
        nonempty_parts(s.drop_last()).push(s.last())
    } else {
        nonempty_parts(s.drop_last())
    }
}

/// The key names of a `\`-separated path, empty pieces dropped.
pub open spec fn path_parts(path: Seq<char>) -> Seq<Seq<char>> {
    nonempty_parts(split_char(path, '\\'))
}

/// The cell reached from the key at `cell` by following the subkeys named
/// `parts[i..]` in turn.
pub open spec fn walk_parts(data: Seq<u8>, cell: u32, parts: Seq<Seq<char>>, i: int) -> Option<u32>
    decreases parts.len() - i,
{
    if i >= parts.len() {
        Some(cell)
    } else {
        match subkey_of(data, cell, parts[i]) {
            Some(c) => walk_parts(data, c, parts, i + 1),
            None => None,
        }
    }
}

/// The cell of the key at a `\`-separated path below the root (names
/// matched ASCII case-insensitively, empty pieces dropped); `None` for a
/// path with no names, or when the root or a key on the way is absent or
/// unreadable (`Hive::open_key`).
pub open spec fn key_at(data: Seq<u8>, path: Seq<char>) -> Option<u32> {
    let parts = path_parts(path);
    if parts.len() == 0 || data.len() < 0x28 || !cell_safe(data, root_offset(data)) || !root_opens(
        data,
    ) {
        None
    } else {
        walk_parts(data, root_offset(data) as u32, parts, 0)
    }
}

/// `Hive::root_key`: the key node at the root cell named by the base block;
/// `None` when it returns an error. Its one cell read is safe.
#[verifier::external_body]
fn winreg_root<'h>(hive: &'h RegHive) -> (r: Option<RegKey<'h>>)
    requires
        hive.data().len() >= 0x28,
        cell_safe(hive.data(), root_offset(hive.data())),
    ensures
        r is Some == root_opens(hive.data()),
        r matches Some(k) ==> k.cell() == root_offset(hive.data()) && k.data() == hive.data(),
{
    match hive.handle.hive.root_key() {
        Ok(key) => Some(RegKey { cell: key.offset().0, handle: KeyHandle { key }, hive }),
        Err(_) => None,
    }
}

/// `Key::subkeys`: the key's subkeys in list order; `None` when it returns
/// an error. Every cell it reads (the index, at most one root index deep,
/// and each listed key) is safe. Stated: they are the keys at the named
/// cells.
#[verifier::external_body]
fn winreg_subkeys<'h>(key: &RegKey<'h>) -> (r: Option<Vec<RegKey<'h>>>)
    requires
        subkeys_safe(key.data(), key.cell() as int),
    ensures
        match subkey_cells(key.data(), key.cell()) {
            Some(cs) => r matches Some(ks) && ks@.len() == cs.len() && forall|i: int|
                0 <= i < cs.len() ==> (#[trigger] ks@[i]).cell() == cs[i] && ks@[i].data()
                    == key.data(),
            None => r is None,
        },
{
    match key.handle.key.subkeys() {
        Ok(keys) => Some(keys.into_iter().map(|k| RegKey { cell: k.offset().0, handle: KeyHandle { key: k }, hive: key.hive }).collect()),
        Err(_) => None,
    }
}

/// `Key::subkey`: the first subkey whose name equals `name` ASCII
/// case-insensitively (it lists the subkeys and compares upper-cased
/// names); `None` when there is none or listing returns an error. It reads
/// the same cells as `Key::subkeys`.
#[verifier::external_body]
fn winreg_subkey<'h>(key: &RegKey<'h>, name: &str) -> (r: Option<RegKey<'h>>)
    requires
        subkeys_safe(key.data(), key.cell() as int),
    ensures
        match subkey_of(key.data(), key.cell(), name@) {
            Some(c) => r matches Some(k) && k.cell() == c && k.data() == key.data(),
            None => r is None,
        },
{
    match key.handle.key.subkey(name) {
        Ok(Some(k)) => Some(RegKey { cell: k.offset().0, handle: KeyHandle { key: k }, hive: key.hive }),
        _ => None,
    }
}

/// `Key::name`: the key's name.
#[verifier::external_body]
pub(crate) fn key_name(key: &RegKey<'_>) -> (r: String)
    ensures
        r@ == key_name_at(key.data(), key.cell()),
{
    key.handle.key.name()
}

/// `Key::last_written_raw`: the key's last-written FILETIME as stored.
#[verifier::external_body]
pub(crate) fn key_last_written_raw(key: &RegKey<'_>) -> (r: u64)
    ensures
        r == key_written_at(key.data(), key.cell()),
{
    key.handle.key.last_written_raw()
}

/// The key's cell offset in its hive.
pub fn key_offset(key: &RegKey<'_>) -> (r: u32)
    ensures
        r == key.cell(),
{
    key.cell
}

/// `Key::values`: the key's values in list order; `None` when it returns an
/// error. Every cell it reads (the value list and each listed value) is
/// safe. Stated: they are the values at the named cells.
#[verifier::external_body]
fn winreg_values<'h>(key: &RegKey<'h>) -> (r: Option<Vec<RegValue<'h>>>)
    requires
        values_safe(key.data(), key.cell() as int),
    ensures
        match value_cells(key.data(), key.cell()) {
            Some(cs) => r matches Some(vs) && vs@.len() == cs.len() && forall|i: int|
                0 <= i < cs.len() ==> (#[trigger] vs@[i]).cell() == cs[i] && vs@[i].data()
                    == key.data(),
            None => r is None,
        },
{
    match key.handle.key.values() {
        Ok(values) => Some(values.into_iter().map(|v| RegValue { cell: v.offset().0, handle: ValueHandle { value: v }, hive: key.hive }).collect()),
        Err(_) => None,
    }
}

/// `Key::value`: the first value whose name equals `name` ASCII
/// case-insensitively (`""` is the default value; it lists the values and
/// compares upper-cased names); `None` when there is none or listing returns
/// an error. It reads the same cells as `Key::values`.
#[verifier::external_body]
fn winreg_value<'h>(key: &RegKey<'h>, name: &str) -> (r: Option<RegValue<'h>>)
    requires
        values_safe(key.data(), key.cell() as int),
    ensures
        match value_of(key.data(), key.cell(), name@) {
            Some(c) => r matches Some(v) && v.cell() == c && v.data() == key.data(),
            None => r is None,
        },
{
    match key.handle.key.value(name) {
        Ok(Some(v)) => Some(RegValue { cell: v.offset().0, handle: ValueHandle { value: v }, hive: key.hive }),
        _ => None,
    }
}

/// `Value::name`: the value's name (`""` for the default value).
#[verifier::external_body]
pub(crate) fn value_name(value: &RegValue<'_>) -> (r: String)
    ensures
        r@ == value_name_at(value.data(), value.cell()),
{
    value.handle.value.name()
}

/// `Value::raw_data`: the value's data bytes; `None` when it returns an
/// error. Every cell it reads (the data cell, or a big-data record, its
/// segment list and each segment) is safe.
#[verifier::external_body]
fn winreg_raw(value: &RegValue<'_>) -> (r: Option<Vec<u8>>)
    requires
        data_safe(value.data(), value.cell() as int),
    ensures
        match r {
            Some(d) => value_data_at(value.data(), value.cell()) == Some(d@),
            None => value_data_at(value.data(), value.cell()) is None,
        },
{
    value.handle.value.raw_data().ok()
}

/// The key's subkeys in list order; `None` when listing them is unsafe or
/// fails.
pub(crate) fn subkeys<'h>(key: &RegKey<'h>) -> (r: Option<Vec<RegKey<'h>>>)
    ensures
        match listed_subkeys(key.data(), key.cell()) {
            Some(cs) => r matches Some(ks) && ks@.len() == cs.len() && forall|i: int|
                0 <= i < cs.len() ==> (#[trigger] ks@[i]).cell() == cs[i] && ks@[i].data()
                    == key.data(),
            None => r is None,
        },
{
    if subkeys_ok(key.hive.bytes.as_slice(), key.cell) {
        winreg_subkeys(key)
    } else {
        None
    }
}

/// The first subkey named `name` (ASCII case-insensitively); `None` when
/// there is none or listing the subkeys is unsafe or fails.
pub(crate) fn subkey<'h>(key: &RegKey<'h>, name: &str) -> (r: Option<RegKey<'h>>)
    ensures
        match subkey_of(key.data(), key.cell(), name@) {
            Some(c) => r matches Some(k) && k.cell() == c && k.data() == key.data(),
            None => r is None,
        },
{
    if subkeys_ok(key.hive.bytes.as_slice(), key.cell) {
        winreg_subkey(key, name)
    } else {
        None
    }
}

/// The key's values in list order; `None` when listing them is unsafe or
/// fails.
pub(crate) fn key_values<'h>(key: &RegKey<'h>) -> (r: Option<Vec<RegValue<'h>>>)
    ensures
        match listed_values(key.data(), key.cell()) {
            Some(cs) => r matches Some(vs) && vs@.len() == cs.len() && forall|i: int|
                0 <= i < cs.len() ==> (#[trigger] vs@[i]).cell() == cs[i] && vs@[i].data()
                    == key.data(),
            None => r is None,
        },
{
    if values_ok(key.hive.bytes.as_slice(), key.cell) {
        winreg_values(key)
    } else {
        None
    }
}

/// The first value named `name` (ASCII case-insensitively, `""` the
/// default value); `None` when there is none or listing the values is
/// unsafe or fails.
pub(crate) fn key_value<'h>(key: &RegKey<'h>, name: &str) -> (r: Option<RegValue<'h>>)
    ensures
        match value_of(key.data(), key.cell(), name@) {
            Some(c) => r matches Some(v) && v.cell() == c && v.data() == key.data(),
            None => r is None,
        },
{
    if values_ok(key.hive.bytes.as_slice(), key.cell) {
        winreg_value(key, name)
    } else {
        None
    }
}

/// The value's data bytes; `None` when reading them is unsafe or fails.
pub(crate) fn value_raw(value: &RegValue<'_>) -> (r: Option<Vec<u8>>)
    ensures
        match r {
            Some(d) => value_bytes(value.data(), value.cell()) == Some(d@),
            None => value_bytes(value.data(), value.cell()) is None,
        },
{
    if data_ok(value.hive.bytes.as_slice(), value.cell) {
        winreg_raw(value)
    } else {
        None
    }
}

/// The non-empty pieces of `pieces`, in order.
fn drop_empty(pieces: &Vec<Vec<char>>) -> (r: Vec<Vec<char>>)
    ensures
        seqs_view(r@) == nonempty_parts(seqs_view(pieces@)),
{
    let mut r: Vec<Vec<char>> = Vec::new();
    let mut i: usize = 0;
    while i < pieces.len()
        invariant
            i <= pieces@.len(),
            seqs_view(r@) == nonempty_parts(seqs_view(pieces@.take(i as int))),
        decreases pieces@.len() - i,
    {
        let ghost before = r@;
        assert(seqs_view(pieces@.take(i + 1)).drop_last() =~= seqs_view(pieces@.take(i as int)));
        assert(seqs_view(pieces@.take(i + 1)).last() == pieces@[i as int]@);
        if pieces[i].len() > 0 {
            r.push(pieces[i].clone());
            assert(seqs_view(r@) =~= seqs_view(before).push(pieces@[i as int]@));
        }
        i = i + 1;
    }
    assert(pieces@.take(pieces@.len() as int) =~= pieces@);
    r
}

/// The key at a `\`-separated path below the root (`Hive::open_key`:
/// names matched ASCII case-insensitively, empty pieces dropped); `None`
/// for a path with no names, or when the root or a key on the way is absent
/// or unreadable.
pub(crate) fn open_key<'h>(hive: &'h RegHive, path: &str) -> (r: Option<RegKey<'h>>)
    ensures
        match key_at(hive.data(), path@) {
            Some(c) => r matches Some(k) && k.cell() == c && k.data() == hive.data(),
            None => r is None,
        },
{
    let ghost d = hive.data();
    let chars = chars_of(path);
    let pieces = split_on(chars.as_slice(), '\\');
    let parts = drop_empty(&pieces);
    let ghost ps = path_parts(path@);
    assert(seqs_view(parts@) == ps);
    if parts.len() == 0 {
        return None;
    }
    let root = match root_offset_of(hive.bytes.as_slice()) {
        Some(o) => o,
        None => {
            return None;
        },
    };
    if !cell_ok(hive.bytes.as_slice(), root) {
        return None;
    }
    let mut cur = match winreg_root(hive) {
        Some(k) => k,
        None => {
            return None;
        },
    };
    let mut i: usize = 0;
    while i < parts.len()
        invariant
            i <= parts@.len(),
            seqs_view(parts@) == ps,
            cur.data() == d,
            d == hive.data(),
            key_at(d, path@) == walk_parts(d, cur.cell(), ps, i as int),
        decreases parts@.len() - i,
    {
        let name = string_of(parts[i].as_slice());
        assert(name@ == ps[i as int]);
        match subkey(&cur, name.as_str()) {
            Some(k) => {
                cur = k;
            },
            None => {
                return None;
            },
        }
        i = i + 1;
    }
    Some(cur)
}

/// What `winreg_core::value::decode_utf16le` makes of bytes: the
/// little-endian UTF-16 code units (a trailing odd byte dropped) up to the
/// first zero unit, decoded with unpaired surrogates replaced by U+FFFD.
pub open spec fn utf16le_text(data: Seq<u8>) -> Seq<char> {
    utf16_lossy(units_before_nul(utf16_units(data)))
}

/// `winreg_core::value::decode_utf16le` (the decoding `Value::as_string`
/// applies to the raw data): `data` in 2-byte little-endian units, cut at
/// the first zero unit, through `String::from_utf16_lossy`.
#[verifier::external_body]
pub(crate) fn decode_utf16le(data: &[u8]) -> (r: String)
    ensures
        r@ == utf16le_text(data@),
{
    winreg_core::value::decode_utf16le(data)
}

/// The Windows FILETIME of the Unix epoch (100-ns intervals since 1601).
pub open spec fn filetime_unix_epoch() -> int {
    116_444_736_000_000_000
}

/// The latest second `jiff::Timestamp` represents (9999-12-30T22:00:00Z).
pub open spec fn latest_timestamp_second() -> int {
    253_402_207_200
}

/// A FILETIME as Unix epoch seconds, when it is at or after the epoch and
/// within the representable range.
pub open spec fn filetime_seconds(ft: u64) -> Option<int> {
    if ft >= filetime_unix_epoch() && (ft - filetime_unix_epoch()) / 10_000_000
        <= latest_timestamp_second() {
        Some((ft - filetime_unix_epoch()) / 10_000_000)
    } else {
        None
    }
}

/// `winreg_core::key::filetime_to_datetime` followed by
/// `jiff::Timestamp::as_second`: `None` for a zero FILETIME, one before the
/// Unix epoch, or one past the latest representable timestamp; otherwise the
/// whole seconds since the epoch.
#[verifier::external_body]
pub(crate) fn filetime_to_epoch(ft: u64) -> (r: Option<i64>)
    ensures
        match r {
            Some(s) => filetime_seconds(ft) == Some(s as int),
            None => filetime_seconds(ft) is None,
        },
{
    winreg_core::key::filetime_to_datetime(ft).map(|t| t.as_second())
}

} // verus!

verus! {

/// A name read from a hive together with the bytes that belong to it (a
/// value's data, or the data of a named value of a subkey); `None` when the
/// bytes were absent or unreadable.
#[derive(Debug, Clone, PartialEq, Eq)]
pub struct HiveEntry {
    pub name: String,
    pub data: Option<Vec<u8>>,
}

pub struct HiveEntryView {
    pub name: Seq<char>,
    pub data: Option<Seq<u8>>,
}

impl View for HiveEntry {
    type V = HiveEntryView;

    open spec fn view(&self) -> HiveEntryView {
        HiveEntryView {
            name: self.name@,
            data: match self.data {
                Some(d) => Some(d@),
                None => None,
            },
        }
    }
}

pub open spec fn entry_views(v: Seq<HiveEntry>) -> Seq<HiveEntryView> {
    v.map_values(|e: HiveEntry| e@)
}

pub open spec fn string_views(v: Seq<String>) -> Seq<Seq<char>> {
    v.map_values(|s: String| s@)
}

/// The cells of the subkeys of the key at `path`: none when the key is
/// absent or its subkey list unreadable.
pub open spec fn subkey_cells_at(data: Seq<u8>, path: Seq<char>) -> Seq<u32> {
    match key_at(data, path) {
        Some(k) => match listed_subkeys(data, k) {
            Some(cs) => cs,
            None => Seq::empty(),
        },
        None => Seq::empty(),
    }
}

/// The names of the subkeys of the key at `path`, in list order.
pub open spec fn subkey_names_at(data: Seq<u8>, path: Seq<char>) -> Seq<Seq<char>> {
    subkey_cells_at(data, path).map_values(|c: u32| key_name_at(data, c))
}

/// The values of the key at `path` as (name, raw data) entries, in list
/// order: none when the key is absent or its value list unreadable.
pub open spec fn value_entries_at(data: Seq<u8>, path: Seq<char>) -> Seq<HiveEntryView> {
    let cs = match key_at(data, path) {
        Some(k) => match listed_values(data, k) {
            Some(cs) => cs,
            None => Seq::empty(),
        },
        None => Seq::empty(),
    };
    cs.map_values(|v: u32| HiveEntryView { name: value_name_at(data, v), data: value_bytes(data, v) })
}

/// For each subkey of the key at `path`, in list order: its name and the raw
/// data of its value `value`.
pub open spec fn subkey_value_entries_at(data: Seq<u8>, path: Seq<char>, value: Seq<char>) -> Seq<
    HiveEntryView,
> {
    subkey_cells_at(data, path).map_values(
        |c: u32| HiveEntryView { name: key_name_at(data, c), data: named_data(data, c, value) },
    )
}

/// For each subkey of the key at `path`, in list order: its name and its
/// last-written FILETIME.
pub open spec fn subkey_times_at(data: Seq<u8>, path: Seq<char>) -> Seq<(Seq<char>, u64)> {
    subkey_cells_at(data, path).map_values(|c: u32| (key_name_at(data, c), key_written_at(data, c)))
}

/// The subkeys of the key at `path` (none when it is absent or its subkey
/// list unreadable), with their cells.
pub(crate) fn subkeys_at<'h>(hive: &'h RegHive, path: &str) -> (r: Vec<RegKey<'h>>)
    ensures
        r@.len() == subkey_cells_at(hive.data(), path@).len(),
        forall|i: int|
            0 <= i < r@.len() ==> (#[trigger] r@[i]).cell() == subkey_cells_at(hive.data(), path@)[i]
                && r@[i].data() == hive.data(),
{
    let key = match open_key(hive, path) {
        Some(k) => k,
        None => {
            return Vec::new();
        },
    };
    match subkeys(&key) {
        Some(s) => s,
        None => Vec::new(),
    }
}

/// The names of the subkeys of the key at `path`, in list order (none when
/// the key is absent or its subkeys unreadable).
pub(crate) fn read_subkey_names(hive: &RegHive, path: &str) -> (r: Vec<String>)
    ensures
        string_views(r@) == subkey_names_at(hive.data(), path@),
{
    let subs = subkeys_at(hive, path);
    let ghost cs = subkey_cells_at(hive.data(), path@);
    let mut out: Vec<String> = Vec::new();
    let mut i: usize = 0;
    while i < subs.len()
        invariant
            i <= subs@.len(),
            subs@.len() == cs.len(),
            forall|t: int| 0 <= t < cs.len() ==> (#[trigger] subs@[t]).cell() == cs[t] && subs@[t].data() == hive.data(),
            out@.len() == i,
            forall|t: int| 0 <= t < i ==> (#[trigger] out@[t])@ == key_name_at(hive.data(), cs[t]),
        decreases subs@.len() - i,
    {
        out.push(key_name(&subs[i]));
        i = i + 1;
    }
    assert(string_views(out@) =~= subkey_names_at(hive.data(), path@));
    out
}

/// The values of the key at `path` as (name, raw data) entries, in list
/// order (none when the key is absent or its values unreadable).
pub(crate) fn read_value_entries(hive: &RegHive, path: &str) -> (r: Vec<HiveEntry>)
    ensures
        entry_views(r@) == value_entries_at(hive.data(), path@),
{
    let mut out: Vec<HiveEntry> = Vec::new();
    let key = match open_key(hive, path) {
        Some(k) => k,
        None => {
            assert(entry_views(out@) =~= value_entries_at(hive.data(), path@));
            return out;
        },
    };
    let values = match key_values(&key) {
        Some(v) => v,
        None => {
            assert(entry_views(out@) =~= value_entries_at(hive.data(), path@));
            return out;
        },
    };
    let ghost cs = listed_values(hive.data(), key.cell()).unwrap();
    let mut i: usize = 0;
    while i < values.len()
        invariant
            i <= values@.len(),
            values@.len() == cs.len(),
            forall|t: int| 0 <= t < cs.len() ==> (#[trigger] values@[t]).cell() == cs[t] && values@[t].data() == hive.data(),
            out@.len() == i,
            forall|t: int| 0 <= t < i ==> (#[trigger] out@[t])@ == (HiveEntryView {
                name: value_name_at(hive.data(), cs[t]),
                data: value_bytes(hive.data(), cs[t]),
            }),
        decreases values@.len() - i,
    {
        let v = &values[i];
        let e = HiveEntry { name: value_name(v), data: value_raw(v) };
        out.push(e);
        i = i + 1;
    }
    assert(entry_views(out@) =~= value_entries_at(hive.data(), path@));
    out
}

/// For each subkey of the key at `path`, in list order: its name and the
/// raw data of its value `value` (none when the key is absent or its
/// subkeys unreadable).
pub(crate) fn read_subkey_value_entries(hive: &RegHive, path: &str, value: &str) -> (r: Vec<HiveEntry>)
    ensures
        entry_views(r@) == subkey_value_entries_at(hive.data(), path@, value@),
{
    let subs = subkeys_at(hive, path);
    let ghost cs = subkey_cells_at(hive.data(), path@);
    let mut out: Vec<HiveEntry> = Vec::new();
    let mut i: usize = 0;
    while i < subs.len()
        invariant
            i <= subs@.len(),
            subs@.len() == cs.len(),
            forall|t: int| 0 <= t < cs.len() ==> (#[trigger] subs@[t]).cell() == cs[t] && subs@[t].data() == hive.data(),
            out@.len() == i,
            forall|t: int| 0 <= t < i ==> (#[trigger] out@[t])@ == (HiveEntryView {
                name: key_name_at(hive.data(), cs[t]),
                data: named_data(hive.data(), cs[t], value@),
            }),
        decreases subs@.len() - i,
    {
        let s = &subs[i];
        let data = match key_value(s, value) {
            Some(v) => value_raw(&v),
            None => None,
        };
        let e = HiveEntry { name: key_name(s), data };
        out.push(e);
        i = i + 1;
    }
    assert(entry_views(out@) =~= subkey_value_entries_at(hive.data(), path@, value@));
    out
}

/// For each subkey of the key at `path`, in list order: its name and its
/// last-written FILETIME (none when the key is absent or its subkeys
/// unreadable).
pub(crate) fn read_subkey_times(hive: &RegHive, path: &str) -> (r: Vec<(String, u64)>)
    ensures
        r@.map_values(|p: (String, u64)| (p.0@, p.1)) == subkey_times_at(hive.data(), path@),
{
    let subs = subkeys_at(hive, path);
    let ghost cs = subkey_cells_at(hive.data(), path@);
    let mut out: Vec<(String, u64)> = Vec::new();
    let mut i: usize = 0;
    while i < subs.len()
        invariant
            i <= subs@.len(),
            subs@.len() == cs.len(),
            forall|t: int| 0 <= t < cs.len() ==> (#[trigger] subs@[t]).cell() == cs[t] && subs@[t].data() == hive.data(),
            out@.len() == i,
            forall|t: int| 0 <= t < i ==> (#[trigger] out@[t]).0@ == key_name_at(hive.data(), cs[t])
                && out@[t].1 == key_written_at(hive.data(), cs[t]),
        decreases subs@.len() - i,
    {
        let s = &subs[i];
        out.push((key_name(s), key_last_written_raw(s)));
        i = i + 1;
    }
    assert(out@.map_values(|p: (String, u64)| (p.0@, p.1)) =~= subkey_times_at(hive.data(), path@));
    out
}

} // verus!
