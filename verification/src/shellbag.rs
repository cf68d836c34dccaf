//! ShellBags: decode `BagMRU` folder-navigation history from a Windows user
//! hive.
//!
//! Windows records every folder a user browses in Explorer as a `BagMRU`
//! tree, in `NTUSER.DAT` (`Software\Microsoft\Windows\Shell\BagMRU`) and in
//! the per-user `UsrClass.dat`
//! (`Local Settings\Software\Microsoft\Windows\Shell\BagMRU`). Each node is a
//! folder; the shell-item bytes for a child folder live in the parent key as
//! a `REG_BINARY` value named with the child's numeric slot. The browsed path
//! to a node is the sequence of shell items collected walking from the root
//! down to it.
//!
//! For USB forensics the interesting subset is folders browsed on a
//! drive-letter volume (a volume shell item in the path, e.g. `E:\`): this
//! reader surfaces one [`ShellbagEntry`] per node whose path holds one. The
//! walk is iterative and keeps a visited set of key cells, so it terminates
//! even on a crafted cyclic hive.

use vstd::prelude::*;
use vstd::set_lib::{set_int_range, lemma_int_range, lemma_len_subset, lemma_map_size};
use crate::text::{is_ascii_upper, is_ascii_alpha, ascii_upper, chars_of, string_of, char_is_alpha, char_upper, join_with};
use crate::numbers::{parse_unsigned, parse_unsigned_exec};
use crate::device::{Provenance, ProvenanceView, opt_view};
use crate::hive::{
    RegHive, RegKey, open_key, subkeys, key_name, key_value, value_raw, key_offset,
    key_last_written_raw, filetime_to_epoch, filetime_seconds, key_written_at, key_name_at,
    listed_subkeys, key_at, named_data,
};
use std::collections::HashSet;

verus! {

broadcast use vstd::std_specs::hash::group_hash_axioms;

// ---------------------------------------------------------------------------
// Shell items
// ---------------------------------------------------------------------------

/// One decoded shell item, as far as the walk reads it: whether it is a
/// volume (drive) item, and its names.
#[derive(Debug, Clone, PartialEq, Eq)]
pub struct ShellItemInfo {
    /// The item is a volume / drive item (`0x2e`/`0x2f`).
    pub volume: bool,
    /// The short / display name (the drive string `C:\` for a volume).
    pub name: Option<String>,
    /// The long (Unicode) name of a file-entry item.
    pub long_name: Option<String>,
    /// The shell-folder GUID of a root item.
    pub guid: Option<String>,
}

pub struct ShellItemView {
    pub volume: bool,
    pub name: Option<Seq<char>>,
    pub long_name: Option<Seq<char>>,
    pub guid: Option<Seq<char>>,
}

impl View for ShellItemInfo {
    type V = ShellItemView;

    open spec fn view(&self) -> ShellItemView {
        ShellItemView {
            volume: self.volume,
            name: opt_view(self.name),
            long_name: opt_view(self.long_name),
            guid: opt_view(self.guid),
        }
    }
}

pub open spec fn item_views(v: Seq<ShellItemInfo>) -> Seq<ShellItemView> {
    v.map_values(|i: ShellItemInfo| i@)
}

/// What `shellitem::parse_idlist` decodes an `ITEMIDLIST` blob into.
pub uninterp spec fn idlist_items(data: Seq<u8>) -> Seq<ShellItemView>;

/// `shellitem::parse_idlist`: the shell items of an `ITEMIDLIST` blob, up to
/// its terminator or the first malformed item (it never fails). Stated: the
/// items are a function of the bytes alone.
#[verifier::external_body]
fn parse_idlist(data: &[u8]) -> (r: Vec<ShellItemInfo>)
    ensures
        item_views(r@) == idlist_items(data@),
{
    shellitem::parse_idlist(data).into_iter().map(
        |i| ShellItemInfo {
            volume: matches!(i.kind, shellitem::ShellItemKind::Volume),
            name: i.name,
            long_name: i.long_name,
            guid: i.guid,
        },
    ).collect()
}

/// The best available display name of an item: long name, else short name,
/// else GUID.
pub open spec fn display_name(i: ShellItemView) -> Option<Seq<char>> {
    match i.long_name {
        Some(n) => Some(n),
        None => match i.name {
            Some(n) => Some(n),
            None => i.guid,
        },
    }
}

/// The display names of the first `n` items, skipping items without one.
pub open spec fn display_names(items: Seq<ShellItemView>, n: int) -> Seq<Seq<char>>
    decreases n,
{
    if n <= 0 || n > items.len() {
        Seq::empty()
    } else {
        match display_name(items[n - 1]) {
            Some(d) => display_names(items, n - 1).push(d),
            None => display_names(items, n - 1),
        }
    }
}

/// Names joined with `\`.
pub open spec fn joined(names: Seq<Seq<char>>) -> Seq<char>
    decreases names.len(),
{
    if names.len() == 0 {
        Seq::empty()
    } else if names.len() == 1 {
        names[0]
    } else {
        joined(names.drop_last()) + seq!['\\'] + names.last()
    }
}

/// The human-readable path of an item list (`My Computer\E:\\photos`).
pub open spec fn path_of(items: Seq<ShellItemView>) -> Seq<char> {
    joined(display_names(items, items.len() as int))
}

fn copy_opt(o: &Option<String>) -> (r: Option<String>)
    ensures
        opt_view(r) == opt_view(*o),
{
    match o {
        Some(s) => Some(s.clone()),
        None => None,
    }
}

fn copy_item(i: &ShellItemInfo) -> (r: ShellItemInfo)
    ensures
        r@ == i@,
{
    ShellItemInfo {
        volume: i.volume,
        name: copy_opt(&i.name),
        long_name: copy_opt(&i.long_name),
        guid: copy_opt(&i.guid),
    }
}

/// The best display name of a shell item: its long name, else its short
/// name, else its GUID.
pub fn display_name_of(i: &ShellItemInfo) -> (r: Option<String>)
    ensures
        opt_view(r) == display_name(i@),
{
    match &i.long_name {
        Some(n) => Some(n.clone()),
        None => match &i.name {
            Some(n) => Some(n.clone()),
            None => copy_opt(&i.guid),
        },
    }
}

/// Reconstruct a human-readable path from an item list by joining each
/// item's display name with `\`.
pub fn reconstruct_path(items: &[ShellItemInfo]) -> (r: String)
    ensures
        r@ == path_of(item_views(items@)),
{
    let ghost iv = item_views(items@);
    let mut acc: Vec<char> = Vec::new();
    let mut count: usize = 0;
    let mut i: usize = 0;
    while i < items.len()
        invariant
            i <= items@.len(),
            iv == item_views(items@),
            count <= i,
            count == display_names(iv, i as int).len(),
            acc@ == joined(display_names(iv, i as int)),
        decreases items@.len() - i,
    {
        let ghost before = display_names(iv, i as int);
        match display_name_of(&items[i]) {
            Some(d) => {
                let dv = chars_of(d.as_str());
                let ghost after = before.push(dv@);
                assert(after.drop_last() =~= before);
                if count == 0 {
                    assert(after.len() == 1);
                    acc = dv;
                } else {
                    acc = join_with(acc.as_slice(), '\\', dv.as_slice());
                }
                assert(display_names(iv, i + 1) == after);
                count = count + 1;
            },
            None => {},
        }
        i = i + 1;
    }
    string_of(acc.as_slice())
}

/// The upper-cased drive letter of a volume item whose name starts `X:`
/// (`E:\` gives `E`).
pub open spec fn item_drive_letter(i: ShellItemView) -> Option<char> {
    match i.name {
        Some(n) => if n.len() >= 2 && is_ascii_alpha(n[0]) && n[1] == ':' {
            Some(ascii_upper(n[0]))
        } else {
            None
        },
        None => None,
    }
}

/// The upper-cased drive letter of a volume shell item whose name is an
/// `X:`-prefixed drive string (`E:\` gives `E`); `None` for a nameless
/// volume or any name not starting with a letter and `:`.
pub fn drive_letter(volume: &ShellItemInfo) -> (r: Option<char>)
    ensures
        r == item_drive_letter(volume@),
{
    match &volume.name {
        Some(n) => {
            let v = chars_of(n.as_str());
            if v.len() >= 2 && char_is_alpha(v[0]) && v[1] == ':' {
                Some(char_upper(v[0]))
            } else {
                None
            }
        },
        None => None,
    }
}

/// One browsed folder from a `BagMRU` tree that references a drive-letter
/// volume.
#[derive(Debug, Clone, PartialEq, Eq)]
pub struct ShellbagEntry {
    /// The reconstructed browsed path (e.g. `My Computer\E:\\photos`).
    pub path: String,
    /// The drive letter of the volume item in the path, upper-cased; `None`
    /// when the volume item carried no clean drive-letter name.
    pub drive_letter: Option<char>,
    /// The node key's last-written time, epoch seconds UTC; `None` when the
    /// hive recorded none.
    pub last_write: Option<i64>,
    /// Where the record was decoded from.
    pub source: Provenance,
}

pub struct ShellbagEntryView {
    pub path: Seq<char>,
    pub drive_letter: Option<char>,
    pub last_write: Option<i64>,
    pub source: ProvenanceView,
}

impl View for ShellbagEntry {
    type V = ShellbagEntryView;

    open spec fn view(&self) -> ShellbagEntryView {
        ShellbagEntryView {
            path: self.path@,
            drive_letter: self.drive_letter,
            last_write: self.last_write,
            source: self.source@,
        }
    }
}

/// The first volume item from position `k`.
pub open spec fn first_volume(items: Seq<ShellItemView>, k: int) -> Option<ShellItemView>
    decreases items.len() - k,
{
    if k < 0 || k >= items.len() {
        None
    } else if items[k].volume {
        Some(items[k])
    } else {
        first_volume(items, k + 1)
    }
}

/// The entry of a node whose item path is `items`: `None` when no item in
/// the path is a volume.
pub open spec fn shellbag_entry(
    items: Seq<ShellItemView>,
    last_write: Option<i64>,
    key_path: Seq<char>,
    file: Seq<char>,
) -> Option<ShellbagEntryView> {
    match first_volume(items, 0) {
        Some(v) => Some(
            ShellbagEntryView {
                path: path_of(items),
                drive_letter: item_drive_letter(v),
                last_write,
                source: ProvenanceView { file, line: 0, key_path: Some(key_path) },
            },
        ),
        None => None,
    }
}

pub open spec fn opt_entry_view(o: Option<ShellbagEntry>) -> Option<ShellbagEntryView> {
    match o {
        Some(e) => Some(e@),
        None => None,
    }
}

/// Build a [`ShellbagEntry`] for a node whose item path references a
/// drive-letter volume; `None` when no volume item is present (a
/// non-volume node such as `My Computer`).
pub fn volume_entry(items: &[ShellItemInfo], last_write: Option<i64>, key_path: &str, file: &str) -> (r: Option<ShellbagEntry>)
    ensures
        opt_entry_view(r) == shellbag_entry(item_views(items@), last_write, key_path@, file@),
{
    let ghost iv = item_views(items@);
    let mut k: usize = 0;
    while k < items.len()
        invariant
            k <= items@.len(),
            iv == item_views(items@),
            first_volume(iv, 0) == first_volume(iv, k as int),
        decreases items@.len() - k,
    {
        if items[k].volume {
            let v = &items[k];
            return Some(
                ShellbagEntry {
                    path: reconstruct_path(items),
                    drive_letter: drive_letter(v),
                    last_write,
                    source: Provenance {
                        file: string_of(chars_of(file).as_slice()),
                        line: 0,
                        key_path: Some(string_of(chars_of(key_path).as_slice())),
                    },
                },
            );
        }
        k = k + 1;
    }
    None
}

// ---------------------------------------------------------------------------
// Reconciliation against a reference decode
// ---------------------------------------------------------------------------

/// The drive letters one walk surfaced, set against those an independent
/// decode of the same hive surfaced. Each list is sorted and holds no
/// repeats.
#[derive(Debug, PartialEq, Eq)]
pub struct Recon {
    /// Letters both surfaced (agreement).
    pub confirmed: Vec<char>,
    /// Letters only ours surfaced: a drive attribution the reference does not
    /// make.
    pub false_positive: Vec<char>,
    /// Letters only the reference surfaced: a completeness gap.
    pub oracle_only: Vec<char>,
}

impl Default for Recon {
    fn default() -> (r: Recon)
        ensures
            r.confirmed@.len() == 0,
            r.false_positive@.len() == 0,
            r.oracle_only@.len() == 0,
    {
        Recon { confirmed: Vec::new(), false_positive: Vec::new(), oracle_only: Vec::new() }
    }
}

/// The letters of the `Some` entries of `ours`.
pub open spec fn our_letters(ours: Seq<Option<char>>) -> Set<char> {
    Set::new(|c: char| exists|i: int| 0 <= i < ours.len() && ours[i] == Some(c))
}

/// Strictly increasing, so sorted and free of repeats.
pub open spec fn strictly_sorted(v: Seq<char>) -> bool {
    forall|i: int, j: int| 0 <= i < j < v.len() ==> v[i] < v[j]
}

/// Insert `c` into a strictly sorted list, keeping it so.
fn insert_sorted(v: &mut Vec<char>, c: char)
    requires
        strictly_sorted(old(v)@),
    ensures
        strictly_sorted(final(v)@),
        final(v)@.to_set() == old(v)@.to_set().insert(c),
{
    let ghost s0 = v@;
    let mut p: usize = 0;
    while p < v.len() && v[p] < c
        invariant
            p <= v@.len(),
            v@ == s0,
            forall|t: int| 0 <= t < p ==> v@[t] < c,
        decreases v@.len() - p,
    {
        p = p + 1;
    }
    if p < v.len() && v[p] == c {
        assert(s0.to_set().insert(c) =~= s0.to_set()) by {
            assert(s0.contains(c));
        }
        return;
    }
    assert(p < s0.len() ==> c < s0[p as int]);
    v.insert(p, c);
    assert(v@ =~= s0.take(p as int) + seq![c] + s0.skip(p as int));
    assert forall|i: int, j: int| 0 <= i < j < v@.len() implies v@[i] < v@[j] by {
        if j < p {
            assert(v@[i] == s0[i] && v@[j] == s0[j]);
        } else if j == p {
            assert(v@[i] == s0[i]);
        } else if i < p {
            assert(v@[i] == s0[i] && v@[j] == s0[j - 1]);
            assert(s0[i] < c);
        } else if i == p {
            assert(v@[j] == s0[j - 1]);
            if j - 1 > p {
                assert(s0[p as int] < s0[j - 1]);
            }
        } else {
            assert(v@[i] == s0[i - 1] && v@[j] == s0[j - 1]);
        }
    }
    assert forall|x: char| v@.to_set().contains(x) <==> s0.to_set().insert(c).contains(x) by {
        if v@.contains(x) {
            let i = choose|i: int| 0 <= i < v@.len() && v@[i] == x;
            if i < p {
                assert(s0[i] == x);
            } else if i > p {
                assert(s0[i - 1] == x);
            }
        }
        if s0.contains(x) {
            let i = choose|i: int| 0 <= i < s0.len() && s0[i] == x;
            if i < p {
                assert(v@[i] == x);
            } else {
                assert(v@[i + 1] == x);
            }
        }
        if x == c {
            assert(v@[p as int] == x);
        }
    }
    assert(v@.to_set() =~= s0.to_set().insert(c));
}

/// Extending `ours` by one entry adds that entry's letter, if any.
proof fn lemma_our_letters_push(ours: Seq<Option<char>>, i: int)
    requires
        0 <= i < ours.len(),
    ensures
        our_letters(ours.take(i + 1)) == (match ours[i] {
            Some(c) => our_letters(ours.take(i)).insert(c),
            None => our_letters(ours.take(i)),
        }),
{
    let prev = our_letters(ours.take(i));
    let next = our_letters(ours.take(i + 1));
    let want = match ours[i] {
        Some(c) => prev.insert(c),
        None => prev,
    };
    assert forall|c: char| next.contains(c) implies want.contains(c) by {
        let t = ours.take(i + 1);
        let j = choose|j: int| 0 <= j < t.len() && #[trigger] t[j] == Some(c);
        if j < i {
            assert(ours.take(i)[j] == Some(c));
        }
    }
    assert forall|c: char| want.contains(c) implies next.contains(c) by {
        if prev.contains(c) {
            let t = ours.take(i);
            let j = choose|j: int| 0 <= j < t.len() && #[trigger] t[j] == Some(c);
            assert(ours.take(i + 1)[j] == Some(c));
        } else {
            assert(ours.take(i + 1)[i] == Some(c));
        }
    }
    assert(next =~= want);
}

/// The strictly sorted list of a set given as `ours`' letters.
fn sorted_letters(ours: &[Option<char>]) -> (r: Vec<char>)
    ensures
        strictly_sorted(r@),
        r@.to_set() == our_letters(ours@),
{
    let mut v: Vec<char> = Vec::new();
    let mut i: usize = 0;
    while i < ours.len()
        invariant
            i <= ours@.len(),
            strictly_sorted(v@),
            v@.to_set() == our_letters(ours@.take(i as int)),
        decreases ours@.len() - i,
    {
        let ghost before = v@.to_set();
        match ours[i] {
            Some(c) => {
                insert_sorted(&mut v, c);
            },
            None => {},
        }
        proof {
            lemma_our_letters_push(ours@, i as int);
        }
        i = i + 1;
    }
    assert(ours@.take(ours@.len() as int) =~= ours@);
    v
}

fn sorted_chars(s: &[char]) -> (r: Vec<char>)
    ensures
        strictly_sorted(r@),
        r@.to_set() == s@.to_set(),
{
    let mut v: Vec<char> = Vec::new();
    let mut i: usize = 0;
    while i < s.len()
        invariant
            i <= s@.len(),
            strictly_sorted(v@),
            v@.to_set() == s@.take(i as int).to_set(),
        decreases s@.len() - i,
    {
        insert_sorted(&mut v, s[i]);
        assert(s@.take(i + 1) =~= s@.take(i as int).push(s@[i as int]));
        assert(s@.take(i + 1).to_set() =~= s@.take(i as int).to_set().insert(s@[i as int])) by {
            s@.take(i as int).lemma_push_to_set_commute(s@[i as int]);
        }
        i = i + 1;
    }
    assert(s@.take(s@.len() as int) =~= s@);
    v
}

/// The members of the strictly sorted `a` that are (`keep == true`) or are
/// not (`keep == false`) in `b`, in order.
fn filter_sorted(a: &Vec<char>, b: &Vec<char>, keep: bool) -> (r: Vec<char>)
    requires
        strictly_sorted(a@),
    ensures
        strictly_sorted(r@),
        r@.to_set() == a@.to_set().filter(|c: char| b@.contains(c) == keep),
{
    let mut r: Vec<char> = Vec::new();
    let mut i: usize = 0;
    while i < a.len()
        invariant
            i <= a@.len(),
            strictly_sorted(a@),
            strictly_sorted(r@),
            i < a@.len() ==> forall|t: int|
                0 <= t < r@.len() ==> #[trigger] r@[t] < a@[i as int],
            r@.to_set() == a@.take(i as int).to_set().filter(|c: char| b@.contains(c) == keep),
        decreases a@.len() - i,
    {
        let c = a[i];
        let mut found = false;
        let mut j: usize = 0;
        while j < b.len()
            invariant
                j <= b@.len(),
                found == exists|u: int| 0 <= u < j && b@[u] == c,
            decreases b@.len() - j,
        {
            if b[j] == c {
                found = true;
            }
            j = j + 1;
        }
        assert(found == b@.contains(c));
        let ghost before = r@;
        if found == keep {
            r.push(c);
            assert forall|t: int, w: int| 0 <= t < w < r@.len() implies r@[t] < r@[w] by {
                if w == r@.len() - 1 {
                    assert(before[t] == r@[t]);
                }
            }
        }
        assert(i + 1 < a@.len() ==> a@[i as int] < a@[i + 1]);
        assert(a@.take(i + 1) =~= a@.take(i as int).push(c));
        proof {
            a@.take(i as int).lemma_push_to_set_commute(c);
        }
        assert(r@.to_set() =~= a@.take(i + 1).to_set().filter(|c: char| b@.contains(c) == keep))
            by {
            if found == keep {
                before.lemma_push_to_set_commute(c);
            }
        }
        i = i + 1;
    }
    assert(a@.take(a@.len() as int) =~= a@);
    r
}

/// Reconcile the drive letters our `BagMRU` walk surfaced (`ours`; a `None`
/// entry is a volume node without a clean drive letter and contributes
/// nothing) against a reference decode's drive letters (`oracle`): the
/// letters in both, in ours only, and in the reference only, each sorted and
/// without repeats.
pub fn reconcile(ours: &[Option<char>], oracle: &[char]) -> (r: Recon)
    ensures
        strictly_sorted(r.confirmed@),
        strictly_sorted(r.false_positive@),
        strictly_sorted(r.oracle_only@),
        r.confirmed@.to_set() == our_letters(ours@).intersect(oracle@.to_set()),
        r.false_positive@.to_set() == our_letters(ours@).difference(oracle@.to_set()),
        r.oracle_only@.to_set() == oracle@.to_set().difference(our_letters(ours@)),
{
    let a = sorted_letters(ours);
    let b = sorted_chars(oracle);
    let confirmed = filter_sorted(&a, &b, true);
    let false_positive = filter_sorted(&a, &b, false);
    let oracle_only = filter_sorted(&b, &a, false);
    assert(confirmed@.to_set() =~= our_letters(ours@).intersect(oracle@.to_set()));
    assert(false_positive@.to_set() =~= our_letters(ours@).difference(oracle@.to_set()));
    assert(oracle_only@.to_set() =~= oracle@.to_set().difference(our_letters(ours@)));
    Recon { confirmed, false_positive, oracle_only }
}

// ---------------------------------------------------------------------------
// The BagMRU walk
// ---------------------------------------------------------------------------

/// The two `BagMRU` roots: `NTUSER.DAT` and the per-user `UsrClass.dat`.
pub open spec fn bagmru_roots() -> Seq<Seq<char>> {
    seq![
        "Software\\Microsoft\\Windows\\Shell\\BagMRU"@,
        "Local Settings\\Software\\Microsoft\\Windows\\Shell\\BagMRU"@,
    ]
}

/// A `BagMRU` child slot name: a decimal `u32`.
pub open spec fn slot_name(name: Seq<char>) -> bool {
    parse_unsigned(name, 10, 0xffff_ffff) is Some
}

/// The shell items a path of slots (name, slot bytes) spells: each slot's
/// `ITEMIDLIST` items, root first.
pub open spec fn slot_items(slots: Seq<(Seq<char>, Seq<u8>)>) -> Seq<ShellItemView> {
    slots.map_values(|sl: (Seq<char>, Seq<u8>)| idlist_items(sl.1)).flatten()
}

/// The key path of a path of slots below `root`: `root\<slot>\<slot>...`.
pub open spec fn slot_path(root: Seq<char>, slots: Seq<(Seq<char>, Seq<u8>)>) -> Seq<char>
    decreases slots.len(),
{
    if slots.len() == 0 {
        root
    } else {
        slot_path(root, slots.drop_last()) + seq!['\\'] + slots.last().0
    }
}

/// The bytes of a child slot: the parent key's value of the slot's name;
/// empty when absent or unreadable.
pub open spec fn slot_data(data: Seq<u8>, cell: u32, name: Seq<char>) -> Seq<u8> {
    match named_data(data, cell, name) {
        Some(b) => b,
        None => Seq::empty(),
    }
}

/// The last-written time of the key at `cell`, epoch seconds; `None` when
/// the hive recorded none usable.
pub open spec fn last_write_at(data: Seq<u8>, cell: u32) -> Option<i64> {
    match filetime_seconds(key_written_at(data, cell)) {
        Some(s) => Some(s as i64),
        None => None,
    }
}

/// The slot path of the child at `c` of the walk frame `parent` (a node's
/// cell and the slot path leading to it).
pub open spec fn child_slots(data: Seq<u8>, parent: (u32, Seq<(Seq<char>, Seq<u8>)>), c: u32) -> Seq<
    (Seq<char>, Seq<u8>),
> {
    parent.1.push((key_name_at(data, c), slot_data(data, parent.0, key_name_at(data, c))))
}

/// The frames of the slot-named children among `cs`, in order.
pub open spec fn child_frames(
    data: Seq<u8>,
    parent: (u32, Seq<(Seq<char>, Seq<u8>)>),
    cs: Seq<u32>,
) -> Seq<(u32, Seq<(Seq<char>, Seq<u8>)>)>
    decreases cs.len(),
{
    if cs.len() == 0 {
        Seq::empty()
    } else {
        let prev = child_frames(data, parent, cs.drop_last());
        let c = cs.last();
        if slot_name(key_name_at(data, c)) {
            prev.push((c, child_slots(data, parent, c)))
        } else {
            prev
        }
    }
}

/// The entries of the slot-named children among `cs` whose item path
/// holds a volume, in order.
pub open spec fn child_entries(
    data: Seq<u8>,
    root: Seq<char>,
    file: Seq<char>,
    parent: (u32, Seq<(Seq<char>, Seq<u8>)>),
    cs: Seq<u32>,
) -> Seq<ShellbagEntryView>
    decreases cs.len(),
{
    if cs.len() == 0 {
        Seq::empty()
    } else {
        let prev = child_entries(data, root, file, parent, cs.drop_last());
        let c = cs.last();
        if slot_name(key_name_at(data, c)) {
            let sl = child_slots(data, parent, c);
            match shellbag_entry(slot_items(sl), last_write_at(data, c), slot_path(root, sl), file) {
                Some(e) => prev.push(e),
                None => prev,
            }
        } else {
            prev
        }
    }
}

/// The entries a depth-first walk surfaces from a stack of frames, given the
/// cells already walked: the last frame is taken first; a walked cell is
/// skipped; otherwise the entries of its slot-named children come first,
/// then the walk goes on with those children pushed in order.
pub open spec fn walk_from(
    data: Seq<u8>,
    root: Seq<char>,
    file: Seq<char>,
    stack: Seq<(u32, Seq<(Seq<char>, Seq<u8>)>)>,
    visited: Set<u32>,
) -> Seq<ShellbagEntryView>
    decreases 0x1_0000_0000 - visited.len(), stack.len(),
    when visited.finite() && visited.len() <= 0x1_0000_0000
{
    if stack.len() == 0 {
        Seq::empty()
    } else {
        let f = stack.last();
        if visited.contains(f.0) {
            walk_from(data, root, file, stack.drop_last(), visited)
        } else {
            proof {
                lemma_u32_set_room(visited, f.0);
            }
            let cs = match listed_subkeys(data, f.0) {
                Some(cs) => cs,
                None => Seq::empty(),
            };
            child_entries(data, root, file, f, cs) + walk_from(
                data,
                root,
                file,
                stack.drop_last() + child_frames(data, f, cs),
                visited.insert(f.0),
            )
        }
    }
}

/// The entries of the `BagMRU` tree at root `i`: none when it is absent.
pub open spec fn root_entries(data: Seq<u8>, file: Seq<char>, i: int) -> Seq<ShellbagEntryView> {
    match key_at(data, bagmru_roots()[i]) {
        Some(c) => walk_from(data, bagmru_roots()[i], file, seq![(c, Seq::empty())], Set::empty()),
        None => Seq::empty(),
    }
}

pub open spec fn entry_views(v: Seq<ShellbagEntry>) -> Seq<ShellbagEntryView> {
    v.map_values(|e: ShellbagEntry| e@)
}

pub open spec fn frame_views<'h>(
    s: Seq<(RegKey<'h>, Vec<ShellItemInfo>, Vec<char>, Ghost<Seq<(Seq<char>, Seq<u8>)>>)>,
) -> Seq<(u32, Seq<(Seq<char>, Seq<u8>)>)> {
    s.map_values(
        |f: (RegKey<'h>, Vec<ShellItemInfo>, Vec<char>, Ghost<Seq<(Seq<char>, Seq<u8>)>>)|
            (f.0.cell(), f.3@),
    )
}

/// A walk frame's items and key path are those of its slot path.
pub open spec fn frame_ok(
    items: Seq<ShellItemView>,
    path: Seq<char>,
    slots: Seq<(Seq<char>, Seq<u8>)>,
    root: Seq<char>,
) -> bool {
    &&& items == slot_items(slots)
    &&& path == slot_path(root, slots)
    &&& forall|i: int| 0 <= i < slots.len() ==> slot_name(#[trigger] slots[i].0)
}

proof fn lemma_slot_push(slots: Seq<(Seq<char>, Seq<u8>)>, sl: (Seq<char>, Seq<u8>))
    ensures
        slot_items(slots.push(sl)) == slot_items(slots) + idlist_items(sl.1),
{
    let f = |x: (Seq<char>, Seq<u8>)| idlist_items(x.1);
    assert(slots.push(sl).map_values(f) =~= slots.map_values(f).push(idlist_items(sl.1)));
    slots.map_values(f).lemma_flatten_push(idlist_items(sl.1));
}

/// A set of `u32`s that misses a value has fewer than 2^32 members.
pub proof fn lemma_u32_set_room(s: Set<u32>, x: u32)
    requires
        s.finite(),
        !s.contains(x),
    ensures
        s.len() < 0x1_0000_0000,
{
    let f = |v: u32| v as int;
    let t = s.map(f);
    assert(vstd::relations::injective_on(f, s));
    lemma_map_size(s, t, f);
    lemma_int_range(0, 0x1_0000_0000);
    let r = set_int_range(0, 0x1_0000_0000).remove(x as int);
    assert forall|v: int| t.contains(v) implies r.contains(v) by {
        let u = choose|u: u32| s.contains(u) && f(u) == v;
    }
    lemma_len_subset(t, r);
}

/// Whether a subkey name is a `BagMRU` child slot.
fn is_slot_name(name: &str) -> (b: bool)
    ensures
        b == slot_name(name@),
{
    let v = chars_of(name);
    parse_unsigned_exec(v.as_slice(), 10, 0xffff_ffff).is_some()
}

fn copy_items(items: &[ShellItemInfo]) -> (r: Vec<ShellItemInfo>)
    ensures
        item_views(r@) == item_views(items@),
{
    let mut r: Vec<ShellItemInfo> = Vec::new();
    let mut i: usize = 0;
    while i < items.len()
        invariant
            i <= items@.len(),
            item_views(r@) == item_views(items@.take(i as int)),
        decreases items@.len() - i,
    {
        let ghost before = r@;
        let c = copy_item(&items[i]);
        r.push(c);
        assert(items@.take(i + 1) =~= items@.take(i as int).push(items@[i as int]));
        assert(item_views(r@) =~= item_views(before).push(c@));
        assert(item_views(items@.take(i + 1)) =~= item_views(items@.take(i as int)).push(
            items@[i as int]@,
        ));
        i = i + 1;
    }
    assert(items@.take(items@.len() as int) =~= items@);
    r
}

/// The raw data of `key`'s value `name`; empty when absent or unreadable.
fn slot_bytes<'h>(key: &RegKey<'h>, name: &str) -> (r: Vec<u8>)
    ensures
        r@ == slot_data(key.data(), key.cell(), name@),
{
    match key_value(key, name) {
        Some(v) => match value_raw(&v) {
            Some(b) => b,
            None => Vec::new(),
        },
        None => Vec::new(),
    }
}

/// Iterative depth-first walk of one `BagMRU` tree. Each stack frame holds a
/// node key, the shell items from the root to it, and its key path. The
/// shell-item bytes of a child slot live in the parent key's value named by
/// the child's slot number, so a child's items are the parent's items
/// followed by that slot's items. A node whose cell was already walked is
/// skipped, so the walk ends even on a cyclic hive.
fn walk<'h>(root: RegKey<'h>, root_path: &str, file: &str) -> (out: Vec<ShellbagEntry>)
    ensures
        entry_views(out@) == walk_from(
            root.data(),
            root_path@,
            file@,
            seq![(root.cell(), Seq::empty())],
            Set::empty(),
        ),
{
    let ghost d = root.data();
    let ghost rp = root_path@;
    let ghost fl = file@;
    let ghost total = walk_from(d, rp, fl, seq![(root.cell(), Seq::empty())], Set::empty());
    let mut out: Vec<ShellbagEntry> = Vec::new();
    let mut visited: HashSet<u32> = HashSet::new();
    let mut stack: Vec<(RegKey<'h>, Vec<ShellItemInfo>, Vec<char>, Ghost<Seq<(Seq<char>, Seq<u8>)>>)> =
        Vec::new();
    let start = chars_of(root_path);
    proof {
        let none = Seq::<(Seq<char>, Seq<u8>)>::empty();
        assert(none.map_values(|sl: (Seq<char>, Seq<u8>)| idlist_items(sl.1)) =~= Seq::<
            Seq<ShellItemView>,
        >::empty());
        assert(item_views(Seq::<ShellItemInfo>::empty()) =~= slot_items(none));
    }
    stack.push((root, Vec::new(), start, Ghost(Seq::empty())));
    assert(frame_views(stack@) =~= seq![(root.cell(), Seq::<(Seq<char>, Seq<u8>)>::empty())]);
    assert(entry_views(out@) + total =~= total);
    while stack.len() > 0
        invariant
            visited@.finite(),
            visited@.len() <= 0x1_0000_0000,
            forall|t: int|
                0 <= t < stack@.len() ==> (#[trigger] stack@[t]).0.data() == d && frame_ok(
                    item_views(stack@[t].1@),
                    stack@[t].2@,
                    stack@[t].3@,
                    rp,
                ),
            rp == root_path@,
            fl == file@,
            total == entry_views(out@) + walk_from(d, rp, fl, frame_views(stack@), visited@),
        decreases 0x1_0000_0000 - visited@.len(), stack@.len(),
    {
        let ghost fv = frame_views(stack@);
        let ghost v0 = visited@;
        let ghost out0 = entry_views(out@);
        let frame = stack.pop();
        let (key, parent_items, key_path, Ghost(slots)) = match frame {
            Some(f) => f,
            None => {
                return out;
            },
        };
        let ghost f = fv.last();
        let ghost rest = fv.drop_last();
        assert(frame_views(stack@) =~= rest);
        assert(f == (key.cell(), slots));
        let off = key_offset(&key);
        proof {
            if !visited@.contains(off) {
                lemma_u32_set_room(visited@, off);
            }
        }
        if !visited.insert(off) {
            assert(v0.contains(f.0));
            assert(walk_from(d, rp, fl, fv, v0) == walk_from(d, rp, fl, rest, v0));
            assert(visited@ =~= v0);
            continue;
        }
        let ghost seen = visited@;
        let ghost cs = match listed_subkeys(d, off) {
            Some(cs) => cs,
            None => Seq::<u32>::empty(),
        };
        assert(walk_from(d, rp, fl, fv, v0) == child_entries(d, rp, fl, f, cs) + walk_from(
            d,
            rp,
            fl,
            rest + child_frames(d, f, cs),
            seen,
        ));
        let mut subs = match subkeys(&key) {
            Some(s) => s,
            None => {
                assert(rest + child_frames(d, f, cs) =~= rest);
                assert(entry_views(out@) + (child_entries(d, rp, fl, f, cs) + walk_from(
                    d,
                    rp,
                    fl,
                    rest,
                    seen,
                )) =~= entry_views(out@) + walk_from(d, rp, fl, rest, seen));
                continue;
            },
        };
        let n = subs.len();
        let mut rev: Vec<RegKey<'h>> = Vec::new();
        while subs.len() > 0
            invariant
                n == cs.len(),
                subs@.len() + rev@.len() == n,
                forall|t: int| 0 <= t < subs@.len() ==> (#[trigger] subs@[t]).cell() == cs[t] && subs@[t].data() == d,
                forall|t: int| 0 <= t < rev@.len() ==> (#[trigger] rev@[t]).cell() == cs[n - 1 - t] && rev@[t].data() == d,
            decreases subs@.len(),
        {
            if let Some(k) = subs.pop() {
                rev.push(k);
            }
        }
        assert(cs.take(0) =~= Seq::<u32>::empty());
        assert(rest + child_frames(d, f, cs.take(0)) =~= rest);
        assert(out0 + child_entries(d, rp, fl, f, cs.take(0)) =~= out0);
        while rev.len() > 0
            invariant
                visited@ == seen,
                seen.finite(),
                seen.len() <= 0x1_0000_0000,
                n == cs.len(),
                rev@.len() <= n,
                forall|t: int| 0 <= t < rev@.len() ==> (#[trigger] rev@[t]).cell() == cs[n - 1 - t] && rev@[t].data() == d,
                key.cell() == f.0,
                key.data() == d,
                slots == f.1,
                frame_ok(item_views(parent_items@), key_path@, slots, rp),
                forall|t: int|
                    0 <= t < stack@.len() ==> (#[trigger] stack@[t]).0.data() == d && frame_ok(
                        item_views(stack@[t].1@),
                        stack@[t].2@,
                        stack@[t].3@,
                        rp,
                    ),
                rp == root_path@,
                fl == file@,
                frame_views(stack@) == rest + child_frames(d, f, cs.take(n - rev@.len())),
                entry_views(out@) == out0 + child_entries(d, rp, fl, f, cs.take(n - rev@.len())),
            decreases rev@.len(),
        {
            let ghost j = n - rev@.len();
            let ghost sv = frame_views(stack@);
            let ghost ov = entry_views(out@);
            if let Some(sub) = rev.pop() {
                let ghost c = cs[j];
                assert(sub.cell() == c);
                assert(cs.take(j + 1).drop_last() =~= cs.take(j));
                assert(cs.take(j + 1).last() == c);
                let name = key_name(&sub);
                if is_slot_name(name.as_str()) {
                    let bytes = slot_bytes(&key, name.as_str());
                    let mut parsed = parse_idlist(bytes.as_slice());
                    let mut items = copy_items(parent_items.as_slice());
                    let ghost pv = item_views(items@);
                    let ghost qv = item_views(parsed@);
                    items.append(&mut parsed);
                    let nv = chars_of(name.as_str());
                    let sub_path = join_with(key_path.as_slice(), '\\', nv.as_slice());
                    let ghost child = slots.push((name@, bytes@));
                    proof {
                        assert(child == child_slots(d, f, c));
                        lemma_slot_push(slots, (name@, bytes@));
                        assert(item_views(items@) =~= pv + qv);
                        assert(child.drop_last() =~= slots);
                        assert forall|i: int| 0 <= i < child.len() implies slot_name(
                            #[trigger] child[i].0,
                        ) by {
                            if i < slots.len() {
                                assert(child[i] == slots[i]);
                            }
                        }
                    }
                    let lw = filetime_to_epoch(key_last_written_raw(&sub));
                    assert(lw == last_write_at(d, c));
                    let sp = string_of(sub_path.as_slice());
                    match volume_entry(items.as_slice(), lw, sp.as_str(), file) {
                        Some(e) => {
                            out.push(e);
                            assert(entry_views(out@) =~= ov.push(e@));
                        },
                        None => {},
                    }
                    assert(entry_views(out@) == out0 + child_entries(d, rp, fl, f, cs.take(j + 1)));
                    stack.push((sub, items, sub_path, Ghost(child)));
                    assert(frame_views(stack@) =~= sv.push((c, child)));
                } else {
                    assert(entry_views(out@) =~= out0 + child_entries(d, rp, fl, f, cs.take(j + 1)));
                    assert(frame_views(stack@) =~= rest + child_frames(d, f, cs.take(j + 1)));
                }
            }
        }
        assert(cs.take(n as int) =~= cs);
    }
    assert(frame_views(stack@) =~= Seq::<(u32, Seq<(Seq<char>, Seq<u8>)>)>::empty());
    assert(entry_views(out@) + Seq::<ShellbagEntryView>::empty() =~= entry_views(out@));
    out
}

fn bagmru_root(i: usize) -> (s: &'static str)
    requires
        i < 2,
    ensures
        s@ == bagmru_roots()[i as int],
{
    if i == 0 {
        "Software\\Microsoft\\Windows\\Shell\\BagMRU"
    } else {
        "Local Settings\\Software\\Microsoft\\Windows\\Shell\\BagMRU"
    }
}

/// Parse drive-letter `BagMRU` shellbag entries from an opened user hive
/// (`NTUSER.DAT` or `UsrClass.dat`): the depth-first walk of each of the two
/// `BagMRU` roots in turn. Total over any hive: an absent root contributes
/// nothing, and a cyclic tree is walked once per cell.
pub fn parse_shellbags(hive: &RegHive, file: &str) -> (r: Vec<ShellbagEntry>)
    ensures
        entry_views(r@) == root_entries(hive.data(), file@, 0) + root_entries(hive.data(), file@, 1),
{
    let mut out: Vec<ShellbagEntry> = Vec::new();
    let mut i: usize = 0;
    assert(entry_views(out@) =~= Seq::<ShellbagEntryView>::empty());
    while i < 2
        invariant
            i <= 2,
            i == 0 ==> entry_views(out@) == Seq::<ShellbagEntryView>::empty(),
            i == 1 ==> entry_views(out@) == root_entries(hive.data(), file@, 0),
            i == 2 ==> entry_views(out@) == root_entries(hive.data(), file@, 0) + root_entries(
                hive.data(),
                file@,
                1,
            ),
        decreases 2 - i,
    {
        let rp = bagmru_root(i);
        let ghost before = entry_views(out@);
        match open_key(hive, rp) {
            Some(root) => {
                let mut es = walk(root, rp, file);
                let ghost ev = entry_views(es@);
                out.append(&mut es);
                assert(entry_views(out@) =~= before + ev);
            },
            None => {
                assert(before + root_entries(hive.data(), file@, i as int) =~= before);
            },
        }
        assert(entry_views(out@) =~= before + root_entries(hive.data(), file@, i as int));
        i = i + 1;
    }
    out
}


// ---------------------------------------------------------------------------
// Laws
// ---------------------------------------------------------------------------

/// A shellbag entry exists exactly for item paths through a volume item; its
/// drive letter, when present, is an upper-case ASCII letter; and it records
/// the node's key path in `file`.
pub proof fn law_shellbag_entry(
    items: Seq<ShellItemView>,
    last_write: Option<i64>,
    key_path: Seq<char>,
    file: Seq<char>,
)
    ensures
        shellbag_entry(items, last_write, key_path, file) is Some <==> exists|k: int|
            0 <= k < items.len() && (#[trigger] items[k]).volume,
        shellbag_entry(items, last_write, key_path, file) matches Some(e) ==> {
            &&& e.drive_letter matches Some(l) ==> is_ascii_upper(l)
            &&& e.path == path_of(items)
            &&& e.source.key_path == Some(key_path)
            &&& e.source.file == file
        },
{
    lemma_first_volume(items, 0);
    match first_volume(items, 0) {
        Some(v) => {
            if let Some(n) = v.name {
                if n.len() >= 2 && is_ascii_alpha(n[0]) && n[1] == ':' {
                    crate::text::lemma_upper_of_alpha(n[0]);
                }
            }
        },
        None => {},
    }
}

proof fn lemma_first_volume(items: Seq<ShellItemView>, k: int)
    requires
        0 <= k,
    ensures
        first_volume(items, k) is Some <==> exists|j: int| k <= j < items.len() && (#[trigger] items[j]).volume,
    decreases items.len() - k,
{
    if k < items.len() {
        lemma_first_volume(items, k + 1);
    }
}

} // verus!
