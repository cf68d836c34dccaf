//! The cell layout of a REGF hive image, as far as the hive reader needs it
//! to know, before it asks `winreg_core` to read a cell, that the read is
//! safe.
//!
//! A cell offset counts from the hive-bins area, 4096 bytes into the image;
//! `0xFFFFFFFF` is the null offset. A cell starts with a little-endian `i32`
//! size, negative for an allocated cell, whose magnitude counts the four size
//! bytes and the body after them. A cell whose size field reads -1, -2 or -3
//! would make the reader slice its body backwards, so every cell a read
//! reaches must be free of that; and the root indexes (`ri`) that collecting
//! subkeys recurses through must not lead back to themselves, nor nest too
//! deep for that recursion.

use vstd::prelude::*;

verus! {

/// The little-endian `u16` at position `p` of `d`.
pub open spec fn le16_at(d: Seq<u8>, p: int) -> int {
    d[p] + d[p + 1] * 0x100
}

/// The little-endian `u32` at position `p` of `d`.
pub open spec fn le32_at(d: Seq<u8>, p: int) -> int {
    d[p] + d[p + 1] * 0x100 + d[p + 2] * 0x1_0000 + d[p + 3] * 0x100_0000
}

/// The little-endian `u64` at position `p` of `d`.
pub open spec fn le64_at(d: Seq<u8>, p: int) -> int {
    le32_at(d, p) + le32_at(d, p + 4) * 0x1_0000_0000
}

/// The image position of the cell at offset `off`.
pub open spec fn cell_pos(off: int) -> int {
    4096 + off
}

/// The cell at `off` is not null and its size field lies within the image.
pub open spec fn has_header(d: Seq<u8>, off: int) -> bool {
    off != 0xFFFF_FFFF && cell_pos(off) + 4 <= d.len()
}

/// The size field of the cell at `off`, read as an unsigned word.
pub open spec fn size_word(d: Seq<u8>, off: int) -> int {
    le32_at(d, cell_pos(off))
}

/// Reading the cell at `off` cannot come upon an allocated cell shorter than
/// its own size field.
pub open spec fn cell_safe(d: Seq<u8>, off: int) -> bool {
    has_header(d, off) ==> size_word(d, off) < 0xFFFF_FFFD
}

/// The cell at `off` is allocated, holds its size field, and lies within
/// the image: the reader hands out its body.
pub open spec fn readable(d: Seq<u8>, off: int) -> bool {
    &&& has_header(d, off)
    &&& 0x8000_0000 <= size_word(d, off) < 0xFFFF_FFFD
    &&& cell_pos(off) + (0x1_0000_0000 - size_word(d, off)) <= d.len()
}

/// The image position of the body of the cell at `off`.
pub open spec fn body_start(off: int) -> int {
    cell_pos(off) + 4
}

/// The length of the body of a readable cell.
pub open spec fn body_len(d: Seq<u8>, off: int) -> int {
    0x1_0000_0000 - size_word(d, off) - 4
}

/// The body of the cell at `off` starts with the two signature bytes `a b`.
pub open spec fn has_sig(d: Seq<u8>, off: int, a: u8, b: u8) -> bool {
    &&& readable(d, off)
    &&& body_len(d, off) >= 2
    &&& d[body_start(off)] == a
    &&& d[body_start(off) + 1] == b
}

/// Entry `i` of a list of 4-byte offsets starting at position `start`.
pub open spec fn entry4(d: Seq<u8>, start: int, i: int) -> int {
    le32_at(d, start + 4 * i)
}

/// The offset in entry `i` of a list of 8-byte elements starting at `start`.
pub open spec fn entry8(d: Seq<u8>, start: int, i: int) -> int {
    le32_at(d, start + 8 * i)
}

/// Each of the first `count` 4-byte offsets at `start` that ends within
/// `room` bytes of it is safe to read.
pub open spec fn offsets4_safe(d: Seq<u8>, start: int, room: int, count: int) -> bool {
    forall|i: int| 0 <= i < count && 4 * i + 4 <= room ==> cell_safe(d, #[trigger] entry4(d, start, i))
}

/// Each of the first `count` 8-byte elements at `start` that ends within
/// `room` bytes of it holds an offset that is safe to read.
pub open spec fn offsets8_safe(d: Seq<u8>, start: int, room: int, count: int) -> bool {
    forall|i: int| 0 <= i < count && 8 * i + 8 <= room ==> cell_safe(d, #[trigger] entry8(d, start, i))
}

/// The element count of an index cell (the `u16` after its signature).
pub open spec fn index_count(d: Seq<u8>, off: int) -> int {
    le16_at(d, body_start(off) + 2)
}

/// The key offsets of a subkey leaf (`lf`, `lh`: 8-byte elements; `li`:
/// 4-byte offsets) are safe to read.
pub open spec fn leaf_safe(d: Seq<u8>, off: int) -> bool {
    &&& (has_sig(d, off, 0x6c, 0x66) || has_sig(d, off, 0x6c, 0x68)) ==> offsets8_safe(
        d,
        body_start(off) + 4,
        body_len(d, off) - 4,
        index_count(d, off),
    )
    &&& has_sig(d, off, 0x6c, 0x69) ==> offsets4_safe(
        d,
        body_start(off) + 4,
        body_len(d, off) - 4,
        index_count(d, off),
    )
}

/// How deep root indexes may nest below a key's subkey index.
/// `winreg_core` follows them by plain recursion, one stack frame per
/// level, so the nesting must stay within a bound that keeps that recursion
/// off the end of the stack; Windows itself writes a single level.
pub open spec fn max_index_nesting() -> int {
    256
}

/// Collecting the subkey offsets of the index cell at `off`, reached through
/// the root indexes `path`, reads only safe cells and comes to an end: a
/// root index is not met again on the way down (`winreg_core` would recurse
/// without end) and the nesting stays within [`max_index_nesting`].
pub open spec fn index_safe_from(d: Seq<u8>, off: int, path: Seq<int>) -> bool
    decreases max_index_nesting() - path.len(),
{
    &&& cell_safe(d, off)
    &&& if has_sig(d, off, 0x72, 0x69) {
        &&& path.len() < max_index_nesting()
        &&& !path.contains(off)
        &&& forall|i: int|
            0 <= i < index_count(d, off) && 4 * i + 4 <= body_len(d, off) - 4 ==> index_safe_from(
                d,
                #[trigger] entry4(d, body_start(off) + 4, i),
                path.push(off),
            )
    } else {
        leaf_safe(d, off)
    }
}

/// Collecting the subkey offsets of the index cell at `off` reads only safe
/// cells and comes to an end.
pub open spec fn index_safe(d: Seq<u8>, off: int) -> bool {
    index_safe_from(d, off, Seq::empty())
}

/// The fixed fields of the key node at `off` lie within the image.
pub open spec fn node_in(d: Seq<u8>, off: int) -> bool {
    off != 0xFFFF_FFFF && cell_pos(off) + 48 <= d.len()
}

/// A key node's subkey count.
pub open spec fn node_subkey_count(d: Seq<u8>, off: int) -> int {
    le32_at(d, cell_pos(off) + 24)
}

/// A key node's subkey index offset.
pub open spec fn node_subkey_index(d: Seq<u8>, off: int) -> int {
    le32_at(d, cell_pos(off) + 32)
}

/// A key node's value count.
pub open spec fn node_value_count(d: Seq<u8>, off: int) -> int {
    le32_at(d, cell_pos(off) + 40)
}

/// A key node's value list offset.
pub open spec fn node_value_list(d: Seq<u8>, off: int) -> int {
    le32_at(d, cell_pos(off) + 44)
}

/// Listing the subkeys of the key node at `off` reads only safe cells.
pub open spec fn subkeys_safe(d: Seq<u8>, off: int) -> bool {
    &&& node_in(d, off)
    &&& (node_subkey_count(d, off) == 0 || node_subkey_index(d, off) == 0xFFFF_FFFF || index_safe(
        d,
        node_subkey_index(d, off),
    ))
}

/// Listing the values of the key node at `off` reads only safe cells.
pub open spec fn values_safe(d: Seq<u8>, off: int) -> bool {
    let l = node_value_list(d, off);
    &&& node_in(d, off)
    &&& (node_value_count(d, off) == 0 || l == 0xFFFF_FFFF || (cell_safe(d, l) && (readable(d, l)
        ==> offsets4_safe(d, body_start(l), body_len(d, l), node_value_count(d, off)))))
}

/// A value node's size word (its top bit marks data kept in the node).
pub open spec fn data_word(d: Seq<u8>, off: int) -> int {
    le32_at(d, cell_pos(off) + 8)
}

/// A value node's data offset.
pub open spec fn data_cell(d: Seq<u8>, off: int) -> int {
    le32_at(d, cell_pos(off) + 12)
}

/// A value node keeps its data in the node itself.
pub open spec fn data_resident(d: Seq<u8>, off: int) -> bool {
    data_word(d, off) >= 0x8000_0000
}

/// A value node's data size.
pub open spec fn data_size(d: Seq<u8>, off: int) -> int {
    if data_resident(d, off) {
        data_word(d, off) - 0x8000_0000
    } else {
        data_word(d, off)
    }
}

/// Reassembling a big-data (`db`) record at `off` reads only safe cells:
/// its segment list and each listed segment.
pub open spec fn big_data_safe(d: Seq<u8>, off: int) -> bool {
    let list = le32_at(d, body_start(off) + 4);
    (has_sig(d, off, 0x64, 0x62) && body_len(d, off) >= 8) ==> (cell_safe(d, list) && (readable(
        d,
        list,
    ) ==> offsets4_safe(d, body_start(list), body_len(d, list), le16_at(d, body_start(off) + 2))))
}

/// Reading the data of the value node at `off` reads only safe cells.
pub open spec fn data_safe(d: Seq<u8>, off: int) -> bool {
    &&& off != 0xFFFF_FFFF
    &&& cell_pos(off) + 16 <= d.len()
    &&& (data_size(d, off) == 0 || data_resident(d, off) || (cell_safe(d, data_cell(d, off)) && (
    data_size(d, off) > 16344 ==> big_data_safe(d, data_cell(d, off)))))
}

/// The root key's cell offset, from the base block.
pub open spec fn root_offset(d: Seq<u8>) -> int {
    le32_at(d, 0x24)
}

/// The little-endian `u16` at `p`.
fn read_le16(d: &[u8], p: usize) -> (r: u16)
    requires
        p + 2 <= d@.len(),
    ensures
        r == le16_at(d@, p as int),
{
    d[p] as u16 + d[p + 1] as u16 * 0x100
}

/// The little-endian `u32` at `p`.
pub(crate) fn read_le32(d: &[u8], p: usize) -> (r: u32)
    requires
        p + 4 <= d@.len(),
    ensures
        r == le32_at(d@, p as int),
{
    d[p] as u32 + d[p + 1] as u32 * 0x100 + d[p + 2] as u32 * 0x1_0000 + d[p + 3] as u32 * 0x100_0000
}

/// The image position of the cell at `off`, when its size field lies within
/// the image.
fn header_pos(d: &[u8], off: u32) -> (r: Option<usize>)
    ensures
        match r {
            Some(p) => has_header(d@, off as int) && p == cell_pos(off as int),
            None => !has_header(d@, off as int),
        },
{
    if off == 0xFFFF_FFFF {
        return None;
    }
    let p: u64 = 4096 + off as u64;
    if p + 4 > d.len() as u64 {
        None
    } else {
        Some(p as usize)
    }
}

/// Whether the cell at `off` is safe to read.
pub fn cell_ok(d: &[u8], off: u32) -> (b: bool)
    ensures
        b == cell_safe(d@, off as int),
{
    match header_pos(d, off) {
        None => true,
        Some(p) => read_le32(d, p) < 0xFFFF_FFFD,
    }
}

/// The body (start, length) of the cell at `off`, when it is readable.
fn cell_body(d: &[u8], off: u32) -> (r: Option<(usize, usize)>)
    ensures
        match r {
            Some((s, n)) => readable(d@, off as int) && s == body_start(off as int) && n == body_len(
                d@,
                off as int,
            ) && s + n <= d@.len(),
            None => !readable(d@, off as int),
        },
{
    let p = match header_pos(d, off) {
        Some(p) => p,
        None => {
            return None;
        },
    };
    let w = read_le32(d, p);
    if w < 0x8000_0000 || w >= 0xFFFF_FFFD {
        return None;
    }
    let size: u64 = 0x1_0000_0000 - w as u64;
    if p as u64 + size > d.len() as u64 {
        return None;
    }
    Some((p + 4, (size - 4) as usize))
}

/// Whether the body of the cell at `off` starts with `a b`.
fn sig_is(d: &[u8], off: u32, a: u8, b: u8) -> (r: bool)
    ensures
        r == has_sig(d@, off as int, a, b),
{
    match cell_body(d, off) {
        Some((s, n)) => n >= 2 && d[s] == a && d[s + 1] == b,
        None => false,
    }
}

/// Whether the listed 4-byte offsets are safe to read.
fn offsets4_ok(d: &[u8], start: usize, room: usize, count: u32) -> (b: bool)
    requires
        start + room <= d@.len(),
    ensures
        b == offsets4_safe(d@, start as int, room as int, count as int),
{
    let dl = d.len();
    let mut i: u32 = 0;
    while i < count && 4 * (i as u64) + 4 <= room as u64
        invariant
            dl == d@.len(),
            i <= count,
            start + room <= d@.len(),
            forall|j: int|
                0 <= j < i && 4 * j + 4 <= room ==> cell_safe(d@, #[trigger] entry4(d@, start as int, j)),
        decreases count - i,
    {
        let e = read_le32(d, start + 4 * (i as usize));
        if !cell_ok(d, e) {
            assert(!cell_safe(d@, entry4(d@, start as int, i as int)));
            return false;
        }
        i = i + 1;
    }
    true
}

/// Whether the offsets of the listed 8-byte elements are safe to read.
fn offsets8_ok(d: &[u8], start: usize, room: usize, count: u32) -> (b: bool)
    requires
        start + room <= d@.len(),
    ensures
        b == offsets8_safe(d@, start as int, room as int, count as int),
{
    let dl = d.len();
    let mut i: u32 = 0;
    while i < count && 8 * (i as u64) + 8 <= room as u64
        invariant
            dl == d@.len(),
            i <= count,
            start + room <= d@.len(),
            forall|j: int|
                0 <= j < i && 8 * j + 8 <= room ==> cell_safe(d@, #[trigger] entry8(d@, start as int, j)),
        decreases count - i,
    {
        let e = read_le32(d, start + 8 * (i as usize));
        if !cell_ok(d, e) {
            assert(!cell_safe(d@, entry8(d@, start as int, i as int)));
            return false;
        }
        i = i + 1;
    }
    true
}

/// Whether the key offsets of the leaf at `off` are safe to read.
fn leaf_ok(d: &[u8], off: u32) -> (b: bool)
    ensures
        b == leaf_safe(d@, off as int),
{
    let _len = d.len();
    let (s, n) = match cell_body(d, off) {
        Some(body) => body,
        None => {
            return true;
        },
    };
    if n < 8 {
        return true;
    }
    let a0 = d[s];
    let a1 = d[s + 1];
    let count = read_le16(d, s + 2) as u32;
    if a0 == 0x6c && (a1 == 0x66 || a1 == 0x68) {
        offsets8_ok(d, s + 4, n - 4, count)
    } else if a0 == 0x6c && a1 == 0x69 {
        offsets4_ok(d, s + 4, n - 4, count)
    } else {
        true
    }
}

/// Whether `off` is one of the root indexes of `path`.
fn on_path(path: &Vec<u32>, off: u32) -> (b: bool)
    ensures
        b == path@.map_values(|x: u32| x as int).contains(off as int),
{
    let ghost pm = path@.map_values(|x: u32| x as int);
    let mut i: usize = 0;
    while i < path.len()
        invariant
            i <= path@.len(),
            pm == path@.map_values(|x: u32| x as int),
            forall|j: int| 0 <= j < i ==> pm[j] != off as int,
        decreases path@.len() - i,
    {
        if path[i] == off {
            assert(pm[i as int] == off as int);
            return true;
        }
        i = i + 1;
    }
    false
}

/// Whether collecting the subkey offsets of the index at `off`, reached
/// through the root indexes `path`, is safe and comes to an end.
fn index_from_ok(d: &[u8], off: u32, path: &Vec<u32>) -> (b: bool)
    requires
        path@.len() <= max_index_nesting(),
    ensures
        b == index_safe_from(d@, off as int, path@.map_values(|x: u32| x as int)),
    decreases max_index_nesting() - path@.len(),
{
    let dl = d.len();
    let ghost pm = path@.map_values(|x: u32| x as int);
    if !cell_ok(d, off) {
        return false;
    }
    if !sig_is(d, off, 0x72, 0x69) {
        return leaf_ok(d, off);
    }
    if path.len() >= 256 || on_path(path, off) {
        return false;
    }
    let (s, n) = match cell_body(d, off) {
        Some(body) => body,
        None => {
            return true;
        },
    };
    if n < 8 {
        return true;
    }
    let count = read_le16(d, s + 2) as u32;
    let mut below = path.clone();
    below.push(off);
    let ghost bm = pm.push(off as int);
    assert(below@.map_values(|x: u32| x as int) =~= bm);
    let start = s + 4;
    let room = n - 4;
    let mut i: u32 = 0;
    while i < count && 4 * (i as u64) + 4 <= room as u64
        invariant
            dl == d@.len(),
            i <= count,
            start + room <= d@.len(),
            start == body_start(off as int) + 4,
            room == body_len(d@, off as int) - 4,
            count == index_count(d@, off as int),
            below@.len() == path@.len() + 1,
            path@.len() < max_index_nesting(),
            below@.map_values(|x: u32| x as int) == bm,
            bm == pm.push(off as int),
            pm == path@.map_values(|x: u32| x as int),
            has_sig(d@, off as int, 0x72, 0x69),
            !pm.contains(off as int),
            forall|j: int|
                0 <= j < i && 4 * j + 4 <= room ==> index_safe_from(
                    d@,
                    #[trigger] entry4(d@, start as int, j),
                    bm,
                ),
        decreases count - i,
    {
        let e = read_le32(d, start + 4 * (i as usize));
        if !index_from_ok(d, e, &below) {
            assert(!index_safe_from(d@, entry4(d@, start as int, i as int), bm));
            return false;
        }
        i = i + 1;
    }
    true
}

/// Whether collecting the subkey offsets of the index at `off` is safe and
/// comes to an end.
fn index_ok(d: &[u8], off: u32) -> (b: bool)
    ensures
        b == index_safe(d@, off as int),
{
    let path: Vec<u32> = Vec::new();
    assert(path@.map_values(|x: u32| x as int) =~= Seq::<int>::empty());
    index_from_ok(d, off, &path)
}

/// The image position of the key or value node at `off`, when its first
/// `len` bytes lie within the image.
fn node_pos(d: &[u8], off: u32, len: u64) -> (r: Option<usize>)
    requires
        len <= 48,
    ensures
        match r {
            Some(p) => off != 0xFFFF_FFFF && cell_pos(off as int) + len <= d@.len() && p == cell_pos(
                off as int,
            ),
            None => off == 0xFFFF_FFFF || cell_pos(off as int) + len > d@.len(),
        },
{
    if off == 0xFFFF_FFFF {
        return None;
    }
    let p: u64 = 4096 + off as u64;
    if p + len > d.len() as u64 {
        None
    } else {
        Some(p as usize)
    }
}

/// Whether listing the subkeys of the key node at `off` is safe.
pub fn subkeys_ok(d: &[u8], off: u32) -> (b: bool)
    ensures
        b == subkeys_safe(d@, off as int),
{
    let _len = d.len();
    let p = match node_pos(d, off, 48) {
        Some(p) => p,
        None => {
            return false;
        },
    };
    let count = read_le32(d, p + 24);
    let index = read_le32(d, p + 32);
    count == 0 || index == 0xFFFF_FFFF || index_ok(d, index)
}

/// Whether listing the values of the key node at `off` is safe.
pub fn values_ok(d: &[u8], off: u32) -> (b: bool)
    ensures
        b == values_safe(d@, off as int),
{
    let _len = d.len();
    let p = match node_pos(d, off, 48) {
        Some(p) => p,
        None => {
            return false;
        },
    };
    let count = read_le32(d, p + 40);
    let list = read_le32(d, p + 44);
    if count == 0 || list == 0xFFFF_FFFF {
        return true;
    }
    if !cell_ok(d, list) {
        return false;
    }
    match cell_body(d, list) {
        Some((s, n)) => offsets4_ok(d, s, n, count),
        None => true,
    }
}

/// Whether reassembling the big-data record at `off` is safe.
fn big_data_ok(d: &[u8], off: u32) -> (b: bool)
    ensures
        b == big_data_safe(d@, off as int),
{
    let _len = d.len();
    let (s, n) = match cell_body(d, off) {
        Some(body) => body,
        None => {
            return true;
        },
    };
    if n < 8 || d[s] != 0x64 || d[s + 1] != 0x62 {
        return true;
    }
    let count = read_le16(d, s + 2) as u32;
    let list = read_le32(d, s + 4);
    if !cell_ok(d, list) {
        return false;
    }
    match cell_body(d, list) {
        Some((ls, ln)) => offsets4_ok(d, ls, ln, count),
        None => true,
    }
}

/// Whether reading the data of the value node at `off` is safe.
pub fn data_ok(d: &[u8], off: u32) -> (b: bool)
    ensures
        b == data_safe(d@, off as int),
{
    let _len = d.len();
    let p = match node_pos(d, off, 16) {
        Some(p) => p,
        None => {
            return false;
        },
    };
    let word = read_le32(d, p + 8);
    let cell = read_le32(d, p + 12);
    let size = if word >= 0x8000_0000 {
        word - 0x8000_0000
    } else {
        word
    };
    if size == 0 || word >= 0x8000_0000 {
        return true;
    }
    cell_ok(d, cell) && (size <= 16344 || big_data_ok(d, cell))
}

/// The root key's cell offset, when the base block holds it.
pub fn root_offset_of(d: &[u8]) -> (r: Option<u32>)
    ensures
        match r {
            Some(o) => d@.len() >= 0x28 && o == root_offset(d@),
            None => d@.len() < 0x28,
        },
{
    if d.len() < 0x28 {
        None
    } else {
        Some(read_le32(d, 0x24))
    }
}

} // verus!
