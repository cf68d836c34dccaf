//! Character classes and text primitives over `Seq<char>`, with the
//! executable conversions between `&str`/`String` and `Vec<char>`.
//!
//! Positions follow one convention throughout: a search that finds nothing
//! answers the length of the sequence searched.

use vstd::prelude::*;
use vstd::std_specs::iter::IteratorSpec;

verus! {

broadcast use vstd::string::group_string_axioms;

// ---------------------------------------------------------------------------
// Character classes
// ---------------------------------------------------------------------------

/// Unicode `White_Space` (the property that `char::is_whitespace` tests).
pub open spec fn is_ws(c: char) -> bool {
    let u = c as u32;
    (0x09 <= u && u <= 0x0d) || u == 0x20 || u == 0x85 || u == 0xa0 || u == 0x1680 || (0x2000
        <= u && u <= 0x200a) || u == 0x2028 || u == 0x2029 || u == 0x202f || u == 0x205f || u
        == 0x3000
}

pub open spec fn is_ascii_digit(c: char) -> bool {
    '0' <= c && c <= '9'
}

pub open spec fn is_ascii_upper(c: char) -> bool {
    'A' <= c && c <= 'Z'
}

pub open spec fn is_ascii_lower(c: char) -> bool {
    'a' <= c && c <= 'z'
}

pub open spec fn is_ascii_alpha(c: char) -> bool {
    is_ascii_upper(c) || is_ascii_lower(c)
}

pub open spec fn is_ascii_alnum(c: char) -> bool {
    is_ascii_alpha(c) || is_ascii_digit(c)
}

pub open spec fn is_ascii_hexdigit(c: char) -> bool {
    is_ascii_digit(c) || ('a' <= c && c <= 'f') || ('A' <= c && c <= 'F')
}

/// ASCII upper-casing; every other character is unchanged.
pub open spec fn ascii_upper(c: char) -> char {
    if is_ascii_lower(c) {
        ((c as u32) - 32) as char
    } else {
        c
    }
}

/// ASCII lower-casing; every other character is unchanged.
pub open spec fn ascii_lower(c: char) -> char {
    if is_ascii_upper(c) {
        ((c as u32) + 32) as char
    } else {
        c
    }
}

/// Upper-casing an ASCII letter gives an upper-case ASCII letter.
pub proof fn lemma_upper_of_alpha(c: char)
    requires
        is_ascii_alpha(c),
    ensures
        is_ascii_upper(ascii_upper(c)),
{
}

pub open spec fn seq_upper(s: Seq<char>) -> Seq<char> {
    s.map_values(|c: char| ascii_upper(c))
}

pub open spec fn seq_lower(s: Seq<char>) -> Seq<char> {
    s.map_values(|c: char| ascii_lower(c))
}

/// Number of bytes that `c` occupies in UTF-8.
pub open spec fn utf8_len(c: char) -> nat {
    let u = c as u32;
    if u < 0x80 {
        1
    } else if u < 0x800 {
        2
    } else if u < 0x10000 {
        3
    } else {
        4
    }
}

/// Number of bytes that `s` occupies in UTF-8 (what `str::len` answers).
pub open spec fn utf8_size(s: Seq<char>) -> nat
    decreases s.len(),
{
    if s.len() == 0 {
        0
    } else {
        utf8_size(s.drop_last()) + utf8_len(s.last())
    }
}

pub fn char_is_ws(c: char) -> (b: bool)
    ensures
        b == is_ws(c),
{
    let u = c as u32;
    (0x09 <= u && u <= 0x0d) || u == 0x20 || u == 0x85 || u == 0xa0 || u == 0x1680 || (0x2000
        <= u && u <= 0x200a) || u == 0x2028 || u == 0x2029 || u == 0x202f || u == 0x205f || u
        == 0x3000
}

pub fn char_is_digit(c: char) -> (b: bool)
    ensures
        b == is_ascii_digit(c),
{
    '0' <= c && c <= '9'
}

pub fn char_is_alpha(c: char) -> (b: bool)
    ensures
        b == is_ascii_alpha(c),
{
    ('A' <= c && c <= 'Z') || ('a' <= c && c <= 'z')
}

pub fn char_is_alnum(c: char) -> (b: bool)
    ensures
        b == is_ascii_alnum(c),
{
    char_is_alpha(c) || char_is_digit(c)
}

pub fn char_is_hexdigit(c: char) -> (b: bool)
    ensures
        b == is_ascii_hexdigit(c),
{
    ('0' <= c && c <= '9') || ('a' <= c && c <= 'f') || ('A' <= c && c <= 'F')
}

pub fn char_upper(c: char) -> (r: char)
    ensures
        r == ascii_upper(c),
{
    if 'a' <= c && c <= 'z' {
        let u = (c as u32) - 32;
        match char_from_u32(u) {
            Some(r) => r,
            None => c,
        }
    } else {
        c
    }
}

pub fn char_lower(c: char) -> (r: char)
    ensures
        r == ascii_lower(c),
{
    if 'A' <= c && c <= 'Z' {
        let u = (c as u32) + 32;
        match char_from_u32(u) {
            Some(r) => r,
            None => c,
        }
    } else {
        c
    }
}

/// `char::from_u32`: the char of a Unicode scalar value; `None` for a
/// surrogate or a value past U+10FFFF.
#[verifier::external_body]
pub(crate) fn char_from_u32(v: u32) -> (r: Option<char>)
    ensures
        r == (if v <= 0xD7FF || (0xE000 <= v && v <= 0x10FFFF) {
            Some(v as char)
        } else {
            None
        }),
{
    char::from_u32(v)
}

pub fn char_utf8_len(c: char) -> (n: usize)
    ensures
        n == utf8_len(c),
{
    let u = c as u32;
    if u < 0x80 {
        1
    } else if u < 0x800 {
        2
    } else if u < 0x10000 {
        3
    } else {
        4
    }
}

// ---------------------------------------------------------------------------
// Positions and searches
// ---------------------------------------------------------------------------

/// The first position at or after `i` holding `c`, or `s.len()`.
pub open spec fn pos_char_from(s: Seq<char>, c: char, i: int) -> int
    decreases s.len() - i,
{
    if i < 0 || i >= s.len() {
        s.len() as int
    } else if s[i] == c {
        i
    } else {
        pos_char_from(s, c, i + 1)
    }
}

/// The first position at or after `i` holding whitespace, or `s.len()`.
pub open spec fn pos_ws_from(s: Seq<char>, i: int) -> int
    decreases s.len() - i,
{
    if i < 0 || i >= s.len() {
        s.len() as int
    } else if is_ws(s[i]) {
        i
    } else {
        pos_ws_from(s, i + 1)
    }
}

/// The first position at or after `i` holding non-whitespace, or `s.len()`.
pub open spec fn pos_non_ws_from(s: Seq<char>, i: int) -> int
    decreases s.len() - i,
{
    if i < 0 || i >= s.len() {
        s.len() as int
    } else if !is_ws(s[i]) {
        i
    } else {
        pos_non_ws_from(s, i + 1)
    }
}

/// The last position before `e` holding whitespace, or `-1`.
pub open spec fn rpos_ws_before(s: Seq<char>, e: int) -> int
    decreases e,
{
    if e <= 0 || e > s.len() {
        -1
    } else if is_ws(s[e - 1]) {
        e - 1
    } else {
        rpos_ws_before(s, e - 1)
    }
}

/// The end of `s` with trailing whitespace removed.
pub open spec fn end_non_ws(s: Seq<char>, e: int) -> int
    decreases e,
{
    if e <= 0 || e > s.len() {
        0
    } else if is_ws(s[e - 1]) {
        end_non_ws(s, e - 1)
    } else {
        e
    }
}

pub open spec fn trim_start(s: Seq<char>) -> Seq<char> {
    s.skip(pos_non_ws_from(s, 0))
}

pub open spec fn trim_end(s: Seq<char>) -> Seq<char> {
    s.take(end_non_ws(s, s.len() as int))
}

/// `str::trim`: leading and trailing whitespace removed.
pub open spec fn trim(s: Seq<char>) -> Seq<char> {
    trim_end(trim_start(s))
}

pub open spec fn starts_with(s: Seq<char>, p: Seq<char>) -> bool {
    p.len() <= s.len() && s.take(p.len() as int) == p
}

/// `p` occurs in `s` at position `j`.
pub open spec fn matches_at(s: Seq<char>, p: Seq<char>, j: int) -> bool {
    0 <= j && j + p.len() <= s.len() && s.subrange(j, j + p.len()) == p
}

/// The first position at or after `i` where `p` occurs, or `s.len()`.
pub open spec fn pos_pat_from(s: Seq<char>, p: Seq<char>, i: int) -> int
    decreases s.len() - i,
{
    if i < 0 || i >= s.len() {
        s.len() as int
    } else if matches_at(s, p, i) {
        i
    } else {
        pos_pat_from(s, p, i + 1)
    }
}

/// The last position before `e` where `p` occurs entirely inside `s`, or `-1`.
pub open spec fn rpos_pat_before(s: Seq<char>, p: Seq<char>, e: int) -> int
    decreases e,
{
    if e <= 0 || e > s.len() {
        -1
    } else if matches_at(s, p, e - 1) {
        e - 1
    } else {
        rpos_pat_before(s, p, e - 1)
    }
}

/// `s` contains `p`.
pub open spec fn has_pat(s: Seq<char>, p: Seq<char>) -> bool {
    pos_pat_from(s, p, 0) < s.len()
}

// ---------------------------------------------------------------------------
// Splitting
// ---------------------------------------------------------------------------

/// `str::split(c)` from position `i`: the pieces between occurrences of `c`.
pub open spec fn split_char_from(s: Seq<char>, c: char, i: int) -> Seq<Seq<char>>
    decreases s.len() - i,
{
    if i < 0 || i > s.len() {
        seq![]
    } else {
        let j = pos_char_from(s, c, i);
        proof {
            lemma_pos_char_from(s, c, i);
        }
        if j >= s.len() {
            seq![s.subrange(i, s.len() as int)]
        } else {
            seq![s.subrange(i, j)] + split_char_from(s, c, j + 1)
        }
    }
}

pub open spec fn split_char(s: Seq<char>, c: char) -> Seq<Seq<char>> {
    split_char_from(s, c, 0)
}

/// `str::split_whitespace` from position `i`: the maximal runs of
/// non-whitespace characters.
pub open spec fn ws_tokens_from(s: Seq<char>, i: int) -> Seq<Seq<char>>
    decreases s.len() - i,
{
    if i < 0 || i > s.len() {
        seq![]
    } else {
        let a = pos_non_ws_from(s, i);
        proof {
            lemma_pos_non_ws_from(s, i);
        }
        if a >= s.len() {
            seq![]
        } else {
            let b = pos_ws_from(s, a);
            proof {
                lemma_pos_ws_from(s, a);
            }
            seq![s.subrange(a, b)] + ws_tokens_from(s, b)
        }
    }
}

pub open spec fn ws_tokens(s: Seq<char>) -> Seq<Seq<char>> {
    ws_tokens_from(s, 0)
}

/// A line without its terminating `\r`, when it had one.
pub open spec fn strip_cr(l: Seq<char>) -> Seq<char> {
    if l.len() > 0 && l.last() == '\r' {
        l.drop_last()
    } else {
        l
    }
}

/// `str::lines` from position `i`: pieces ended by `\n` (a `\r` before the
/// `\n` dropped too); a final piece without `\n` is kept as it stands.
pub open spec fn lines_from(s: Seq<char>, i: int) -> Seq<Seq<char>>
    decreases s.len() - i,
{
    if i < 0 || i >= s.len() {
        seq![]
    } else {
        let j = pos_char_from(s, '\n', i);
        proof {
            lemma_pos_char_from(s, '\n', i);
        }
        if j >= s.len() {
            seq![s.subrange(i, s.len() as int)]
        } else {
            seq![strip_cr(s.subrange(i, j))] + lines_from(s, j + 1)
        }
    }
}

pub open spec fn lines(s: Seq<char>) -> Seq<Seq<char>> {
    lines_from(s, 0)
}

// ---------------------------------------------------------------------------
// Lemmas on positions
// ---------------------------------------------------------------------------

pub proof fn lemma_pos_char_from(s: Seq<char>, c: char, i: int)
    requires
        0 <= i <= s.len(),
    ensures
        i <= pos_char_from(s, c, i) <= s.len(),
        pos_char_from(s, c, i) < s.len() ==> s[pos_char_from(s, c, i)] == c,
        forall|k: int| i <= k < pos_char_from(s, c, i) ==> s[k] != c,
    decreases s.len() - i,
{
    if i < s.len() && s[i] != c {
        lemma_pos_char_from(s, c, i + 1);
    }
}

pub proof fn lemma_pos_ws_from(s: Seq<char>, i: int)
    requires
        0 <= i <= s.len(),
    ensures
        i <= pos_ws_from(s, i) <= s.len(),
        pos_ws_from(s, i) < s.len() ==> is_ws(s[pos_ws_from(s, i)]),
        forall|k: int| i <= k < pos_ws_from(s, i) ==> !is_ws(s[k]),
    decreases s.len() - i,
{
    if i < s.len() && !is_ws(s[i]) {
        lemma_pos_ws_from(s, i + 1);
    }
}

pub proof fn lemma_pos_non_ws_from(s: Seq<char>, i: int)
    requires
        0 <= i <= s.len(),
    ensures
        i <= pos_non_ws_from(s, i) <= s.len(),
        pos_non_ws_from(s, i) < s.len() ==> !is_ws(s[pos_non_ws_from(s, i)]),
        forall|k: int| i <= k < pos_non_ws_from(s, i) ==> is_ws(s[k]),
    decreases s.len() - i,
{
    if i < s.len() && is_ws(s[i]) {
        lemma_pos_non_ws_from(s, i + 1);
    }
}

pub proof fn lemma_end_non_ws(s: Seq<char>, e: int)
    requires
        0 <= e <= s.len(),
    ensures
        0 <= end_non_ws(s, e) <= e,
        end_non_ws(s, e) > 0 ==> !is_ws(s[end_non_ws(s, e) - 1]),
        forall|k: int| end_non_ws(s, e) <= k < e ==> is_ws(s[k]),
    decreases e,
{
    if e > 0 && is_ws(s[e - 1]) {
        lemma_end_non_ws(s, e - 1);
    }
}

pub proof fn lemma_rpos_ws_before(s: Seq<char>, e: int)
    requires
        0 <= e <= s.len(),
    ensures
        -1 <= rpos_ws_before(s, e) < e,
        rpos_ws_before(s, e) >= 0 ==> is_ws(s[rpos_ws_before(s, e)]),
        forall|k: int| rpos_ws_before(s, e) < k < e ==> !is_ws(s[k]),
    decreases e,
{
    if e > 0 && !is_ws(s[e - 1]) {
        lemma_rpos_ws_before(s, e - 1);
    }
}

pub proof fn lemma_pos_pat_from(s: Seq<char>, p: Seq<char>, i: int)
    requires
        0 <= i <= s.len(),
    ensures
        i <= pos_pat_from(s, p, i) <= s.len(),
        pos_pat_from(s, p, i) < s.len() ==> matches_at(s, p, pos_pat_from(s, p, i)),
        forall|k: int| i <= k < pos_pat_from(s, p, i) ==> !matches_at(s, p, k),
    decreases s.len() - i,
{
    if i < s.len() && !matches_at(s, p, i) {
        lemma_pos_pat_from(s, p, i + 1);
    }
}

pub proof fn lemma_rpos_pat_before(s: Seq<char>, p: Seq<char>, e: int)
    requires
        0 <= e <= s.len(),
    ensures
        -1 <= rpos_pat_before(s, p, e) < e,
        rpos_pat_before(s, p, e) >= 0 ==> matches_at(s, p, rpos_pat_before(s, p, e)),
        forall|k: int| rpos_pat_before(s, p, e) < k < e ==> !matches_at(s, p, k),
    decreases e,
{
    if e > 0 && !matches_at(s, p, e - 1) {
        lemma_rpos_pat_before(s, p, e - 1);
    }
}

// ---------------------------------------------------------------------------
// Executable searches
// ---------------------------------------------------------------------------

/// First position at or after `from` holding `c`, or `s.len()`.
pub fn find_char(s: &[char], c: char, from: usize) -> (r: usize)
    requires
        from <= s@.len(),
    ensures
        r == pos_char_from(s@, c, from as int),
{
    let mut i = from;
    while i < s.len()
        invariant
            from <= i <= s@.len(),
            pos_char_from(s@, c, from as int) == pos_char_from(s@, c, i as int),
        decreases s@.len() - i,
    {
        if s[i] == c {
            return i;
        }
        i = i + 1;
    }
    i
}

/// First position at or after `from` holding whitespace, or `s.len()`.
pub fn find_ws(s: &[char], from: usize) -> (r: usize)
    requires
        from <= s@.len(),
    ensures
        r == pos_ws_from(s@, from as int),
{
    let mut i = from;
    while i < s.len()
        invariant
            from <= i <= s@.len(),
            pos_ws_from(s@, from as int) == pos_ws_from(s@, i as int),
        decreases s@.len() - i,
    {
        if char_is_ws(s[i]) {
            return i;
        }
        i = i + 1;
    }
    i
}

/// First position at or after `from` holding non-whitespace, or `s.len()`.
pub fn find_non_ws(s: &[char], from: usize) -> (r: usize)
    requires
        from <= s@.len(),
    ensures
        r == pos_non_ws_from(s@, from as int),
{
    let mut i = from;
    while i < s.len()
        invariant
            from <= i <= s@.len(),
            pos_non_ws_from(s@, from as int) == pos_non_ws_from(s@, i as int),
        decreases s@.len() - i,
    {
        if !char_is_ws(s[i]) {
            return i;
        }
        i = i + 1;
    }
    i
}

/// The end of `s[..e]` once trailing whitespace is removed.
pub fn end_without_ws(s: &[char], e: usize) -> (r: usize)
    requires
        e <= s@.len(),
    ensures
        r == end_non_ws(s@, e as int),
{
    let mut j = e;
    while j > 0
        invariant
            j <= e <= s@.len(),
            end_non_ws(s@, e as int) == end_non_ws(s@, j as int),
        decreases j,
    {
        if !char_is_ws(s[j - 1]) {
            return j;
        }
        j = j - 1;
    }
    0
}

/// The last whitespace position before `e`, if any.
pub fn rfind_ws(s: &[char], e: usize) -> (r: Option<usize>)
    requires
        e <= s@.len(),
    ensures
        match r {
            Some(j) => rpos_ws_before(s@, e as int) == j as int,
            None => rpos_ws_before(s@, e as int) == -1,
        },
{
    let mut j = e;
    while j > 0
        invariant
            j <= e <= s@.len(),
            rpos_ws_before(s@, e as int) == rpos_ws_before(s@, j as int),
        decreases j,
    {
        if char_is_ws(s[j - 1]) {
            return Some(j - 1);
        }
        j = j - 1;
    }
    None
}

/// Whether `p` occurs in `s` at position `j`.
pub fn pat_at(s: &[char], p: &[char], j: usize) -> (b: bool)
    ensures
        b == matches_at(s@, p@, j as int),
{
    if j > s.len() || p.len() > s.len() - j {
        return false;
    }
    let n = s.len();
    let mut k: usize = 0;
    while k < p.len()
        invariant
            n == s@.len(),
            j + p@.len() <= s@.len(),
            j <= s@.len(),
            k <= p@.len(),
            forall|t: int| 0 <= t < k ==> s@[j + t] == p@[t],
        decreases p@.len() - k,
    {
        if s[j + k] != p[k] {
            assert(s@.subrange(j as int, j + p@.len())[k as int] != p@[k as int]);
            return false;
        }
        k = k + 1;
    }
    assert(s@.subrange(j as int, j + p@.len()) =~= p@);
    true
}

/// First position at or after `from` where `p` occurs, or `s.len()`.
pub fn find_pat(s: &[char], p: &[char], from: usize) -> (r: usize)
    requires
        from <= s@.len(),
    ensures
        r == pos_pat_from(s@, p@, from as int),
{
    let mut i = from;
    while i < s.len()
        invariant
            from <= i <= s@.len(),
            pos_pat_from(s@, p@, from as int) == pos_pat_from(s@, p@, i as int),
        decreases s@.len() - i,
    {
        if pat_at(s, p, i) {
            return i;
        }
        i = i + 1;
    }
    i
}

/// The last position before `e` where `p` occurs, if any.
pub fn rfind_pat(s: &[char], p: &[char], e: usize) -> (r: Option<usize>)
    requires
        e <= s@.len(),
    ensures
        match r {
            Some(j) => rpos_pat_before(s@, p@, e as int) == j as int,
            None => rpos_pat_before(s@, p@, e as int) == -1,
        },
{
    let mut j = e;
    while j > 0
        invariant
            j <= e <= s@.len(),
            rpos_pat_before(s@, p@, e as int) == rpos_pat_before(s@, p@, j as int),
        decreases j,
    {
        if pat_at(s, p, j - 1) {
            return Some(j - 1);
        }
        j = j - 1;
    }
    None
}

pub fn has_prefix(s: &[char], p: &[char]) -> (b: bool)
    ensures
        b == starts_with(s@, p@),
{
    let b = pat_at(s, p, 0);
    proof {
        if p@.len() <= s@.len() {
            assert(s@.subrange(0, p@.len() as int) == s@.take(p@.len() as int));
        }
    }
    b
}

// ---------------------------------------------------------------------------
// Conversions
// ---------------------------------------------------------------------------

/// The characters of `s`, in order.
pub fn chars_of(s: &str) -> (v: Vec<char>)
    ensures
        v@ == s@,
{
    let mut v: Vec<char> = Vec::new();
    let mut it = s.chars();
    broadcast use vstd::string::next_postcondition;

    assert(it.remaining() == s@);
    loop
        invariant
            v@ + it.remaining() == s@,
            it.obeys_prophetic_iter_laws(),
            it.decrease() is Some,
        decreases it.decrease()->0,
    {
        let ghost before = it.remaining();
        match it.next() {
            Some(c) => {
                v.push(c);
                assert(v@ + it.remaining() == s@) by {
                    assert(before == seq![c] + it.remaining());
                }
            },
            None => {
                assert(it.remaining().len() == 0);
                assert(v@ == s@);
                return v;
            },
        }
    }
}

/// Appends `c` to `s` (`String::push`).
#[verifier::external_body]
fn push_char(s: &mut String, c: char)
    ensures
        final(s)@ == old(s)@.push(c),
{
    s.push(c);
}

/// The string holding the characters of `v`.
pub fn string_of(v: &[char]) -> (s: String)
    ensures
        s@ == v@,
{
    let mut s = String::new();
    let mut i: usize = 0;
    while i < v.len()
        invariant
            i <= v@.len(),
            s@ == v@.take(i as int),
        decreases v@.len() - i,
    {
        push_char(&mut s, v[i]);
        i = i + 1;
        assert(s@ =~= v@.take(i as int));
    }
    assert(v@.take(v@.len() as int) =~= v@);
    s
}

/// A fresh vector holding `s[a..b]`.
pub fn copy_range(s: &[char], a: usize, b: usize) -> (v: Vec<char>)
    requires
        a <= b <= s@.len(),
    ensures
        v@ == s@.subrange(a as int, b as int),
{
    let mut v: Vec<char> = Vec::new();
    let mut i = a;
    while i < b
        invariant
            a <= i <= b <= s@.len(),
            v@ == s@.subrange(a as int, i as int),
        decreases b - i,
    {
        v.push(s[i]);
        i = i + 1;
        assert(v@ =~= s@.subrange(a as int, i as int));
    }
    v
}

} // verus!

verus! {

/// Whether `a` and `b` hold the same characters.
pub fn same_chars(a: &[char], b: &[char]) -> (r: bool)
    ensures
        r == (a@ == b@),
{
    if a.len() != b.len() {
        return false;
    }
    let mut i: usize = 0;
    while i < a.len()
        invariant
            a@.len() == b@.len(),
            i <= a@.len(),
            forall|k: int| 0 <= k < i ==> a@[k] == b@[k],
        decreases a@.len() - i,
    {
        if a[i] != b[i] {
            return false;
        }
        i = i + 1;
    }
    assert(a@ =~= b@);
    true
}

/// Whether `v` holds exactly the characters of `lit`.
pub fn is_str(v: &[char], lit: &str) -> (r: bool)
    ensures
        r == (v@ == lit@),
{
    let l = chars_of(lit);
    same_chars(v, l.as_slice())
}

/// `v` with ASCII letters upper-cased.
pub fn upper_chars(v: &[char]) -> (r: Vec<char>)
    ensures
        r@ == seq_upper(v@),
{
    let mut r: Vec<char> = Vec::new();
    let mut i: usize = 0;
    while i < v.len()
        invariant
            i <= v@.len(),
            r@ == seq_upper(v@.take(i as int)),
        decreases v@.len() - i,
    {
        r.push(char_upper(v[i]));
        i = i + 1;
        assert(r@ =~= seq_upper(v@.take(i as int)));
    }
    assert(v@.take(v@.len() as int) =~= v@);
    r
}

/// `v` with ASCII letters lower-cased.
pub fn lower_chars(v: &[char]) -> (r: Vec<char>)
    ensures
        r@ == seq_lower(v@),
{
    let mut r: Vec<char> = Vec::new();
    let mut i: usize = 0;
    while i < v.len()
        invariant
            i <= v@.len(),
            r@ == seq_lower(v@.take(i as int)),
        decreases v@.len() - i,
    {
        r.push(char_lower(v[i]));
        i = i + 1;
        assert(r@ =~= seq_lower(v@.take(i as int)));
    }
    assert(v@.take(v@.len() as int) =~= v@);
    r
}

pub proof fn lemma_upper_idempotent(s: Seq<char>)
    ensures
        seq_upper(seq_upper(s)) == seq_upper(s),
{
    assert(seq_upper(seq_upper(s)) =~= seq_upper(s));
}

} // verus!

verus! {

/// The views of a sequence of character vectors.
pub open spec fn seqs_view(v: Seq<Vec<char>>) -> Seq<Seq<char>> {
    v.map_values(|x: Vec<char>| x@)
}

pub open spec fn opt_seq(o: Option<Vec<char>>) -> Option<Seq<char>> {
    match o {
        Some(v) => Some(v@),
        None => None,
    }
}

pub proof fn lemma_split_char_nonempty(s: Seq<char>, c: char, i: int)
    requires
        0 <= i <= s.len(),
    ensures
        split_char_from(s, c, i).len() >= 1,
{
    lemma_pos_char_from(s, c, i);
}

/// `str::split(c)`.
pub fn split_on(s: &[char], c: char) -> (pieces: Vec<Vec<char>>)
    ensures
        seqs_view(pieces@) == split_char(s@, c),
        pieces@.len() >= 1,
{
    let mut pieces: Vec<Vec<char>> = Vec::new();
    let mut start: usize = 0;
    proof {
        lemma_split_char_nonempty(s@, c, 0);
    }
    loop
        invariant
            start <= s@.len(),
            seqs_view(pieces@) + split_char_from(s@, c, start as int) == split_char(s@, c),
            pieces@.len() >= 1 || start == 0,
        decreases s@.len() - start,
    {
        let j = find_char(s, c, start);
        proof {
            lemma_pos_char_from(s@, c, start as int);
        }
        if j >= s.len() {
            let piece = copy_range(s, start, s.len());
            let ghost before = pieces@;
            pieces.push(piece);
            assert(seqs_view(pieces@) == seqs_view(before).push(piece@));
            assert(seqs_view(pieces@) =~= split_char(s@, c));
            return pieces;
        } else {
            let piece = copy_range(s, start, j);
            let ghost before = pieces@;
            pieces.push(piece);
            assert(seqs_view(pieces@) == seqs_view(before).push(piece@));
            assert(seqs_view(pieces@) + split_char_from(s@, c, j + 1) =~= split_char(s@, c));
            start = j + 1;
        }
    }
}

/// `str::split_whitespace`.
pub fn ws_tokens_exec(s: &[char]) -> (toks: Vec<Vec<char>>)
    ensures
        seqs_view(toks@) == ws_tokens(s@),
{
    let mut toks: Vec<Vec<char>> = Vec::new();
    let mut i: usize = 0;
    loop
        invariant
            i <= s@.len(),
            seqs_view(toks@) + ws_tokens_from(s@, i as int) == ws_tokens(s@),
        decreases s@.len() - i,
    {
        let a = find_non_ws(s, i);
        proof {
            lemma_pos_non_ws_from(s@, i as int);
        }
        if a >= s.len() {
            assert(ws_tokens_from(s@, i as int) == Seq::<Seq<char>>::empty());
            assert(seqs_view(toks@) =~= ws_tokens(s@));
            return toks;
        }
        let b = find_ws(s, a);
        proof {
            lemma_pos_ws_from(s@, a as int);
        }
        let piece = copy_range(s, a, b);
        let ghost before = toks@;
        toks.push(piece);
        assert(seqs_view(toks@) == seqs_view(before).push(piece@));
        assert(seqs_view(toks@) + ws_tokens_from(s@, b as int) =~= ws_tokens(s@));
        i = b;
    }
}

/// `str::lines`.
pub fn lines_exec(s: &[char]) -> (ls: Vec<Vec<char>>)
    ensures
        seqs_view(ls@) == lines(s@),
{
    let mut ls: Vec<Vec<char>> = Vec::new();
    let mut i: usize = 0;
    while i < s.len()
        invariant
            i <= s@.len(),
            seqs_view(ls@) + lines_from(s@, i as int) == lines(s@),
        decreases s@.len() - i,
    {
        let j = find_char(s, '\n', i);
        proof {
            lemma_pos_char_from(s@, '\n', i as int);
        }
        let ghost before = ls@;
        if j >= s.len() {
            let piece = copy_range(s, i, s.len());
            ls.push(piece);
            assert(seqs_view(ls@) == seqs_view(before).push(piece@));
            assert(lines_from(s@, s@.len() as int) == Seq::<Seq<char>>::empty());
            assert(seqs_view(ls@) + lines_from(s@, s@.len() as int) =~= lines(s@));
            i = s.len();
        } else {
            let mut e = j;
            if e > i && s[e - 1] == '\r' {
                e = e - 1;
            }
            let piece = copy_range(s, i, e);
            assert(piece@ == strip_cr(s@.subrange(i as int, j as int))) by {
                if j > i && s@[j - 1] == '\r' {
                    assert(s@.subrange(i as int, j as int).drop_last() =~= s@.subrange(
                        i as int,
                        j - 1,
                    ));
                }
            }
            ls.push(piece);
            assert(seqs_view(ls@) == seqs_view(before).push(piece@));
            assert(seqs_view(ls@) + lines_from(s@, j + 1) =~= lines(s@));
            i = j + 1;
        }
    }
    assert(lines_from(s@, i as int) == Seq::<Seq<char>>::empty());
    assert(seqs_view(ls@) =~= lines(s@));
    ls
}

/// `str::trim` on a character slice.
pub fn trim_exec(s: &[char]) -> (t: Vec<char>)
    ensures
        t@ == trim(s@),
{
    let a = find_non_ws(s, 0);
    proof {
        lemma_pos_non_ws_from(s@, 0);
    }
    let tail = copy_range(s, a, s.len());
    assert(tail@ == s@.skip(a as int));
    let e = end_without_ws(tail.as_slice(), tail.len());
    proof {
        lemma_end_non_ws(tail@, tail@.len() as int);
    }
    let t = copy_range(tail.as_slice(), 0, e);
    assert(t@ == tail@.take(e as int));
    t
}

/// `str::trim_start` on a character slice.
pub fn trim_start_exec(s: &[char]) -> (t: Vec<char>)
    ensures
        t@ == trim_start(s@),
{
    let a = find_non_ws(s, 0);
    proof {
        lemma_pos_non_ws_from(s@, 0);
    }
    let t = copy_range(s, a, s.len());
    assert(t@ == s@.skip(a as int));
    t
}

} // verus!

verus! {

/// `a`, then `sep`, then `b`.
pub fn join_with(a: &[char], sep: char, b: &[char]) -> (r: Vec<char>)
    ensures
        r@ == a@ + seq![sep] + b@,
{
    let mut r = copy_range(a, 0, a.len());
    assert(a@.subrange(0, a@.len() as int) == a@);
    r.push(sep);
    let mut i: usize = 0;
    while i < b.len()
        invariant
            i <= b@.len(),
            r@ == a@ + seq![sep] + b@.take(i as int),
        decreases b@.len() - i,
    {
        r.push(b[i]);
        i = i + 1;
        assert(r@ =~= a@ + seq![sep] + b@.take(i as int));
    }
    assert(b@.take(b@.len() as int) =~= b@);
    r
}

} // verus!
