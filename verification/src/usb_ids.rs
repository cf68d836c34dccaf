//! USB ID resolution: `VID`/`PID` to vendor / product name.
//!
//! A non-authoritative enrichment over [`DeviceConnection`](crate::device::DeviceConnection):
//! the raw numeric `vid`/`pid` parsed from evidence stay the authoritative
//! values; a resolved name is a lookup convenience for the analyst.
//!
//! Two sources: [`UsbIdDb::common`], a small hand-authored table of common,
//! forensically relevant vendors, and [`UsbIdDb::parse`], which reads the
//! linux-usb.org `usb.ids` text format supplied by the operator at run time.

use vstd::prelude::*;
use std::collections::BTreeMap;
use crate::text::{trim, lines, is_ascii_hexdigit, is_ws, seqs_view, chars_of, lines_exec, trim_exec, copy_range, char_is_hexdigit, char_is_ws, string_of};
use crate::numbers::{digits_value, digit_value, all_digits, parse_digits};

verus! {

broadcast use vstd::std_specs::btree::group_btree_axioms, vstd::laws_cmp::group_laws_cmp;

/// The mathematical form of a [`UsbIdDb`]: vendor names by VID and product
/// names by (VID, PID).
pub struct UsbIdView {
    pub vendors: Map<u16, Seq<char>>,
    pub products: Map<(u16, u16), Seq<char>>,
}

/// A USB-ID lookup table: `VID -> vendor name` and `(VID, PID) -> product name`.
#[derive(Debug, Clone)]
pub struct UsbIdDb {
    vendors: BTreeMap<u16, String>,
    products: BTreeMap<(u16, u16), String>,
}

impl View for UsbIdDb {
    type V = UsbIdView;

    closed spec fn view(&self) -> UsbIdView {
        UsbIdView {
            vendors: self.vendors@.map_values(|s: String| s@),
            products: self.products@.map_values(|s: String| s@),
        }
    }
}

pub open spec fn all_hex(s: Seq<char>) -> bool {
    forall|i: int| 0 <= i < s.len() ==> is_ascii_hexdigit(#[trigger] s[i])
}

/// A `usb.ids` entry `XXXX<whitespace>name`: four hex digits, whitespace,
/// and a non-empty name (trimmed).
pub open spec fn id_entry(s: Seq<char>) -> Option<(u16, Seq<char>)> {
    if s.len() > 4 && all_hex(s.take(4)) && is_ws(s[4]) && trim(s.skip(4)).len() > 0 {
        Some((digits_value(s.take(4), 16) as u16, trim(s.skip(4))))
    } else {
        None
    }
}

/// The reader state: the tables so far and the vendor whose products follow.
pub struct IdsState {
    pub vendors: Map<u16, Seq<char>>,
    pub products: Map<(u16, u16), Seq<char>>,
    pub cur: Option<u16>,
}

/// One `usb.ids` line: a blank or `#` comment line changes nothing; a line
/// starting with two tabs (an interface) changes nothing; a line starting
/// with one tab is a product of the current vendor; any other line is a
/// vendor entry (which becomes the current vendor) or, if it is not one, a
/// section line that ends the current vendor's products.
pub open spec fn ids_step(st: IdsState, line: Seq<char>) -> IdsState {
    if line.len() == 0 || line[0] == '#' {
        st
    } else if line[0] == '\t' {
        if line.len() > 1 && line[1] == '\t' {
            st
        } else {
            match (st.cur, id_entry(line.drop_first())) {
                (Some(v), Some((p, name))) => IdsState {
                    products: st.products.insert((v, p), name),
                    ..st
                },
                _ => st,
            }
        }
    } else {
        match id_entry(line) {
            Some((v, name)) => IdsState { vendors: st.vendors.insert(v, name), cur: Some(v), ..st },
            None => IdsState { cur: None, ..st },
        }
    }
}

pub open spec fn ids_from(ls: Seq<Seq<char>>, k: int, st: IdsState) -> IdsState
    decreases ls.len() - k,
{
    if k < 0 || k >= ls.len() {
        st
    } else {
        ids_from(ls, k + 1, ids_step(st, ls[k]))
    }
}

pub open spec fn ids_empty() -> IdsState {
    IdsState { vendors: Map::empty(), products: Map::empty(), cur: None }
}

/// The tables a `usb.ids` text describes.
pub open spec fn ids_of(text: Seq<char>) -> UsbIdView {
    let st = ids_from(lines(text), 0, ids_empty());
    UsbIdView { vendors: st.vendors, products: st.products }
}

pub open spec fn pow16(n: nat) -> int
    decreases n,
{
    if n == 0 {
        1
    } else {
        16 * pow16((n - 1) as nat)
    }
}

proof fn lemma_hex_value_bound(s: Seq<char>)
    requires
        all_hex(s),
    ensures
        all_digits(s, 16),
        0 <= digits_value(s, 16) < pow16(s.len()),
    decreases s.len(),
{
    assert(all_digits(s, 16)) by {
        assert forall|i: int| 0 <= i < s.len() implies digit_value(#[trigger] s[i], 16) >= 0 by {
            assert(is_ascii_hexdigit(s[i]));
        }
    }
    if s.len() > 0 {
        let d = s.drop_last();
        assert(all_hex(d)) by {
            assert forall|i: int| 0 <= i < d.len() implies is_ascii_hexdigit(#[trigger] d[i]) by {
                assert(d[i] == s[i]);
            }
        }
        lemma_hex_value_bound(d);
        let dv = digit_value(s.last(), 16);
        assert(is_ascii_hexdigit(s[s.len() - 1]));
        assert(0 <= dv < 16);
        let p = pow16(d.len());
        let v = digits_value(d, 16);
        assert(pow16(s.len()) == 16 * p);
        assert(0 <= v * 16 + dv < 16 * p) by (nonlinear_arith)
            requires
                0 <= v < p,
                0 <= dv < 16,
        ;
    }
}

fn id_entry_exec(s: &[char]) -> (r: Option<(u16, Vec<char>)>)
    ensures
        match r {
            Some((v, n)) => id_entry(s@) == Some((v, n@)),
            None => id_entry(s@) is None,
        },
{
    if s.len() <= 4 {
        return None;
    }
    let four = copy_range(s, 0, 4);
    assert(four@ == s@.take(4));
    let mut k: usize = 0;
    while k < 4
        invariant
            four@.len() == 4,
            four@ == s@.take(4),
            k <= 4,
            forall|q: int| 0 <= q < k ==> is_ascii_hexdigit(#[trigger] four@[q]),
        decreases 4 - k,
    {
        if !char_is_hexdigit(four[k]) {
            assert(!all_hex(four@)) by {
                assert(!is_ascii_hexdigit(four@[k as int]));
            }
            return None;
        }
        k = k + 1;
    }
    assert(all_hex(four@));
    if !char_is_ws(s[4]) {
        return None;
    }
    let rest = copy_range(s, 4, s.len());
    assert(rest@ == s@.skip(4));
    let name = trim_exec(rest.as_slice());
    if name.len() == 0 {
        return None;
    }
    proof {
        lemma_hex_value_bound(four@);
        reveal_with_fuel(pow16, 5);
        assert(pow16(4) == 65536);
    }
    match parse_digits(four.as_slice(), 16, 0xffff) {
        Some(v) => Some((v as u16, name)),
        None => None,
    }
}

impl UsbIdDb {
    /// Parse the linux-usb.org `usb.ids` text format (operator-supplied at runtime).
    pub fn parse(text: &str) -> (db: UsbIdDb)
        ensures
            db@ == ids_of(text@),
    {
        let t = chars_of(text);
        let ls = lines_exec(t.as_slice());
        let ghost lv = seqs_view(ls@);
        let mut vendors: BTreeMap<u16, String> = BTreeMap::new();
        let mut products: BTreeMap<(u16, u16), String> = BTreeMap::new();
        let mut cur: Option<u16> = None;
        assert(vendors@.map_values(|s: String| s@) =~= Map::<u16, Seq<char>>::empty());
        assert(products@.map_values(|s: String| s@) =~= Map::<(u16, u16), Seq<char>>::empty());
        let mut k: usize = 0;
        while k < ls.len()
            invariant
                k <= ls@.len(),
                lv == seqs_view(ls@),
                lv == lines(text@),
                ids_from(lv, 0, ids_empty()) == ids_from(
                    lv,
                    k as int,
                    IdsState {
                        vendors: vendors@.map_values(|s: String| s@),
                        products: products@.map_values(|s: String| s@),
                        cur,
                    },
                ),
            decreases ls@.len() - k,
        {
            let line = ls[k].as_slice();
            assert(line@ == lv[k as int]);
            let ghost st = IdsState {
                vendors: vendors@.map_values(|s: String| s@),
                products: products@.map_values(|s: String| s@),
                cur,
            };
            if line.len() == 0 || line[0] == '#' {
            } else if line[0] == '\t' {
                if line.len() > 1 && line[1] == '\t' {
                } else {
                    let tail = copy_range(line, 1, line.len());
                    assert(tail@ == line@.drop_first());
                    match (cur, id_entry_exec(tail.as_slice())) {
                        (Some(v), Some((p, name))) => {
                            let ghost before = products@;
                            products.insert((v, p), string_of(name.as_slice()));
                            assert(products@.map_values(|s: String| s@) =~= st.products.insert(
                                (v, p),
                                name@,
                            ));
                        },
                        _ => {},
                    }
                }
            } else {
                match id_entry_exec(line) {
                    Some((v, name)) => {
                        vendors.insert(v, string_of(name.as_slice()));
                        assert(vendors@.map_values(|s: String| s@) =~= st.vendors.insert(
                            v,
                            name@,
                        ));
                        cur = Some(v);
                    },
                    None => {
                        cur = None;
                    },
                }
            }
            assert(ids_step(st, lv[k as int]) == IdsState {
                vendors: vendors@.map_values(|s: String| s@),
                products: products@.map_values(|s: String| s@),
                cur,
            });
            k = k + 1;
        }
        UsbIdDb { vendors, products }
    }

    /// Resolve a vendor id to its name, if known.
    pub fn vendor_name(&self, vid: u16) -> (r: Option<&str>)
        ensures
            match r {
                Some(s) => self@.vendors.contains_key(vid) && s@ == self@.vendors[vid],
                None => !self@.vendors.contains_key(vid),
            },
    {
        match self.vendors.get(&vid) {
            Some(s) => Some(s.as_str()),
            None => None,
        }
    }

    /// Resolve a (vendor, product) pair to the product name, if known.
    pub fn product_name(&self, vid: u16, pid: u16) -> (r: Option<&str>)
        ensures
            match r {
                Some(s) => self@.products.contains_key((vid, pid)) && s@ == self@.products[(
                    vid,
                    pid,
                )],
                None => !self@.products.contains_key((vid, pid)),
            },
    {
        match self.products.get(&(vid, pid)) {
            Some(s) => Some(s.as_str()),
            None => None,
        }
    }

    /// Number of vendors in the table.
    pub fn vendor_count(&self) -> (n: usize)
        ensures
            n == self@.vendors.len(),
    {
        assert(self.vendors@.map_values(|s: String| s@).dom() =~= self.vendors@.dom());
        self.vendors.len()
    }

    /// `true` when no vendors are loaded.
    pub fn is_empty(&self) -> (b: bool)
        ensures
            b == (self@.vendors.len() == 0),
    {
        assert(self.vendors@.map_values(|s: String| s@).dom() =~= self.vendors@.dom());
        let b = self.vendors.is_empty();
        proof {
            if !b {
                let k = self.vendors@.dom().choose();
                assert(self.vendors@.dom().contains(k));
            }
        }
        b
    }
}


/// The hand-authored table of common, forensically relevant USB vendors.
pub open spec fn common_vendors() -> Map<u16, Seq<char>> {
    map![
        0x03ebu16 => "Atmel Corp."@,
        0x03f0u16 => "HP, Inc"@,
        0x0411u16 => "BUFFALO INC. (formerly MelCo., Inc.)"@,
        0x045eu16 => "Microsoft Corp."@,
        0x046du16 => "Logitech, Inc."@,
        0x04e8u16 => "Samsung Electronics Co., Ltd"@,
        0x054cu16 => "Sony Corp."@,
        0x058fu16 => "Alcor Micro Corp."@,
        0x05acu16 => "Apple, Inc."@,
        0x05dcu16 => "Lexar Media, Inc."@,
        0x05e3u16 => "Genesys Logic, Inc."@,
        0x0781u16 => "SanDisk Corp."@,
        0x090cu16 => "Silicon Motion, Inc. - Taiwan (formerly Feiya Technology Corp.)"@,
        0x0930u16 => "Toshiba Corp."@,
        0x0951u16 => "Kingston Technology"@,
        0x0bc2u16 => "Seagate RSS LLC"@,
        0x0bdau16 => "Realtek Semiconductor Corp."@,
        0x0e0fu16 => "VMware, Inc."@,
        0x1050u16 => "Yubico.com"@,
        0x1058u16 => "Western Digital Technologies, Inc."@,
        0x13feu16 => "Kingston Technology Company Inc."@,
        0x152du16 => "JMicron Technology Corp. / JMicron USA Technology Corp."@,
        0x174cu16 => "ASMedia Technology Inc."@,
        0x18d1u16 => "Google Inc."@,
        0x1b1cu16 => "Corsair"@,
        0x1d6bu16 => "Linux Foundation"@,
        0x80eeu16 => "VirtualBox"@,
        0x8564u16 => "Transcend Information, Inc."@
    ]
}

/// An owned copy of `s`.
fn owned(s: &str) -> (r: String)
    ensures
        r@ == s@,
{
    let v = chars_of(s);
    string_of(v.as_slice())
}

impl Default for UsbIdDb {
    /// An empty table.
    fn default() -> (db: UsbIdDb)
        ensures
            db@.vendors == Map::<u16, Seq<char>>::empty(),
            db@.products == Map::<(u16, u16), Seq<char>>::empty(),
    {
        let db = UsbIdDb { vendors: BTreeMap::new(), products: BTreeMap::new() };
        assert(db@.vendors =~= Map::<u16, Seq<char>>::empty());
        assert(db@.products =~= Map::<(u16, u16), Seq<char>>::empty());
        db
    }
}

impl UsbIdDb {
    /// The built-in, hand-authored table of common forensic-relevant vendors.
    #[verifier::rlimit(60)]
    pub fn common() -> (db: UsbIdDb)
        ensures
            db@.vendors == common_vendors(),
            db@.products == Map::<(u16, u16), Seq<char>>::empty(),
    {
        let mut vendors: BTreeMap<u16, String> = BTreeMap::new();
        vendors.insert(0x03eb, owned("Atmel Corp."));
        vendors.insert(0x03f0, owned("HP, Inc"));
        vendors.insert(0x0411, owned("BUFFALO INC. (formerly MelCo., Inc.)"));
        vendors.insert(0x045e, owned("Microsoft Corp."));
        vendors.insert(0x046d, owned("Logitech, Inc."));
        vendors.insert(0x04e8, owned("Samsung Electronics Co., Ltd"));
        vendors.insert(0x054c, owned("Sony Corp."));
        vendors.insert(0x058f, owned("Alcor Micro Corp."));
        vendors.insert(0x05ac, owned("Apple, Inc."));
        vendors.insert(0x05dc, owned("Lexar Media, Inc."));
        vendors.insert(0x05e3, owned("Genesys Logic, Inc."));
        vendors.insert(0x0781, owned("SanDisk Corp."));
        vendors.insert(0x090c, owned("Silicon Motion, Inc. - Taiwan (formerly Feiya Technology Corp.)"));
        vendors.insert(0x0930, owned("Toshiba Corp."));
        vendors.insert(0x0951, owned("Kingston Technology"));
        vendors.insert(0x0bc2, owned("Seagate RSS LLC"));
        vendors.insert(0x0bda, owned("Realtek Semiconductor Corp."));
        vendors.insert(0x0e0f, owned("VMware, Inc."));
        vendors.insert(0x1050, owned("Yubico.com"));
        vendors.insert(0x1058, owned("Western Digital Technologies, Inc."));
        vendors.insert(0x13fe, owned("Kingston Technology Company Inc."));
        vendors.insert(0x152d, owned("JMicron Technology Corp. / JMicron USA Technology Corp."));
        vendors.insert(0x174c, owned("ASMedia Technology Inc."));
        vendors.insert(0x18d1, owned("Google Inc."));
        vendors.insert(0x1b1c, owned("Corsair"));
        vendors.insert(0x1d6b, owned("Linux Foundation"));
        vendors.insert(0x80ee, owned("VirtualBox"));
        vendors.insert(0x8564, owned("Transcend Information, Inc."));
        let db = UsbIdDb { vendors, products: BTreeMap::new() };
        assert(db@.vendors =~= common_vendors());
        assert(db@.products =~= Map::<(u16, u16), Seq<char>>::empty());
        db
    }
}

// ---------------------------------------------------------------------------
// Laws
// ---------------------------------------------------------------------------

/// Every product is filed under a vendor the table knows, and the vendor
/// products attach to is a known one.
pub open spec fn products_under_vendors(st: IdsState) -> bool {
    &&& st.cur matches Some(v) ==> st.vendors.dom().contains(v)
    &&& forall|k: (u16, u16)| #[trigger] st.products.dom().contains(k) ==> st.vendors.dom().contains(k.0)
}

proof fn lemma_ids_from_keeps(ls: Seq<Seq<char>>, k: int, st: IdsState)
    requires
        products_under_vendors(st),
    ensures
        products_under_vendors(ids_from(ls, k, st)),
    decreases ls.len() - k,
{
    if 0 <= k < ls.len() {
        let next = ids_step(st, ls[k]);
        assert(products_under_vendors(next));
        lemma_ids_from_keeps(ls, k + 1, next);
    }
}

/// A `usb.ids` product line is only ever filed under a vendor entry of the
/// same table: every `(VID, PID)` with a product name has a vendor name.
pub proof fn law_products_have_known_vendors(text: Seq<char>, vid: u16, pid: u16)
    requires
        ids_of(text).products.dom().contains((vid, pid)),
    ensures
        ids_of(text).vendors.dom().contains(vid),
{
    lemma_ids_from_keeps(lines(text), 0, ids_empty());
    let st = ids_from(lines(text), 0, ids_empty());
    assert(st.products.dom().contains((vid, pid)));
}

/// A vendor line of a `usb.ids` text: unindented, not a comment, and a
/// `XXXX name` entry; the vendor id its four hex digits spell and its name.
pub open spec fn vendor_line(line: Seq<char>) -> Option<(u16, Seq<char>)> {
    if line.len() > 0 && line[0] != '#' && line[0] != '\t' {
        id_entry(line)
    } else {
        None
    }
}

/// Each vendor of `vendors` is named by one of the vendor lines `ls[..n]`.
pub open spec fn vendors_from_lines(vendors: Map<u16, Seq<char>>, ls: Seq<Seq<char>>, n: int) -> bool {
    forall|v: u16|
        #[trigger] vendors.dom().contains(v) ==> exists|j: int|
            0 <= j < n && #[trigger] vendor_line(ls[j]) == Some((v, vendors[v]))
}

proof fn lemma_vendors_from_lines(ls: Seq<Seq<char>>, k: int, st: IdsState)
    requires
        0 <= k <= ls.len(),
        vendors_from_lines(st.vendors, ls, k),
    ensures
        vendors_from_lines(ids_from(ls, k, st).vendors, ls, ls.len() as int),
    decreases ls.len() - k,
{
    if k < ls.len() {
        let next = ids_step(st, ls[k]);
        assert forall|v: u16| #[trigger] next.vendors.dom().contains(v) implies exists|j: int|
            0 <= j < k + 1 && #[trigger] vendor_line(ls[j]) == Some((v, next.vendors[v])) by {
            let l = ls[k];
            if l.len() > 0 && l[0] != '#' && l[0] != '\t' && id_entry(l) is Some && id_entry(
                l,
            ).unwrap().0 == v {
                assert(vendor_line(ls[k]) == Some((v, next.vendors[v])));
            } else {
                assert(st.vendors.dom().contains(v));
                assert(next.vendors[v] == st.vendors[v]);
                let j = choose|j: int| 0 <= j < k && #[trigger] vendor_line(ls[j]) == Some(
                    (v, st.vendors[v]),
                );
                assert(vendor_line(ls[j]) == Some((v, next.vendors[v])));
            }
        }
        lemma_vendors_from_lines(ls, k + 1, next);
    }
}

/// Every vendor of a `usb.ids` table comes from a line of the text that is
/// unindented, not a comment, and starts with the vendor's four hex digits
/// followed by its name: blank, comment and indented lines add no vendor.
pub proof fn law_vendors_come_from_vendor_lines(text: Seq<char>, vid: u16)
    requires
        ids_of(text).vendors.dom().contains(vid),
    ensures
        exists|j: int|
            0 <= j < lines(text).len() && #[trigger] vendor_line(lines(text)[j]) == Some(
                (vid, ids_of(text).vendors[vid]),
            ),
{
    lemma_vendors_from_lines(lines(text), 0, ids_empty());
    let st = ids_from(lines(text), 0, ids_empty());
    assert(st.vendors.dom().contains(vid));
}

} // verus!
