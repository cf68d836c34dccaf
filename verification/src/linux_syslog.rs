//! Linux kernel-log (`syslog` / `dmesg`) USB device reader.
//!
//! The kernel logs each USB enumeration as a short block keyed by a bus id:
//! ```text
//! Mar 24 15:47:28 kernel: [ 2.350118] usb 2-1: New USB device found, idVendor=80ee, idProduct=0021, bcdDevice= 1.00
//! Mar 24 15:47:28 kernel: [ 2.350143] usb 2-1: Product: USB Tablet
//! Mar 24 15:47:28 kernel: [ 2.350150] usb 2-1: SerialNumber: 0123ABCD
//! ```
//! This reader stitches each block back into a [`DeviceConnection`]. The
//! syslog timestamp is year-less and host-local, so the caller supplies the
//! reference `year` and the epoch is a naive-local conversion.

use vstd::prelude::*;
use crate::text::{
    pos_pat_from, ws_tokens, split_char, trim, starts_with, lines, seqs_view, opt_seq, is_str,
    find_pat, chars_of, copy_range, ws_tokens_exec, split_on, lines_exec, string_of, has_prefix,
    lemma_pos_pat_from,
};
use crate::numbers::{parse_i64, parse_unsigned, parse_i64_exec, parse_unsigned_exec};
use crate::setupapi::{civil_epoch, civil_to_epoch, authoritative_stamp};
use crate::text::trim_exec;
use crate::device::{
    Bus, Confidence, ConnectionView, DeviceConnection, Provenance, ProvenanceView, Stamp, conn_views,
    consistent_record, stamped,
};

verus! {

/// The `usb <busid>: <message>` portion of a kernel-log line: the text after
/// the first `usb `, split at the first `: `.
pub open spec fn usb_message(line: Seq<char>) -> Option<(Seq<char>, Seq<char>)> {
    let i = pos_pat_from(line, "usb "@, 0);
    if i >= line.len() {
        None
    } else {
        let after = line.skip(i + 4);
        let j = pos_pat_from(after, ": "@, 0);
        if j >= after.len() {
            None
        } else {
            Some((after.take(j), after.skip(j + 2)))
        }
    }
}

pub open spec fn all_ascii(s: Seq<char>) -> bool {
    forall|i: int| 0 <= i < s.len() ==> (#[trigger] s[i] as u32) < 0x80
}

/// A `<tag><4 hex>` field (e.g. `idVendor=80ee`): the four characters after
/// the first occurrence of `tag`, read as a `u16` in hex.
pub open spec fn hex_field(text: Seq<char>, tag: Seq<char>) -> Option<u16> {
    let i = pos_pat_from(text, tag, 0);
    if i >= text.len() {
        None
    } else {
        let rest = text.skip(i + tag.len());
        if rest.len() >= 4 && all_ascii(rest.take(4)) {
            match parse_unsigned(rest.take(4), 16, 0xffff) {
                Some(v) => Some(v as u16),
                None => None,
            }
        } else {
            None
        }
    }
}

/// Three-letter English month abbreviation to `1..=12`.
pub open spec fn month_of(name: Seq<char>) -> Option<int> {
    if name == "Jan"@ {
        Some(1)
    } else if name == "Feb"@ {
        Some(2)
    } else if name == "Mar"@ {
        Some(3)
    } else if name == "Apr"@ {
        Some(4)
    } else if name == "May"@ {
        Some(5)
    } else if name == "Jun"@ {
        Some(6)
    } else if name == "Jul"@ {
        Some(7)
    } else if name == "Aug"@ {
        Some(8)
    } else if name == "Sep"@ {
        Some(9)
    } else if name == "Oct"@ {
        Some(10)
    } else if name == "Nov"@ {
        Some(11)
    } else if name == "Dec"@ {
        Some(12)
    } else {
        None
    }
}

/// The leading BSD syslog timestamp (`MMM DD HH:MM:SS`) of a line as epoch
/// seconds in the reference `year`: the first three whitespace-separated
/// tokens; the third split at `:` into (at least) hour, minute, second.
pub open spec fn bsd_epoch(line: Seq<char>, year: int) -> Option<int> {
    let toks = ws_tokens(line);
    if toks.len() < 3 {
        None
    } else {
        let hms = split_char(toks[2], ':');
        if hms.len() < 3 {
            None
        } else {
            match (
                month_of(toks[0]),
                parse_i64(toks[1]),
                parse_i64(hms[0]),
                parse_i64(hms[1]),
                parse_i64(hms[2]),
            ) {
                (Some(mo), Some(d), Some(h), Some(mi), Some(s)) => civil_epoch(year, mo, d, h, mi, s),
                _ => None,
            }
        }
    }
}

/// A device block being assembled from consecutive same-bus-id lines.
pub struct PartialView {
    pub busid: Seq<char>,
    pub vid: Option<u16>,
    pub pid: Option<u16>,
    pub epoch: Option<int>,
    pub line: nat,
    pub product: Option<Seq<char>>,
    pub serial: Option<Seq<char>>,
}

/// The block a `New USB device found,` line begins, or `None` for any other line.
pub open spec fn block_start(line: Seq<char>, year: int, n: nat) -> Option<PartialView> {
    match usb_message(line) {
        Some((busid, msg)) => if starts_with(msg, "New USB device found,"@) {
            let rest = msg.skip("New USB device found,"@.len() as int);
            Some(
                PartialView {
                    busid,
                    vid: hex_field(rest, "idVendor="@),
                    pid: hex_field(rest, "idProduct="@),
                    epoch: bsd_epoch(line, year),
                    line: n,
                    product: None,
                    serial: None,
                },
            )
        } else {
            None
        },
        None => None,
    }
}

/// A `Product:` / `SerialNumber:` follow-up line for the same bus id folded
/// into the block; any other line leaves it unchanged.
pub open spec fn block_absorb(p: PartialView, line: Seq<char>) -> PartialView {
    match usb_message(line) {
        Some((busid, msg)) => if busid != p.busid {
            p
        } else if starts_with(msg, "Product: "@) {
            PartialView { product: Some(trim(msg.skip(9))), ..p }
        } else if starts_with(msg, "SerialNumber: "@) {
            PartialView { serial: Some(trim(msg.skip(14))), ..p }
        } else {
            p
        },
        None => p,
    }
}

/// The connection a finished block describes.
pub open spec fn block_connection(p: PartialView, file: Seq<char>) -> ConnectionView {
    ConnectionView {
        bus: Bus::Usb,
        device_class_guid: None,
        vid: p.vid,
        pid: p.pid,
        device_serial: p.serial,
        serial_is_os_generated: false,
        friendly_name: p.product,
        device_instance_id: "usb/"@ + p.busid,
        first_install: match p.epoch {
            Some(e) => authoritative_stamp(Some(e as i64)),
            None => None,
        },
        last_install: None,
        last_arrival: None,
        last_removal: None,
        parent_id_prefix: None,
        volume_guid: None,
        drive_letter: None,
        volume_serial: None,
        disk_signature: None,
        dma_capable: false,
        mitre: Seq::empty(),
        source: ProvenanceView { file, line: p.line, key_path: None },
    }
}

pub open spec fn finished(cur: Option<PartialView>, file: Seq<char>) -> Seq<ConnectionView> {
    match cur {
        Some(p) => seq![block_connection(p, file)],
        None => Seq::empty(),
    }
}

/// The connections of the lines `ls[k..]`, given the block `cur` open before
/// line `k`.
pub open spec fn syslog_from(
    ls: Seq<Seq<char>>,
    file: Seq<char>,
    year: int,
    k: int,
    cur: Option<PartialView>,
) -> Seq<ConnectionView>
    decreases ls.len() - k,
{
    if k < 0 || k >= ls.len() {
        finished(cur, file)
    } else {
        match block_start(ls[k], year, (k + 1) as nat) {
            Some(st) => finished(cur, file) + syslog_from(ls, file, year, k + 1, Some(st)),
            None => syslog_from(
                ls,
                file,
                year,
                k + 1,
                match cur {
                    Some(p) => Some(block_absorb(p, ls[k])),
                    None => None,
                },
            ),
        }
    }
}

/// One connection per `New USB device found` block of the log, in order.
pub open spec fn syslog_connections(text: Seq<char>, file: Seq<char>, year: int) -> Seq<
    ConnectionView,
> {
    syslog_from(lines(text), file, year, 0, None)
}

struct Partial {
    busid: Vec<char>,
    vid: Option<u16>,
    pid: Option<u16>,
    epoch: Option<i64>,
    line: usize,
    product: Option<Vec<char>>,
    serial: Option<Vec<char>>,
}

impl View for Partial {
    type V = PartialView;

    closed spec fn view(&self) -> PartialView {
        PartialView {
            busid: self.busid@,
            vid: self.vid,
            pid: self.pid,
            epoch: match self.epoch {
                Some(e) => Some(e as int),
                None => None,
            },
            line: self.line as nat,
            product: opt_seq(self.product),
            serial: opt_seq(self.serial),
        }
    }
}

spec fn opt_partial(o: Option<Partial>) -> Option<PartialView> {
    match o {
        Some(p) => Some(p@),
        None => None,
    }
}

fn usb_message_exec(line: &[char]) -> (r: Option<(Vec<char>, Vec<char>)>)
    ensures
        match r {
            Some((b, m)) => usb_message(line@) == Some((b@, m@)),
            None => usb_message(line@) is None,
        },
{
    let tag = chars_of("usb ");
    let sep = chars_of(": ");
    proof {
        vstd::string::axiom_str_literal_len("usb ");
        vstd::string::axiom_str_literal_len(": ");
        reveal_strlit("usb ");
        reveal_strlit(": ");
    }
    let i = find_pat(line, tag.as_slice(), 0);
    proof {
        lemma_pos_pat_from(line@, tag@, 0);
    }
    if i >= line.len() {
        return None;
    }
    let after = copy_range(line, i + 4, line.len());
    assert(after@ == line@.skip(i + 4));
    let after = after.as_slice();
    let j = find_pat(after, sep.as_slice(), 0);
    proof {
        lemma_pos_pat_from(after@, sep@, 0);
    }
    if j >= after.len() {
        return None;
    }
    let b = copy_range(after, 0, j);
    assert(b@ == after@.take(j as int));
    let m = copy_range(after, j + 2, after.len());
    assert(m@ == after@.skip(j + 2));
    Some((b, m))
}

#[verifier::loop_isolation(false)]
fn hex_field_exec(text: &[char], tag: &[char]) -> (r: Option<u16>)
    ensures
        r == hex_field(text@, tag@),
{
    let i = find_pat(text, tag, 0);
    proof {
        lemma_pos_pat_from(text@, tag@, 0);
    }
    if i >= text.len() {
        return None;
    }
    let start = i + tag.len();
    let rest = copy_range(text, start, text.len());
    assert(rest@ == text@.skip(start as int));
    if rest.len() < 4 {
        return None;
    }
    let four = copy_range(rest.as_slice(), 0, 4);
    assert(four@ == rest@.take(4));
    let mut k: usize = 0;
    while k < 4
        invariant
            four@.len() == 4,
            four@ == rest@.take(4),
            k <= 4,
            forall|q: int| 0 <= q < k ==> (#[trigger] four@[q] as u32) < 0x80,
        decreases 4 - k,
    {
        if four[k] as u32 >= 0x80 {
            assert(!all_ascii(rest@.take(4))) by {
                assert(rest@.take(4)[k as int] == four@[k as int]);
            }
            return None;
        }
        k = k + 1;
    }
    match parse_unsigned_exec(four.as_slice(), 16, 0xffff) {
        Some(v) => Some(v as u16),
        None => None,
    }
}

/// Three-letter English month abbreviation to `1..=12`, or `None`.
pub fn month_number(name: &str) -> (r: Option<i64>)
    ensures
        match r {
            Some(m) => month_of(name@) == Some(m as int),
            None => month_of(name@) is None,
        },
{
    let v = chars_of(name);
    month_number_chars(v.as_slice())
}

fn month_number_chars(name: &[char]) -> (r: Option<i64>)
    ensures
        match r {
            Some(m) => month_of(name@) == Some(m as int),
            None => month_of(name@) is None,
        },
{
    if is_str(name, "Jan") {
        Some(1)
    } else if is_str(name, "Feb") {
        Some(2)
    } else if is_str(name, "Mar") {
        Some(3)
    } else if is_str(name, "Apr") {
        Some(4)
    } else if is_str(name, "May") {
        Some(5)
    } else if is_str(name, "Jun") {
        Some(6)
    } else if is_str(name, "Jul") {
        Some(7)
    } else if is_str(name, "Aug") {
        Some(8)
    } else if is_str(name, "Sep") {
        Some(9)
    } else if is_str(name, "Oct") {
        Some(10)
    } else if is_str(name, "Nov") {
        Some(11)
    } else if is_str(name, "Dec") {
        Some(12)
    } else {
        None
    }
}

fn bsd_epoch_exec(line: &[char], year: i64) -> (r: Option<i64>)
    ensures
        match r {
            Some(v) => bsd_epoch(line@, year as int) == Some(v as int),
            None => bsd_epoch(line@, year as int) is None,
        },
{
    let toks = ws_tokens_exec(line);
    let ghost tv = seqs_view(toks@);
    if toks.len() < 3 {
        return None;
    }
    assert(toks[0]@ == tv[0] && toks[1]@ == tv[1] && toks[2]@ == tv[2]);
    let hms = split_on(toks[2].as_slice(), ':');
    let ghost hv = seqs_view(hms@);
    if hms.len() < 3 {
        return None;
    }
    assert(hms[0]@ == hv[0] && hms[1]@ == hv[1] && hms[2]@ == hv[2]);
    let mo = month_number_chars(toks[0].as_slice());
    let d = parse_i64_exec(toks[1].as_slice());
    let h = parse_i64_exec(hms[0].as_slice());
    let mi = parse_i64_exec(hms[1].as_slice());
    let s = parse_i64_exec(hms[2].as_slice());
    match (mo, d, h, mi, s) {
        (Some(mo), Some(d), Some(h), Some(mi), Some(s)) => civil_to_epoch(year, mo, d, h, mi, s),
        _ => None,
    }
}

impl Partial {
    /// Begin a block from a `New USB device found` line, or `None` for any other line.
    fn start(line: &[char], year: i64, line_no: usize) -> (r: Option<Partial>)
        ensures
            opt_partial(r) == block_start(line@, year as int, line_no as nat),
    {
        let (busid, msg) = match usb_message_exec(line) {
            Some(x) => x,
            None => return None,
        };
        let head = chars_of("New USB device found,");
        proof {
            vstd::string::axiom_str_literal_len("New USB device found,");
            reveal_strlit("New USB device found,");
        }
        if !has_prefix(msg.as_slice(), head.as_slice()) {
            return None;
        }
        let rest = copy_range(msg.as_slice(), head.len(), msg.len());
        assert(rest@ == msg@.skip("New USB device found,"@.len() as int));
        let tv = chars_of("idVendor=");
        let tp = chars_of("idProduct=");
        Some(
            Partial {
                busid,
                vid: hex_field_exec(rest.as_slice(), tv.as_slice()),
                pid: hex_field_exec(rest.as_slice(), tp.as_slice()),
                epoch: bsd_epoch_exec(line, year),
                line: line_no,
                product: None,
                serial: None,
            },
        )
    }

    /// Fold a `Product:` / `SerialNumber:` follow-up line for the same bus id.
    fn absorb(&mut self, line: &[char])
        ensures
            final(self)@ == block_absorb(old(self)@, line@),
    {
        let (busid, msg) = match usb_message_exec(line) {
            Some(x) => x,
            None => return,
        };
        if !crate::text::same_chars(busid.as_slice(), self.busid.as_slice()) {
            return;
        }
        let pt = chars_of("Product: ");
        let st = chars_of("SerialNumber: ");
        proof {
            vstd::string::axiom_str_literal_len("Product: ");
            vstd::string::axiom_str_literal_len("SerialNumber: ");
            reveal_strlit("Product: ");
            reveal_strlit("SerialNumber: ");
        }
        if has_prefix(msg.as_slice(), pt.as_slice()) {
            let rest = copy_range(msg.as_slice(), 9, msg.len());
            assert(rest@ == msg@.skip(9));
            self.product = Some(trim_exec(rest.as_slice()));
        } else if has_prefix(msg.as_slice(), st.as_slice()) {
            let rest = copy_range(msg.as_slice(), 14, msg.len());
            assert(rest@ == msg@.skip(14));
            self.serial = Some(trim_exec(rest.as_slice()));
        }
    }

    fn finish(self, file: &[char]) -> (c: DeviceConnection)
        ensures
            c@ == block_connection(self@, file@),
    {
        let mut id = chars_of("usb/");
        let ghost prefix = id@;
        let mut k: usize = 0;
        while k < self.busid.len()
            invariant
                prefix == "usb/"@,
                k <= self.busid@.len(),
                id@ == prefix + self.busid@.take(k as int),
            decreases self.busid@.len() - k,
        {
            id.push(self.busid[k]);
            k = k + 1;
            assert(id@ =~= prefix + self.busid@.take(k as int));
        }
        assert(self.busid@.take(self.busid@.len() as int) =~= self.busid@);
        let first = match self.epoch {
            Some(e) => Some(Stamp::authoritative(e)),
            None => None,
        };
        let serial = match &self.serial {
            Some(s) => Some(string_of(s.as_slice())),
            None => None,
        };
        let product = match &self.product {
            Some(s) => Some(string_of(s.as_slice())),
            None => None,
        };
        let mitre: Vec<crate::device::MitreRef> = Vec::new();
        assert(mitre@.map_values(|m: crate::device::MitreRef| m.0@) =~= Seq::<Seq<char>>::empty());
        assert(first == match self@.epoch {
            Some(e) => authoritative_stamp(Some(e as i64)),
            None => None,
        });
        DeviceConnection {
            bus: Bus::Usb,
            device_class_guid: None,
            vid: self.vid,
            pid: self.pid,
            device_serial: serial,
            serial_is_os_generated: false,
            friendly_name: product,
            device_instance_id: string_of(id.as_slice()),
            first_install: first,
            last_install: None,
            last_arrival: None,
            last_removal: None,
            parent_id_prefix: None,
            volume_guid: None,
            drive_letter: None,
            volume_serial: None,
            disk_signature: None,
            dma_capable: Bus::Usb.is_dma_capable(),
            mitre,
            source: Provenance { file: string_of(file), line: self.line, key_path: None },
        }
    }
}

/// Parse Linux kernel USB-enumeration blocks from `syslog` / `dmesg` text.
/// `year` is the reference year for the year-less BSD timestamps; `file` is
/// recorded in each record's [`Provenance`].
pub fn parse_linux_syslog(text: &str, file: &str, year: i64) -> (r: Vec<DeviceConnection>)
    ensures
        conn_views(r@) == syslog_connections(text@, file@, year as int),
{
    let t = chars_of(text);
    let f = chars_of(file);
    let ls = lines_exec(t.as_slice());
    let ghost lv = seqs_view(ls@);
    let mut out: Vec<DeviceConnection> = Vec::new();
    let mut current: Option<Partial> = None;
    let mut k: usize = 0;
    while k < ls.len()
        invariant
            k <= ls@.len(),
            lv == seqs_view(ls@),
            lv == lines(text@),
            f@ == file@,
            conn_views(out@) + syslog_from(lv, file@, year as int, k as int, opt_partial(current))
                == syslog_from(lv, file@, year as int, 0, None),
        decreases ls@.len() - k,
    {
        let line = ls[k].as_slice();
        assert(line@ == lv[k as int]);
        let ghost before = out@;
        match Partial::start(line, year, k + 1) {
            Some(started) => {
                match current {
                    Some(prev) => {
                        let c = prev.finish(f.as_slice());
                        out.push(c);
                        assert(conn_views(out@) == conn_views(before).push(c@));
                    },
                    None => {},
                }
                current = Some(started);
            },
            None => {
                match current {
                    Some(mut dev) => {
                        dev.absorb(line);
                        current = Some(dev);
                    },
                    None => {
                        current = None;
                    },
                }
            },
        }
        assert(conn_views(out@) + syslog_from(
            lv,
            file@,
            year as int,
            k + 1,
            opt_partial(current),
        ) =~= syslog_from(lv, file@, year as int, 0, None));
        k = k + 1;
    }
    let ghost before = out@;
    match current {
        Some(dev) => {
            let c = dev.finish(f.as_slice());
            out.push(c);
            assert(conn_views(out@) == conn_views(before).push(c@));
        },
        None => {},
    }
    assert(conn_views(out@) =~= syslog_connections(text@, file@, year as int));
    out
}

// ---------------------------------------------------------------------------
// Laws
// ---------------------------------------------------------------------------

/// What a kernel-log record promises beyond [`consistent_record`]: it is a
/// USB device, its first-seen time (when the line carried one) is
/// authoritative, and it names the log file on the 1-based line of its
/// `New USB device found` message and no registry key.
pub open spec fn syslog_record(c: ConnectionView, file: Seq<char>) -> bool {
    &&& consistent_record(c)
    &&& c.bus == Bus::Usb
    &&& stamped(c.first_install, Confidence::Authoritative)
    &&& c.last_arrival is None
    &&& c.last_removal is None
    &&& c.source.file == file
    &&& c.source.line >= 1
    &&& c.source.key_path is None
}

proof fn lemma_syslog_from(
    ls: Seq<Seq<char>>,
    file: Seq<char>,
    year: int,
    k: int,
    cur: Option<PartialView>,
)
    requires
        0 <= k,
        cur matches Some(p) ==> 1 <= p.line <= k,
    ensures
        forall|i: int|
            0 <= i < syslog_from(ls, file, year, k, cur).len() ==> syslog_record(
                #[trigger] syslog_from(ls, file, year, k, cur)[i],
                file,
            ) && (syslog_from(ls, file, year, k, cur)[i].source.line > k || (cur matches Some(p)
                && syslog_from(ls, file, year, k, cur)[i].source.line == p.line)),
        forall|i: int, j: int|
            0 <= i < j < syslog_from(ls, file, year, k, cur).len() ==> (
            #[trigger] syslog_from(ls, file, year, k, cur)[i]).source.line < (
            #[trigger] syslog_from(ls, file, year, k, cur)[j]).source.line,
    decreases ls.len() - k,
{
    let all = syslog_from(ls, file, year, k, cur);
    if k >= ls.len() {
        assert(all == finished(cur, file));
    } else {
        match block_start(ls[k], year, (k + 1) as nat) {
            Some(st) => {
                lemma_syslog_from(ls, file, year, k + 1, Some(st));
                let rest = syslog_from(ls, file, year, k + 1, Some(st));
                let head = finished(cur, file);
                assert(all == head + rest);
                assert forall|i: int| 0 <= i < all.len() implies syslog_record(#[trigger] all[i], file)
                    && (all[i].source.line > k || (cur matches Some(p) && all[i].source.line
                    == p.line)) by {
                    if i >= head.len() {
                        assert(all[i] == rest[i - head.len()]);
                    }
                }
                assert forall|i: int, j: int| 0 <= i < j < all.len() implies (
                #[trigger] all[i]).source.line < (#[trigger] all[j]).source.line by {
                    assert(all[j] == rest[j - head.len()]);
                    if i >= head.len() {
                        assert(all[i] == rest[i - head.len()]);
                    }
                }
            },
            None => {
                let next = match cur {
                    Some(p) => Some(block_absorb(p, ls[k])),
                    None => None,
                };
                lemma_syslog_from(ls, file, year, k + 1, next);
            },
        }
    }
}

/// Every connection parsed from a kernel log keeps [`syslog_record`].
pub proof fn law_syslog_records(text: Seq<char>, file: Seq<char>, year: int, i: int)
    requires
        0 <= i < syslog_connections(text, file, year).len(),
    ensures
        syslog_record(syslog_connections(text, file, year)[i], file),
{
    lemma_syslog_from(lines(text), file, year, 0, None);
}

/// Connections come in log order: each later record stands on a later line.
pub proof fn law_syslog_log_order(text: Seq<char>, file: Seq<char>, year: int, i: int, j: int)
    requires
        0 <= i < j < syslog_connections(text, file, year).len(),
    ensures
        syslog_connections(text, file, year)[i].source.line < syslog_connections(
            text,
            file,
            year,
        )[j].source.line,
{
    lemma_syslog_from(lines(text), file, year, 0, None);
}

/// A follow-up line about another bus id leaves the open block untouched:
/// its product and serial belong to a different device.
pub proof fn law_absorb_ignores_other_devices(p: PartialView, line: Seq<char>)
    requires
        usb_message(line) matches Some((busid, _)) && busid != p.busid,
    ensures
        block_absorb(p, line) == p,
{
}

/// Absorbing a follow-up line keeps the block's device: its bus id, ids,
/// time and line stay as they were; only its product or serial can change.
pub proof fn law_absorb_keeps_the_device(p: PartialView, line: Seq<char>)
    ensures
        block_absorb(p, line).busid == p.busid,
        block_absorb(p, line).vid == p.vid,
        block_absorb(p, line).pid == p.pid,
        block_absorb(p, line).epoch == p.epoch,
        block_absorb(p, line).line == p.line,
{
}

/// A block's serial changes only on a `SerialNumber: ` line of its own bus
/// id, and then to that line's trimmed text; its product only on a
/// `Product: ` line of its own bus id, to that line's trimmed text.
pub proof fn law_absorb_takes_own_lines(p: PartialView, line: Seq<char>)
    ensures
        block_absorb(p, line).serial != p.serial ==> (usb_message(line) matches Some((b, m)) && b
            == p.busid && m.len() >= 14 && m.take(14) == "SerialNumber: "@ && block_absorb(p, line).serial
            == Some(trim(m.skip(14)))),
        block_absorb(p, line).product != p.product ==> (usb_message(line) matches Some((b, m)) && b
            == p.busid && m.len() >= 9 && m.take(9) == "Product: "@ && block_absorb(p, line).product
            == Some(trim(m.skip(9)))),
{
    reveal_strlit("SerialNumber: ");
    reveal_strlit("Product: ");
    vstd::string::axiom_str_literal_len("SerialNumber: ");
    vstd::string::axiom_str_literal_len("Product: ");
}

/// `l` is a `SerialNumber: ` line of the device `usb/<busid>` named `inst`,
/// giving the serial `s`.
pub open spec fn serial_line_of(l: Seq<char>, inst: Seq<char>, s: Seq<char>) -> bool {
    usb_message(l) matches Some((b, m)) && inst == "usb/"@ + b && m.len() >= 14 && m.take(14)
        == "SerialNumber: "@ && trim(m.skip(14)) == s
}

/// `l` is a `Product: ` line of the device `usb/<busid>` named `inst`,
/// giving the product name `t`.
pub open spec fn product_line_of(l: Seq<char>, inst: Seq<char>, t: Seq<char>) -> bool {
    usb_message(l) matches Some((b, m)) && inst == "usb/"@ + b && m.len() >= 9 && m.take(9)
        == "Product: "@ && trim(m.skip(9)) == t
}

/// The serial and product an open block holds come from lines `ls[..k]` of
/// its own device.
spec fn block_sourced(p: PartialView, ls: Seq<Seq<char>>, k: int) -> bool {
    &&& p.serial matches Some(s) ==> exists|j: int|
        0 <= j < k && #[trigger] serial_line_of(ls[j], "usb/"@ + p.busid, s)
    &&& p.product matches Some(t) ==> exists|j: int|
        0 <= j < k && #[trigger] product_line_of(ls[j], "usb/"@ + p.busid, t)
}

/// The serial and product of a connection come from lines of `ls` about its
/// own device.
spec fn conn_sourced(c: ConnectionView, ls: Seq<Seq<char>>) -> bool {
    &&& c.device_serial matches Some(s) ==> exists|j: int|
        0 <= j < ls.len() && #[trigger] serial_line_of(ls[j], c.device_instance_id, s)
    &&& c.friendly_name matches Some(t) ==> exists|j: int|
        0 <= j < ls.len() && #[trigger] product_line_of(ls[j], c.device_instance_id, t)
}

proof fn lemma_absorb_sourced(p: PartialView, ls: Seq<Seq<char>>, k: int)
    requires
        0 <= k < ls.len(),
        block_sourced(p, ls, k),
    ensures
        block_sourced(block_absorb(p, ls[k]), ls, k + 1),
{
    let q = block_absorb(p, ls[k]);
    law_absorb_keeps_the_device(p, ls[k]);
    law_absorb_takes_own_lines(p, ls[k]);
    if q.serial != p.serial {
        assert(serial_line_of(ls[k], "usb/"@ + q.busid, q.serial.unwrap()));
    }
    if q.product != p.product {
        assert(product_line_of(ls[k], "usb/"@ + q.busid, q.product.unwrap()));
    }
}

proof fn lemma_syslog_sourced(
    ls: Seq<Seq<char>>,
    file: Seq<char>,
    year: int,
    k: int,
    cur: Option<PartialView>,
)
    requires
        0 <= k <= ls.len(),
        cur matches Some(p) ==> block_sourced(p, ls, k),
    ensures
        forall|i: int|
            0 <= i < syslog_from(ls, file, year, k, cur).len() ==> conn_sourced(
                #[trigger] syslog_from(ls, file, year, k, cur)[i],
                ls,
            ),
    decreases ls.len() - k,
{
    let all = syslog_from(ls, file, year, k, cur);
    let head = finished(cur, file);
    assert forall|i: int| 0 <= i < head.len() implies conn_sourced(#[trigger] head[i], ls) by {
        let p = cur.unwrap();
        let c = block_connection(p, file);
        assert(head[i] == c);
        if let Some(sv) = p.serial {
            let j = choose|j: int| 0 <= j < k && #[trigger] serial_line_of(ls[j], "usb/"@ + p.busid, sv);
            assert(serial_line_of(ls[j], c.device_instance_id, sv));
        }
        if let Some(t) = p.product {
            let j = choose|j: int| 0 <= j < k && #[trigger] product_line_of(ls[j], "usb/"@ + p.busid, t);
            assert(product_line_of(ls[j], c.device_instance_id, t));
        }
    }
    if k >= ls.len() {
        assert(all == head);
        assert forall|i: int| 0 <= i < all.len() implies conn_sourced(#[trigger] all[i], ls) by {
            assert(all[i] == head[i]);
        }
    } else {
        match block_start(ls[k], year, (k + 1) as nat) {
            Some(st) => {
                lemma_syslog_sourced(ls, file, year, k + 1, Some(st));
                let rest = syslog_from(ls, file, year, k + 1, Some(st));
                assert(all == head + rest);
                assert forall|i: int| 0 <= i < all.len() implies conn_sourced(#[trigger] all[i], ls) by {
                    if i >= head.len() {
                        assert(all[i] == rest[i - head.len()]);
                    } else {
                        assert(all[i] == head[i]);
                    }
                }
            },
            None => {
                if let Some(p) = cur {
                    lemma_absorb_sourced(p, ls, k);
                }
                let next = match cur {
                    Some(p) => Some(block_absorb(p, ls[k])),
                    None => None,
                };
                lemma_syslog_sourced(ls, file, year, k + 1, next);
                assert(all == syslog_from(ls, file, year, k + 1, next));
            },
        }
    }
}

/// Every serial and product name a parsed kernel log attributes to a device
/// `usb/<busid>` comes from a `SerialNumber: ` / `Product: ` line of the log
/// about that same bus id: no device is given another device's serial or
/// product.
pub proof fn law_syslog_serials_are_the_devices_own(text: Seq<char>, file: Seq<char>, year: int, i: int)
    requires
        0 <= i < syslog_connections(text, file, year).len(),
    ensures
        syslog_connections(text, file, year)[i].device_serial matches Some(s) ==> exists|j: int|
            0 <= j < lines(text).len() && #[trigger] serial_line_of(
                lines(text)[j],
                syslog_connections(text, file, year)[i].device_instance_id,
                s,
            ),
        syslog_connections(text, file, year)[i].friendly_name matches Some(t) ==> exists|j: int|
            0 <= j < lines(text).len() && #[trigger] product_line_of(
                lines(text)[j],
                syslog_connections(text, file, year)[i].device_instance_id,
                t,
            ),
{
    lemma_syslog_sourced(lines(text), file, year, 0, None);
    assert(conn_sourced(syslog_connections(text, file, year)[i], lines(text)));
}

} // verus!
