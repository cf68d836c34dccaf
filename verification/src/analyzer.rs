//! Graded anomaly auditor over external-device connections.
//!
//! Consumes [`DeviceConnection`] records and emits [`DeviceAnomaly`]
//! observations ("consistent with ..."); the examiner draws the conclusions.
//! MITRE techniques are narrated as consistency, never as a verdict.

use vstd::prelude::*;
use vstd::string::StringExecFns;
use crate::device::{Bus, ConnectionView, DeviceConnection, storage_bus, conn_views};
use crate::text::{seq_upper, starts_with, has_pat, matches_at, chars_of, upper_chars, has_prefix, find_pat, lemma_pos_pat_from};

verus! {

/// A graded external-device anomaly.
#[derive(Debug, Clone, PartialEq, Eq)]
pub enum DeviceAnomaly {
    /// A bus-mastering DMA-capable device (FireWire / Thunderbolt / PCIe /
    /// ExpressCard) was connected: a direct-memory-access attack surface.
    /// MITRE T1200.
    DmaCapableDevice {
        /// The device instance id.
        instance_id: String,
        /// The DMA-capable bus.
        bus: Bus,
    },
    /// Removable mass storage was connected: an exfiltration /
    /// autorun-payload surface. MITRE T1052.001 / T1091.
    MassStorageConnected {
        /// The device instance id.
        instance_id: String,
    },
    /// A Human Interface Device was connected: possible keystroke injection
    /// (BadUSB). MITRE T1200.
    HidDevice {
        /// The device instance id.
        instance_id: String,
    },
    /// The device's serial was synthesized by Windows (no real iSerial), so
    /// attribution back to a specific physical device is weaker.
    OsGeneratedSerial {
        /// The device instance id.
        instance_id: String,
    },
}

/// The mathematical form of a [`DeviceAnomaly`].
pub enum AnomalyView {
    DmaCapableDevice { instance_id: Seq<char>, bus: Bus },
    MassStorageConnected { instance_id: Seq<char> },
    HidDevice { instance_id: Seq<char> },
    OsGeneratedSerial { instance_id: Seq<char> },
}

impl View for DeviceAnomaly {
    type V = AnomalyView;

    open spec fn view(&self) -> AnomalyView {
        match self {
            DeviceAnomaly::DmaCapableDevice { instance_id, bus } => AnomalyView::DmaCapableDevice {
                instance_id: instance_id@,
                bus: *bus,
            },
            DeviceAnomaly::MassStorageConnected { instance_id } => AnomalyView::MassStorageConnected {
                instance_id: instance_id@,
            },
            DeviceAnomaly::HidDevice { instance_id } => AnomalyView::HidDevice {
                instance_id: instance_id@,
            },
            DeviceAnomaly::OsGeneratedSerial { instance_id } => AnomalyView::OsGeneratedSerial {
                instance_id: instance_id@,
            },
        }
    }
}

pub open spec fn anomaly_views(v: Seq<DeviceAnomaly>) -> Seq<AnomalyView> {
    v.map_values(|a: DeviceAnomaly| a@)
}

/// How severe an anomaly is graded.
#[derive(Debug, Clone, Copy, PartialEq, Eq, Hash, Structural)]
pub enum Severity {
    Low,
    Medium,
    High,
}

/// The kind of concern an anomaly raises.
#[derive(Debug, Clone, Copy, PartialEq, Eq, Hash, Structural)]
pub enum Category {
    /// A potential attack surface.
    Threat,
    /// Weaker evidence integrity / attribution.
    Integrity,
}

/// The published anomaly code of each kind.
pub open spec fn anomaly_code(a: AnomalyView) -> Seq<char> {
    match a {
        AnomalyView::DmaCapableDevice { .. } => "PERIPHERAL-DMA-CAPABLE-DEVICE"@,
        AnomalyView::MassStorageConnected { .. } => "PERIPHERAL-MASS-STORAGE-CONNECTED"@,
        AnomalyView::HidDevice { .. } => "PERIPHERAL-HID-DEVICE"@,
        AnomalyView::OsGeneratedSerial { .. } => "PERIPHERAL-OS-GENERATED-SERIAL"@,
    }
}

pub open spec fn anomaly_severity(a: AnomalyView) -> Severity {
    match a {
        AnomalyView::DmaCapableDevice { .. } => Severity::High,
        AnomalyView::MassStorageConnected { .. } => Severity::Medium,
        AnomalyView::HidDevice { .. } => Severity::Medium,
        AnomalyView::OsGeneratedSerial { .. } => Severity::Low,
    }
}

pub open spec fn anomaly_category(a: AnomalyView) -> Category {
    match a {
        AnomalyView::OsGeneratedSerial { .. } => Category::Integrity,
        _ => Category::Threat,
    }
}

pub open spec fn anomaly_mitre(a: AnomalyView) -> Seq<Seq<char>> {
    match a {
        AnomalyView::DmaCapableDevice { .. } => seq!["T1200"@],
        AnomalyView::HidDevice { .. } => seq!["T1200"@],
        AnomalyView::MassStorageConnected { .. } => seq!["T1052.001"@, "T1091"@],
        AnomalyView::OsGeneratedSerial { .. } => Seq::empty(),
    }
}

/// The name of a bus as its `Debug` form prints it (the variant name).
pub open spec fn bus_name(b: Bus) -> Seq<char> {
    match b {
        Bus::Usb => "Usb"@,
        Bus::Mtp => "Mtp"@,
        Bus::FireWire => "FireWire"@,
        Bus::Thunderbolt => "Thunderbolt"@,
        Bus::Pcie => "Pcie"@,
        Bus::Esata => "Esata"@,
        Bus::SdMmc => "SdMmc"@,
        Bus::Bluetooth => "Bluetooth"@,
        Bus::ExpressCard => "ExpressCard"@,
        Bus::ScsiSas => "ScsiSas"@,
        Bus::Nvme => "Nvme"@,
        Bus::Unknown => "Unknown"@,
    }
}

/// What `format!("{:?}", s)` prints for a string: `s` quoted and escaped.
pub uninterp spec fn debug_quoted(s: Seq<char>) -> Seq<char>;

/// `s` as `format!("{:?}", s)` prints it (`<str as Debug>::fmt`): in double
/// quotes, with quotes, backslashes and control characters escaped.
#[verifier::external_body]
fn debug_string(s: &str) -> (r: String)
    ensures
        r@ == debug_quoted(s@),
{
    format!("{:?}", s)
}

/// The hedged observation text of an anomaly.
pub open spec fn anomaly_note(a: AnomalyView) -> Seq<char> {
    match a {
        AnomalyView::DmaCapableDevice { instance_id, bus } => "a "@ + bus_name(bus) + " device ("@
            + debug_quoted(instance_id)
            + ") connected; the bus is bus-mastering DMA-capable, consistent with a direct-memory-access attack surface (MITRE T1200)"@,
        AnomalyView::MassStorageConnected { instance_id } => "removable mass storage ("@
            + debug_quoted(instance_id)
            + ") connected; consistent with data staging/exfiltration or autorun payload delivery (MITRE T1052.001 / T1091)"@,
        AnomalyView::HidDevice { instance_id } => "a human-interface device ("@ + debug_quoted(
            instance_id,
        ) + ") connected; consistent with keystroke-injection hardware such as BadUSB (MITRE T1200)"@,
        AnomalyView::OsGeneratedSerial { instance_id } => "the device ("@ + debug_quoted(instance_id)
            + ") exposed no real iSerial \u{2014} Windows synthesized the instance-id serial; consistent with weaker device attribution"@,
    }
}

fn bus_debug_name(b: Bus) -> (r: &'static str)
    ensures
        r@ == bus_name(b),
{
    match b {
        Bus::Usb => "Usb",
        Bus::Mtp => "Mtp",
        Bus::FireWire => "FireWire",
        Bus::Thunderbolt => "Thunderbolt",
        Bus::Pcie => "Pcie",
        Bus::Esata => "Esata",
        Bus::SdMmc => "SdMmc",
        Bus::Bluetooth => "Bluetooth",
        Bus::ExpressCard => "ExpressCard",
        Bus::ScsiSas => "ScsiSas",
        Bus::Nvme => "Nvme",
        Bus::Unknown => "Unknown",
    }
}

impl DeviceAnomaly {
    /// The stable, published anomaly code (scheme-prefixed SCREAMING-KEBAB).
    pub fn code(&self) -> (r: &'static str)
        ensures
            r@ == anomaly_code(self@),
    {
        match self {
            DeviceAnomaly::DmaCapableDevice { .. } => "PERIPHERAL-DMA-CAPABLE-DEVICE",
            DeviceAnomaly::MassStorageConnected { .. } => "PERIPHERAL-MASS-STORAGE-CONNECTED",
            DeviceAnomaly::HidDevice { .. } => "PERIPHERAL-HID-DEVICE",
            DeviceAnomaly::OsGeneratedSerial { .. } => "PERIPHERAL-OS-GENERATED-SERIAL",
        }
    }

    /// The severity grade: High for a DMA-capable device, Medium for mass
    /// storage and HID, Low for an OS-generated serial.
    pub fn severity(&self) -> (r: Option<Severity>)
        ensures
            r == Some(anomaly_severity(self@)),
    {
        Some(
            match self {
                DeviceAnomaly::DmaCapableDevice { .. } => Severity::High,
                DeviceAnomaly::MassStorageConnected { .. } | DeviceAnomaly::HidDevice { .. } =>
                    Severity::Medium,
                DeviceAnomaly::OsGeneratedSerial { .. } => Severity::Low,
            },
        )
    }

    /// Threat for the attack-surface kinds, Integrity for an OS-generated serial.
    pub fn category(&self) -> (r: Category)
        ensures
            r == anomaly_category(self@),
    {
        match self {
            DeviceAnomaly::DmaCapableDevice { .. }
            | DeviceAnomaly::MassStorageConnected { .. }
            | DeviceAnomaly::HidDevice { .. } => Category::Threat,
            DeviceAnomaly::OsGeneratedSerial { .. } => Category::Integrity,
        }
    }

    /// The MITRE ATT&CK techniques the anomaly is consistent with.
    pub fn mitre(&self) -> (r: &'static [&'static str])
        ensures
            r@.map_values(|s: &str| s@) == anomaly_mitre(self@),
    {
        match self {
            DeviceAnomaly::DmaCapableDevice { .. } | DeviceAnomaly::HidDevice { .. } => {
                let r: &'static [&'static str] = &["T1200"];
                assert(r@.map_values(|s: &str| s@) =~= anomaly_mitre(self@));
                r
            },
            DeviceAnomaly::MassStorageConnected { .. } => {
                let r: &'static [&'static str] = &["T1052.001", "T1091"];
                assert(r@.map_values(|s: &str| s@) =~= anomaly_mitre(self@));
                r
            },
            DeviceAnomaly::OsGeneratedSerial { .. } => {
                let r: &'static [&'static str] = &[];
                assert(r@.map_values(|s: &str| s@) =~= anomaly_mitre(self@));
                r
            },
        }
    }

    /// The hedged observation text ("consistent with ...").
    pub fn note(&self) -> (r: String)
        ensures
            r@ == anomaly_note(self@),
    {
        match self {
            DeviceAnomaly::DmaCapableDevice { instance_id, bus } => {
                let mut s = String::from_str("a ");
                s.append(bus_debug_name(*bus));
                s.append(" device (");
                let q = debug_string(instance_id.as_str());
                s.append(q.as_str());
                s.append(
                    ") connected; the bus is bus-mastering DMA-capable, consistent with a direct-memory-access attack surface (MITRE T1200)",
                );
                s
            },
            DeviceAnomaly::MassStorageConnected { instance_id } => {
                let mut s = String::from_str("removable mass storage (");
                let q = debug_string(instance_id.as_str());
                s.append(q.as_str());
                s.append(
                    ") connected; consistent with data staging/exfiltration or autorun payload delivery (MITRE T1052.001 / T1091)",
                );
                s
            },
            DeviceAnomaly::HidDevice { instance_id } => {
                let mut s = String::from_str("a human-interface device (");
                let q = debug_string(instance_id.as_str());
                s.append(q.as_str());
                s.append(
                    ") connected; consistent with keystroke-injection hardware such as BadUSB (MITRE T1200)",
                );
                s
            },
            DeviceAnomaly::OsGeneratedSerial { instance_id } => {
                let mut s = String::from_str("the device (");
                let q = debug_string(instance_id.as_str());
                s.append(q.as_str());
                s.append(
                    ") exposed no real iSerial \u{2014} Windows synthesized the instance-id serial; consistent with weaker device attribution",
                );
                s
            },
        }
    }
}

/// A connection is a Human Interface Device: a Bluetooth transport, or an
/// instance id (ASCII case-insensitively) starting with `HID\` or holding
/// `\HID` or `&HID`.
pub open spec fn hid_connection(d: ConnectionView) -> bool {
    d.bus == Bus::Bluetooth || {
        let id = seq_upper(d.device_instance_id);
        starts_with(id, "HID\\"@) || has_pat(id, "\\HID"@) || has_pat(id, "&HID"@)
    }
}

/// The anomalies one connection raises, in order: DMA-capable device, mass
/// storage (a storage bus that is not a HID), HID, OS-generated serial.
pub open spec fn device_anomalies(d: ConnectionView) -> Seq<AnomalyView> {
    let id = d.device_instance_id;
    (if d.dma_capable {
        seq![AnomalyView::DmaCapableDevice { instance_id: id, bus: d.bus }]
    } else {
        Seq::empty()
    }) + (if storage_bus(d.bus) && !hid_connection(d) {
        seq![AnomalyView::MassStorageConnected { instance_id: id }]
    } else {
        Seq::empty()
    }) + (if hid_connection(d) {
        seq![AnomalyView::HidDevice { instance_id: id }]
    } else {
        Seq::empty()
    }) + (if d.serial_is_os_generated {
        seq![AnomalyView::OsGeneratedSerial { instance_id: id }]
    } else {
        Seq::empty()
    })
}

/// The anomalies of the connections `ds[k..]`, device by device.
pub open spec fn audit_from(ds: Seq<ConnectionView>, k: int) -> Seq<AnomalyView>
    decreases ds.len() - k,
{
    if k < 0 || k >= ds.len() {
        Seq::empty()
    } else {
        device_anomalies(ds[k]) + audit_from(ds, k + 1)
    }
}

pub open spec fn audit_of(ds: Seq<ConnectionView>) -> Seq<AnomalyView> {
    audit_from(ds, 0)
}

/// Whether a connection is a Human Interface Device.
fn is_hid(d: &DeviceConnection) -> (b: bool)
    ensures
        b == hid_connection(d@),
{
    if d.bus == Bus::Bluetooth {
        return true;
    }
    let raw = chars_of(d.device_instance_id.as_str());
    let id = upper_chars(raw.as_slice());
    let id = id.as_slice();
    let p1 = chars_of("HID\\");
    let p2 = chars_of("\\HID");
    let p3 = chars_of("&HID");
    if has_prefix(id, p1.as_slice()) {
        return true;
    }
    let i2 = find_pat(id, p2.as_slice(), 0);
    let i3 = find_pat(id, p3.as_slice(), 0);
    i2 < id.len() || i3 < id.len()
}

/// Audit a slice of [`DeviceConnection`]s into a typed [`DeviceAnomaly`] stream.
pub fn audit(devices: &[DeviceConnection]) -> (r: Vec<DeviceAnomaly>)
    ensures
        anomaly_views(r@) == audit_of(conn_views(devices@)),
{
    let ghost dv = conn_views(devices@);
    let mut out: Vec<DeviceAnomaly> = Vec::new();
    let mut k: usize = 0;
    while k < devices.len()
        invariant
            k <= devices@.len(),
            dv == conn_views(devices@),
            anomaly_views(out@) + audit_from(dv, k as int) == audit_from(dv, 0),
        decreases devices@.len() - k,
    {
        let d = &devices[k];
        assert(d@ == dv[k as int]);
        let ghost before = anomaly_views(out@);
        let hid = is_hid(d);
        if d.dma_capable {
            out.push(DeviceAnomaly::DmaCapableDevice { instance_id: d.device_instance_id.clone(), bus: d.bus });
        }
        if d.bus.is_mass_storage() && !hid {
            out.push(DeviceAnomaly::MassStorageConnected { instance_id: d.device_instance_id.clone() });
        }
        if hid {
            out.push(DeviceAnomaly::HidDevice { instance_id: d.device_instance_id.clone() });
        }
        if d.serial_is_os_generated {
            out.push(DeviceAnomaly::OsGeneratedSerial { instance_id: d.device_instance_id.clone() });
        }
        assert(anomaly_views(out@) =~= before + device_anomalies(d@));
        assert(anomaly_views(out@) + audit_from(dv, k + 1) =~= audit_from(dv, 0));
        k = k + 1;
    }
    assert(anomaly_views(out@) =~= audit_of(conn_views(devices@)));
    out
}

// ---------------------------------------------------------------------------
// Laws
// ---------------------------------------------------------------------------

proof fn lemma_audit_from_concat(a: Seq<ConnectionView>, b: Seq<ConnectionView>, k: int)
    requires
        0 <= k <= a.len(),
    ensures
        audit_from(a + b, k) == audit_from(a, k) + audit_of(b),
    decreases a.len() - k,
{
    if k < a.len() {
        lemma_audit_from_concat(a, b, k + 1);
        assert((a + b)[k] == a[k]);
        assert(audit_from(a + b, k) =~= audit_from(a, k) + audit_of(b));
    } else {
        lemma_audit_from_shift(a, b, 0);
        assert(audit_from(a, k) =~= Seq::<AnomalyView>::empty());
        assert(audit_from(a + b, k) =~= audit_from(a, k) + audit_of(b));
    }
}

proof fn lemma_audit_from_shift(a: Seq<ConnectionView>, b: Seq<ConnectionView>, j: int)
    requires
        0 <= j <= b.len(),
    ensures
        audit_from(a + b, a.len() + j) == audit_from(b, j),
    decreases b.len() - j,
{
    if j < b.len() {
        lemma_audit_from_shift(a, b, j + 1);
        assert((a + b)[a.len() + j] == b[j]);
    }
}

/// Auditing is device by device: the anomalies of two batches of
/// connections are those of the first batch followed by those of the second.
pub proof fn law_audit_composes(a: Seq<ConnectionView>, b: Seq<ConnectionView>)
    ensures
        audit_of(a + b) == audit_of(a) + audit_of(b),
{
    lemma_audit_from_concat(a, b, 0);
}

/// The device instance id an anomaly names.
pub open spec fn anomaly_instance(a: AnomalyView) -> Seq<char> {
    match a {
        AnomalyView::DmaCapableDevice { instance_id, .. } => instance_id,
        AnomalyView::MassStorageConnected { instance_id } => instance_id,
        AnomalyView::HidDevice { instance_id } => instance_id,
        AnomalyView::OsGeneratedSerial { instance_id } => instance_id,
    }
}

proof fn lemma_audit_from_names(ds: Seq<ConnectionView>, k: int)
    requires
        0 <= k,
    ensures
        forall|i: int|
            0 <= i < audit_from(ds, k).len() ==> exists|j: int|
                k <= j < ds.len() && anomaly_instance(#[trigger] audit_from(ds, k)[i])
                    == ds[j].device_instance_id,
    decreases ds.len() - k,
{
    if k < ds.len() {
        lemma_audit_from_names(ds, k + 1);
        let head = device_anomalies(ds[k]);
        let rest = audit_from(ds, k + 1);
        let all = audit_from(ds, k);
        assert(all == head + rest);
        assert forall|i: int| 0 <= i < all.len() implies exists|j: int|
            k <= j < ds.len() && anomaly_instance(#[trigger] all[i]) == ds[j].device_instance_id by {
            if i < head.len() {
                assert(anomaly_instance(all[i]) == ds[k].device_instance_id);
            } else {
                assert(all[i] == rest[i - head.len()]);
            }
        }
    }
}

/// Every anomaly names the instance id of one of the audited connections.
pub proof fn law_anomalies_name_audited_devices(ds: Seq<ConnectionView>, i: int)
    requires
        0 <= i < audit_of(ds).len(),
    ensures
        exists|j: int| 0 <= j < ds.len() && anomaly_instance(audit_of(ds)[i]) == ds[j].device_instance_id,
{
    lemma_audit_from_names(ds, 0);
}

proof fn lemma_hedge_at(x: Seq<char>, tail: Seq<char>, off: int)
    requires
        0 <= off,
        off + 15 <= tail.len(),
        tail.subrange(off, off + 15) == "consistent with"@,
    ensures
        has_pat(x + tail, "consistent with"@),
{
    let s = x + tail;
    let j = x.len() + off;
    assert(s.subrange(j, j + 15) =~= tail.subrange(off, off + 15));
    reveal_strlit("consistent with");
    assert(matches_at(s, "consistent with"@, j));
    lemma_pos_pat_from(s, "consistent with"@, 0);
}

/// Every anomaly's note is a hedged observation: it says the evidence is
/// "consistent with" something, never that it happened.
pub proof fn law_notes_are_hedged(a: AnomalyView)
    ensures
        has_pat(anomaly_note(a), "consistent with"@),
{
    reveal_strlit("consistent with");
    match a {
        AnomalyView::DmaCapableDevice { instance_id, bus } => {
            let t = ") connected; the bus is bus-mastering DMA-capable, consistent with a direct-memory-access attack surface (MITRE T1200)";
            reveal_strlit(") connected; the bus is bus-mastering DMA-capable, consistent with a direct-memory-access attack surface (MITRE T1200)");
            assert(t@.subrange(51, 66) =~= "consistent with"@);
            lemma_hedge_at("a "@ + bus_name(bus) + " device ("@ + debug_quoted(instance_id), t@, 51);
        },
        AnomalyView::MassStorageConnected { instance_id } => {
            let t = ") connected; consistent with data staging/exfiltration or autorun payload delivery (MITRE T1052.001 / T1091)";
            reveal_strlit(") connected; consistent with data staging/exfiltration or autorun payload delivery (MITRE T1052.001 / T1091)");
            assert(t@.subrange(13, 28) =~= "consistent with"@);
            lemma_hedge_at("removable mass storage ("@ + debug_quoted(instance_id), t@, 13);
        },
        AnomalyView::HidDevice { instance_id } => {
            let t = ") connected; consistent with keystroke-injection hardware such as BadUSB (MITRE T1200)";
            reveal_strlit(") connected; consistent with keystroke-injection hardware such as BadUSB (MITRE T1200)");
            assert(t@.subrange(13, 28) =~= "consistent with"@);
            lemma_hedge_at("a human-interface device ("@ + debug_quoted(instance_id), t@, 13);
        },
        AnomalyView::OsGeneratedSerial { instance_id } => {
            let t = ") exposed no real iSerial \u{2014} Windows synthesized the instance-id serial; consistent with weaker device attribution";
            reveal_strlit(") exposed no real iSerial \u{2014} Windows synthesized the instance-id serial; consistent with weaker device attribution");
            assert(t@.subrange(72, 87) =~= "consistent with"@);
            lemma_hedge_at("the device ("@ + debug_quoted(instance_id), t@, 72);
        },
    }
}

/// An audited connection raises the OS-generated-serial anomaly, naming its
/// own instance id, exactly when its serial is flagged as synthesized,
/// whatever its bus or device class.
pub proof fn law_os_generated_serial_is_reported(d: ConnectionView)
    ensures
        audit_of(seq![d]).contains(AnomalyView::OsGeneratedSerial { instance_id: d.device_instance_id })
            <==> d.serial_is_os_generated,
{
    let a = audit_of(seq![d]);
    let target = AnomalyView::OsGeneratedSerial { instance_id: d.device_instance_id };
    assert(audit_from(seq![d], 1) =~= Seq::<AnomalyView>::empty());
    assert(a =~= device_anomalies(d));
    if d.serial_is_os_generated {
        assert(a[a.len() - 1] == target);
    } else {
        assert forall|i: int| 0 <= i < a.len() implies a[i] != target by {
            assert(!(a[i] is OsGeneratedSerial));
        }
    }
}

/// An audited connection raises the DMA-capable anomaly, naming its own
/// instance id and bus, exactly when it is DMA-capable.
pub proof fn law_dma_capable_is_reported(d: ConnectionView)
    ensures
        audit_of(seq![d]).contains(
            AnomalyView::DmaCapableDevice { instance_id: d.device_instance_id, bus: d.bus },
        ) <==> d.dma_capable,
{
    let a = audit_of(seq![d]);
    let target = AnomalyView::DmaCapableDevice { instance_id: d.device_instance_id, bus: d.bus };
    assert(audit_from(seq![d], 1) =~= Seq::<AnomalyView>::empty());
    assert(a =~= device_anomalies(d));
    if d.dma_capable {
        assert(a[0] == target);
    } else {
        assert forall|i: int| 0 <= i < a.len() implies a[i] != target by {
            assert(!(a[i] is DmaCapableDevice));
        }
    }
}

} // verus!
