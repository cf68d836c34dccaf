//! The normalized external-device connection record and its vocabulary:
//! the bus a device attached through, timestamps tagged with how far they
//! can be trusted, and where each record was decoded from.

use vstd::prelude::*;
use crate::text::{chars_of, is_str, seq_upper, upper_chars, lemma_upper_idempotent};

verus! {

/// The physical/logical bus a peripheral attached through.
#[derive(Debug, Clone, Copy, PartialEq, Eq, Hash, Structural)]
pub enum Bus {
    /// USB (host-controller mediated; not directly DMA-capable as mass storage).
    Usb,
    /// Media Transfer Protocol (phones/cameras), surfaced via `WpdBusEnumRoot`.
    Mtp,
    /// IEEE 1394 FireWire: bus-mastering DMA.
    FireWire,
    /// Thunderbolt: PCIe tunnelled, bus-mastering DMA.
    Thunderbolt,
    /// PCI Express: bus-mastering DMA.
    Pcie,
    /// External SATA: a storage transport, explicitly not DMA.
    Esata,
    /// SD/MMC card.
    SdMmc,
    /// Bluetooth (typically HID/wireless).
    Bluetooth,
    /// ExpressCard: PCIe-backed, bus-mastering DMA.
    ExpressCard,
    /// SCSI / SAS storage transport.
    ScsiSas,
    /// NVMe storage.
    Nvme,
    /// Bus could not be determined from the enumerator.
    Unknown,
}

/// The bus named by an upper-cased enumerator.
pub open spec fn bus_for_upper(name: Seq<char>) -> Bus {
    if name == "USBSTOR"@ || name == "USB"@ {
        Bus::Usb
    } else if name == "1394"@ {
        Bus::FireWire
    } else if name == "SCSI"@ {
        Bus::ScsiSas
    } else if name == "PCI"@ {
        Bus::Pcie
    } else if name == "SD"@ {
        Bus::SdMmc
    } else if name == "WPDBUSENUMROOT"@ {
        Bus::Mtp
    } else if name == "THUNDERBOLT"@ {
        Bus::Thunderbolt
    } else if name == "ESATA"@ {
        Bus::Esata
    } else if name == "EXPRESSCARD"@ {
        Bus::ExpressCard
    } else if name == "BTHENUM"@ {
        Bus::Bluetooth
    } else if name == "NVME"@ {
        Bus::Nvme
    } else {
        Bus::Unknown
    }
}

/// The bus that an instance-id enumerator names, matched ASCII
/// case-insensitively.
pub open spec fn bus_for(enumerator: Seq<char>) -> Bus {
    bus_for_upper(seq_upper(enumerator))
}

pub open spec fn dma_bus(b: Bus) -> bool {
    b == Bus::FireWire || b == Bus::Thunderbolt || b == Bus::Pcie || b == Bus::ExpressCard
}

pub open spec fn storage_bus(b: Bus) -> bool {
    b == Bus::Usb || b == Bus::Esata || b == Bus::SdMmc || b == Bus::ScsiSas || b == Bus::Nvme
}

impl Bus {
    /// Classify a bus from a setupapi/instance-id enumerator (the leading
    /// token of a device instance id: `USBSTOR`, `USB`, `1394`, `PCI`,
    /// `SCSI`, `SD`, `WpdBusEnumRoot`, ...), matched case-insensitively.
    /// An unrecognized or empty enumerator is `Unknown`.
    pub fn from_enumerator(enumerator: &str) -> (b: Bus)
        ensures
            b == bus_for(enumerator@),
    {
        let v = chars_of(enumerator);
        Self::from_enumerator_chars(v.as_slice())
    }

    pub fn from_enumerator_chars(e: &[char]) -> (b: Bus)
        ensures
            b == bus_for(e@),
    {
        let u = upper_chars(e);
        let u = u.as_slice();
        if is_str(u, "USBSTOR") || is_str(u, "USB") {
            Bus::Usb
        } else if is_str(u, "1394") {
            Bus::FireWire
        } else if is_str(u, "SCSI") {
            Bus::ScsiSas
        } else if is_str(u, "PCI") {
            Bus::Pcie
        } else if is_str(u, "SD") {
            Bus::SdMmc
        } else if is_str(u, "WPDBUSENUMROOT") {
            Bus::Mtp
        } else if is_str(u, "THUNDERBOLT") {
            Bus::Thunderbolt
        } else if is_str(u, "ESATA") {
            Bus::Esata
        } else if is_str(u, "EXPRESSCARD") {
            Bus::ExpressCard
        } else if is_str(u, "BTHENUM") {
            Bus::Bluetooth
        } else if is_str(u, "NVME") {
            Bus::Nvme
        } else {
            Bus::Unknown
        }
    }

    /// Whether this bus can perform bus-mastering DMA (MITRE T1200):
    /// FireWire, Thunderbolt, PCIe and ExpressCard.
    pub fn is_dma_capable(self) -> (r: bool)
        ensures
            r == dma_bus(self),
    {
        match self {
            Bus::FireWire | Bus::Thunderbolt | Bus::Pcie | Bus::ExpressCard => true,
            _ => false,
        }
    }

    /// Whether this bus is a removable mass-storage transport (MITRE
    /// T1052.001 / T1091): USB, eSATA, SD/MMC, SCSI/SAS and NVMe.
    pub fn is_mass_storage(self) -> (r: bool)
        ensures
            r == storage_bus(self),
    {
        match self {
            Bus::Usb | Bus::Esata | Bus::SdMmc | Bus::ScsiSas | Bus::Nvme => true,
            _ => false,
        }
    }
}

/// The enumerator classifier ignores ASCII case: an enumerator and its
/// upper-cased form name the same bus.
pub proof fn law_enumerator_case_insensitive(e: Seq<char>)
    ensures
        bus_for(e) == bus_for(seq_upper(e)),
{
    lemma_upper_idempotent(e);
}

/// The DMA-capable and the mass-storage classes never overlap: no bus is
/// both (eSATA in particular is a storage transport, not DMA).
pub proof fn law_dma_and_storage_disjoint(b: Bus)
    ensures
        !(dma_bus(b) && storage_bus(b)),
{
}

/// How much trust a timestamp carries.
#[derive(Debug, Clone, Copy, PartialEq, Eq, Hash, Structural)]
pub enum Confidence {
    /// Directly recorded by the source as the stated event.
    Authoritative,
    /// Derived/undocumented: the value's meaning is inferred.
    Inferred,
}

/// A timestamp (Unix epoch seconds) tagged with its evidentiary confidence.
#[derive(Debug, Clone, Copy, PartialEq, Eq, Hash, Structural)]
pub struct Stamp {
    /// Unix epoch seconds.
    pub value: i64,
    /// How the value should be trusted.
    pub confidence: Confidence,
}

impl Stamp {
    /// An authoritative (source-stated) timestamp.
    pub fn authoritative(value: i64) -> (s: Stamp)
        ensures
            s.value == value,
            s.confidence == Confidence::Authoritative,
    {
        Stamp { value, confidence: Confidence::Authoritative }
    }

    /// An inferred (derived/undocumented) timestamp.
    pub fn inferred(value: i64) -> (s: Stamp)
        ensures
            s.value == value,
            s.confidence == Confidence::Inferred,
    {
        Stamp { value, confidence: Confidence::Inferred }
    }
}

/// A MITRE ATT&CK technique a connection is consistent with (never a verdict).
#[derive(Debug, Clone, Copy, PartialEq, Eq, Hash)]
pub struct MitreRef(pub &'static str);

/// Where a record was decoded from.
#[derive(Debug, Clone, PartialEq, Eq)]
pub struct Provenance {
    /// The source file (e.g. `setupapi.dev.log`, or a hive name).
    pub file: String,
    /// 1-based line number of the text the record came from; 0 for a hive.
    pub line: usize,
    /// The registry key path the record came from, for a hive source.
    pub key_path: Option<String>,
}

/// One external-device connection, normalized across sources.
///
/// `device_serial` is the USB iSerial and is a distinct field from
/// `volume_serial` (a filesystem volume serial); `serial_is_os_generated`
/// records that Windows synthesized the serial; each timestamp is a
/// [`Stamp`] carrying its confidence.
#[derive(Debug, Clone, PartialEq, Eq)]
pub struct DeviceConnection {
    /// The classified bus.
    pub bus: Bus,
    /// Device setup-class GUID, when known.
    pub device_class_guid: Option<String>,
    /// USB vendor id (`VID_xxxx`).
    pub vid: Option<u16>,
    /// USB product id (`PID_xxxx`).
    pub pid: Option<u16>,
    /// The USB iSerial reported by the device.
    pub device_serial: Option<String>,
    /// `true` when the instance-id serial was synthesized by Windows (its 2nd
    /// character is `&`).
    pub serial_is_os_generated: bool,
    /// Human-readable friendly name, when present.
    pub friendly_name: Option<String>,
    /// The full device instance id, the primary key.
    pub device_instance_id: String,
    /// First-seen / first-install.
    pub first_install: Option<Stamp>,
    /// Last install/driver event.
    pub last_install: Option<Stamp>,
    /// Last arrival (connect).
    pub last_arrival: Option<Stamp>,
    /// Last removal (disconnect).
    pub last_removal: Option<Stamp>,
    /// `ParentIdPrefix`, joining the storage device to its volume.
    pub parent_id_prefix: Option<String>,
    /// Volume GUID.
    pub volume_guid: Option<String>,
    /// Mounted drive letter.
    pub drive_letter: Option<char>,
    /// Filesystem volume serial, distinct from `device_serial`.
    pub volume_serial: Option<u32>,
    /// MBR disk signature.
    pub disk_signature: Option<u32>,
    /// Whether the bus is bus-mastering DMA-capable.
    pub dma_capable: bool,
    /// MITRE ATT&CK techniques this connection is consistent with.
    pub mitre: Vec<MitreRef>,
    /// Where this record came from.
    pub source: Provenance,
}

pub open spec fn opt_view(o: Option<String>) -> Option<Seq<char>> {
    match o {
        Some(s) => Some(s@),
        None => None,
    }
}

/// The mathematical form of a [`Provenance`].
pub struct ProvenanceView {
    pub file: Seq<char>,
    pub line: nat,
    pub key_path: Option<Seq<char>>,
}

impl View for Provenance {
    type V = ProvenanceView;

    open spec fn view(&self) -> ProvenanceView {
        ProvenanceView { file: self.file@, line: self.line as nat, key_path: opt_view(self.key_path) }
    }
}

/// The mathematical form of a [`DeviceConnection`]: strings as character
/// sequences, MITRE techniques as their identifiers.
pub struct ConnectionView {
    pub bus: Bus,
    pub device_class_guid: Option<Seq<char>>,
    pub vid: Option<u16>,
    pub pid: Option<u16>,
    pub device_serial: Option<Seq<char>>,
    pub serial_is_os_generated: bool,
    pub friendly_name: Option<Seq<char>>,
    pub device_instance_id: Seq<char>,
    pub first_install: Option<Stamp>,
    pub last_install: Option<Stamp>,
    pub last_arrival: Option<Stamp>,
    pub last_removal: Option<Stamp>,
    pub parent_id_prefix: Option<Seq<char>>,
    pub volume_guid: Option<Seq<char>>,
    pub drive_letter: Option<char>,
    pub volume_serial: Option<u32>,
    pub disk_signature: Option<u32>,
    pub dma_capable: bool,
    pub mitre: Seq<Seq<char>>,
    pub source: ProvenanceView,
}

impl View for DeviceConnection {
    type V = ConnectionView;

    open spec fn view(&self) -> ConnectionView {
        ConnectionView {
            bus: self.bus,
            device_class_guid: opt_view(self.device_class_guid),
            vid: self.vid,
            pid: self.pid,
            device_serial: opt_view(self.device_serial),
            serial_is_os_generated: self.serial_is_os_generated,
            friendly_name: opt_view(self.friendly_name),
            device_instance_id: self.device_instance_id@,
            first_install: self.first_install,
            last_install: self.last_install,
            last_arrival: self.last_arrival,
            last_removal: self.last_removal,
            parent_id_prefix: opt_view(self.parent_id_prefix),
            volume_guid: opt_view(self.volume_guid),
            drive_letter: self.drive_letter,
            volume_serial: self.volume_serial,
            disk_signature: self.disk_signature,
            dma_capable: self.dma_capable,
            mitre: self.mitre@.map_values(|m: MitreRef| m.0@),
            source: self.source@,
        }
    }
}

/// What every reader keeps of a record: an OS-synthesized serial is never
/// reported as the device serial, the filesystem volume serial is never
/// filled in from device evidence (the two serials stay distinct), and DMA
/// capability is exactly that of the bus.
pub open spec fn consistent_record(c: ConnectionView) -> bool {
    &&& c.serial_is_os_generated ==> c.device_serial is None
    &&& c.volume_serial is None
    &&& c.dma_capable == dma_bus(c.bus)
}

/// The stamp is present only with the given confidence.
pub open spec fn stamped(s: Option<Stamp>, c: Confidence) -> bool {
    s matches Some(t) ==> t.confidence == c
}

/// The views of a sequence of connections.
pub open spec fn conn_views(v: Seq<DeviceConnection>) -> Seq<ConnectionView> {
    v.map_values(|c: DeviceConnection| c@)
}

} // verus!
