use peripheral_forensic::device::{Bus, Confidence, Stamp};

#[test]
fn usb_enumerators_classify_as_usb() {
    assert_eq!(Bus::from_enumerator("USBSTOR"), Bus::Usb);
    assert_eq!(Bus::from_enumerator("USB"), Bus::Usb);
    assert_eq!(Bus::from_enumerator("usbstor"), Bus::Usb);
}

#[test]
fn bus_specific_enumerators_classify() {
    assert_eq!(Bus::from_enumerator("1394"), Bus::FireWire);
    assert_eq!(Bus::from_enumerator("SCSI"), Bus::ScsiSas);
    assert_eq!(Bus::from_enumerator("PCI"), Bus::Pcie);
    assert_eq!(Bus::from_enumerator("SD"), Bus::SdMmc);
    assert_eq!(Bus::from_enumerator("WpdBusEnumRoot"), Bus::Mtp);
    assert_eq!(Bus::from_enumerator("THUNDERBOLT"), Bus::Thunderbolt);
    assert_eq!(Bus::from_enumerator("ESATA"), Bus::Esata);
    assert_eq!(Bus::from_enumerator("EXPRESSCARD"), Bus::ExpressCard);
    assert_eq!(Bus::from_enumerator("BTHENUM"), Bus::Bluetooth);
    assert_eq!(Bus::from_enumerator("NVME"), Bus::Nvme);
}

#[test]
fn unknown_enumerator_is_unknown_never_panics() {
    assert_eq!(Bus::from_enumerator("HID"), Bus::Unknown);
    assert_eq!(Bus::from_enumerator(""), Bus::Unknown);
    assert_eq!(Bus::from_enumerator("   "), Bus::Unknown);
}

#[test]
fn dma_capable_is_exactly_firewire_thunderbolt_pcie_expresscard() {
    for b in [Bus::FireWire, Bus::Thunderbolt, Bus::Pcie, Bus::ExpressCard] {
        assert!(b.is_dma_capable(), "{b:?} must be DMA-capable");
    }
    for b in [Bus::Usb, Bus::Esata, Bus::SdMmc, Bus::ScsiSas, Bus::Nvme] {
        assert!(!b.is_dma_capable(), "{b:?} must NOT be DMA-capable");
    }
    for b in [Bus::Bluetooth, Bus::Mtp, Bus::Unknown] {
        assert!(!b.is_dma_capable(), "{b:?} must NOT be DMA-capable");
    }
}

#[test]
fn mass_storage_classes() {
    for b in [Bus::Usb, Bus::Esata, Bus::SdMmc, Bus::ScsiSas, Bus::Nvme] {
        assert!(b.is_mass_storage(), "{b:?} should be mass storage");
    }
    for b in [Bus::FireWire, Bus::Thunderbolt, Bus::Bluetooth, Bus::Mtp] {
        assert!(!b.is_mass_storage(), "{b:?} should not be mass storage");
    }
}

#[test]
fn stamp_carries_confidence() {
    assert_eq!(Stamp::authoritative(10).confidence, Confidence::Authoritative);
    assert_eq!(Stamp::inferred(10).confidence, Confidence::Inferred);
}

#[test]
fn stamp_keeps_its_value() {
    assert_eq!(Stamp::authoritative(-5).value, -5);
    assert_eq!(Stamp::inferred(1_600_000_000).value, 1_600_000_000);
}

#[test]
fn enumerator_case_does_not_matter() {
    for (lower, upper) in [("usb", "USB"), ("pci", "PCI"), ("bthenum", "BTHENUM"), ("WpDbUsEnUmRoOt", "WPDBUSENUMROOT")] {
        assert_eq!(Bus::from_enumerator(lower), Bus::from_enumerator(upper));
    }
}

#[test]
fn no_bus_is_both_dma_and_storage() {
    for b in [
        Bus::Usb, Bus::Mtp, Bus::FireWire, Bus::Thunderbolt, Bus::Pcie, Bus::Esata, Bus::SdMmc,
        Bus::Bluetooth, Bus::ExpressCard, Bus::ScsiSas, Bus::Nvme, Bus::Unknown,
    ] {
        assert!(!(b.is_dma_capable() && b.is_mass_storage()));
    }
}
