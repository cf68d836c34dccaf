use peripheral_forensic::usb_ids::UsbIdDb;

const FIXTURE: &str = "# comment line\n\
0781  SanDisk Corp.\n\
\t0001  SDDR-05a ImageMate CompactFlash Reader\n\
\t0002  SDDR-31 ImageMate II CompactFlash Reader\n\
0951  Kingston Technology\n\
\t1666  DataTraveler 100 G3/G4\n\
C 00  (Defined at Interface level)\n\
\t01  Audio\n";

#[test]
fn parses_vendor_name() {
    let db = UsbIdDb::parse(FIXTURE);
    assert_eq!(db.vendor_name(0x0781), Some("SanDisk Corp."));
}

#[test]
fn parses_product_name() {
    let db = UsbIdDb::parse(FIXTURE);
    assert_eq!(
        db.product_name(0x0781, 0x0001),
        Some("SDDR-05a ImageMate CompactFlash Reader")
    );
}

#[test]
fn unknown_vendor_is_none() {
    let db = UsbIdDb::parse(FIXTURE);
    assert_eq!(db.vendor_name(0xFFFF), None);
}

#[test]
fn section_products_do_not_leak_to_previous_vendor() {
    let db = UsbIdDb::parse(FIXTURE);
    assert_eq!(db.product_name(0x0951, 0x0001), None);
    assert_eq!(db.product_name(0x0951, 0x1666), Some("DataTraveler 100 G3/G4"));
}

#[test]
fn comment_and_blank_lines_ignored() {
    let db = UsbIdDb::parse(FIXTURE);
    assert_eq!(db.vendor_count(), 2);
    assert!(!db.is_empty());
}

#[test]
fn common_table_resolves_a_known_vendor() {
    let db = UsbIdDb::common();
    assert_eq!(db.vendor_name(0x0781), Some("SanDisk Corp."));
    assert!(db.vendor_count() >= 20);
}

#[test]
fn empty_text_gives_an_empty_table() {
    let db = UsbIdDb::parse("");
    assert!(db.is_empty());
    assert_eq!(db.vendor_count(), 0);
    let d = UsbIdDb::default();
    assert!(d.is_empty());
}

#[test]
fn interface_lines_and_crlf_are_handled() {
    let text = "046d  Logitech, Inc.\r\n\tc52b  Unifying Receiver\r\n\t\t00  Interface line\r\n";
    let db = UsbIdDb::parse(text);
    assert_eq!(db.vendor_name(0x046d), Some("Logitech, Inc."));
    assert_eq!(db.product_name(0x046d, 0xc52b), Some("Unifying Receiver"));
    assert_eq!(db.product_name(0x046d, 0x0000), None);
}
