use fake_tc6::control_header::ControlHeader;

#[test]
fn control_header_parity_test() {
    let mut header = ControlHeader::default();
    // bit should be true, so there is an odd number of bits
    assert!(header.calc_parity_bit());

    header.wnr = true;
    // bit should be false so there is an odd number, since wnr is set
    assert!(!header.calc_parity_bit());
    header.mms = 0b11;

    // added two bits should be same
    assert!(!header.calc_parity_bit());
}

#[test]
fn control_header_valid_test() {
    let mut header = ControlHeader::default();
    // a header with all zeros is not valid due to parity
    assert!(!header.valid());

    header.parity = true;
    assert!(header.valid());

    header.wnr = true;
    // header not valid since parity needs to change with wnr set
    assert!(!header.valid());

    header.parity = false;
    assert!(header.valid());

    // Test with address and length values
    header.addr = 0x1234;
    header.len = 0x7f; // max 7 bits
    header.parity = false;
    assert!(header.valid());

    // Test invalid field sizes
    header.mms = 0b1_0000; // too large for 4 bits
    header.parity = false;
    assert!(!header.valid());

    header.mms = 0b1111; // reset to valid
    header.len = 0b1_0000_000; // too large for 7 bits
    header.parity = false;
    assert!(!header.valid());
}

#[test]
fn serialization_test() {
    let mut header = ControlHeader::default();
    header.wnr = true;
    header.addr = 0x1234;
    header.len = 0x42;
    header.parity = true;

    let bytes = header.to_bytes();
    let parsed = ControlHeader::from_slice(&bytes).unwrap();

    assert_eq!(parsed.wnr, header.wnr);
    assert_eq!(parsed.addr, header.addr);
    assert_eq!(parsed.len, header.len);
    assert_eq!(parsed.parity, header.parity);
}

#[test]
fn control_header_wire_layout() {
    let header = ControlHeader {
        dnc: false,
        hdrb: true,
        wnr: true,
        aid: false,
        mms: 0b1010,
        addr: 0xBEEF,
        len: 0b101_0101,
        parity: true,
    };
    // 0b0110_1010 | 0xBEEF | 0b1010_1011
    assert_eq!(header.to_bytes(), [0x6A, 0xBE, 0xEF, 0xAB]);
}

#[test]
fn control_header_roundtrip_all_fields() {
    let header = ControlHeader {
        dnc: true,
        hdrb: false,
        wnr: true,
        aid: true,
        mms: 0b0110,
        addr: 0x0F0F,
        len: 0x7f,
        parity: false,
    };
    let parsed = ControlHeader::from_slice(&header.to_bytes()).unwrap();
    assert_eq!(parsed.dnc, header.dnc);
    assert_eq!(parsed.hdrb, header.hdrb);
    assert_eq!(parsed.wnr, header.wnr);
    assert_eq!(parsed.aid, header.aid);
    assert_eq!(parsed.mms, header.mms);
    assert_eq!(parsed.addr, header.addr);
    assert_eq!(parsed.len, header.len);
    assert_eq!(parsed.parity, header.parity);
    // every word is a control header: the bytes come back unchanged
    let bytes = [0x12u8, 0x34, 0x56, 0x78];
    assert_eq!(ControlHeader::from_slice(&bytes).unwrap().to_bytes(), bytes);
}

#[test]
fn control_header_from_slice_wrong_length() {
    assert!(ControlHeader::from_slice(&[1, 2, 3]).is_none());
    assert!(ControlHeader::from_slice(&[1, 2, 3, 4, 5]).is_none());
    assert!(ControlHeader::from_slice(&[]).is_none());
}

#[test]
fn control_header_parity_counts_all_fields() {
    // the parity bit is set exactly when the other fields hold an even number of ones
    let mut header = ControlHeader::default();
    header.len = 0b11;
    assert!(header.calc_parity_bit());
    header.len = 0b1;
    assert!(!header.calc_parity_bit());
    header.len = 0;
    header.hdrb = true;
    header.aid = true;
    assert!(header.calc_parity_bit());
    header.addr = 0x0101;
    header.mms = 0b1;
    assert!(!header.calc_parity_bit());
}

#[test]
fn control_header_dnc_is_invalid() {
    let mut header = ControlHeader::default();
    header.dnc = true;
    header.parity = false;
    assert!(!header.valid());
}

fn ones(bytes: &[u8]) -> u32 {
    bytes.iter().map(|b| b.count_ones()).sum()
}

#[test]
fn control_header_wire_holds_field_bits() {
    let header = ControlHeader {
        dnc: false,
        hdrb: true,
        wnr: false,
        aid: true,
        mms: 0b0111,
        addr: 0x8001,
        len: 0b000_0011,
        parity: true,
    };
    // 2 flags + 3 (mms) + 2 (addr) + 2 (len) + parity
    assert_eq!(ones(&header.to_bytes()), 10);
}

#[test]
fn control_header_odd_parity_when_set() {
    let mut header = ControlHeader::default();
    header.len = 0b101;
    header.parity = header.calc_parity_bit();
    assert!(header.parity);
    assert!(header.valid());
    assert_eq!(ones(&header.to_bytes()) % 2, 1);
    // with the parity bit clear, the wire count is that of the fields
    let mut other = ControlHeader::default();
    other.wnr = true;
    other.parity = other.calc_parity_bit();
    assert!(!other.parity);
    assert!(other.valid());
    assert_eq!(ones(&other.to_bytes()) % 2, 1);
    // WNR and AID: two ones, so the parity bit is set and the header is valid
    let mut two = ControlHeader::default();
    two.wnr = true;
    two.aid = true;
    two.parity = true;
    assert!(two.calc_parity_bit());
    assert!(two.valid());
    assert_eq!(ones(&two.to_bytes()), 3);
}
