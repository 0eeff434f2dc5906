use fake_tc6::transmit_header::TransmitHeader;

#[test]
fn transmit_header_parity_test() {
    let mut header = TransmitHeader::default();
    // bit should be true, so there is a odd number of bits
    assert!(header.calc_parity_bit());

    header.dnc = true;
    // bit should be false so there is an odd number, since dnc is set
    assert!(!header.calc_parity_bit());
    header.swo = 0b11;

    // added two bits should be same
    assert!(!header.calc_parity_bit());
}

#[test]
fn transmit_header_valid_test() {
    let mut header = TransmitHeader::default();
    // a header with all zeros is not valid due to parity
    assert!(!header.valid());

    header.parity = true;
    assert!(header.valid());

    header.swo = 0b11;
    // header not valid since swo is something and SV is not set, party is the same since we added 2 bits
    assert!(!header.valid());

    header.swo = 0b111;
    header.sv = true;
    // not valid since dw is not set
    assert!(!header.valid());

    header.dv = true;
    header.parity = false;
    assert!(header.valid());

    header.swo = 0;
    header.ev = true;
    header.ebo = 0b11;

    // setting an end byte offset to after swo
    assert!(header.valid())
}

#[test]
fn transmit_header_wire_layout() {
    let header = TransmitHeader {
        dnc: true,
        seq: false,
        norx: true,
        dv: true,
        sv: true,
        swo: 0b1010,
        ev: true,
        ebo: 0b10_1010,
        tsc: 0b10,
        parity: true,
    };
    // bits 31, 29, 21, 20, swo at 19-16, 14, ebo at 13-8, tsc at 7-6, 0
    assert_eq!(header.to_bytes(), [0xA0, 0x3A, 0x6A, 0x81]);
    let parsed = TransmitHeader::from_slice(&header.to_bytes()).unwrap();
    assert_eq!(parsed.dnc, header.dnc);
    assert_eq!(parsed.seq, header.seq);
    assert_eq!(parsed.norx, header.norx);
    assert_eq!(parsed.dv, header.dv);
    assert_eq!(parsed.sv, header.sv);
    assert_eq!(parsed.swo, header.swo);
    assert_eq!(parsed.ev, header.ev);
    assert_eq!(parsed.ebo, header.ebo);
    assert_eq!(parsed.tsc, header.tsc);
    assert_eq!(parsed.parity, header.parity);
}

#[test]
fn transmit_header_unused_bits_dropped() {
    // bits 28-22, 15 and 5-1 carry no field
    let bytes = [0xFFu8, 0xFF, 0xFF, 0xFF];
    let parsed = TransmitHeader::from_slice(&bytes).unwrap();
    assert_eq!(parsed.to_bytes(), [0xE0, 0x3F, 0x7F, 0xC1]);
    assert!(TransmitHeader::from_slice(&bytes[..3]).is_none());
}

#[test]
fn transmit_header_dv_rules() {
    let mut header = TransmitHeader::default();
    header.dv = true;
    header.ebo = 5;
    header.parity = false;
    // ebo without ev
    assert!(!header.valid());
    header.ev = true;
    // dv, ev and two ones in ebo: an even count, so the parity bit must be set
    assert!(!header.valid());
    header.parity = true;
    assert!(header.valid());
    header.ebo = 0b100_0000;
    // ebo past 6 bits
    assert!(!header.valid());
}

#[test]
fn transmit_header_parity_of_two_flags() {
    let mut header = TransmitHeader::default();
    header.dnc = true;
    header.dv = true;
    assert!(header.calc_parity_bit());
}

#[test]
fn transmit_header_wire_holds_field_bits() {
    let header = TransmitHeader {
        dnc: true,
        seq: true,
        norx: false,
        dv: true,
        sv: false,
        swo: 0b1001,
        ev: true,
        ebo: 0b11_1111,
        tsc: 0b01,
        parity: false,
    };
    let ones: u32 = header.to_bytes().iter().map(|b| b.count_ones()).sum();
    // 4 flags + 2 (swo) + 6 (ebo) + 1 (tsc)
    assert_eq!(ones, 13);
}
