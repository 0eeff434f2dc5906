use fake_tc6::receive_footer::ReceiveFooter;

#[test]
fn receive_footer_parity_test() {
    let mut footer = ReceiveFooter::default();
    // bit should be true, so there is an odd number of bits
    assert!(footer.calc_parity_bit());

    footer.exst = true;
    // bit should be false so there is an odd number, since exst is set
    assert!(!footer.calc_parity_bit());
    footer.rca = 0b11;

    // added two bits should be same
    assert!(!footer.calc_parity_bit());
}

#[test]
fn receive_footer_valid_test() {
    let mut footer = ReceiveFooter::default();
    // a footer with all zeros is not valid due to parity
    assert!(!footer.valid());

    footer.parity = true;
    assert!(footer.valid());

    footer.swo = 0b11;
    // footer not valid since swo is something and SV is not set, parity is the same since we added 2 bits
    assert!(!footer.valid());

    footer.swo = 0b111;
    footer.sv = true;
    // not valid since dv is not set
    assert!(!footer.valid());

    footer.dv = true;
    footer.parity = false;
    assert!(footer.valid());

    footer.swo = 0;
    footer.ev = true;
    footer.ebo = 0b11;

    // setting an end byte offset to after swo
    assert!(footer.valid())
}

#[test]
fn receive_footer_flag_rules() {
    let mut footer = ReceiveFooter::default();
    footer.parity = false;
    footer.fd = true;
    // frame drop without end of valid data
    assert!(!footer.valid());
    footer.fd = false;
    footer.rtsp = true;
    // timestamp parity without timestamp
    assert!(!footer.valid());
    footer.rtsp = false;
    footer.rtsa = true;
    // timestamp without frame start
    assert!(!footer.valid());
    footer.rtsa = false;
    footer.txc = 0b10_0000;
    // transmit credits past 5 bits
    assert!(!footer.valid());
    footer.txc = 0b1_1111;
    footer.rca = 0b1_0000;
    // six ones: the parity bit must be set
    assert!(!footer.valid());
    footer.parity = true;
    assert!(footer.valid());
}

#[test]
fn receive_footer_wire_layout() {
    let footer = ReceiveFooter {
        exst: true,
        hdrb: false,
        sync: true,
        rca: 0b1_0101,
        dv: true,
        sv: true,
        swo: 0b0011,
        fd: true,
        ev: true,
        ebo: 0b11_0000,
        rtsa: true,
        rtsp: false,
        txc: 0b0_1111,
        parity: true,
    };
    assert_eq!(footer.to_bytes(), [0xB5, 0x33, 0xF0, 0x9F]);
    let parsed = ReceiveFooter::from_slice(&footer.to_bytes()).unwrap();
    assert_eq!(parsed.rca, footer.rca);
    assert_eq!(parsed.swo, footer.swo);
    assert_eq!(parsed.ebo, footer.ebo);
    assert_eq!(parsed.txc, footer.txc);
    assert_eq!(parsed.fd, footer.fd);
    assert_eq!(parsed.rtsa, footer.rtsa);
    assert_eq!(parsed.rtsp, footer.rtsp);
    assert_eq!(parsed.exst, footer.exst);
    assert_eq!(parsed.sync, footer.sync);
    // bits 23 and 22 carry no field
    let all = ReceiveFooter::from_slice(&[0xFF, 0xFF, 0xFF, 0xFF]).unwrap();
    assert_eq!(all.to_bytes(), [0xFF, 0x3F, 0xFF, 0xFF]);
}

#[test]
fn receive_footer_parity_of_two_flags() {
    let mut footer = ReceiveFooter::default();
    footer.exst = true;
    footer.hdrb = true;
    assert!(footer.calc_parity_bit());
}

#[test]
fn receive_footer_wire_holds_field_bits() {
    let mut footer = ReceiveFooter::default();
    footer.rca = 0b1_1111;
    footer.txc = 0b1_0001;
    footer.parity = footer.calc_parity_bit();
    assert!(!footer.parity);
    assert!(footer.valid());
    let ones: u32 = footer.to_bytes().iter().map(|b| b.count_ones()).sum();
    assert_eq!(ones, 7);
    assert_eq!(ones % 2, 1);
}
