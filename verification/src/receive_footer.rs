use vstd::prelude::*;

use vstd::arithmetic::power2::lemma2_to64;

use crate::control_header::flag_byte;
use crate::utils::{
    bit_word, flag_bit, lemma_bit_word, lemma_popcount_flag,
    be_bytes, bool_count, count_ones, lemma_be_word_roundtrip, lemma_popcount_split, popcount,
    word_from_be, word_from_be_bytes, word_to_be_bytes, Bit,
};

verus! {

/// Footer of a receive data chunk sent by the MAC-PHY (one 32-bit big-endian word).
#[derive(Debug, Clone, Copy)]
pub struct ReceiveFooter {
    /// Extended Status (bit 31).
    pub exst: bool,
    /// Received Header Bad (bit 30).
    pub hdrb: bool,
    /// Configuration Synchronized flag (bit 29).
    pub sync: bool,
    /// Receive Chunks Available (bits 28-24).
    pub rca: u8,
    /// Data Valid flag (bit 21).
    pub dv: bool,
    /// Start Valid flag (bit 20).
    pub sv: bool,
    /// Start Word Offset (bits 19-16).
    pub swo: u8,
    /// Frame Drop (bit 15).
    pub fd: bool,
    /// End Valid flag (bit 14).
    pub ev: bool,
    /// End Byte Offset (bits 13-8).
    pub ebo: u8,
    /// Receive Timestamp Added (bit 7).
    pub rtsa: bool,
    /// Receive Timestamp Parity (bit 6).
    pub rtsp: bool,
    /// Transmit Credits (bits 5-1).
    pub txc: u8,
    /// Parity bit (bit 0).
    pub parity: bool,
}

/// The bits of a 32-bit word that a receive footer uses.
pub open spec fn receive_word_mask() -> u32 {
    0xFF3F_FFFFu32
}

impl ReceiveFooter {
    /// The footer with every field cleared.
    pub open spec fn zeroed() -> ReceiveFooter {
        ReceiveFooter {
            exst: false,
            hdrb: false,
            sync: false,
            rca: 0,
            dv: false,
            sv: false,
            swo: 0,
            fd: false,
            ev: false,
            ebo: 0,
            rtsa: false,
            rtsp: false,
            txc: 0,
            parity: false,
        }
    }

    /// The multi-bit fields fit their widths on the wire.
    pub open spec fn fields_fit(self) -> bool {
        self.rca <= 0b1_1111 && self.swo <= 0b1111 && self.ebo <= 0b11_1111 && self.txc
            <= 0b1_1111
    }

    /// Number of one bits in the fields other than the parity bit.
    pub open spec fn field_bit_count(self) -> nat {
        bool_count(self.exst) + bool_count(self.hdrb) + bool_count(self.sync) + popcount(
            self.rca as nat,
        ) + bool_count(self.dv) + bool_count(self.sv) + popcount(self.swo as nat) + bool_count(
            self.fd,
        ) + bool_count(self.ev) + popcount(self.ebo as nat) + bool_count(self.rtsa) + bool_count(
            self.rtsp,
        ) + popcount(self.txc as nat)
    }

    /// The odd-parity bit of the footer: set exactly when the other fields hold an
    /// even number of one bits, so that the whole footer holds an odd number.
    pub open spec fn expected_parity(self) -> bool {
        self.field_bit_count() % 2 == 0
    }

    /// The fields that locate frame data agree with each other.
    pub open spec fn data_fields_consistent(self) -> bool {
        if !self.dv {
            !self.sv && self.swo == 0 && !self.ev && self.ebo == 0
        } else {
            &&& (self.sv || self.swo == 0)
            &&& (self.ev || self.ebo == 0)
            &&& self.swo <= 0b1111
            &&& self.ebo <= 0b11_1111
        }
    }

    /// The footer is a well-formed receive data footer.
    pub open spec fn is_valid(self) -> bool {
        &&& self.data_fields_consistent()
        // frame drop only at the end of valid data
        &&& (self.fd ==> self.ev && self.dv)
        // a timestamp only with a frame start
        &&& (self.rtsa ==> self.sv)
        // timestamp parity only with a timestamp
        &&& (self.rtsp ==> self.rtsa)
        &&& self.rca <= 0b1_1111
        &&& self.txc <= 0b1_1111
        &&& self.parity == self.expected_parity()
    }

    /// The 32-bit wire word of the footer.
    pub open spec fn to_word(self) -> u32 {
        flag_bit(self.exst, 31) | flag_bit(self.hdrb, 30) | flag_bit(self.sync, 29) | (((
        self.rca as u32) & 0b1_1111u32) << 24u32) | flag_bit(self.dv, 21) | flag_bit(self.sv, 20)
            | (((self.swo as u32) & 0b1111u32) << 16u32) | flag_bit(self.fd, 15) | flag_bit(
            self.ev,
            14,
        ) | (((self.ebo as u32) & 0b11_1111u32) << 8u32) | flag_bit(self.rtsa, 7) | flag_bit(
            self.rtsp,
            6,
        ) | (((self.txc as u32) & 0b1_1111u32) << 1u32) | flag_bit(self.parity, 0)
    }

    /// The footer that a 32-bit wire word holds.
    pub open spec fn from_word(w: u32) -> ReceiveFooter {
        ReceiveFooter {
            exst: w.bit_is_set(31),
            hdrb: w.bit_is_set(30),
            sync: w.bit_is_set(29),
            rca: ((w >> 24u32) & 0b1_1111u32) as u8,
            dv: w.bit_is_set(21),
            sv: w.bit_is_set(20),
            swo: ((w >> 16u32) & 0b1111u32) as u8,
            fd: w.bit_is_set(15),
            ev: w.bit_is_set(14),
            ebo: ((w >> 8u32) & 0b11_1111u32) as u8,
            rtsa: w.bit_is_set(7),
            rtsp: w.bit_is_set(6),
            txc: ((w >> 1u32) & 0b1_1111u32) as u8,
            parity: w.bit_is_set(0),
        }
    }

    pub fn new() -> (r: Self)
        ensures
            r == Self::zeroed(),
    {
        Self {
            exst: false,
            hdrb: false,
            sync: false,
            rca: 0,
            dv: false,
            sv: false,
            swo: 0,
            fd: false,
            ev: false,
            ebo: 0,
            rtsa: false,
            rtsp: false,
            txc: 0,
            parity: false,
        }
    }

    pub fn valid(&self) -> (r: bool)
        ensures
            r == self.is_valid(),
    {
        if !self.dv {
            // if data is not valid then all bits describing the contained data should be 0
            if self.sv {
                return false;
            }
            if self.swo != 0 {
                return false;
            }
            if self.ev {
                return false;
            }
            if self.ebo != 0 {
                return false;
            }
        } else {
            // if sv is false swo should be zero
            if !self.sv && self.swo != 0 {
                return false;
            }
            // if end is not valid ebo should be zero
            if !self.ev && self.ebo != 0 {
                return false;
            }
            // SWO must fit in 4 bits
            if self.swo > 0b1111 {
                return false;
            }
            // EBO must fit in 6 bits
            if self.ebo > 0b11_1111 {
                return false;
            }
        }
        // FD is only valid when EV = 1 and DV = 1
        if self.fd && (!self.ev || !self.dv) {
            return false;
        }
        // RTSA should be 0 when SV = 0
        if !self.sv && self.rtsa {
            return false;
        }
        // RTSP should be 0 when RTSA = 0
        if !self.rtsa && self.rtsp {
            return false;
        }
        // RCA must fit in 5 bits
        if self.rca > 0b1_1111 {
            return false;
        }
        // TXC must fit in 5 bits
        if self.txc > 0b1_1111 {
            return false;
        }
        if self.parity != self.calc_parity_bit() {
            return false;
        }
        true
    }

    pub fn calc_parity_bit(&self) -> (r: bool)
        ensures
            r == self.expected_parity(),
    {
        let rca_ones = count_ones(self.rca as u32);
        let swo_ones = count_ones(self.swo as u32);
        let ebo_ones = count_ones(self.ebo as u32);
        let txc_ones = count_ones(self.txc as u32);
        proof {
            crate::utils::lemma_popcount_le(self.rca as nat);
            crate::utils::lemma_popcount_le(self.swo as nat);
            crate::utils::lemma_popcount_le(self.ebo as nat);
            crate::utils::lemma_popcount_le(self.txc as nat);
        }
        ((self.exst as u32) + (self.hdrb as u32) + (self.sync as u32) + rca_ones + (self.dv as u32)
            + (self.sv as u32) + swo_ones + (self.fd as u32) + (self.ev as u32) + ebo_ones + (
        self.rtsa as u32) + (self.rtsp as u32) + txc_ones) % 2 == 0
    }

    /// Reads a footer from its four wire bytes; `None` when `bytes` is not four bytes long.
    pub fn from_slice(bytes: &[u8]) -> (r: Option<Self>)
        ensures
            bytes@.len() == 4 ==> r == Some(Self::from_word(word_from_be(bytes@))),
            bytes@.len() != 4 ==> r is None,
    {
        if bytes.len() != 4 {
            return None;
        }
        let ary = [bytes[0], bytes[1], bytes[2], bytes[3]];
        assert(ary@ =~= bytes@);
        let mut footer = ReceiveFooter::new();
        let footer_u32 = word_from_be_bytes(ary);
        footer.exst = footer_u32.get_bit(31);
        footer.hdrb = footer_u32.get_bit(30);
        footer.sync = footer_u32.get_bit(29);
        footer.rca = ((footer_u32 >> 24u32) & 0b1_1111u32) as u8;
        footer.dv = footer_u32.get_bit(21);
        footer.sv = footer_u32.get_bit(20);
        footer.swo = ((footer_u32 >> 16u32) & 0b1111u32) as u8;
        footer.fd = footer_u32.get_bit(15);
        footer.ev = footer_u32.get_bit(14);
        footer.ebo = ((footer_u32 >> 8u32) & 0b11_1111u32) as u8;
        footer.rtsa = footer_u32.get_bit(7);
        footer.rtsp = footer_u32.get_bit(6);
        footer.txc = ((footer_u32 >> 1u32) & 0b1_1111u32) as u8;
        footer.parity = footer_u32.get_bit(0);
        Some(footer)
    }

    /// The four wire bytes of the footer, most significant first.
    pub fn to_bytes(&self) -> (r: [u8; 4])
        ensures
            r@ == be_bytes(self.to_word()),
    {
        let mut footer_u32 = 0u32;
        footer_u32.set_bit(31, self.exst);
        footer_u32.set_bit(30, self.hdrb);
        footer_u32.set_bit(29, self.sync);
        footer_u32 |= ((self.rca as u32) & 0b1_1111u32) << 24u32;
        footer_u32.set_bit(21, self.dv);
        footer_u32.set_bit(20, self.sv);
        footer_u32 |= ((self.swo as u32) & 0b1111u32) << 16u32;
        footer_u32.set_bit(15, self.fd);
        footer_u32.set_bit(14, self.ev);
        footer_u32 |= ((self.ebo as u32) & 0b11_1111u32) << 8u32;
        footer_u32.set_bit(7, self.rtsa);
        footer_u32.set_bit(6, self.rtsp);
        footer_u32 |= ((self.txc as u32) & 0b1_1111u32) << 1u32;
        footer_u32.set_bit(0, self.parity);
        proof {
            let (ex, hb, sy, dv, sv, fd, ev, ra, rp, pb) = (
                self.exst,
                self.hdrb,
                self.sync,
                self.dv,
                self.sv,
                self.fd,
                self.ev,
                self.rtsa,
                self.rtsp,
                self.parity,
            );
            let rc: u32 = self.rca as u32;
            let so: u32 = self.swo as u32;
            let eb: u32 = self.ebo as u32;
            let tx: u32 = self.txc as u32;
            let w1: u32 = if ex { 0u32 | (1u32 << 31u32) } else { 0u32 & !(1u32 << 31u32) };
            let w2: u32 = if hb { w1 | (1u32 << 30u32) } else { w1 & !(1u32 << 30u32) };
            let w3: u32 = if sy { w2 | (1u32 << 29u32) } else { w2 & !(1u32 << 29u32) };
            let w4: u32 = w3 | ((rc & 0b1_1111u32) << 24u32);
            let w5: u32 = if dv { w4 | (1u32 << 21u32) } else { w4 & !(1u32 << 21u32) };
            let w6: u32 = if sv { w5 | (1u32 << 20u32) } else { w5 & !(1u32 << 20u32) };
            let w7: u32 = w6 | ((so & 0b1111u32) << 16u32);
            let w8: u32 = if fd { w7 | (1u32 << 15u32) } else { w7 & !(1u32 << 15u32) };
            let w9: u32 = if ev { w8 | (1u32 << 14u32) } else { w8 & !(1u32 << 14u32) };
            let w10: u32 = w9 | ((eb & 0b11_1111u32) << 8u32);
            let w11: u32 = if ra { w10 | (1u32 << 7u32) } else { w10 & !(1u32 << 7u32) };
            let w12: u32 = if rp { w11 | (1u32 << 6u32) } else { w11 & !(1u32 << 6u32) };
            let w13: u32 = w12 | ((tx & 0b1_1111u32) << 1u32);
            let w14: u32 = if pb { w13 | (1u32 << 0u32) } else { w13 & !(1u32 << 0u32) };
            assert(w14 == (if ex { 1u32 << 31u32 } else { 0u32 }) | (if hb { 1u32 << 30u32 } else { 0u32 })
                | (if sy { 1u32 << 29u32 } else { 0u32 }) | ((rc & 0b1_1111u32) << 24u32)
                | (if dv { 1u32 << 21u32 } else { 0u32 }) | (if sv { 1u32 << 20u32 } else { 0u32 })
                | ((so & 0b1111u32) << 16u32) | (if fd { 1u32 << 15u32 } else { 0u32 })
                | (if ev { 1u32 << 14u32 } else { 0u32 }) | ((eb & 0b11_1111u32) << 8u32)
                | (if ra { 1u32 << 7u32 } else { 0u32 }) | (if rp { 1u32 << 6u32 } else { 0u32 })
                | ((tx & 0b1_1111u32) << 1u32) | (if pb { 1u32 << 0u32 } else { 0u32 })) by (bit_vector)
                requires
                    w1 == if ex { 0u32 | (1u32 << 31u32) } else { 0u32 & !(1u32 << 31u32) },
                    w2 == if hb { w1 | (1u32 << 30u32) } else { w1 & !(1u32 << 30u32) },
                    w3 == if sy { w2 | (1u32 << 29u32) } else { w2 & !(1u32 << 29u32) },
                    w4 == w3 | ((rc & 0b1_1111u32) << 24u32),
                    w5 == if dv { w4 | (1u32 << 21u32) } else { w4 & !(1u32 << 21u32) },
                    w6 == if sv { w5 | (1u32 << 20u32) } else { w5 & !(1u32 << 20u32) },
                    w7 == w6 | ((so & 0b1111u32) << 16u32),
                    w8 == if fd { w7 | (1u32 << 15u32) } else { w7 & !(1u32 << 15u32) },
                    w9 == if ev { w8 | (1u32 << 14u32) } else { w8 & !(1u32 << 14u32) },
                    w10 == w9 | ((eb & 0b11_1111u32) << 8u32),
                    w11 == if ra { w10 | (1u32 << 7u32) } else { w10 & !(1u32 << 7u32) },
                    w12 == if rp { w11 | (1u32 << 6u32) } else { w11 & !(1u32 << 6u32) },
                    w13 == w12 | ((tx & 0b1_1111u32) << 1u32),
                    w14 == if pb { w13 | (1u32 << 0u32) } else { w13 & !(1u32 << 0u32) },
            ;
        }
        word_to_be_bytes(footer_u32)
    }
}

impl Default for ReceiveFooter {
    fn default() -> (r: Self)
        ensures
            r == Self::zeroed(),
    {
        Self::new()
    }
}

/// Decoding the wire word of a footer gives the footer back, when its fields fit their widths.
pub proof fn lemma_receive_decode_encode(f: ReceiveFooter)
    requires
        f.fields_fit(),
    ensures
        ReceiveFooter::from_word(f.to_word()) == f,
{
    let (ex, hb, sy, dv, sv, fd, ev, ra, rp, pb) = (
        f.exst,
        f.hdrb,
        f.sync,
        f.dv,
        f.sv,
        f.fd,
        f.ev,
        f.rtsa,
        f.rtsp,
        f.parity,
    );
    let (rc, so, eb, tx) = (f.rca, f.swo, f.ebo, f.txc);
    let w = f.to_word();
    assert(((w >> 31u32) & 1 == 1) == ex && ((w >> 30u32) & 1 == 1) == hb && ((w >> 29u32) & 1
        == 1) == sy && ((w >> 21u32) & 1 == 1) == dv && ((w >> 20u32) & 1 == 1) == sv && ((w
        >> 15u32) & 1 == 1) == fd && ((w >> 14u32) & 1 == 1) == ev && ((w >> 7u32) & 1 == 1)
        == ra && ((w >> 6u32) & 1 == 1) == rp && ((w >> 0u32) & 1 == 1) == pb && ((w >> 24u32)
        & 0b1_1111u32) as u8 == rc && ((w >> 16u32) & 0b1111u32) as u8 == so && ((w >> 8u32)
        & 0b11_1111u32) as u8 == eb && ((w >> 1u32) & 0b1_1111u32) as u8 == tx) by (bit_vector)
        requires
            rc <= 0b1_1111,
            so <= 0b1111,
            eb <= 0b11_1111,
            tx <= 0b1_1111,
            w == (if ex { 1u32 << 31u32 } else { 0u32 }) | (if hb { 1u32 << 30u32 } else { 0u32 })
                | (if sy { 1u32 << 29u32 } else { 0u32 }) | (((rc as u32) & 0b1_1111u32) << 24u32)
                | (if dv { 1u32 << 21u32 } else { 0u32 }) | (if sv { 1u32 << 20u32 } else { 0u32 })
                | (((so as u32) & 0b1111u32) << 16u32) | (if fd { 1u32 << 15u32 } else { 0u32 })
                | (if ev { 1u32 << 14u32 } else { 0u32 }) | (((eb as u32) & 0b11_1111u32) << 8u32)
                | (if ra { 1u32 << 7u32 } else { 0u32 }) | (if rp { 1u32 << 6u32 } else { 0u32 })
                | (((tx as u32) & 0b1_1111u32) << 1u32) | (if pb { 1u32 << 0u32 } else { 0u32 }),
    ;
}

/// Encoding the footer that a word holds gives back the word's footer bits; the others are zero.
pub proof fn lemma_receive_encode_decode(w: u32)
    ensures
        ReceiveFooter::from_word(w).to_word() == w & receive_word_mask(),
{
    let f = ReceiveFooter::from_word(w);
    let (ex, hb, sy, dv, sv, fd, ev, ra, rp, pb) = (
        f.exst,
        f.hdrb,
        f.sync,
        f.dv,
        f.sv,
        f.fd,
        f.ev,
        f.rtsa,
        f.rtsp,
        f.parity,
    );
    let (rc, so, eb, tx) = (f.rca, f.swo, f.ebo, f.txc);
    assert((if ex { 1u32 << 31u32 } else { 0u32 }) | (if hb { 1u32 << 30u32 } else { 0u32 }) | (
    if sy { 1u32 << 29u32 } else { 0u32 }) | (((rc as u32) & 0b1_1111u32) << 24u32) | (if dv {
        1u32 << 21u32
    } else {
        0u32
    }) | (if sv { 1u32 << 20u32 } else { 0u32 }) | (((so as u32) & 0b1111u32) << 16u32) | (if fd {
        1u32 << 15u32
    } else {
        0u32
    }) | (if ev { 1u32 << 14u32 } else { 0u32 }) | (((eb as u32) & 0b11_1111u32) << 8u32) | (
    if ra { 1u32 << 7u32 } else { 0u32 }) | (if rp { 1u32 << 6u32 } else { 0u32 }) | (((
    tx as u32) & 0b1_1111u32) << 1u32) | (if pb { 1u32 << 0u32 } else { 0u32 }) == w
        & 0xFF3F_FFFFu32) by (bit_vector)
        requires
            ex == ((w >> 31u32) & 1 == 1),
            hb == ((w >> 30u32) & 1 == 1),
            sy == ((w >> 29u32) & 1 == 1),
            dv == ((w >> 21u32) & 1 == 1),
            sv == ((w >> 20u32) & 1 == 1),
            fd == ((w >> 15u32) & 1 == 1),
            ev == ((w >> 14u32) & 1 == 1),
            ra == ((w >> 7u32) & 1 == 1),
            rp == ((w >> 6u32) & 1 == 1),
            pb == ((w >> 0u32) & 1 == 1),
            rc == ((w >> 24u32) & 0b1_1111u32) as u8,
            so == ((w >> 16u32) & 0b1111u32) as u8,
            eb == ((w >> 8u32) & 0b11_1111u32) as u8,
            tx == ((w >> 1u32) & 0b1_1111u32) as u8,
    ;
}

/// Reading back the bytes that `to_bytes` writes gives the footer, when its fields fit.
pub proof fn lemma_receive_bytes_roundtrip(f: ReceiveFooter)
    requires
        f.fields_fit(),
    ensures
        ReceiveFooter::from_word(word_from_be(be_bytes(f.to_word()))) == f,
{
    lemma_be_word_roundtrip(f.to_word());
    lemma_receive_decode_encode(f);
}

/// Writing out a footer read from four bytes gives those bytes with the unused bits cleared.
pub proof fn lemma_receive_slice_roundtrip(b: Seq<u8>)
    requires
        b.len() == 4,
    ensures
        be_bytes(ReceiveFooter::from_word(word_from_be(b)).to_word()) == be_bytes(
            word_from_be(b) & receive_word_mask(),
        ),
{
    lemma_receive_encode_decode(word_from_be(b));
}

/// A decoded footer always has fields that fit their widths.
pub proof fn lemma_receive_decoded_fits(w: u32)
    ensures
        ReceiveFooter::from_word(w).fields_fit(),
{
    assert(((w >> 24u32) & 0b1_1111u32) <= 0b1_1111u32 && ((w >> 16u32) & 0b1111u32) <= 0b1111u32
        && ((w >> 8u32) & 0b11_1111u32) <= 0b11_1111u32 && ((w >> 1u32) & 0b1_1111u32)
        <= 0b1_1111u32) by (bit_vector);
}

/// The value of the wire bits of a footer from bit 21 up, shifted down to bit 0.
pub open spec fn receive_high_bits(f: ReceiveFooter) -> nat {
    ((bool_count(f.exst) * 2 + bool_count(f.hdrb)) * 2 + bool_count(f.sync)) * 256 + f.rca as nat
        * 8 + bool_count(f.dv)
}

/// The wire bits of a footer from bit 21 up hold the one bits of the fields there.
proof fn lemma_receive_high_bits(f: ReceiveFooter)
    requires
        f.fields_fit(),
    ensures
        popcount(receive_high_bits(f)) == bool_count(f.exst) + bool_count(f.hdrb) + bool_count(
            f.sync,
        ) + popcount(f.rca as nat) + bool_count(f.dv),
{
    let v30: nat = bool_count(f.exst) * 2 + bool_count(f.hdrb);
    let v29: nat = v30 * 2 + bool_count(f.sync);
    let v24: nat = v29 * 32 + f.rca as nat;
    assert(receive_high_bits(f) == v24 * 8 + bool_count(f.dv));
    lemma2_to64();
    lemma_popcount_split(v24, bool_count(f.dv), 3);
    lemma_popcount_split(v29, f.rca as nat, 5);
    lemma_popcount_split(v30, bool_count(f.sync), 1);
    lemma_popcount_split(bool_count(f.exst), bool_count(f.hdrb), 1);
    lemma_popcount_flag(f.exst);
    lemma_popcount_flag(f.hdrb);
    lemma_popcount_flag(f.sync);
    lemma_popcount_flag(f.dv);
}

/// The wire word of a footer is its high bits above its low bits.
proof fn lemma_receive_word_value(f: ReceiveFooter)
    requires
        f.fields_fit(),
    ensures
        f.to_word() as nat == receive_high_bits(f) * 0x20_0000 + receive_low_bits(f),
{
    let (ex, hb, sy, dv, sv, fd, ev, ra, rp, pb) = (
        f.exst,
        f.hdrb,
        f.sync,
        f.dv,
        f.sv,
        f.fd,
        f.ev,
        f.rtsa,
        f.rtsp,
        f.parity,
    );
    let (x, h, y, v, s, d, e, a, r, p) = (
        bit_word(ex),
        bit_word(hb),
        bit_word(sy),
        bit_word(dv),
        bit_word(sv),
        bit_word(fd),
        bit_word(ev),
        bit_word(ra),
        bit_word(rp),
        bit_word(pb),
    );
    let rc = f.rca as u32;
    let so = f.swo as u32;
    let eb = f.ebo as u32;
    let tx = f.txc as u32;
    let w = f.to_word();
    assert(w == x * 0x8000_0000u32 + h * 0x4000_0000u32 + y * 0x2000_0000u32 + rc * 0x100_0000u32
        + v * 0x20_0000u32 + s * 0x10_0000u32 + so * 0x1_0000u32 + d * 0x8000u32 + e * 0x4000u32
        + eb * 0x100u32 + a * 0x80u32 + r * 0x40u32 + tx * 2u32 + p) by (bit_vector)
        requires
            w == (if ex { 1u32 << 31u32 } else { 0u32 }) | (if hb { 1u32 << 30u32 } else { 0u32 })
                | (if sy { 1u32 << 29u32 } else { 0u32 }) | ((rc & 0b1_1111u32) << 24u32) | (if dv {
                1u32 << 21u32
            } else {
                0u32
            }) | (if sv { 1u32 << 20u32 } else { 0u32 }) | ((so & 0b1111u32) << 16u32) | (if fd {
                1u32 << 15u32
            } else {
                0u32
            }) | (if ev { 1u32 << 14u32 } else { 0u32 }) | ((eb & 0b11_1111u32) << 8u32) | (if ra {
                1u32 << 7u32
            } else {
                0u32
            }) | (if rp { 1u32 << 6u32 } else { 0u32 }) | ((tx & 0b1_1111u32) << 1u32) | (if pb {
                1u32 << 0u32
            } else {
                0u32
            }),
            x == if ex { 1u32 } else { 0u32 },
            h == if hb { 1u32 } else { 0u32 },
            y == if sy { 1u32 } else { 0u32 },
            v == if dv { 1u32 } else { 0u32 },
            s == if sv { 1u32 } else { 0u32 },
            d == if fd { 1u32 } else { 0u32 },
            e == if ev { 1u32 } else { 0u32 },
            a == if ra { 1u32 } else { 0u32 },
            r == if rp { 1u32 } else { 0u32 },
            p == if pb { 1u32 } else { 0u32 },
            rc <= 0b1_1111,
            so <= 0b1111,
            eb <= 0b11_1111,
            tx <= 0b1_1111,
    ;
    lemma_bit_word(ex);
    lemma_bit_word(hb);
    lemma_bit_word(sy);
    lemma_bit_word(dv);
    lemma_bit_word(sv);
    lemma_bit_word(fd);
    lemma_bit_word(ev);
    lemma_bit_word(ra);
    lemma_bit_word(rp);
    lemma_bit_word(pb);
}

/// The wire word of a footer holds the one bits of its fields and of its parity bit,
/// when its fields fit their widths.
pub proof fn lemma_receive_wire_bits(f: ReceiveFooter)
    requires
        f.fields_fit(),
    ensures
        popcount(f.to_word() as nat) == f.field_bit_count() + bool_count(f.parity),
{
    let high = receive_high_bits(f);
    let low = receive_low_bits(f);
    lemma_receive_word_value(f);
    lemma2_to64();
    lemma_receive_high_bits(f);
    lemma_receive_low_bits(f);
    lemma_popcount_split(high, low, 21);
}

/// The value of the wire bits of a footer below bit 21.
pub open spec fn receive_low_bits(f: ReceiveFooter) -> nat {
    bool_count(f.sv) * 0x10_0000 + f.swo as nat * 0x1_0000 + bool_count(f.fd) * 0x8000
        + bool_count(f.ev) * 0x4000 + f.ebo as nat * 0x100 + bool_count(f.rtsa) * 0x80
        + bool_count(f.rtsp) * 0x40 + f.txc as nat * 2 + bool_count(f.parity)
}

/// The wire bits of a footer below bit 21 hold the one bits of the fields there.
proof fn lemma_receive_low_bits(f: ReceiveFooter)
    requires
        f.fields_fit(),
    ensures
        popcount(receive_low_bits(f)) == bool_count(f.sv) + popcount(f.swo as nat) + bool_count(
            f.fd,
        ) + bool_count(f.ev) + popcount(f.ebo as nat) + bool_count(f.rtsa) + bool_count(f.rtsp)
            + popcount(f.txc as nat) + bool_count(f.parity),
        receive_low_bits(f) < 0x20_0000,
{
    let v16: nat = bool_count(f.sv) * 16 + f.swo as nat;
    let v15: nat = v16 * 2 + bool_count(f.fd);
    let v14: nat = v15 * 2 + bool_count(f.ev);
    let v8: nat = v14 * 64 + f.ebo as nat;
    let v7: nat = v8 * 2 + bool_count(f.rtsa);
    let v6: nat = v7 * 2 + bool_count(f.rtsp);
    let v1: nat = v6 * 32 + f.txc as nat;
    assert(receive_low_bits(f) == v1 * 2 + bool_count(f.parity));
    lemma2_to64();
    lemma_popcount_split(v1, bool_count(f.parity), 1);
    lemma_popcount_split(v6, f.txc as nat, 5);
    lemma_popcount_split(v7, bool_count(f.rtsp), 1);
    lemma_popcount_split(v8, bool_count(f.rtsa), 1);
    lemma_popcount_split(v14, f.ebo as nat, 6);
    lemma_popcount_split(v15, bool_count(f.ev), 1);
    lemma_popcount_split(v16, bool_count(f.fd), 1);
    lemma_popcount_split(bool_count(f.sv), f.swo as nat, 4);
    lemma_popcount_flag(f.sv);
    lemma_popcount_flag(f.fd);
    lemma_popcount_flag(f.ev);
    lemma_popcount_flag(f.rtsa);
    lemma_popcount_flag(f.rtsp);
    lemma_popcount_flag(f.parity);
}

/// A valid footer has odd parity: its wire word holds an odd number of one bits.
pub proof fn lemma_receive_odd_parity(f: ReceiveFooter)
    requires
        f.is_valid(),
    ensures
        popcount(f.to_word() as nat) % 2 == 1,
{
    lemma_receive_wire_bits(f);
}

/// The wire bytes of a footer, most significant first, hold: EXST, HDRB and SYNC in
/// the top three bits of byte 0 and RCA in its low five; DV and SV at bits 5 and 4
/// of byte 1 and SWO in its low nibble; FD and EV in the top two bits of byte 2 and
/// EBO in its low six; RTSA and RTSP in the top two bits of byte 3, TXC in bits 5
/// to 1 and the parity bit at its bottom. Every other bit is zero.
pub proof fn lemma_receive_wire_layout(f: ReceiveFooter)
    ensures
        be_bytes(f.to_word())[0] == flag_byte(f.exst, 0x80) | flag_byte(f.hdrb, 0x40) | flag_byte(
            f.sync,
            0x20,
        ) | (f.rca & 0x1f),
        be_bytes(f.to_word())[1] == flag_byte(f.dv, 0x20) | flag_byte(f.sv, 0x10) | (f.swo
            & 0x0f),
        be_bytes(f.to_word())[2] == flag_byte(f.fd, 0x80) | flag_byte(f.ev, 0x40) | (f.ebo
            & 0x3f),
        be_bytes(f.to_word())[3] == flag_byte(f.rtsa, 0x80) | flag_byte(f.rtsp, 0x40) | ((f.txc
            & 0x1f) << 1u8) | flag_byte(f.parity, 0x01),
{
    let (ex, hb, sy, dv, sv, fd, ev, ra, rp, pb) = (
        f.exst,
        f.hdrb,
        f.sync,
        f.dv,
        f.sv,
        f.fd,
        f.ev,
        f.rtsa,
        f.rtsp,
        f.parity,
    );
    let (rc, so, eb, tx) = (f.rca, f.swo, f.ebo, f.txc);
    let w = f.to_word();
    assert((w >> 24u32) as u8 == (if ex { 0x80u8 } else { 0u8 }) | (if hb { 0x40u8 } else { 0u8 })
        | (if sy { 0x20u8 } else { 0u8 }) | (rc & 0x1f) && (w >> 16u32) as u8 == (if dv {
        0x20u8
    } else {
        0u8
    }) | (if sv { 0x10u8 } else { 0u8 }) | (so & 0x0f) && (w >> 8u32) as u8 == (if fd {
        0x80u8
    } else {
        0u8
    }) | (if ev { 0x40u8 } else { 0u8 }) | (eb & 0x3f) && w as u8 == (if ra {
        0x80u8
    } else {
        0u8
    }) | (if rp { 0x40u8 } else { 0u8 }) | ((tx & 0x1f) << 1u8) | (if pb { 1u8 } else { 0u8 }))
        by (bit_vector)
        requires
            w == (if ex { 1u32 << 31u32 } else { 0u32 }) | (if hb { 1u32 << 30u32 } else { 0u32 })
                | (if sy { 1u32 << 29u32 } else { 0u32 }) | (((rc as u32) & 0b1_1111u32) << 24u32)
                | (if dv { 1u32 << 21u32 } else { 0u32 }) | (if sv { 1u32 << 20u32 } else { 0u32 })
                | (((so as u32) & 0b1111u32) << 16u32) | (if fd { 1u32 << 15u32 } else { 0u32 })
                | (if ev { 1u32 << 14u32 } else { 0u32 }) | (((eb as u32) & 0b11_1111u32) << 8u32)
                | (if ra { 1u32 << 7u32 } else { 0u32 }) | (if rp { 1u32 << 6u32 } else { 0u32 })
                | (((tx as u32) & 0b1_1111u32) << 1u32) | (if pb { 1u32 << 0u32 } else { 0u32 }),
    ;
}

/// Reading four wire bytes takes each field from its documented bits, as
/// `lemma_receive_wire_layout` places them.
pub proof fn lemma_receive_wire_fields(b: Seq<u8>)
    requires
        b.len() == 4,
    ensures
        ReceiveFooter::from_word(word_from_be(b)).exst == (b[0] & 0x80 != 0),
        ReceiveFooter::from_word(word_from_be(b)).hdrb == (b[0] & 0x40 != 0),
        ReceiveFooter::from_word(word_from_be(b)).sync == (b[0] & 0x20 != 0),
        ReceiveFooter::from_word(word_from_be(b)).rca == b[0] & 0x1f,
        ReceiveFooter::from_word(word_from_be(b)).dv == (b[1] & 0x20 != 0),
        ReceiveFooter::from_word(word_from_be(b)).sv == (b[1] & 0x10 != 0),
        ReceiveFooter::from_word(word_from_be(b)).swo == b[1] & 0x0f,
        ReceiveFooter::from_word(word_from_be(b)).fd == (b[2] & 0x80 != 0),
        ReceiveFooter::from_word(word_from_be(b)).ev == (b[2] & 0x40 != 0),
        ReceiveFooter::from_word(word_from_be(b)).ebo == b[2] & 0x3f,
        ReceiveFooter::from_word(word_from_be(b)).rtsa == (b[3] & 0x80 != 0),
        ReceiveFooter::from_word(word_from_be(b)).rtsp == (b[3] & 0x40 != 0),
        ReceiveFooter::from_word(word_from_be(b)).txc == (b[3] >> 1u8) & 0x1f,
        ReceiveFooter::from_word(word_from_be(b)).parity == (b[3] & 0x01 != 0),
{
    let (b0, b1, b2, b3) = (b[0], b[1], b[2], b[3]);
    let w = word_from_be(b);
    let f = ReceiveFooter::from_word(w);
    let (ex, hb, sy, dv, sv, fd, ev, ra, rp, pb) = (
        f.exst,
        f.hdrb,
        f.sync,
        f.dv,
        f.sv,
        f.fd,
        f.ev,
        f.rtsa,
        f.rtsp,
        f.parity,
    );
    let (rc, so, eb, tx) = (f.rca, f.swo, f.ebo, f.txc);
    assert(ex == (b0 & 0x80 != 0) && hb == (b0 & 0x40 != 0) && sy == (b0 & 0x20 != 0) && rc == b0
        & 0x1f && dv == (b1 & 0x20 != 0) && sv == (b1 & 0x10 != 0) && so == b1 & 0x0f && fd == (b2
        & 0x80 != 0) && ev == (b2 & 0x40 != 0) && eb == b2 & 0x3f && ra == (b3 & 0x80 != 0) && rp
        == (b3 & 0x40 != 0) && tx == (b3 >> 1u8) & 0x1f && pb == (b3 & 0x01 != 0)) by (bit_vector)
        requires
            w == ((b0 as u32) << 24u32) | ((b1 as u32) << 16u32) | ((b2 as u32) << 8u32) | (
            b3 as u32),
            ex == ((w >> 31u32) & 1 == 1),
            hb == ((w >> 30u32) & 1 == 1),
            sy == ((w >> 29u32) & 1 == 1),
            dv == ((w >> 21u32) & 1 == 1),
            sv == ((w >> 20u32) & 1 == 1),
            fd == ((w >> 15u32) & 1 == 1),
            ev == ((w >> 14u32) & 1 == 1),
            ra == ((w >> 7u32) & 1 == 1),
            rp == ((w >> 6u32) & 1 == 1),
            pb == ((w >> 0u32) & 1 == 1),
            rc == ((w >> 24u32) & 0b1_1111u32) as u8,
            so == ((w >> 16u32) & 0b1111u32) as u8,
            eb == ((w >> 8u32) & 0b11_1111u32) as u8,
            tx == ((w >> 1u32) & 0b1_1111u32) as u8,
    ;
}

/// The rules of a valid receive footer: without DV, SV, SWO, EV and EBO are all
/// clear; with DV, SWO is zero unless SV, EBO is zero unless EV, SWO fits four bits
/// and EBO six; FD only with EV and DV; RTSA only with SV; RTSP only with RTSA; RCA
/// and TXC fit five bits; and the parity bit is set exactly when the other fields
/// hold an even number of one bits.
pub proof fn lemma_receive_valid_rules(f: ReceiveFooter)
    ensures
        f.is_valid() <==> ((!f.dv ==> !f.sv && f.swo == 0 && !f.ev && f.ebo == 0) && (f.sv
            || f.swo == 0) && (f.ev || f.ebo == 0) && f.swo <= 15 && f.ebo <= 63 && (f.fd ==> f.ev
            && f.dv) && (f.rtsa ==> f.sv) && (f.rtsp ==> f.rtsa) && f.rca <= 31 && f.txc <= 31
            && f.parity == ((bool_count(f.exst) + bool_count(f.hdrb) + bool_count(f.sync)
            + popcount(f.rca as nat) + bool_count(f.dv) + bool_count(f.sv) + popcount(
            f.swo as nat,
        ) + bool_count(f.fd) + bool_count(f.ev) + popcount(f.ebo as nat) + bool_count(f.rtsa)
            + bool_count(f.rtsp) + popcount(f.txc as nat)) % 2 == 0)),
{
}

} // verus!
