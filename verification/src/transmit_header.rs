use vstd::prelude::*;

use vstd::arithmetic::power2::lemma2_to64;

use crate::control_header::flag_byte;
use crate::utils::{
    bit_word, flag_bit, lemma_popcount_flag,
    be_bytes, bool_count, count_ones, lemma_be_word_roundtrip, lemma_popcount_split, popcount,
    word_from_be, word_from_be_bytes, word_to_be_bytes, Bit,
};

verus! {

/// Header of a transmit data chunk sent by the SPI host (one 32-bit big-endian word).
#[derive(Debug, Clone, Copy)]
pub struct TransmitHeader {
    /// Data-Not-Control flag (bit 31): 1 for a data chunk.
    pub dnc: bool,
    /// Data Chunk Sequence bit (bit 30).
    pub seq: bool,
    /// No Receive flag (bit 29): the host ignores the current receive chunk.
    pub norx: bool,
    /// Data Valid flag (bit 21): the payload holds transmit frame data.
    pub dv: bool,
    /// Start Valid flag (bit 20): a frame starts in the payload.
    pub sv: bool,
    /// Start Word Offset (bits 19-16): the 32-bit word of the payload where the frame starts.
    pub swo: u8,
    /// End Valid flag (bit 14): a frame ends in the payload.
    pub ev: bool,
    /// End Byte Offset (bits 13-8): the payload byte holding the last byte of the frame.
    pub ebo: u8,
    /// Timestamp Capture (bits 7-6).
    pub tsc: u8,
    /// Parity bit (bit 0).
    pub parity: bool,
}

/// The bits of a 32-bit word that a transmit header uses.
pub open spec fn transmit_word_mask() -> u32 {
    0xE03F_7FC1u32
}

impl TransmitHeader {
    /// The header with every field cleared.
    pub open spec fn zeroed() -> TransmitHeader {
        TransmitHeader {
            dnc: false,
            seq: false,
            norx: false,
            dv: false,
            sv: false,
            swo: 0,
            ev: false,
            ebo: 0,
            tsc: 0,
            parity: false,
        }
    }

    /// The multi-bit fields fit their widths on the wire.
    pub open spec fn fields_fit(self) -> bool {
        self.swo <= 0b1111 && self.ebo <= 0b11_1111 && self.tsc <= 0b11
    }

    /// Number of one bits in the fields other than the parity bit.
    pub open spec fn field_bit_count(self) -> nat {
        bool_count(self.dnc) + bool_count(self.seq) + bool_count(self.norx) + bool_count(self.dv)
            + bool_count(self.sv) + popcount(self.swo as nat) + bool_count(self.ev) + popcount(
            self.ebo as nat,
        ) + popcount(self.tsc as nat)
    }

    /// The odd-parity bit of the header: set exactly when the other fields hold an
    /// even number of one bits, so that the whole header holds an odd number.
    pub open spec fn expected_parity(self) -> bool {
        self.field_bit_count() % 2 == 0
    }

    /// The fields that locate frame data agree with each other.
    pub open spec fn data_fields_consistent(self) -> bool {
        if !self.dv {
            // without valid data every field that locates data is zero
            !self.sv && self.swo == 0 && !self.ev && self.ebo == 0
        } else {
            &&& (self.sv || self.swo == 0)
            &&& (self.ev || self.ebo == 0)
            &&& self.swo <= 0b1111
            &&& self.ebo <= 0b11_1111
        }
    }

    /// The header is a well-formed transmit data header.
    pub open spec fn is_valid(self) -> bool {
        self.data_fields_consistent() && self.parity == self.expected_parity()
    }

    /// The 32-bit wire word of the header.
    pub open spec fn to_word(self) -> u32 {
        flag_bit(self.dnc, 31) | flag_bit(self.seq, 30) | flag_bit(self.norx, 29) | flag_bit(
            self.dv,
            21,
        ) | flag_bit(self.sv, 20) | (((self.swo as u32) & 0b1111u32) << 16u32) | flag_bit(
            self.ev,
            14,
        ) | (((self.ebo as u32) & 0b11_1111u32) << 8u32) | (((self.tsc as u32) & 0b11u32)
            << 6u32) | flag_bit(self.parity, 0)
    }

    /// The header that a 32-bit wire word holds.
    pub open spec fn from_word(w: u32) -> TransmitHeader {
        TransmitHeader {
            dnc: w.bit_is_set(31),
            seq: w.bit_is_set(30),
            norx: w.bit_is_set(29),
            dv: w.bit_is_set(21),
            sv: w.bit_is_set(20),
            swo: ((w >> 16u32) & 0b1111u32) as u8,
            ev: w.bit_is_set(14),
            ebo: ((w >> 8u32) & 0b11_1111u32) as u8,
            tsc: ((w >> 6u32) & 0b11u32) as u8,
            parity: w.bit_is_set(0),
        }
    }

    pub fn new() -> (r: Self)
        ensures
            r == Self::zeroed(),
    {
        Self {
            dnc: false,
            seq: false,
            norx: false,
            dv: false,
            sv: false,
            swo: 0,
            ev: false,
            ebo: 0,
            tsc: 0,
            parity: false,
        }
    }

    pub fn valid(&self) -> (r: bool)
        ensures
            r == self.is_valid(),
    {
        if !self.dv {
            // if data is not valid then all bits describing the contained data should be 0
            if self.sv {
                return false;
            }
            if self.swo != 0 {
                return false;
            }
            if self.ev {
                return false;
            }
            if self.ebo != 0 {
                return false;
            }
        } else {
            // if sv is false swo should be zero
            if !self.sv && self.swo != 0 {
                return false;
            }
            // if end is not valid ebo should be zero
            if !self.ev && self.ebo != 0 {
                return false;
            }
            // SWO must fit in 4 bits
            if self.swo > 0b1111 {
                return false;
            }
            // EBO must fit in 6 bits
            if self.ebo > 0b11_1111 {
                return false;
            }
        }
        if self.parity != self.calc_parity_bit() {
            return false;
        }
        true
    }

    pub fn calc_parity_bit(&self) -> (r: bool)
        ensures
            r == self.expected_parity(),
    {
        let flags: u32 = (self.dnc as u32) + (self.seq as u32) + (self.norx as u32) + (
        self.dv as u32) + (self.sv as u32);
        let swo_ones = count_ones(self.swo as u32);
        let ebo_ones = count_ones(self.ebo as u32);
        let tsc_ones = count_ones(self.tsc as u32);
        proof {
            crate::utils::lemma_popcount_le(self.swo as nat);
            crate::utils::lemma_popcount_le(self.ebo as nat);
            crate::utils::lemma_popcount_le(self.tsc as nat);
        }
        (flags + swo_ones + (self.ev as u32) + ebo_ones + tsc_ones) % 2 == 0
    }

    /// Reads a header from its four wire bytes; `None` when `bytes` is not four bytes long.
    pub fn from_slice(bytes: &[u8]) -> (r: Option<Self>)
        ensures
            bytes@.len() == 4 ==> r == Some(Self::from_word(word_from_be(bytes@))),
            bytes@.len() != 4 ==> r is None,
    {
        if bytes.len() != 4 {
            return None;
        }
        let ary = [bytes[0], bytes[1], bytes[2], bytes[3]];
        assert(ary@ =~= bytes@);
        let mut header = TransmitHeader::new();
        let header_u32 = word_from_be_bytes(ary);
        header.dnc = header_u32.get_bit(31);
        header.seq = header_u32.get_bit(30);
        header.norx = header_u32.get_bit(29);
        header.dv = header_u32.get_bit(21);
        header.sv = header_u32.get_bit(20);
        header.swo = ((header_u32 >> 16u32) & 0b1111u32) as u8;
        header.ev = header_u32.get_bit(14);
        header.ebo = ((header_u32 >> 8u32) & 0b11_1111u32) as u8;
        header.tsc = ((header_u32 >> 6u32) & 0b11u32) as u8;
        header.parity = header_u32.get_bit(0);
        Some(header)
    }

    /// The four wire bytes of the header, most significant first.
    pub fn to_bytes(&self) -> (r: [u8; 4])
        ensures
            r@ == be_bytes(self.to_word()),
    {
        let mut header_u32 = 0u32;
        header_u32.set_bit(31, self.dnc);
        header_u32.set_bit(30, self.seq);
        header_u32.set_bit(29, self.norx);
        header_u32.set_bit(21, self.dv);
        header_u32.set_bit(20, self.sv);
        header_u32 |= ((self.swo as u32) & 0b1111u32) << 16u32;
        header_u32.set_bit(14, self.ev);
        header_u32 |= ((self.ebo as u32) & 0b11_1111u32) << 8u32;
        header_u32 |= ((self.tsc as u32) & 0b11u32) << 6u32;
        header_u32.set_bit(0, self.parity);
        proof {
            let (dn, sq, nr, dv, sv, ev, pb) = (
                self.dnc,
                self.seq,
                self.norx,
                self.dv,
                self.sv,
                self.ev,
                self.parity,
            );
            let so: u32 = self.swo as u32;
            let eb: u32 = self.ebo as u32;
            let ts: u32 = self.tsc as u32;
            let w1: u32 = if dn { 0u32 | (1u32 << 31u32) } else { 0u32 & !(1u32 << 31u32) };
            let w2: u32 = if sq { w1 | (1u32 << 30u32) } else { w1 & !(1u32 << 30u32) };
            let w3: u32 = if nr { w2 | (1u32 << 29u32) } else { w2 & !(1u32 << 29u32) };
            let w4: u32 = if dv { w3 | (1u32 << 21u32) } else { w3 & !(1u32 << 21u32) };
            let w5: u32 = if sv { w4 | (1u32 << 20u32) } else { w4 & !(1u32 << 20u32) };
            let w6: u32 = w5 | ((so & 0b1111u32) << 16u32);
            let w7: u32 = if ev { w6 | (1u32 << 14u32) } else { w6 & !(1u32 << 14u32) };
            let w8: u32 = w7 | ((eb & 0b11_1111u32) << 8u32) | ((ts & 0b11u32) << 6u32);
            let w9: u32 = if pb { w8 | (1u32 << 0u32) } else { w8 & !(1u32 << 0u32) };
            assert(w9 == (if dn { 1u32 << 31u32 } else { 0u32 }) | (if sq { 1u32 << 30u32 } else { 0u32 })
                | (if nr { 1u32 << 29u32 } else { 0u32 }) | (if dv { 1u32 << 21u32 } else { 0u32 })
                | (if sv { 1u32 << 20u32 } else { 0u32 }) | ((so & 0b1111u32) << 16u32)
                | (if ev { 1u32 << 14u32 } else { 0u32 }) | ((eb & 0b11_1111u32) << 8u32)
                | ((ts & 0b11u32) << 6u32) | (if pb { 1u32 << 0u32 } else { 0u32 })) by (bit_vector)
                requires
                    w1 == if dn { 0u32 | (1u32 << 31u32) } else { 0u32 & !(1u32 << 31u32) },
                    w2 == if sq { w1 | (1u32 << 30u32) } else { w1 & !(1u32 << 30u32) },
                    w3 == if nr { w2 | (1u32 << 29u32) } else { w2 & !(1u32 << 29u32) },
                    w4 == if dv { w3 | (1u32 << 21u32) } else { w3 & !(1u32 << 21u32) },
                    w5 == if sv { w4 | (1u32 << 20u32) } else { w4 & !(1u32 << 20u32) },
                    w6 == w5 | ((so & 0b1111u32) << 16u32),
                    w7 == if ev { w6 | (1u32 << 14u32) } else { w6 & !(1u32 << 14u32) },
                    w8 == w7 | ((eb & 0b11_1111u32) << 8u32) | ((ts & 0b11u32) << 6u32),
                    w9 == if pb { w8 | (1u32 << 0u32) } else { w8 & !(1u32 << 0u32) },
            ;
        }
        word_to_be_bytes(header_u32)
    }
}

impl Default for TransmitHeader {
    fn default() -> (r: Self)
        ensures
            r == Self::zeroed(),
    {
        Self::new()
    }
}

/// Decoding the wire word of a header gives the header back, when its fields fit their widths.
pub proof fn lemma_transmit_decode_encode(h: TransmitHeader)
    requires
        h.fields_fit(),
    ensures
        TransmitHeader::from_word(h.to_word()) == h,
{
    let (dn, sq, nr, dv, sv, ev, pb) = (h.dnc, h.seq, h.norx, h.dv, h.sv, h.ev, h.parity);
    let (so, eb, ts) = (h.swo, h.ebo, h.tsc);
    let w = h.to_word();
    assert(((w >> 31u32) & 1 == 1) == dn && ((w >> 30u32) & 1 == 1) == sq && ((w >> 29u32) & 1
        == 1) == nr && ((w >> 21u32) & 1 == 1) == dv && ((w >> 20u32) & 1 == 1) == sv && ((w
        >> 14u32) & 1 == 1) == ev && ((w >> 0u32) & 1 == 1) == pb && ((w >> 16u32) & 0b1111u32)
        as u8 == so && ((w >> 8u32) & 0b11_1111u32) as u8 == eb && ((w >> 6u32) & 0b11u32) as u8
        == ts) by (bit_vector)
        requires
            so <= 0b1111,
            eb <= 0b11_1111,
            ts <= 0b11,
            w == (if dn { 1u32 << 31u32 } else { 0u32 }) | (if sq { 1u32 << 30u32 } else { 0u32 })
                | (if nr { 1u32 << 29u32 } else { 0u32 }) | (if dv { 1u32 << 21u32 } else { 0u32 })
                | (if sv { 1u32 << 20u32 } else { 0u32 }) | (((so as u32) & 0b1111u32) << 16u32)
                | (if ev { 1u32 << 14u32 } else { 0u32 }) | (((eb as u32) & 0b11_1111u32) << 8u32)
                | (((ts as u32) & 0b11u32) << 6u32) | (if pb { 1u32 << 0u32 } else { 0u32 }),
    ;
}

/// Encoding the header that a word holds gives back the word's header bits; the others are zero.
pub proof fn lemma_transmit_encode_decode(w: u32)
    ensures
        TransmitHeader::from_word(w).to_word() == w & transmit_word_mask(),
{
    let h = TransmitHeader::from_word(w);
    let (dn, sq, nr, dv, sv, ev, pb) = (h.dnc, h.seq, h.norx, h.dv, h.sv, h.ev, h.parity);
    let (so, eb, ts) = (h.swo, h.ebo, h.tsc);
    assert((if dn { 1u32 << 31u32 } else { 0u32 }) | (if sq { 1u32 << 30u32 } else { 0u32 }) | (
    if nr { 1u32 << 29u32 } else { 0u32 }) | (if dv { 1u32 << 21u32 } else { 0u32 }) | (if sv {
        1u32 << 20u32
    } else {
        0u32
    }) | (((so as u32) & 0b1111u32) << 16u32) | (if ev { 1u32 << 14u32 } else { 0u32 }) | (((
    eb as u32) & 0b11_1111u32) << 8u32) | (((ts as u32) & 0b11u32) << 6u32) | (if pb {
        1u32 << 0u32
    } else {
        0u32
    }) == w & 0xE03F_7FC1u32) by (bit_vector)
        requires
            dn == ((w >> 31u32) & 1 == 1),
            sq == ((w >> 30u32) & 1 == 1),
            nr == ((w >> 29u32) & 1 == 1),
            dv == ((w >> 21u32) & 1 == 1),
            sv == ((w >> 20u32) & 1 == 1),
            ev == ((w >> 14u32) & 1 == 1),
            pb == ((w >> 0u32) & 1 == 1),
            so == ((w >> 16u32) & 0b1111u32) as u8,
            eb == ((w >> 8u32) & 0b11_1111u32) as u8,
            ts == ((w >> 6u32) & 0b11u32) as u8,
    ;
}

/// Reading back the bytes that `to_bytes` writes gives the header, when its fields fit.
pub proof fn lemma_transmit_bytes_roundtrip(h: TransmitHeader)
    requires
        h.fields_fit(),
    ensures
        TransmitHeader::from_word(word_from_be(be_bytes(h.to_word()))) == h,
{
    lemma_be_word_roundtrip(h.to_word());
    lemma_transmit_decode_encode(h);
}

/// Writing out a header read from four bytes gives those bytes with the unused bits cleared.
pub proof fn lemma_transmit_slice_roundtrip(b: Seq<u8>)
    requires
        b.len() == 4,
    ensures
        be_bytes(TransmitHeader::from_word(word_from_be(b)).to_word()) == be_bytes(
            word_from_be(b) & transmit_word_mask(),
        ),
{
    lemma_transmit_encode_decode(word_from_be(b));
}

/// A decoded header always has fields that fit their widths.
pub proof fn lemma_transmit_decoded_fits(w: u32)
    ensures
        TransmitHeader::from_word(w).fields_fit(),
{
    assert(((w >> 16u32) & 0b1111u32) <= 0b1111u32 && ((w >> 8u32) & 0b11_1111u32)
        <= 0b11_1111u32 && ((w >> 6u32) & 0b11u32) <= 0b11u32) by (bit_vector);
}

/// The wire word of a header holds the one bits of its fields and of its parity bit,
/// when its fields fit their widths.
pub proof fn lemma_transmit_wire_bits(h: TransmitHeader)
    requires
        h.fields_fit(),
    ensures
        popcount(h.to_word() as nat) == h.field_bit_count() + bool_count(h.parity),
{
    let (dn, sq, nr, dv, sv, ev, pb) = (h.dnc, h.seq, h.norx, h.dv, h.sv, h.ev, h.parity);
    let (d, q, n, v, s, e, p) = (
        bit_word(dn),
        bit_word(sq),
        bit_word(nr),
        bit_word(dv),
        bit_word(sv),
        bit_word(ev),
        bit_word(pb),
    );
    let so = h.swo as u32;
    let eb = h.ebo as u32;
    let ts = h.tsc as u32;
    let w = h.to_word();
    assert(w == d * 0x8000_0000u32 + q * 0x4000_0000u32 + n * 0x2000_0000u32 + v * 0x20_0000u32
        + s * 0x10_0000u32 + so * 0x1_0000u32 + e * 0x4000u32 + eb * 0x100u32 + ts * 0x40u32 + p)
        by (bit_vector)
        requires
            w == (if dn { 1u32 << 31u32 } else { 0u32 }) | (if sq { 1u32 << 30u32 } else { 0u32 })
                | (if nr { 1u32 << 29u32 } else { 0u32 }) | (if dv { 1u32 << 21u32 } else { 0u32 })
                | (if sv { 1u32 << 20u32 } else { 0u32 }) | ((so & 0b1111u32) << 16u32) | (if ev {
                1u32 << 14u32
            } else {
                0u32
            }) | ((eb & 0b11_1111u32) << 8u32) | ((ts & 0b11u32) << 6u32) | (if pb {
                1u32 << 0u32
            } else {
                0u32
            }),
            d == if dn { 1u32 } else { 0u32 },
            q == if sq { 1u32 } else { 0u32 },
            n == if nr { 1u32 } else { 0u32 },
            v == if dv { 1u32 } else { 0u32 },
            s == if sv { 1u32 } else { 0u32 },
            e == if ev { 1u32 } else { 0u32 },
            p == if pb { 1u32 } else { 0u32 },
            so <= 0b1111,
            eb <= 0b11_1111,
            ts <= 0b11,
    ;
    let r10: nat = bool_count(dn) * 2 + bool_count(sq);
    let r9: nat = r10 * 2 + bool_count(nr);
    let v21: nat = r9 * 256 + bool_count(dv);
    let v20: nat = v21 * 2 + bool_count(sv);
    let v16: nat = v20 * 16 + h.swo as nat;
    let v14: nat = v16 * 4 + bool_count(ev);
    let v8: nat = v14 * 64 + h.ebo as nat;
    let v6: nat = v8 * 4 + h.tsc as nat;
    assert(w as nat == v6 * 64 + bool_count(pb));
    lemma2_to64();
    lemma_popcount_split(v6, bool_count(pb), 6);
    lemma_popcount_split(v8, h.tsc as nat, 2);
    lemma_popcount_split(v14, h.ebo as nat, 6);
    lemma_popcount_split(v16, bool_count(ev), 2);
    lemma_popcount_split(v20, h.swo as nat, 4);
    lemma_popcount_split(v21, bool_count(sv), 1);
    lemma_popcount_split(r9, bool_count(dv), 8);
    lemma_popcount_split(r10, bool_count(nr), 1);
    lemma_popcount_split(bool_count(dn), bool_count(sq), 1);
    lemma_popcount_flag(dn);
    lemma_popcount_flag(sq);
    lemma_popcount_flag(nr);
    lemma_popcount_flag(dv);
    lemma_popcount_flag(sv);
    lemma_popcount_flag(ev);
    lemma_popcount_flag(pb);
}

/// A valid header whose timestamp field fits its two bits has odd parity: its wire
/// word holds an odd number of one bits. (`valid` does not bound `tsc`; a wider value
/// counts in the parity bit but does not reach the wire.)
pub proof fn lemma_transmit_odd_parity(h: TransmitHeader)
    requires
        h.is_valid(),
        h.tsc <= 0b11,
    ensures
        popcount(h.to_word() as nat) % 2 == 1,
{
    lemma_transmit_wire_bits(h);
}

/// The wire bytes of a header, most significant first, hold: DNC, SEQ and NORX in the
/// top three bits of byte 0; DV and SV at bits 5 and 4 of byte 1 and SWO in its low
/// nibble; EV at bit 6 of byte 2 and EBO in its low six bits; TSC in the top two
/// bits of byte 3 and the parity bit at its bottom. Every other bit is zero.
pub proof fn lemma_transmit_wire_layout(h: TransmitHeader)
    ensures
        be_bytes(h.to_word())[0] == flag_byte(h.dnc, 0x80) | flag_byte(h.seq, 0x40) | flag_byte(
            h.norx,
            0x20,
        ),
        be_bytes(h.to_word())[1] == flag_byte(h.dv, 0x20) | flag_byte(h.sv, 0x10) | (h.swo
            & 0x0f),
        be_bytes(h.to_word())[2] == flag_byte(h.ev, 0x40) | (h.ebo & 0x3f),
        be_bytes(h.to_word())[3] == ((h.tsc & 0x03) << 6u8) | flag_byte(h.parity, 0x01),
{
    let (dn, sq, nr, dv, sv, ev, pb) = (h.dnc, h.seq, h.norx, h.dv, h.sv, h.ev, h.parity);
    let (so, eb, ts) = (h.swo, h.ebo, h.tsc);
    let w = h.to_word();
    assert((w >> 24u32) as u8 == (if dn { 0x80u8 } else { 0u8 }) | (if sq { 0x40u8 } else { 0u8 })
        | (if nr { 0x20u8 } else { 0u8 }) && (w >> 16u32) as u8 == (if dv { 0x20u8 } else { 0u8 })
        | (if sv { 0x10u8 } else { 0u8 }) | (so & 0x0f) && (w >> 8u32) as u8 == (if ev {
        0x40u8
    } else {
        0u8
    }) | (eb & 0x3f) && w as u8 == ((ts & 0x03) << 6u8) | (if pb { 1u8 } else { 0u8 }))
        by (bit_vector)
        requires
            w == (if dn { 1u32 << 31u32 } else { 0u32 }) | (if sq { 1u32 << 30u32 } else { 0u32 })
                | (if nr { 1u32 << 29u32 } else { 0u32 }) | (if dv { 1u32 << 21u32 } else { 0u32 })
                | (if sv { 1u32 << 20u32 } else { 0u32 }) | (((so as u32) & 0b1111u32) << 16u32)
                | (if ev { 1u32 << 14u32 } else { 0u32 }) | (((eb as u32) & 0b11_1111u32) << 8u32)
                | (((ts as u32) & 0b11u32) << 6u32) | (if pb { 1u32 << 0u32 } else { 0u32 }),
    ;
}

/// Reading four wire bytes takes each field from its documented bits: DNC, SEQ and
/// NORX from bits 7 to 5 of byte 0; DV and SV from bits 5 and 4 of byte 1 and SWO
/// from its low nibble; EV from bit 6 of byte 2 and EBO from its low six bits; TSC
/// from the top two bits of byte 3 and parity from its bottom bit.
pub proof fn lemma_transmit_wire_fields(b: Seq<u8>)
    requires
        b.len() == 4,
    ensures
        TransmitHeader::from_word(word_from_be(b)).dnc == (b[0] & 0x80 != 0),
        TransmitHeader::from_word(word_from_be(b)).seq == (b[0] & 0x40 != 0),
        TransmitHeader::from_word(word_from_be(b)).norx == (b[0] & 0x20 != 0),
        TransmitHeader::from_word(word_from_be(b)).dv == (b[1] & 0x20 != 0),
        TransmitHeader::from_word(word_from_be(b)).sv == (b[1] & 0x10 != 0),
        TransmitHeader::from_word(word_from_be(b)).swo == b[1] & 0x0f,
        TransmitHeader::from_word(word_from_be(b)).ev == (b[2] & 0x40 != 0),
        TransmitHeader::from_word(word_from_be(b)).ebo == b[2] & 0x3f,
        TransmitHeader::from_word(word_from_be(b)).tsc == b[3] >> 6u8,
        TransmitHeader::from_word(word_from_be(b)).parity == (b[3] & 0x01 != 0),
{
    let (b0, b1, b2, b3) = (b[0], b[1], b[2], b[3]);
    let w = word_from_be(b);
    let h = TransmitHeader::from_word(w);
    let (dn, sq, nr, dv, sv, ev, pb) = (h.dnc, h.seq, h.norx, h.dv, h.sv, h.ev, h.parity);
    let (so, eb, ts) = (h.swo, h.ebo, h.tsc);
    assert(dn == (b0 & 0x80 != 0) && sq == (b0 & 0x40 != 0) && nr == (b0 & 0x20 != 0) && dv == (b1
        & 0x20 != 0) && sv == (b1 & 0x10 != 0) && so == b1 & 0x0f && ev == (b2 & 0x40 != 0) && eb
        == b2 & 0x3f && ts == b3 >> 6u8 && pb == (b3 & 0x01 != 0)) by (bit_vector)
        requires
            w == ((b0 as u32) << 24u32) | ((b1 as u32) << 16u32) | ((b2 as u32) << 8u32) | (
            b3 as u32),
            dn == ((w >> 31u32) & 1 == 1),
            sq == ((w >> 30u32) & 1 == 1),
            nr == ((w >> 29u32) & 1 == 1),
            dv == ((w >> 21u32) & 1 == 1),
            sv == ((w >> 20u32) & 1 == 1),
            ev == ((w >> 14u32) & 1 == 1),
            pb == ((w >> 0u32) & 1 == 1),
            so == ((w >> 16u32) & 0b1111u32) as u8,
            eb == ((w >> 8u32) & 0b11_1111u32) as u8,
            ts == ((w >> 6u32) & 0b11u32) as u8,
    ;
}

/// The rules of a valid transmit header: without DV, SV, SWO, EV and EBO are all
/// clear; with DV, SWO is zero unless SV, EBO is zero unless EV, SWO fits four bits
/// and EBO six; and the parity bit is set exactly when the other fields hold an even
/// number of one bits.
pub proof fn lemma_transmit_valid_rules(h: TransmitHeader)
    ensures
        h.is_valid() <==> ((!h.dv ==> !h.sv && h.swo == 0 && !h.ev && h.ebo == 0) && (h.sv
            || h.swo == 0) && (h.ev || h.ebo == 0) && h.swo <= 15 && h.ebo <= 63 && h.parity == ((
        bool_count(h.dnc) + bool_count(h.seq) + bool_count(h.norx) + bool_count(h.dv)
            + bool_count(h.sv) + popcount(h.swo as nat) + bool_count(h.ev) + popcount(
            h.ebo as nat,
        ) + popcount(h.tsc as nat)) % 2 == 0)),
{
}

} // verus!
