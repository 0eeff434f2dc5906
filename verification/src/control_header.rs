use vstd::prelude::*;

use vstd::arithmetic::power2::lemma2_to64;

use crate::utils::{
    bit_word, flag_bit, lemma_popcount_flag,
    be_bytes, bool_count, count_ones, lemma_be_bytes_roundtrip, lemma_be_word_roundtrip,
    lemma_popcount_split, popcount, word_from_be, word_from_be_bytes, word_to_be_bytes, Bit,
};

verus! {

/// Header of a control command sent by the SPI host (one 32-bit big-endian word).
#[derive(Debug, Clone, Copy)]
pub struct ControlHeader {
    /// Data-Not-Control flag (bit 31): 0 for a control command, 1 for a data chunk.
    pub dnc: bool,
    /// Received Header Bad (bit 30): set by the MAC-PHY on a header parity error.
    pub hdrb: bool,
    /// Write-Not-Read (bit 29): 1 writes the registers, 0 reads them.
    pub wnr: bool,
    /// Address Increment Disable (bit 28).
    pub aid: bool,
    /// Memory Map Selector (bits 27-24).
    pub mms: u8,
    /// Address of the first register (bits 23-8).
    pub addr: u16,
    /// Number of registers minus one (bits 7-1).
    pub len: u8,
    /// Parity bit (bit 0).
    pub parity: bool,
}

impl ControlHeader {
    /// The header with every field cleared.
    pub open spec fn zeroed() -> ControlHeader {
        ControlHeader {
            dnc: false,
            hdrb: false,
            wnr: false,
            aid: false,
            mms: 0,
            addr: 0,
            len: 0,
            parity: false,
        }
    }

    /// The multi-bit fields fit their widths on the wire.
    pub open spec fn fields_fit(self) -> bool {
        self.mms <= 0b1111 && self.len <= 0b111_1111
    }

    /// Number of one bits in the fields other than the parity bit.
    pub open spec fn field_bit_count(self) -> nat {
        bool_count(self.dnc) + bool_count(self.hdrb) + bool_count(self.wnr) + bool_count(self.aid)
            + popcount(self.mms as nat) + popcount(self.addr as nat) + popcount(self.len as nat)
    }

    /// The odd-parity bit of the header: set exactly when the other fields hold an
    /// even number of one bits, so that the whole header holds an odd number.
    pub open spec fn expected_parity(self) -> bool {
        self.field_bit_count() % 2 == 0
    }

    /// The header is a well-formed control command header.
    pub open spec fn is_valid(self) -> bool {
        &&& !self.dnc
        &&& self.mms <= 0b1111
        &&& self.len <= 0b111_1111
        &&& self.parity == self.expected_parity()
    }

    /// The 32-bit wire word of the header.
    pub open spec fn to_word(self) -> u32 {
        flag_bit(self.dnc, 31) | flag_bit(self.hdrb, 30) | flag_bit(self.wnr, 29) | flag_bit(
            self.aid,
            28,
        ) | (((self.mms as u32) & 0b1111u32) << 24u32) | (((self.addr as u32) & 0xffffu32)
            << 8u32) | (((self.len as u32) & 0b111_1111u32) << 1u32) | flag_bit(self.parity, 0)
    }

    /// The header that a 32-bit wire word holds.
    pub open spec fn from_word(w: u32) -> ControlHeader {
        ControlHeader {
            dnc: w.bit_is_set(31),
            hdrb: w.bit_is_set(30),
            wnr: w.bit_is_set(29),
            aid: w.bit_is_set(28),
            mms: ((w >> 24u32) & 0b1111u32) as u8,
            addr: ((w >> 8u32) & 0xffffu32) as u16,
            len: ((w >> 1u32) & 0b111_1111u32) as u8,
            parity: w.bit_is_set(0),
        }
    }

    pub fn new() -> (r: Self)
        ensures
            r == Self::zeroed(),
    {
        Self {
            dnc: false,
            hdrb: false,
            wnr: false,
            aid: false,
            mms: 0,
            addr: 0,
            len: 0,
            parity: false,
        }
    }

    pub fn valid(&self) -> (r: bool)
        ensures
            r == self.is_valid(),
    {
        // For control commands, DNC should be 0
        if self.dnc {
            return false;
        }
        // MMS should fit in 4 bits
        if self.mms > 0b1111 {
            return false;
        }
        // LEN should fit in 7 bits
        if self.len > 0b111_1111 {
            return false;
        }
        if self.parity != self.calc_parity_bit() {
            return false;
        }
        true
    }

    pub fn calc_parity_bit(&self) -> (r: bool)
        ensures
            r == self.expected_parity(),
    {
        let flags: u32 = (self.dnc as u32) + (self.hdrb as u32) + (self.wnr as u32) + (
        self.aid as u32);
        let mms_ones = count_ones(self.mms as u32);
        let addr_ones = count_ones(self.addr as u32);
        let len_ones = count_ones(self.len as u32);
        proof {
            crate::utils::lemma_popcount_le(self.mms as nat);
            crate::utils::lemma_popcount_le(self.addr as nat);
            crate::utils::lemma_popcount_le(self.len as nat);
        }
        (flags + mms_ones + addr_ones + len_ones) % 2 == 0
    }

    /// Reads a header from its four wire bytes; `None` when `bytes` is not four bytes long.
    pub fn from_slice(bytes: &[u8]) -> (r: Option<Self>)
        ensures
            bytes@.len() == 4 ==> r == Some(Self::from_word(word_from_be(bytes@))),
            bytes@.len() != 4 ==> r is None,
    {
        if bytes.len() != 4 {
            return None;
        }
        let ary = [bytes[0], bytes[1], bytes[2], bytes[3]];
        assert(ary@ =~= bytes@);
        let mut header = ControlHeader::new();
        let header_u32 = word_from_be_bytes(ary);
        header.dnc = header_u32.get_bit(31);
        header.hdrb = header_u32.get_bit(30);
        header.wnr = header_u32.get_bit(29);
        header.aid = header_u32.get_bit(28);
        header.mms = ((header_u32 >> 24u32) & 0b1111u32) as u8;
        header.addr = ((header_u32 >> 8u32) & 0xffffu32) as u16;
        header.len = ((header_u32 >> 1u32) & 0b111_1111u32) as u8;
        header.parity = header_u32.get_bit(0);
        Some(header)
    }

    /// The four wire bytes of the header, most significant first.
    pub fn to_bytes(&self) -> (r: [u8; 4])
        ensures
            r@ == be_bytes(self.to_word()),
    {
        let mut header_u32 = 0u32;
        header_u32.set_bit(31, self.dnc);
        header_u32.set_bit(30, self.hdrb);
        header_u32.set_bit(29, self.wnr);
        header_u32.set_bit(28, self.aid);
        header_u32 |= ((self.mms as u32) & 0b1111u32) << 24u32;
        header_u32 |= ((self.addr as u32) & 0xffffu32) << 8u32;
        header_u32 |= ((self.len as u32) & 0b111_1111u32) << 1u32;
        header_u32.set_bit(0, self.parity);
        proof {
            let (dn, hb, wn, ai, pb) = (self.dnc, self.hdrb, self.wnr, self.aid, self.parity);
            let m: u32 = self.mms as u32;
            let ad: u32 = self.addr as u32;
            let l: u32 = self.len as u32;
            let w1: u32 = if dn { 0u32 | (1u32 << 31u32) } else { 0u32 & !(1u32 << 31u32) };
            let w2: u32 = if hb { w1 | (1u32 << 30u32) } else { w1 & !(1u32 << 30u32) };
            let w3: u32 = if wn { w2 | (1u32 << 29u32) } else { w2 & !(1u32 << 29u32) };
            let w4: u32 = if ai { w3 | (1u32 << 28u32) } else { w3 & !(1u32 << 28u32) };
            let w5: u32 = w4 | ((m & 0b1111u32) << 24u32) | ((ad & 0xffffu32) << 8u32) | ((l
                & 0b111_1111u32) << 1u32);
            let w6: u32 = if pb { w5 | (1u32 << 0u32) } else { w5 & !(1u32 << 0u32) };
            assert(w6 == (if dn { 1u32 << 31u32 } else { 0u32 }) | (if hb { 1u32 << 30u32 } else { 0u32 })
                | (if wn { 1u32 << 29u32 } else { 0u32 }) | (if ai { 1u32 << 28u32 } else { 0u32 })
                | ((m & 0b1111u32) << 24u32) | ((ad & 0xffffu32) << 8u32) | ((l & 0b111_1111u32)
                << 1u32) | (if pb { 1u32 << 0u32 } else { 0u32 })) by (bit_vector)
                requires
                    w1 == if dn { 0u32 | (1u32 << 31u32) } else { 0u32 & !(1u32 << 31u32) },
                    w2 == if hb { w1 | (1u32 << 30u32) } else { w1 & !(1u32 << 30u32) },
                    w3 == if wn { w2 | (1u32 << 29u32) } else { w2 & !(1u32 << 29u32) },
                    w4 == if ai { w3 | (1u32 << 28u32) } else { w3 & !(1u32 << 28u32) },
                    w5 == w4 | ((m & 0b1111u32) << 24u32) | ((ad & 0xffffu32) << 8u32) | ((l
                        & 0b111_1111u32) << 1u32),
                    w6 == if pb { w5 | (1u32 << 0u32) } else { w5 & !(1u32 << 0u32) },
            ;
        }
        word_to_be_bytes(header_u32)
    }
}

impl Default for ControlHeader {
    fn default() -> (r: Self)
        ensures
            r == Self::zeroed(),
    {
        Self::new()
    }
}

/// Decoding the wire word of a header gives the header back, when its fields fit their widths.
pub proof fn lemma_control_decode_encode(h: ControlHeader)
    requires
        h.fields_fit(),
    ensures
        ControlHeader::from_word(h.to_word()) == h,
{
    let d = h.dnc;
    let hb = h.hdrb;
    let wn = h.wnr;
    let a = h.aid;
    let p = h.parity;
    let m = h.mms;
    let ad = h.addr;
    let l = h.len;
    let w = h.to_word();
    assert(((w >> 31u32) & 1 == 1) == d && ((w >> 30u32) & 1 == 1) == hb && ((w >> 29u32) & 1
        == 1) == wn && ((w >> 28u32) & 1 == 1) == a && ((w >> 0u32) & 1 == 1) == p && ((w
        >> 24u32) & 0b1111u32) as u8 == m && ((w >> 8u32) & 0xffffu32) as u16 == ad && ((w
        >> 1u32) & 0b111_1111u32) as u8 == l) by (bit_vector)
        requires
            m <= 0b1111,
            l <= 0b111_1111,
            w == (if d { 1u32 << 31u32 } else { 0u32 }) | (if hb { 1u32 << 30u32 } else { 0u32 })
                | (if wn { 1u32 << 29u32 } else { 0u32 }) | (if a { 1u32 << 28u32 } else { 0u32 })
                | (((m as u32) & 0b1111u32) << 24u32) | (((ad as u32) & 0xffffu32) << 8u32) | (((
            l as u32) & 0b111_1111u32) << 1u32) | (if p { 1u32 << 0u32 } else { 0u32 }),
    ;
}

/// Every 32-bit word is the wire word of the header it holds: control headers use all 32 bits.
pub proof fn lemma_control_encode_decode(w: u32)
    ensures
        ControlHeader::from_word(w).to_word() == w,
{
    let h = ControlHeader::from_word(w);
    let d = h.dnc;
    let hb = h.hdrb;
    let wn = h.wnr;
    let a = h.aid;
    let p = h.parity;
    let m = h.mms;
    let ad = h.addr;
    let l = h.len;
    assert((if d { 1u32 << 31u32 } else { 0u32 }) | (if hb { 1u32 << 30u32 } else { 0u32 }) | (
    if wn { 1u32 << 29u32 } else { 0u32 }) | (if a { 1u32 << 28u32 } else { 0u32 }) | (((
    m as u32) & 0b1111u32) << 24u32) | (((ad as u32) & 0xffffu32) << 8u32) | (((l as u32)
        & 0b111_1111u32) << 1u32) | (if p { 1u32 << 0u32 } else { 0u32 }) == w) by (bit_vector)
        requires
            d == ((w >> 31u32) & 1 == 1),
            hb == ((w >> 30u32) & 1 == 1),
            wn == ((w >> 29u32) & 1 == 1),
            a == ((w >> 28u32) & 1 == 1),
            p == ((w >> 0u32) & 1 == 1),
            m == ((w >> 24u32) & 0b1111u32) as u8,
            ad == ((w >> 8u32) & 0xffffu32) as u16,
            l == ((w >> 1u32) & 0b111_1111u32) as u8,
    ;
}

/// Reading back the bytes that `to_bytes` writes gives the header, when its fields fit.
pub proof fn lemma_control_bytes_roundtrip(h: ControlHeader)
    requires
        h.fields_fit(),
    ensures
        ControlHeader::from_word(word_from_be(be_bytes(h.to_word()))) == h,
{
    lemma_be_word_roundtrip(h.to_word());
    lemma_control_decode_encode(h);
}

/// Writing out a header read from four bytes gives the same four bytes.
pub proof fn lemma_control_slice_roundtrip(b: Seq<u8>)
    requires
        b.len() == 4,
    ensures
        be_bytes(ControlHeader::from_word(word_from_be(b)).to_word()) == b,
{
    lemma_control_encode_decode(word_from_be(b));
    lemma_be_bytes_roundtrip(b);
}

/// A decoded header always has fields that fit their widths.
pub proof fn lemma_control_decoded_fits(w: u32)
    ensures
        ControlHeader::from_word(w).fields_fit(),
{
    assert(((w >> 24u32) & 0b1111u32) <= 0b1111u32 && ((w >> 1u32) & 0b111_1111u32)
        <= 0b111_1111u32) by (bit_vector);
}

/// The wire word of a header holds the one bits of its fields and of its parity bit,
/// when its fields fit their widths.
pub proof fn lemma_control_wire_bits(h: ControlHeader)
    requires
        h.fields_fit(),
    ensures
        popcount(h.to_word() as nat) == h.field_bit_count() + bool_count(h.parity),
{
    let (dn, hb, wn, ai, pb) = (h.dnc, h.hdrb, h.wnr, h.aid, h.parity);
    let (d, hh, ww, a, p) = (bit_word(dn), bit_word(hb), bit_word(wn), bit_word(ai), bit_word(pb));
    let m = h.mms as u32;
    let ad = h.addr as u32;
    let l = h.len as u32;
    let w = h.to_word();
    assert(w == d * 0x8000_0000u32 + hh * 0x4000_0000u32 + ww * 0x2000_0000u32 + a
        * 0x1000_0000u32 + m * 0x100_0000u32 + ad * 0x100u32 + l * 2u32 + p) by (bit_vector)
        requires
            w == (if dn { 1u32 << 31u32 } else { 0u32 }) | (if hb { 1u32 << 30u32 } else { 0u32 })
                | (if wn { 1u32 << 29u32 } else { 0u32 }) | (if ai { 1u32 << 28u32 } else { 0u32 })
                | ((m & 0b1111u32) << 24u32) | ((ad & 0xffffu32) << 8u32) | ((l & 0b111_1111u32)
                << 1u32) | (if pb { 1u32 << 0u32 } else { 0u32 }),
            d == if dn { 1u32 } else { 0u32 },
            hh == if hb { 1u32 } else { 0u32 },
            ww == if wn { 1u32 } else { 0u32 },
            a == if ai { 1u32 } else { 0u32 },
            p == if pb { 1u32 } else { 0u32 },
            m <= 0b1111,
            ad <= 0xffff,
            l <= 0b111_1111,
    ;
    let r6: nat = bool_count(dn) * 2 + bool_count(hb);
    let r5: nat = r6 * 2 + bool_count(wn);
    let r4: nat = r5 * 2 + bool_count(ai);
    let r3: nat = r4 * 16 + h.mms as nat;
    let r2: nat = r3 * 65536 + h.addr as nat;
    let r1: nat = r2 * 128 + h.len as nat;
    assert(w as nat == r1 * 2 + bool_count(pb));
    lemma2_to64();
    lemma_popcount_split(r1, bool_count(pb), 1);
    lemma_popcount_split(r2, h.len as nat, 7);
    lemma_popcount_split(r3, h.addr as nat, 16);
    lemma_popcount_split(r4, h.mms as nat, 4);
    lemma_popcount_split(r5, bool_count(ai), 1);
    lemma_popcount_split(r6, bool_count(wn), 1);
    lemma_popcount_split(bool_count(dn), bool_count(hb), 1);
    lemma_popcount_flag(dn);
    lemma_popcount_flag(hb);
    lemma_popcount_flag(wn);
    lemma_popcount_flag(ai);
    lemma_popcount_flag(pb);
}

/// A valid header has odd parity: its wire word holds an odd number of one bits.
pub proof fn lemma_control_odd_parity(h: ControlHeader)
    requires
        h.is_valid(),
    ensures
        popcount(h.to_word() as nat) % 2 == 1,
{
    lemma_control_wire_bits(h);
}

/// Flag byte: `m` when `b` holds, 0 otherwise.
pub open spec fn flag_byte(b: bool, m: u8) -> u8 {
    if b {
        m
    } else {
        0u8
    }
}

/// The wire bytes of a header, most significant first, hold: DNC, HDRB, WNR and AID
/// in the top four bits of byte 0 and MMS below them; ADDR in bytes 1 and 2 (high
/// byte first); LEN in the top seven bits of byte 3 and the parity bit at its bottom.
pub proof fn lemma_control_wire_layout(h: ControlHeader)
    ensures
        be_bytes(h.to_word())[0] == flag_byte(h.dnc, 0x80) | flag_byte(h.hdrb, 0x40) | flag_byte(
            h.wnr,
            0x20,
        ) | flag_byte(h.aid, 0x10) | (h.mms & 0x0f),
        be_bytes(h.to_word())[1] == (h.addr >> 8u16) as u8,
        be_bytes(h.to_word())[2] == h.addr as u8,
        be_bytes(h.to_word())[3] == ((h.len & 0x7f) << 1u8) | flag_byte(h.parity, 0x01),
{
    let (dn, hb, wn, ai, pb) = (h.dnc, h.hdrb, h.wnr, h.aid, h.parity);
    let (m, ad, l) = (h.mms, h.addr, h.len);
    let w = h.to_word();
    assert((w >> 24u32) as u8 == (if dn { 0x80u8 } else { 0u8 }) | (if hb { 0x40u8 } else { 0u8 })
        | (if wn { 0x20u8 } else { 0u8 }) | (if ai { 0x10u8 } else { 0u8 }) | (m & 0x0f) && (w
        >> 16u32) as u8 == (ad >> 8u16) as u8 && (w >> 8u32) as u8 == ad as u8 && w as u8 == ((l
        & 0x7f) << 1u8) | (if pb { 1u8 } else { 0u8 })) by (bit_vector)
        requires
            w == (if dn { 1u32 << 31u32 } else { 0u32 }) | (if hb { 1u32 << 30u32 } else { 0u32 })
                | (if wn { 1u32 << 29u32 } else { 0u32 }) | (if ai { 1u32 << 28u32 } else { 0u32 })
                | (((m as u32) & 0b1111u32) << 24u32) | (((ad as u32) & 0xffffu32) << 8u32) | (((
            l as u32) & 0b111_1111u32) << 1u32) | (if pb { 1u32 << 0u32 } else { 0u32 }),
    ;
}

/// Reading four wire bytes takes each field from its documented bits: DNC, HDRB, WNR
/// and AID from bits 7 to 4 of byte 0 and MMS from its low nibble; ADDR from bytes 1
/// (high) and 2 (low); LEN from the top seven bits of byte 3 and parity from its bottom.
pub proof fn lemma_control_wire_fields(b: Seq<u8>)
    requires
        b.len() == 4,
    ensures
        ControlHeader::from_word(word_from_be(b)).dnc == (b[0] & 0x80 != 0),
        ControlHeader::from_word(word_from_be(b)).hdrb == (b[0] & 0x40 != 0),
        ControlHeader::from_word(word_from_be(b)).wnr == (b[0] & 0x20 != 0),
        ControlHeader::from_word(word_from_be(b)).aid == (b[0] & 0x10 != 0),
        ControlHeader::from_word(word_from_be(b)).mms == b[0] & 0x0f,
        ControlHeader::from_word(word_from_be(b)).addr == b[1] as nat * 256 + b[2] as nat,
        ControlHeader::from_word(word_from_be(b)).len == b[3] >> 1u8,
        ControlHeader::from_word(word_from_be(b)).parity == (b[3] & 0x01 != 0),
{
    let (b0, b1, b2, b3) = (b[0], b[1], b[2], b[3]);
    let w = word_from_be(b);
    let h = ControlHeader::from_word(w);
    let (dn, hb, wn, ai, pb, m, ad, l) = (h.dnc, h.hdrb, h.wnr, h.aid, h.parity, h.mms, h.addr, h.len);
    assert(dn == (b0 & 0x80 != 0) && hb == (b0 & 0x40 != 0) && wn == (b0 & 0x20 != 0) && ai == (b0
        & 0x10 != 0) && m == b0 & 0x0f && ad == ((b1 as u16) << 8u16) | (b2 as u16) && l == b3
        >> 1u8 && pb == (b3 & 0x01 != 0)) by (bit_vector)
        requires
            w == ((b0 as u32) << 24u32) | ((b1 as u32) << 16u32) | ((b2 as u32) << 8u32) | (
            b3 as u32),
            dn == ((w >> 31u32) & 1 == 1),
            hb == ((w >> 30u32) & 1 == 1),
            wn == ((w >> 29u32) & 1 == 1),
            ai == ((w >> 28u32) & 1 == 1),
            pb == ((w >> 0u32) & 1 == 1),
            m == ((w >> 24u32) & 0b1111u32) as u8,
            ad == ((w >> 8u32) & 0xffffu32) as u16,
            l == ((w >> 1u32) & 0b111_1111u32) as u8,
    ;
    assert(((b1 as u16) << 8u16) | (b2 as u16) == b1 as u16 * 256 + b2 as u16) by (bit_vector);
}

/// The rules of a valid control header: DNC clear, MMS within four bits, LEN within
/// seven bits, and the parity bit set exactly when the other fields hold an even
/// number of one bits.
pub proof fn lemma_control_valid_rules(h: ControlHeader)
    ensures
        h.is_valid() <==> (!h.dnc && h.mms <= 15 && h.len <= 127 && h.parity == ((bool_count(
            h.dnc,
        ) + bool_count(h.hdrb) + bool_count(h.wnr) + bool_count(h.aid) + popcount(h.mms as nat)
            + popcount(h.addr as nat) + popcount(h.len as nat)) % 2 == 0)),
{
}

} // verus!
