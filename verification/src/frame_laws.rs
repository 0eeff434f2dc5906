use vstd::prelude::*;

use crate::fake_tc6_device::{
    collect_byte, collect_ok, lemma_run_extend, lemma_step_wf, push_to_last, DeviceState, Mode,
};
use crate::transmit_header::{lemma_transmit_bytes_roundtrip, TransmitHeader};
use crate::utils::{be_bytes, word_from_be};

verus! {

/// Frame buffer `tb` with the bytes `x` appended to its last frame.
pub open spec fn extend_last(tb: Seq<Seq<u8>>, x: Seq<u8>) -> Seq<Seq<u8>>
    recommends
        tb.len() > 0,
{
    tb.update(tb.len() - 1, tb.last() + x)
}

/// The chunk continues a frame that an earlier chunk opened: it has data that
/// comes before any frame start in it.
pub open spec fn chunk_continues_frame(h: TransmitHeader) -> bool {
    h.dv && (!h.sv || (h.ev && h.swo * 4 >= h.ebo))
}

/// The frames after the payload `block` of a data chunk with header `h` went by.
///
/// Without DV nothing changes. With neither SV nor EV the whole payload goes to
/// the current frame; with SV alone a new frame gets the payload from `swo * 4`
/// on; with EV alone the current frame gets the payload up to `ebo`. With both
/// and `swo * 4 < ebo` a new frame gets the bytes from `swo * 4` to `ebo`; with
/// both and `swo * 4 >= ebo` the current frame gets the bytes up to `ebo` and a
/// new frame those from `swo * 4` on.
pub open spec fn chunk_frames(tb: Seq<Seq<u8>>, h: TransmitHeader, block: Seq<u8>) -> Seq<
    Seq<u8>,
> {
    let n = block.len() as int;
    let start = h.swo * 4;
    let end = h.ebo as int;
    if !h.dv {
        tb
    } else if !h.sv && !h.ev {
        extend_last(tb, block)
    } else if h.sv && !h.ev {
        tb.push(block.subrange(start, n))
    } else if !h.sv && h.ev {
        extend_last(tb, block.take(end + 1))
    } else if start < end {
        tb.push(block.subrange(start, end + 1))
    } else {
        extend_last(tb, block.take(end + 1)).push(block.subrange(start, n))
    }
}

/// The frames after the first `k` bytes of the payload `block` went by.
pub open spec fn chunk_frames_prefix(
    tb: Seq<Seq<u8>>,
    h: TransmitHeader,
    block: Seq<u8>,
    k: int,
) -> Seq<Seq<u8>> {
    let start = h.swo * 4;
    let end = h.ebo as int;
    let upto_end = if k <= end + 1 {
        k
    } else {
        end + 1
    };
    if !h.dv {
        tb
    } else if !h.sv && !h.ev {
        extend_last(tb, block.take(k))
    } else if h.sv && !h.ev {
        if k <= start {
            tb
        } else {
            tb.push(block.subrange(start, k))
        }
    } else if !h.sv && h.ev {
        extend_last(tb, block.take(upto_end))
    } else if start < end {
        if k <= start {
            tb
        } else {
            tb.push(block.subrange(start, upto_end))
        }
    } else {
        let ended = extend_last(tb, block.take(upto_end));
        if k <= start {
            ended
        } else {
            ended.push(block.subrange(start, k))
        }
    }
}

/// Before any payload byte, the frames are those the chunk started with.
pub proof fn lemma_chunk_frames_prefix_zero(tb: Seq<Seq<u8>>, h: TransmitHeader, block: Seq<u8>)
    requires
        chunk_continues_frame(h) ==> tb.len() > 0,
        h.swo <= 0b1111,
        h.ebo <= 0b11_1111,
    ensures
        chunk_frames_prefix(tb, h, block, 0) == tb,
{
    if tb.len() > 0 {
        assert(extend_last(tb, block.take(0)) =~= tb);
    }
}

/// One more payload byte extends the frames of a prefix to those of the longer prefix,
/// without appending to a frame that was never opened.
pub proof fn lemma_chunk_frames_prefix_step(
    tb: Seq<Seq<u8>>,
    h: TransmitHeader,
    block: Seq<u8>,
    k: int,
)
    requires
        chunk_continues_frame(h) ==> tb.len() > 0,
        h.swo <= 0b1111,
        h.ebo <= 0b11_1111,
        block.len() == 64,
        0 <= k < 64,
    ensures
        collect_ok(chunk_frames_prefix(tb, h, block, k), h, k),
        collect_byte(chunk_frames_prefix(tb, h, block, k), h, k, block[k]) == chunk_frames_prefix(
            tb,
            h,
            block,
            k + 1,
        ),
{
    let start = h.swo * 4;
    let end = h.ebo as int;
    let b = block[k];
    let cur = chunk_frames_prefix(tb, h, block, k);
    let next = chunk_frames_prefix(tb, h, block, k + 1);
    assert(block.take(k + 1) =~= block.take(k).push(b));
    if !h.dv {
    } else if !h.sv && !h.ev {
        assert(push_to_last(cur, b) =~= next);
    } else if h.sv && !h.ev {
        if k == start {
            assert(block.subrange(start, k + 1) =~= seq![b]);
            assert(push_to_last(cur.push(Seq::empty()), b) =~= next);
        } else if k > start {
            assert(block.subrange(start, k + 1) =~= block.subrange(start, k).push(b));
            assert(push_to_last(cur, b) =~= next);
        }
    } else if !h.sv && h.ev {
        if k <= end {
            assert(push_to_last(cur, b) =~= next);
        }
    } else if start < end {
        if k == start {
            assert(block.subrange(start, k + 1) =~= seq![b]);
            assert(push_to_last(cur.push(Seq::empty()), b) =~= next);
        } else if k > start && k <= end {
            assert(block.subrange(start, k + 1) =~= block.subrange(start, k).push(b));
            assert(push_to_last(cur, b) =~= next);
        }
    } else {
        if k <= end && k == start {
            let ended = push_to_last(cur, b);
            assert(ended =~= extend_last(tb, block.take(k + 1)));
            assert(block.subrange(start, k + 1) =~= seq![b]);
            assert(push_to_last(ended.push(Seq::empty()), b) =~= next);
        } else if k <= end {
            assert(push_to_last(cur, b) =~= next);
        } else if k == start {
            assert(block.subrange(start, k + 1) =~= seq![b]);
            assert(push_to_last(cur.push(Seq::empty()), b) =~= next);
        } else if k > start {
            assert(block.subrange(start, k + 1) =~= block.subrange(start, k).push(b));
            assert(push_to_last(cur, b) =~= next);
        }
    }
}

/// After the whole payload, the frames are those that `chunk_frames` describes.
pub proof fn lemma_chunk_frames_prefix_full(tb: Seq<Seq<u8>>, h: TransmitHeader, block: Seq<u8>)
    requires
        h.swo <= 0b1111,
        h.ebo <= 0b11_1111,
        block.len() == 64,
    ensures
        chunk_frames_prefix(tb, h, block, 64) == chunk_frames(tb, h, block),
{
    assert(block.take(64) =~= block);
}

/// Running two byte sequences one after the other is running their concatenation.
pub proof fn lemma_run_concat(s: DeviceState, a: Seq<u8>, b: Seq<u8>)
    ensures
        s.run(a + b) == ({
            let (mid, outs_a) = s.run(a);
            let (last, outs_b) = mid.run(b);
            (last, outs_a + outs_b)
        }),
        s.run_ok(a + b) == (s.run_ok(a) && s.run(a).0.run_ok(b)),
    decreases b.len(),
{
    if b.len() == 0 {
        assert(a + b =~= a);
        assert(s.run(a).1 + Seq::<u8>::empty() =~= s.run(a).1);
    } else {
        assert((a + b).drop_last() =~= a + b.drop_last());
        assert((a + b).last() == b.last());
        lemma_run_concat(s, a, b.drop_last());
        let (mid, outs_a) = s.run(a);
        let (m2, outs_b) = mid.run(b.drop_last());
        let (last, out) = m2.step(b.last());
        assert(outs_a + outs_b.push(out) =~= (outs_a + outs_b).push(out));
    }
}

/// The four header bytes of a chunk, sent from the start of a header, leave the device
/// holding the header they encode, in the payload of a data chunk or in a command.
pub proof fn lemma_run_header(s: DeviceState, hb: Seq<u8>)
    requires
        s.wf(),
        s.mode == Mode::ReadingHeader(0),
        hb.len() == 4,
    ensures
        s.run_ok(hb),
        s.run(hb).0.wf(),
        s.run(hb).0.transmit_header == TransmitHeader::from_word(word_from_be(hb)),
        s.run(hb).0.transmit_buff == s.transmit_buff,
        s.run(hb).0.mode == if TransmitHeader::from_word(word_from_be(hb)).dnc {
            Mode::ReadingWritingBlock(0)
        } else {
            Mode::Command(0)
        },
{
    assert(hb.take(0) =~= Seq::<u8>::empty());
    lemma_run_extend(s, hb, 0);
    let t1 = s.run(hb.take(1)).0;
    lemma_step_wf(s, hb[0]);
    lemma_run_extend(s, hb, 1);
    let t2 = s.run(hb.take(2)).0;
    lemma_step_wf(t1, hb[1]);
    lemma_run_extend(s, hb, 2);
    let t3 = s.run(hb.take(3)).0;
    lemma_step_wf(t2, hb[2]);
    lemma_run_extend(s, hb, 3);
    let t4 = s.run(hb.take(4)).0;
    lemma_step_wf(t3, hb[3]);
    assert(hb.take(4) =~= hb);
    assert(t4.mosi_header_raw =~= hb);
}

/// The payload bytes of a data chunk, sent from the start of the payload, add to the
/// frames what `chunk_frames_prefix` describes; after the whole payload the device
/// waits for the next header.
pub proof fn lemma_run_block(s: DeviceState, block: Seq<u8>, k: int)
    requires
        s.wf(),
        s.mode == Mode::ReadingWritingBlock(0),
        chunk_continues_frame(s.transmit_header) ==> s.transmit_buff.len() > 0,
        s.transmit_header.swo <= 0b1111,
        s.transmit_header.ebo <= 0b11_1111,
        block.len() == 64,
        0 <= k <= 64,
    ensures
        s.run_ok(block.take(k)),
        s.run(block.take(k)).0.wf(),
        s.run(block.take(k)).0.transmit_header == s.transmit_header,
        s.run(block.take(k)).0.transmit_buff == chunk_frames_prefix(
            s.transmit_buff,
            s.transmit_header,
            block,
            k,
        ),
        s.run(block.take(k)).0.mode == if k == 64 {
            Mode::ReadingHeader(0)
        } else {
            Mode::ReadingWritingBlock(k as usize)
        },
    decreases k,
{
    if k == 0 {
        assert(block.take(0) =~= Seq::<u8>::empty());
        lemma_chunk_frames_prefix_zero(s.transmit_buff, s.transmit_header, block);
    } else {
        lemma_run_block(s, block, k - 1);
        let t = s.run(block.take(k - 1)).0;
        lemma_chunk_frames_prefix_step(s.transmit_buff, s.transmit_header, block, k - 1);
        lemma_run_extend(s, block, k - 1);
        lemma_step_wf(t, block[k - 1]);
    }
}

/// A data chunk (its header, then a full payload) sent from the start of a header
/// adds to the frames the host sent exactly what `chunk_frames` describes, leaves
/// the device waiting for the next header, and lets the chip select go without error.
pub proof fn lemma_chunk_transmits_frames(s: DeviceState, h: TransmitHeader, block: Seq<u8>)
    requires
        s.wf(),
        s.mode == Mode::ReadingHeader(0),
        h.dnc,
        h.fields_fit(),
        block.len() == 64,
        chunk_continues_frame(h) ==> s.transmit_buff.len() > 0,
    ensures
        s.run_ok(be_bytes(h.to_word()) + block),
        s.run(be_bytes(h.to_word()) + block).0.transmit_buff == chunk_frames(
            s.transmit_buff,
            h,
            block,
        ),
        s.run(be_bytes(h.to_word()) + block).0.mode == Mode::ReadingHeader(0),
        s.run(be_bytes(h.to_word()) + block).0.release().1 is Ok,
{
    let hb = be_bytes(h.to_word());
    lemma_transmit_bytes_roundtrip(h);
    lemma_run_header(s, hb);
    let t = s.run(hb).0;
    lemma_run_block(t, block, 64);
    assert(block.take(64) =~= block);
    lemma_run_concat(s, hb, block);
    lemma_chunk_frames_prefix_full(s.transmit_buff, h, block);
}

} // verus!
