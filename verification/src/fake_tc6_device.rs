use vstd::prelude::*;

use crate::receive_footer::ReceiveFooter;
use crate::transmit_header::TransmitHeader;
use crate::utils::word_from_be;

verus! {

/// Number of payload bytes in a data chunk.
pub const DEFAULT_BLOCK_SIZE: usize = 64;

/// What the device expects of the next byte on the bus.
#[derive(Clone, Debug)]
pub enum Mode {
    /// Reading the header; the number is how many header bytes have been read.
    ReadingHeader(usize),
    /// Exchanging the payload of a data chunk; the number is the payload byte reached.
    ReadingWritingBlock(usize),
    /// Echoing a control command; the number is how many bytes have been sent.
    Command(usize),
    /// Reading the header of a further control command.
    ReadingCommandHeader(usize),
}

#[derive(Clone, Copy, Debug)]
pub enum FakeTc6DeviceError {
    DeAssertCsNotEndOfBlock,
    DeAssertCsNotEndOfCommand,
}

#[derive(Clone, Copy, Debug)]
pub enum FakeTc6SpiDeviceError {
    DeviceError(FakeTc6DeviceError),
}

impl From<FakeTc6DeviceError> for FakeTc6SpiDeviceError {
    fn from(value: FakeTc6DeviceError) -> (r: Self) {
        FakeTc6SpiDeviceError::DeviceError(value)
    }
}

impl vstd::std_specs::convert::FromSpecImpl<FakeTc6DeviceError> for FakeTc6SpiDeviceError {
    open spec fn obeys_from_spec() -> bool {
        true
    }

    open spec fn from_spec(v: FakeTc6DeviceError) -> Self {
        FakeTc6SpiDeviceError::DeviceError(v)
    }
}

/// The frames held in a buffer of frames, each as its bytes.
pub open spec fn frames_view(v: Seq<Vec<u8>>) -> Seq<Seq<u8>> {
    Seq::new(v.len(), |i: int| v[i]@)
}

/// Frame buffer `tb` with `b` appended to its last frame.
pub open spec fn push_to_last(tb: Seq<Seq<u8>>, b: u8) -> Seq<Seq<u8>>
    recommends
        tb.len() > 0,
{
    tb.update(tb.len() - 1, tb.last().push(b))
}

/// Byte `k` of the first frame waiting to be received, if there is one.
pub open spec fn pending_byte_at(rb: Seq<Seq<u8>>, k: int) -> Option<u8> {
    if rb.len() > 0 && 0 <= k < rb[0].len() {
        Some(rb[0][k])
    } else {
        None
    }
}

/// Byte `k` of the first frame waiting to be received, or 0 when there is none.
pub open spec fn pending_byte(rb: Seq<Seq<u8>>, k: int) -> u8 {
    match pending_byte_at(rb, k) {
        Some(b) => b,
        None => 0,
    }
}

/// The frame buffer after payload byte `i` of a chunk with header `h` went by.
///
/// Without DV nothing is kept. Otherwise the data section of the payload is:
/// the whole payload without SV and EV; from `swo * 4` (where a new frame
/// starts) to the end with SV alone; from the start to `ebo` with EV alone;
/// with both, from `swo * 4` to `ebo` when `swo * 4 < ebo`, else from the
/// start to `ebo` (ending the current frame) and from `swo * 4` (a new frame)
/// to the end.
pub open spec fn collect_byte(tb: Seq<Seq<u8>>, h: TransmitHeader, i: int, b: u8) -> Seq<
    Seq<u8>,
> {
    let start = h.swo * 4;
    let end = h.ebo as int;
    let opened = if i == start {
        tb.push(Seq::empty())
    } else {
        tb
    };
    if !h.dv {
        tb
    } else if !h.sv && !h.ev {
        push_to_last(tb, b)
    } else if h.sv && !h.ev {
        if i >= start {
            push_to_last(opened, b)
        } else {
            opened
        }
    } else if !h.sv && h.ev {
        if i <= end {
            push_to_last(tb, b)
        } else {
            tb
        }
    } else if start < end {
        if start <= i && i <= end {
            push_to_last(opened, b)
        } else {
            opened
        }
    } else {
        let ended = if i <= end {
            push_to_last(tb, b)
        } else {
            tb
        };
        let started = if i == start {
            ended.push(Seq::empty())
        } else {
            ended
        };
        if i >= start {
            push_to_last(started, b)
        } else {
            started
        }
    }
}

/// Payload byte `i` can be taken without appending to a frame that was never started.
pub open spec fn collect_ok(tb: Seq<Seq<u8>>, h: TransmitHeader, i: int) -> bool {
    let start = h.swo * 4;
    let end = h.ebo as int;
    if !h.dv {
        true
    } else if !h.sv && !h.ev {
        tb.len() > 0
    } else if h.sv && !h.ev {
        i > start ==> tb.len() > 0
    } else if !h.sv && h.ev {
        i <= end ==> tb.len() > 0
    } else if start < end {
        start < i && i <= end ==> tb.len() > 0
    } else {
        i <= end || i > start ==> tb.len() > 0
    }
}

/// The state of the device, with its buffers as sequences.
pub struct DeviceState {
    pub mode: Mode,
    pub block_size: nat,
    pub mosi_header_raw: Seq<u8>,
    pub transmit_header: TransmitHeader,
    pub miso_footer: Seq<u8>,
    pub receive_footer: ReceiveFooter,
    pub word_offset: int,
    pub transmit_buff: Seq<Seq<u8>>,
    pub receive_buff: Seq<Seq<u8>>,
}

impl DeviceState {
    /// The state of a new device.
    pub open spec fn initial() -> DeviceState {
        DeviceState {
            mode: Mode::ReadingHeader(0),
            block_size: DEFAULT_BLOCK_SIZE as nat,
            mosi_header_raw: seq![0u8, 0u8, 0u8, 0u8],
            transmit_header: TransmitHeader::zeroed(),
            miso_footer: seq![0u8, 0u8, 0u8, 0u8],
            receive_footer: ReceiveFooter::zeroed(),
            word_offset: 0,
            transmit_buff: Seq::empty(),
            receive_buff: Seq::empty(),
        }
    }

    /// The states that the device passes through.
    pub open spec fn wf(self) -> bool {
        &&& self.block_size == DEFAULT_BLOCK_SIZE
        &&& self.mosi_header_raw.len() == 4
        &&& self.miso_footer.len() == 4
        &&& 0 <= self.word_offset <= isize::MAX
        &&& match self.mode {
            Mode::ReadingHeader(i) => i < 4,
            Mode::ReadingWritingBlock(i) => i < self.block_size,
            _ => true,
        }
        // past the start of a frame in this chunk, that frame has been opened
        &&& (self.mode matches Mode::ReadingWritingBlock(i) && self.transmit_header.dv
            && self.transmit_header.sv && i > self.transmit_header.swo * 4
            ==> self.transmit_buff.len() > 0)
    }

    /// The device takes `byte` next without failing.
    pub open spec fn step_ok(self, byte: u8) -> bool {
        match self.mode {
            Mode::ReadingHeader(_) => true,
            Mode::ReadingWritingBlock(i) => collect_ok(
                self.transmit_buff,
                self.transmit_header,
                i as int,
            ),
            _ => false,
        }
    }

    /// The state after header byte `i` arrived, and the byte sent back.
    pub open spec fn header_step(self, byte: u8, i: int) -> (DeviceState, u8) {
        let footer = if i == 0 {
            ReceiveFooter::zeroed()
        } else {
            self.receive_footer
        };
        let out = pending_byte(self.receive_buff, i + self.word_offset);
        let raw = self.mosi_header_raw.update(i, byte);
        if i == 3 {
            let header = TransmitHeader::from_word(word_from_be(raw));
            (
                DeviceState {
                    mode: if header.dnc {
                        Mode::ReadingWritingBlock(0)
                    } else {
                        Mode::Command(0)
                    },
                    mosi_header_raw: raw,
                    transmit_header: header,
                    receive_footer: footer,
                    ..self
                },
                out,
            )
        } else {
            (
                DeviceState {
                    mode: Mode::ReadingHeader((i + 1) as usize),
                    mosi_header_raw: raw,
                    receive_footer: footer,
                    ..self
                },
                out,
            )
        }
    }

    /// The state after payload byte `i` arrived, and the byte sent back.
    ///
    /// The footer goes out on the last three payload bytes, as its bytes 0 to 2;
    /// its last byte is not sent.
    pub open spec fn block_step(self, byte: u8, i: int) -> (DeviceState, u8) {
        let out = if i > self.block_size - 4 {
            self.miso_footer[i - (self.block_size - 3)]
        } else {
            pending_byte(self.receive_buff, i + self.word_offset)
        };
        (
            DeviceState {
                mode: if i == self.block_size - 1 {
                    Mode::ReadingHeader(0)
                } else {
                    Mode::ReadingWritingBlock((i + 1) as usize)
                },
                transmit_buff: collect_byte(self.transmit_buff, self.transmit_header, i, byte),
                ..self
            },
            out,
        )
    }

    /// The state after `byte` arrived, and the byte sent back.
    pub open spec fn step(self, byte: u8) -> (DeviceState, u8) {
        match self.mode {
            Mode::ReadingHeader(i) => self.header_step(byte, i as int),
            Mode::ReadingWritingBlock(i) => self.block_step(byte, i as int),
            _ => (self, 0),
        }
    }

    /// The state after `bytes` arrived one by one, and the bytes sent back.
    pub open spec fn run(self, bytes: Seq<u8>) -> (DeviceState, Seq<u8>)
        decreases bytes.len(),
    {
        if bytes.len() == 0 {
            (self, Seq::empty())
        } else {
            let (mid, outs) = self.run(bytes.drop_last());
            let (last, out) = mid.step(bytes.last());
            (last, outs.push(out))
        }
    }

    /// The device takes `bytes` one by one without failing.
    pub open spec fn run_ok(self, bytes: Seq<u8>) -> bool
        decreases bytes.len(),
    {
        bytes.len() == 0 || (self.run_ok(bytes.drop_last()) && self.run(
            bytes.drop_last(),
        ).0.step_ok(bytes.last()))
    }

    /// Position in the chunk (header bytes included) of the byte being exchanged.
    pub open spec fn chunk_index(self) -> int {
        match self.mode {
            Mode::ReadingWritingBlock(i) => i + 4,
            Mode::ReadingHeader(i) => i as int,
            _ => 0,
        }
    }

    /// Where the byte being exchanged falls in the first received frame.
    pub open spec fn receive_pos(self) -> int {
        self.chunk_index() + self.word_offset * 4
    }

    /// The state with the end of the first received frame marked in the footer,
    /// when the byte being exchanged is its last byte.
    pub open spec fn with_end_marked(self) -> DeviceState {
        let rb = self.receive_buff;
        let first_len: int = if rb.len() > 0 {
            rb[0].len() as int
        } else {
            0
        };
        if self.receive_pos() == first_len - 1 {
            DeviceState {
                receive_footer: ReceiveFooter {
                    ev: true,
                    ebo: ((self.chunk_index() as u8) & 0b11_1111u8),
                    ..self.receive_footer
                },
                ..self
            }
        } else {
            self
        }
    }

    /// The first received frame is sent in full and is to be dropped: the byte
    /// being exchanged is past it, word aligned, the host listens and no frame
    /// started in this block.
    pub open spec fn receive_drops_frame(self) -> bool {
        let index = self.chunk_index();
        &&& pending_byte_at(self.receive_buff, self.receive_pos()) is None
        &&& !self.transmit_header.norx
        &&& index % 4 == 0
        &&& self.word_offset > 0
        &&& !self.transmit_header.sv
    }

    /// The state after a frame sent in full is dropped, pointing at the start of the next one.
    pub open spec fn receive_dropped(self) -> DeviceState {
        if self.receive_drops_frame() {
            DeviceState {
                receive_buff: self.receive_buff.subrange(1, self.receive_buff.len() as int),
                word_offset: -(self.chunk_index() / 4),
                ..self
            }
        } else {
            self
        }
    }

    /// The byte of the first received frame at the current position (0 when there
    /// is none), with the footer marking valid data (DV) and a frame start (SV, SWO).
    pub open spec fn receive_fetch(self) -> (DeviceState, u8) {
        let fetched = pending_byte_at(self.receive_buff, self.receive_pos());
        let valid = if fetched is Some {
            ReceiveFooter { dv: true, ..self.receive_footer }
        } else {
            self.receive_footer
        };
        let started = if self.receive_pos() == 0 {
            ReceiveFooter { sv: true, swo: ((self.chunk_index() as u8) >> 2u8), ..valid }
        } else {
            valid
        };
        (
            DeviceState { receive_footer: started, ..self },
            match fetched {
                Some(b) => b,
                None => 0u8,
            },
        )
    }

    /// The state with the position moved on by a block at the end of a block that
    /// the host listened to; without that the host gets the same block again.
    pub open spec fn receive_moved(self) -> DeviceState {
        let index = self.chunk_index();
        if index == self.block_size - 1 && !self.transmit_header.norx {
            DeviceState { word_offset: self.word_offset + (index + 1) / 4, ..self }
        } else {
            self
        }
    }

    /// The next byte to send to the host from the frames received from the wire,
    /// and the state after it.
    pub open spec fn receive_step(self) -> (DeviceState, u8) {
        let (fetched, out) = self.with_end_marked().receive_dropped().receive_fetch();
        (fetched.receive_moved(), out)
    }

    /// The numbers that the receive path computes fit their machine types.
    pub open spec fn receive_numbers_fit(self) -> bool {
        &&& self.block_size == DEFAULT_BLOCK_SIZE
        &&& match self.mode {
            Mode::ReadingHeader(i) => i < 4,
            Mode::ReadingWritingBlock(i) => i < self.block_size,
            _ => true,
        }
        // the position in the first frame, and the word offset counted in bytes, fit an isize
        &&& isize::MIN <= self.word_offset * 4
        &&& self.word_offset * 4 + self.chunk_index() <= isize::MAX
        &&& forall|k: int|
            0 <= k < self.receive_buff.len() ==> #[trigger] self.receive_buff[k].len()
                <= isize::MAX
    }

    /// `receive_step` can be taken: the numbers it computes fit, and a frame is
    /// only dropped when there is one.
    pub open spec fn receive_step_ok(self) -> bool {
        &&& self.receive_numbers_fit()
        &&& (self.receive_buff.len() == 0 ==> !(!self.transmit_header.norx && self.chunk_index()
            % 4 == 0 && self.word_offset > 0 && !self.transmit_header.sv))
    }

    /// The state after the chip select is released, and the outcome.
    pub open spec fn release(self) -> (DeviceState, Result<(), FakeTc6DeviceError>) {
        match self.mode {
            Mode::ReadingHeader(0) => (self, Ok(())),
            Mode::ReadingCommandHeader(0) => (
                DeviceState { mode: Mode::ReadingHeader(0), ..self },
                Ok(()),
            ),
            Mode::ReadingCommandHeader(_) | Mode::Command(_) => (
                self,
                Err(FakeTc6DeviceError::DeAssertCsNotEndOfCommand),
            ),
            _ => (self, Err(FakeTc6DeviceError::DeAssertCsNotEndOfBlock)),
        }
    }
}

/// A single byte keeps the device in the states that it passes through.
pub proof fn lemma_step_wf(s: DeviceState, byte: u8)
    requires
        s.wf(),
        s.step_ok(byte),
    ensures
        s.step(byte).0.wf(),
        s.step(byte).0.transmit_buff.len() >= s.transmit_buff.len(),
{
    match s.mode {
        Mode::ReadingHeader(i) => {
            let raw = s.mosi_header_raw.update(i as int, byte);
            assert(raw.len() == 4);
        },
        Mode::ReadingWritingBlock(i) => {},
        _ => {},
    }
}

/// A payload byte leaves an open frame exactly when there was one or it opens one.
pub proof fn lemma_collect_byte_has_frame(tb: Seq<Seq<u8>>, h: TransmitHeader, i: int, b: u8)
    requires
        collect_ok(tb, h, i),
    ensures
        (collect_byte(tb, h, i, b).len() > 0) == (tb.len() > 0 || (h.dv && h.sv && i == h.swo
            * 4)),
{
}

/// A device that simulates a 10BASE-T1x MAC-PHY on the SPI bus.
pub struct FakeTc6Device {
    mode: Mode,
    block_size: usize,
    // the header that the host has sent
    mosi_header_raw: [u8; 4],
    transmit_header: TransmitHeader,
    // the footer that the MAC-PHY answers with
    miso_footer: [u8; 4],
    receive_footer: ReceiveFooter,
    // offset, in 32-bit words, in the first received frame at which the current block starts
    word_offset: isize,
    // frames that the host has sent, to go out on the wire
    transmit_buff: Vec<Vec<u8>>,
    // frames received from the wire, to go to the host
    receive_buff: Vec<Vec<u8>>,
}

impl View for FakeTc6Device {
    type V = DeviceState;

    closed spec fn view(&self) -> DeviceState {
        DeviceState {
            mode: self.mode,
            block_size: self.block_size as nat,
            mosi_header_raw: self.mosi_header_raw@,
            transmit_header: self.transmit_header,
            miso_footer: self.miso_footer@,
            receive_footer: self.receive_footer,
            word_offset: self.word_offset as int,
            transmit_buff: frames_view(self.transmit_buff@),
            receive_buff: frames_view(self.receive_buff@),
        }
    }
}

/// Appends `byte` to the last frame of `frames`.
fn push_to_last_frame(frames: &mut Vec<Vec<u8>>, byte: u8)
    requires
        old(frames)@.len() > 0,
    ensures
        frames_view(final(frames)@) == push_to_last(frames_view(old(frames)@), byte),
{
    let mut last = frames.pop().unwrap();
    last.push(byte);
    frames.push(last);
    assert(frames_view(frames@) =~= push_to_last(frames_view(old(frames)@), byte));
}

/// Byte `k` of the first frame of `frames`, if there is one.
fn frame_byte(frames: &Vec<Vec<u8>>, k: isize) -> (r: Option<u8>)
    ensures
        r == pending_byte_at(frames_view(frames@), k as int),
{
    if frames.len() > 0 && k >= 0 {
        let frame = &frames[0];
        let i = k as usize;
        if i < frame.len() {
            return Some(frame[i]);
        }
    }
    None
}

/// Opens a new, empty frame at the end of `frames`.
fn open_frame(frames: &mut Vec<Vec<u8>>)
    ensures
        frames_view(final(frames)@) == frames_view(old(frames)@).push(Seq::empty()),
{
    frames.push(vec![]);
    assert(frames_view(frames@) =~= frames_view(old(frames)@).push(Seq::empty()));
}

impl FakeTc6Device {
    pub fn new() -> (r: FakeTc6Device)
        ensures
            r@ == DeviceState::initial(),
            r@.wf(),
    {
        let r = FakeTc6Device {
            mode: Mode::ReadingHeader(0),
            block_size: DEFAULT_BLOCK_SIZE,
            mosi_header_raw: [0;4],
            transmit_header: TransmitHeader::new(),
            miso_footer: [0;4],
            word_offset: 0,
            transmit_buff: Vec::new(),
            receive_buff: Vec::new(),
            receive_footer: ReceiveFooter::new(),
        };
        assert(r@.mosi_header_raw =~= seq![0u8, 0u8, 0u8, 0u8]);
        assert(r@.miso_footer =~= seq![0u8, 0u8, 0u8, 0u8]);
        assert(r@.transmit_buff =~= Seq::empty());
        assert(r@.receive_buff =~= Seq::empty());
        r
    }

    /// The frames that the host has sent so far.
    pub fn transmit_buff(&self) -> (r: &Vec<Vec<u8>>)
        ensures
            frames_view(r@) == self@.transmit_buff,
    {
        &self.transmit_buff
    }

    /// The mode the device is in.
    pub fn mode(&self) -> (r: &Mode)
        ensures
            *r == self@.mode,
    {
        &self.mode
    }

    pub fn is_reading_header(&self) -> (r: bool)
        ensures
            r == (self@.mode is ReadingHeader || self@.mode is ReadingCommandHeader),
    {
        match self.mode {
            Mode::ReadingHeader(_) | Mode::ReadingCommandHeader(_) => true,
            _ => false,
        }
    }

    pub fn is_sending_footer(&self) -> (r: bool)
        requires
            self@.wf(),
        ensures
            r == (self@.mode matches Mode::ReadingWritingBlock(i) && i >= self@.block_size - 4),
    {
        match self.mode {
            Mode::ReadingWritingBlock(i) => i >= self.block_size - 4,
            _ => false,
        }
    }

    fn handle_reading_header(&mut self, byte: u8, i: usize) -> (r: Result<u8, FakeTc6DeviceError>)
        requires
            old(self)@.wf(),
            old(self)@.mode == Mode::ReadingHeader(i),
        ensures
            final(self)@ == old(self)@.header_step(byte, i as int).0,
            r == Ok::<u8, FakeTc6DeviceError>(old(self)@.header_step(byte, i as int).1),
    {
        // when starting a new block, reset the receive footer to default values
        if i == 0 {
            self.receive_footer = ReceiveFooter::new();
        }
        let k = i + self.word_offset as usize;
        let out = if self.receive_buff.len() > 0 && k < self.receive_buff[0].len() {
            self.receive_buff[0][k]
        } else {
            0
        };
        self.mosi_header_raw[i] = byte;
        self.mode = Mode::ReadingHeader(i + 1);
        if i == 3 {
            self.transmit_header = TransmitHeader::from_slice(&self.mosi_header_raw).unwrap();
            if self.transmit_header.dnc {
                self.mode = Mode::ReadingWritingBlock(0);
            } else {
                self.mode = Mode::Command(0);
            }
        }
        proof {
            let post = old(self)@.header_step(byte, i as int).0;
            assert(self@.mosi_header_raw =~= post.mosi_header_raw);
            assert(self@.transmit_buff =~= post.transmit_buff);
            assert(self@.receive_buff =~= post.receive_buff);
        }
        Ok(out)
    }

    fn handle_reading_writing_block(&mut self, byte: u8, i: usize) -> (r: Result<
        u8,
        FakeTc6DeviceError,
    >)
        requires
            old(self)@.wf(),
            old(self)@.mode == Mode::ReadingWritingBlock(i),
            collect_ok(old(self)@.transmit_buff, old(self)@.transmit_header, i as int),
        ensures
            final(self)@ == old(self)@.block_step(byte, i as int).0,
            r == Ok::<u8, FakeTc6DeviceError>(old(self)@.block_step(byte, i as int).1),
    {
        if self.transmit_header.dv {
            let start = self.transmit_header.swo as usize * 4;
            let end = self.transmit_header.ebo as usize;
            match (self.transmit_header.sv, self.transmit_header.ev, start >= end) {
                // neither start nor end: the whole block is data
                (false, false, _) => {
                    push_to_last_frame(&mut self.transmit_buff, byte);
                },
                // start only: data from swo*4 to the end of the block
                (true, false, _) => {
                    if i == start {
                        open_frame(&mut self.transmit_buff);
                    }
                    if i >= start {
                        push_to_last_frame(&mut self.transmit_buff, byte);
                    }
                },
                // end only: data from the start of the block to ebo
                (false, true, _) => {
                    if i <= end {
                        push_to_last_frame(&mut self.transmit_buff, byte);
                    }
                },
                // start and end, swo*4 < ebo: data from swo*4 to ebo
                (true, true, false) => {
                    if i == start {
                        open_frame(&mut self.transmit_buff);
                    }
                    if i >= start && i <= end {
                        push_to_last_frame(&mut self.transmit_buff, byte);
                    }
                },
                // start and end, swo*4 >= ebo: data up to ebo ends the current frame,
                // data from swo*4 on starts the next one
                (true, true, true) => {
                    if i <= end {
                        push_to_last_frame(&mut self.transmit_buff, byte);
                    }
                    if i == start {
                        open_frame(&mut self.transmit_buff);
                    }
                    if i >= start {
                        push_to_last_frame(&mut self.transmit_buff, byte);
                    }
                },
            }
        }
        // past block_size - 4 the footer is sent (+1 because zero indexed)
        let out = if i > self.block_size - 4 {
            self.miso_footer[i - (self.block_size - 4 + 1)]
        } else {
            let k = i + self.word_offset as usize;
            if self.receive_buff.len() > 0 && k < self.receive_buff[0].len() {
                self.receive_buff[0][k]
            } else {
                0
            }
        };
        if i == self.block_size - 1 {
            self.mode = Mode::ReadingHeader(0);
        } else {
            self.mode = Mode::ReadingWritingBlock(i + 1);
        }
        proof {
            let post = old(self)@.block_step(byte, i as int).0;
            assert(self@.transmit_buff =~= post.transmit_buff);
            assert(self@.receive_buff =~= post.receive_buff);
        }
        Ok(out)
    }

    fn handle_byte(&mut self, byte: u8) -> (r: Result<u8, FakeTc6DeviceError>)
        requires
            old(self)@.wf(),
            old(self)@.step_ok(byte),
        ensures
            final(self)@ == old(self)@.step(byte).0,
            r == Ok::<u8, FakeTc6DeviceError>(old(self)@.step(byte).1),
            final(self)@.wf(),
    {
        proof {
            lemma_step_wf(self@, byte);
        }
        match self.mode {
            Mode::ReadingHeader(i) => self.handle_reading_header(byte, i),
            Mode::ReadingWritingBlock(i) => self.handle_reading_writing_block(byte, i),
            _ => Ok(0),
        }
    }

    /// The position in the chunk of the byte being exchanged.
    fn chunk_index(&self) -> (r: usize)
        requires
            self@.receive_numbers_fit(),
        ensures
            r == self@.chunk_index(),
            r < 68,
    {
        match self.mode {
            Mode::ReadingWritingBlock(i) => i + 4,
            Mode::ReadingHeader(i) => i,
            _ => 0,
        }
    }

    fn mark_receive_frame_end(&mut self)
        requires
            old(self)@.receive_numbers_fit(),
        ensures
            final(self)@ == old(self)@.with_end_marked(),
    {
        let index = self.chunk_index() as isize;
        let first_len: isize = if self.receive_buff.len() > 0 {
            self.receive_buff[0].len() as isize
        } else {
            0
        };
        // if this is the last byte of a frame, mark the end of the frame
        if index + self.word_offset * 4 == first_len - 1 {
            self.receive_footer.ev = true;
            self.receive_footer.ebo = (index as u8) & 0b11_1111u8;
        }
        proof {
            let post = old(self)@.with_end_marked();
            assert(self@.receive_buff =~= post.receive_buff);
            assert(self@.transmit_buff =~= post.transmit_buff);
        }
    }

    fn drop_sent_receive_frame(&mut self)
        requires
            old(self)@.receive_numbers_fit(),
            old(self)@.receive_buff.len() == 0 ==> !old(self)@.receive_drops_frame(),
        ensures
            final(self)@ == old(self)@.receive_dropped(),
            final(self)@.receive_numbers_fit(),
    {
        let position = self.chunk_index();
        let index = position as isize;
        let pos = index + self.word_offset * 4;
        let hit = frame_byte(&self.receive_buff, pos).is_some();
        // when the host listens and the position is word aligned, the frame has been
        // sent in full: drop it and point at the start of the next one, unless a frame
        // already started in this block
        if !hit && !self.transmit_header.norx && position % 4 == 0 && self.word_offset > 0
            && !self.transmit_header.sv {
            let ghost rb_before = self.receive_buff@;
            self.receive_buff.remove(0);
            assert(frames_view(self.receive_buff@) =~= frames_view(rb_before).subrange(
                1,
                rb_before.len() as int,
            ));
            self.word_offset = -((position / 4) as isize);
        }
        proof {
            let post = old(self)@.receive_dropped();
            assert(self@.receive_buff =~= post.receive_buff);
            assert(self@.transmit_buff =~= post.transmit_buff);
        }
    }

    fn fetch_receive_byte(&mut self) -> (r: u8)
        requires
            old(self)@.receive_numbers_fit(),
        ensures
            r == old(self)@.receive_fetch().1,
            final(self)@ == old(self)@.receive_fetch().0,
    {
        let index = self.chunk_index() as isize;
        let pos = index + self.word_offset * 4;
        assert(pos == old(self)@.receive_pos());
        let fetched = frame_byte(&self.receive_buff, pos);
        let mut footer = self.receive_footer;
        let out = match fetched {
            Some(b) => {
                footer.dv = true;
                b
            },
            None => 0,
        };
        // at the start of a frame, mark where it starts
        if pos == 0 {
            footer.sv = true;
            footer.swo = (index as u8) >> 2u8;
        }
        assert(footer == old(self)@.receive_fetch().0.receive_footer);
        self.receive_footer = footer;
        proof {
            assert(self@.receive_buff =~= old(self)@.receive_buff);
            assert(self@.transmit_buff =~= old(self)@.transmit_buff);
        }
        out
    }

    fn move_receive_offset(&mut self)
        requires
            old(self)@.receive_numbers_fit(),
        ensures
            final(self)@ == old(self)@.receive_moved(),
    {
        let position = self.chunk_index();
        let index = position as isize;
        // at the end of a block the host listened to, move on by a block; without
        // that the host gets the same block again
        if index == self.block_size as isize - 1 && !self.transmit_header.norx {
            self.word_offset = self.word_offset + ((position + 1) / 4) as isize;
        }
        proof {
            let post = old(self)@.receive_moved();
            assert(self@.receive_buff =~= post.receive_buff);
            assert(self@.transmit_buff =~= post.transmit_buff);
        }
    }

    /// The byte the device sends to the host from the frames received from the wire.
    ///
    /// Nothing calls it yet: the receive path is not wired into the byte handlers, and
    /// no public function fills the frames received from the wire.
    fn get_out_byte_from_receive_buff(&mut self) -> (r: u8)
        requires
            old(self)@.receive_step_ok(),
        ensures
            (final(self)@, r) == old(self)@.receive_step(),
    {
        self.mark_receive_frame_end();
        self.drop_sent_receive_frame();
        let out = self.fetch_receive_byte();
        self.move_receive_offset();
        out
    }

    /// The device takes `bytes` one by one without failing: no byte arrives in a
    /// control command, and no payload byte is appended to a frame that was never opened.
    pub fn accepts(&self, bytes: &[u8]) -> (r: bool)
        requires
            self@.wf(),
        ensures
            r == self@.run_ok(bytes@),
    {
        let ghost s0 = self@;
        let mut mode: Mode = match self.mode {
            Mode::ReadingHeader(i) => Mode::ReadingHeader(i),
            Mode::ReadingWritingBlock(i) => Mode::ReadingWritingBlock(i),
            Mode::Command(i) => Mode::Command(i),
            Mode::ReadingCommandHeader(i) => Mode::ReadingCommandHeader(i),
        };
        let mut raw: [u8; 4] = self.mosi_header_raw;
        let mut header: TransmitHeader = self.transmit_header;
        let mut has_frame: bool = self.transmit_buff.len() > 0;
        let mut k: usize = 0;
        assert(bytes@.take(0) =~= Seq::<u8>::empty());
        while k < bytes.len()
            invariant
                0 <= k <= bytes@.len(),
                s0 == self@,
                s0.wf(),
                self.block_size == DEFAULT_BLOCK_SIZE,
                s0.run_ok(bytes@.take(k as int)),
                s0.run(bytes@.take(k as int)).0.wf(),
                s0.run(bytes@.take(k as int)).0.mode == mode,
                s0.run(bytes@.take(k as int)).0.mosi_header_raw == raw@,
                s0.run(bytes@.take(k as int)).0.transmit_header == header,
                (s0.run(bytes@.take(k as int)).0.transmit_buff.len() > 0) == has_frame,
            decreases bytes@.len() - k,
        {
            let ghost t = s0.run(bytes@.take(k as int)).0;
            proof {
                lemma_run_extend(s0, bytes@, k as int);
            }
            let byte = bytes[k];
            match mode {
                Mode::ReadingHeader(i) => {
                    raw[i] = byte;
                    if i == 3 {
                        header = TransmitHeader::from_slice(&raw).unwrap();
                        mode = if header.dnc {
                            Mode::ReadingWritingBlock(0)
                        } else {
                            Mode::Command(0)
                        };
                    } else {
                        mode = Mode::ReadingHeader(i + 1);
                    }
                },
                Mode::ReadingWritingBlock(i) => {
                    let start = header.swo as usize * 4;
                    let end = header.ebo as usize;
                    let ok = if !header.dv {
                        true
                    } else if !header.sv && !header.ev {
                        has_frame
                    } else if header.sv && !header.ev {
                        i <= start || has_frame
                    } else if !header.sv && header.ev {
                        i > end || has_frame
                    } else if start < end {
                        !(start < i && i <= end) || has_frame
                    } else {
                        !(i <= end || i > start) || has_frame
                    };
                    if !ok {
                        proof {
                            if s0.run_ok(bytes@) {
                                lemma_run_ok_prefix(s0, bytes@, k + 1);
                            }
                        }
                        return false;
                    }
                    proof {
                        lemma_collect_byte_has_frame(t.transmit_buff, header, i as int, byte);
                    }
                    has_frame = has_frame || (header.dv && header.sv && i == start);
                    mode = if i == self.block_size - 1 {
                        Mode::ReadingHeader(0)
                    } else {
                        Mode::ReadingWritingBlock(i + 1)
                    };
                },
                _ => {
                    proof {
                        if s0.run_ok(bytes@) {
                            lemma_run_ok_prefix(s0, bytes@, k + 1);
                        }
                    }
                    return false;
                },
            }
            proof {
                lemma_step_wf(t, byte);
                assert(s0.run(bytes@.take(k + 1)).0.mosi_header_raw =~= raw@);
            }
            k = k + 1;
        }
        assert(bytes@.take(bytes@.len() as int) =~= bytes@);
        true
    }

    pub fn assert_cs(&mut self) -> (r: Result<(), FakeTc6SpiDeviceError>)
        ensures
            final(self)@ == old(self)@,
            r is Ok,
    {
        Ok(())
    }

    pub fn de_assert_cs(&mut self) -> (r: Result<(), FakeTc6DeviceError>)
        ensures
            (final(self)@, r) == old(self)@.release(),
    {
        match self.mode {
            Mode::ReadingHeader(0) => Ok(()),
            // in a command the documentation says to go back to normal mode
            Mode::ReadingCommandHeader(0) => {
                self.mode = Mode::ReadingHeader(0);
                Ok(())
            },
            Mode::ReadingCommandHeader(_) | Mode::Command(_) => Err(
                FakeTc6DeviceError::DeAssertCsNotEndOfCommand,
            ),
            _ => Err(FakeTc6DeviceError::DeAssertCsNotEndOfBlock),
        }
    }
}

impl Default for FakeTc6Device {
    fn default() -> (r: Self)
        ensures
            r@ == DeviceState::initial(),
    {
        Self::new()
    }
}

/// A prefix of bytes that the device takes without failing is taken without failing too.
pub proof fn lemma_run_ok_prefix(s: DeviceState, bytes: Seq<u8>, k: int)
    requires
        s.run_ok(bytes),
        0 <= k <= bytes.len(),
    ensures
        s.run_ok(bytes.take(k)),
    decreases bytes.len(),
{
    if k == bytes.len() {
        assert(bytes.take(k) =~= bytes);
    } else {
        assert(bytes.drop_last().take(k) =~= bytes.take(k));
        lemma_run_ok_prefix(s, bytes.drop_last(), k);
    }
}

/// Taking the next byte of `bytes` extends a run over its first `k` bytes by one step.
pub proof fn lemma_run_extend(s: DeviceState, bytes: Seq<u8>, k: int)
    requires
        0 <= k < bytes.len(),
    ensures
        s.run(bytes.take(k + 1)) == ({
            let (mid, outs) = s.run(bytes.take(k));
            let (last, out) = mid.step(bytes[k]);
            (last, outs.push(out))
        }),
        s.run_ok(bytes.take(k + 1)) == (s.run_ok(bytes.take(k)) && s.run(bytes.take(k)).0.step_ok(
            bytes[k],
        )),
{
    assert(bytes.take(k + 1).drop_last() =~= bytes.take(k));
}

/// Running the bytes of a device that stays in the states it passes through.
pub proof fn lemma_run_wf(s: DeviceState, bytes: Seq<u8>)
    requires
        s.wf(),
        s.run_ok(bytes),
    ensures
        s.run(bytes).0.wf(),
        s.run(bytes).1.len() == bytes.len(),
    decreases bytes.len(),
{
    if bytes.len() > 0 {
        lemma_run_wf(s, bytes.drop_last());
        lemma_step_wf(s.run(bytes.drop_last()).0, bytes.last());
    }
}

/// With the byte being exchanged inside the first received frame, the device sends
/// that byte, marks valid data in the footer, keeps the received frames, and moves
/// its position only at the end of a block.
pub proof fn lemma_receive_sends_pending_byte(s: DeviceState)
    requires
        s.receive_step_ok(),
        s.receive_buff.len() > 0,
        0 <= s.receive_pos() < s.receive_buff[0].len(),
    ensures
        s.receive_step().1 == s.receive_buff[0][s.receive_pos()],
        s.receive_step().0.receive_footer.dv,
        s.receive_step().0.receive_buff == s.receive_buff,
        s.chunk_index() != s.block_size - 1 ==> s.receive_step().0.word_offset == s.word_offset,
{
}

/// When the host does not listen (NORX), the received frames and the position stay:
/// the next block offers the same data again.
pub proof fn lemma_receive_norx_repeats(s: DeviceState)
    requires
        s.transmit_header.norx,
    ensures
        s.receive_step().0.receive_buff == s.receive_buff,
        s.receive_step().0.word_offset == s.word_offset,
{
}

/// After the last byte of a block that the host listened to, taken from the first
/// received frame, the first byte of the next chunk is the next byte of that frame.
pub proof fn lemma_receive_next_block_continues(s: DeviceState)
    requires
        s.receive_step_ok(),
        !s.transmit_header.norx,
        s.chunk_index() == s.block_size - 1,
        s.receive_buff.len() > 0,
        0 <= s.receive_pos() < s.receive_buff[0].len(),
    ensures
        (DeviceState { mode: Mode::ReadingHeader(0), ..s.receive_step().0 }).receive_pos()
            == s.receive_pos() + 1,
        s.receive_step().0.receive_buff == s.receive_buff,
{
}

/// Releasing the chip select succeeds only between chunks: at the start of a header,
/// or at the start of a further command header (which goes back to reading data
/// headers). Inside a command it fails with `DeAssertCsNotEndOfCommand`; inside a
/// header or a block with `DeAssertCsNotEndOfBlock`. Only the mode can change.
pub proof fn lemma_release_rules(s: DeviceState)
    ensures
        s.release().1 is Ok <==> (s.mode == Mode::ReadingHeader(0) || s.mode
            == Mode::ReadingCommandHeader(0)),
        s.mode is Command ==> s.release().1 == Err::<(), FakeTc6DeviceError>(
            FakeTc6DeviceError::DeAssertCsNotEndOfCommand,
        ),
        s.mode matches Mode::ReadingCommandHeader(i) && i != 0 ==> s.release().1 == Err::<
            (),
            FakeTc6DeviceError,
        >(FakeTc6DeviceError::DeAssertCsNotEndOfCommand),
        s.mode matches Mode::ReadingHeader(i) && i != 0 ==> s.release().1 == Err::<
            (),
            FakeTc6DeviceError,
        >(FakeTc6DeviceError::DeAssertCsNotEndOfBlock),
        s.mode is ReadingWritingBlock ==> s.release().1 == Err::<(), FakeTc6DeviceError>(
            FakeTc6DeviceError::DeAssertCsNotEndOfBlock,
        ),
        s.release().0.mode == if s.mode == Mode::ReadingCommandHeader(0) {
            Mode::ReadingHeader(0)
        } else {
            s.mode
        },
        s.release().0 == (DeviceState { mode: s.release().0.mode, ..s }),
{
}

/// The byte the device sends back while reading header byte `i`: byte `i + offset`
/// of the first received frame, or 0 when there is none. Header byte `i` is stored
/// at position `i`, the other stored header bytes and the frames are kept, the footer
/// starts afresh with a chunk, and the device moves on to the next header byte.
pub proof fn lemma_header_step_rules(s: DeviceState, byte: u8)
    requires
        s.wf(),
        s.mode is ReadingHeader,
    ensures
        ({
            let i = s.mode->ReadingHeader_0 as int;
            let k = i + s.word_offset;
            let (t, out) = s.step(byte);
            &&& out == if s.receive_buff.len() > 0 && k < s.receive_buff[0].len() {
                s.receive_buff[0][k]
            } else {
                0u8
            }
            &&& t.mosi_header_raw.len() == 4
            &&& t.mosi_header_raw[i] == byte
            &&& forall|j: int| 0 <= j < 4 && j != i ==> t.mosi_header_raw[j] == s.mosi_header_raw[j]
            &&& t.transmit_buff == s.transmit_buff
            &&& t.receive_buff == s.receive_buff
            &&& (i == 0 ==> t.receive_footer == ReceiveFooter::zeroed())
            &&& (i > 0 ==> t.receive_footer == s.receive_footer)
            &&& (i < 3 ==> t.mode == Mode::ReadingHeader((i + 1) as usize))
        }),
{
}

/// The byte the device sends back while exchanging payload byte `i`: on the last
/// three bytes of the block, footer bytes 0 to 2; before them, byte `i + offset` of
/// the first received frame, or 0 when there is none. After the last byte of the
/// block the device waits for the next header; otherwise for the next payload byte.
/// The header, the stored header bytes and the received frames are kept.
pub proof fn lemma_block_step_rules(s: DeviceState, byte: u8)
    requires
        s.wf(),
        s.mode is ReadingWritingBlock,
    ensures
        ({
            let i = s.mode->ReadingWritingBlock_0 as int;
            let k = i + s.word_offset;
            let (t, out) = s.step(byte);
            &&& out == if i >= 61 {
                s.miso_footer[i - 61]
            } else if s.receive_buff.len() > 0 && k < s.receive_buff[0].len() {
                s.receive_buff[0][k]
            } else {
                0u8
            }
            &&& t.mode == if i == 63 {
                Mode::ReadingHeader(0)
            } else {
                Mode::ReadingWritingBlock((i + 1) as usize)
            }
            &&& t.transmit_header == s.transmit_header
            &&& t.mosi_header_raw == s.mosi_header_raw
            &&& t.receive_buff == s.receive_buff
            &&& t.receive_footer == s.receive_footer
        }),
{
}

/// A transaction that stops inside a header is refused when the chip select is
/// released: one to three bytes from the start of a header leave the device inside
/// it, and the release fails with `DeAssertCsNotEndOfBlock`.
pub proof fn lemma_partial_header_refused(s: DeviceState, bytes: Seq<u8>)
    requires
        s.wf(),
        s.mode == Mode::ReadingHeader(0),
        1 <= bytes.len() <= 3,
    ensures
        s.run_ok(bytes),
        s.run(bytes).0.mode == Mode::ReadingHeader(bytes.len() as usize),
        s.run(bytes).0.release().1 == Err::<(), FakeTc6DeviceError>(
            FakeTc6DeviceError::DeAssertCsNotEndOfBlock,
        ),
    decreases bytes.len(),
{
    if bytes.len() > 1 {
        lemma_partial_header_refused(s, bytes.drop_last());
        lemma_run_wf(s, bytes.drop_last());
    } else {
        assert(bytes.drop_last() =~= Seq::<u8>::empty());
        assert(s.run(bytes.drop_last()) == (s, Seq::<u8>::empty()));
        assert(s.run_ok(bytes.drop_last()));
    }
}

/// The bytes that a read of `n` bytes sends: all zero.
pub open spec fn zero_bytes(n: nat) -> Seq<u8> {
    Seq::new(n, |i: int| 0u8)
}

/// The error of the bus that stands for an error of the device.
pub open spec fn spi_result(r: Result<(), FakeTc6DeviceError>) -> Result<
    (),
    FakeTc6SpiDeviceError,
> {
    match r {
        Ok(()) => Ok(()),
        Err(e) => Err(FakeTc6SpiDeviceError::DeviceError(e)),
    }
}

/// The fake device as seen from the SPI bus.
pub struct FakeTc6SpiDevice {
    pub device: FakeTc6Device,
}

impl FakeTc6SpiDevice {
    /// The device is in a state that it passes through.
    pub open spec fn wf(&self) -> bool {
        self.device@.wf()
    }

    pub fn new() -> (r: Self)
        ensures
            r.device@ == DeviceState::initial(),
            r.wf(),
    {
        FakeTc6SpiDevice { device: FakeTc6Device::new() }
    }

    /// Clocks in zeros and stores the bytes the device sends back in `buf`.
    pub fn helper_read(&mut self, buf: &mut [u8]) -> (r: Result<(), FakeTc6SpiDeviceError>)
        requires
            old(self).wf(),
            old(self).device@.run_ok(zero_bytes(old(buf)@.len())),
        ensures
            final(self).device@ == old(self).device@.run(zero_bytes(old(buf)@.len())).0,
            final(buf)@ == old(self).device@.run(zero_bytes(old(buf)@.len())).1,
            final(self).wf(),
            r is Ok,
    {
        let ghost s0 = self.device@;
        let ghost zeros = zero_bytes(buf@.len());
        let n = buf.len();
        let mut i: usize = 0;
        while i < n
            invariant
                0 <= i <= n,
                n == buf@.len(),
                zeros == zero_bytes(n as nat),
                s0.wf(),
                s0.run_ok(zeros),
                self.device@.wf(),
                (self.device@, buf@.take(i as int)) == s0.run(zeros.take(i as int)),
            decreases n - i,
        {
            proof {
                lemma_run_ok_prefix(s0, zeros, i + 1);
                lemma_run_extend(s0, zeros, i as int);
            }
            let ghost before = buf@;
            match self.device.handle_byte(0) {
                Ok(b) => {
                    buf[i] = b;
                },
                Err(e) => {
                    return Err(FakeTc6SpiDeviceError::from(e));
                },
            }
            assert(buf@.take(i + 1) =~= before.take(i as int).push(buf@[i as int]));
            i = i + 1;
        }
        assert(buf@.take(n as int) =~= buf@);
        assert(zeros.take(n as int) =~= zeros);
        Ok(())
    }

    /// Clocks out the bytes of `buf`, dropping what the device sends back.
    pub fn helper_write(&mut self, buf: &[u8]) -> (r: Result<(), FakeTc6SpiDeviceError>)
        requires
            old(self).wf(),
            old(self).device@.run_ok(buf@),
        ensures
            final(self).device@ == old(self).device@.run(buf@).0,
            final(self).wf(),
            r is Ok,
    {
        let ghost s0 = self.device@;
        let mut i: usize = 0;
        while i < buf.len()
            invariant
                0 <= i <= buf@.len(),
                s0.wf(),
                s0.run_ok(buf@),
                self.device@.wf(),
                self.device@ == s0.run(buf@.take(i as int)).0,
            decreases buf@.len() - i,
        {
            proof {
                lemma_run_ok_prefix(s0, buf@, i + 1);
                lemma_run_extend(s0, buf@, i as int);
            }
            match self.device.handle_byte(buf[i]) {
                Ok(_) => {},
                Err(e) => {
                    return Err(FakeTc6SpiDeviceError::from(e));
                },
            }
            i = i + 1;
        }
        assert(buf@.take(buf@.len() as int) =~= buf@);
        Ok(())
    }

    /// Clocks out `write` and stores the bytes the device sends back at the start of `read`.
    pub fn helper_transfer(&mut self, read: &mut [u8], write: &[u8]) -> (r: Result<
        (),
        FakeTc6SpiDeviceError,
    >)
        requires
            old(self).wf(),
            old(read)@.len() >= write@.len(),
            old(self).device@.run_ok(write@),
        ensures
            final(self).device@ == old(self).device@.run(write@).0,
            final(read)@ == old(self).device@.run(write@).1 + old(read)@.skip(write@.len() as int),
            final(self).wf(),
            r is Ok,
    {
        let ghost s0 = self.device@;
        let ghost r0 = read@;
        let mut i: usize = 0;
        while i < write.len()
            invariant
                0 <= i <= write@.len(),
                read@.len() == r0.len(),
                r0.len() >= write@.len(),
                s0.wf(),
                s0.run_ok(write@),
                self.device@.wf(),
                (self.device@, read@.take(i as int)) == s0.run(write@.take(i as int)),
                read@.skip(i as int) == r0.skip(i as int),
            decreases write@.len() - i,
        {
            proof {
                lemma_run_ok_prefix(s0, write@, i + 1);
                lemma_run_extend(s0, write@, i as int);
            }
            let ghost before = read@;
            match self.device.handle_byte(write[i]) {
                Ok(b) => {
                    read[i] = b;
                },
                Err(e) => {
                    return Err(FakeTc6SpiDeviceError::from(e));
                },
            }
            assert(read@.take(i + 1) =~= before.take(i as int).push(read@[i as int]));
            assert forall|j: int| 0 <= j < r0.len() - (i + 1) implies #[trigger] read@.skip(
                i + 1,
            )[j] == r0.skip(i + 1)[j] by {
                assert(before.skip(i as int)[j + 1] == r0.skip(i as int)[j + 1]);
            }
            assert(read@.skip(i + 1) =~= r0.skip(i + 1));
            i = i + 1;
        }
        assert(write@.take(write@.len() as int) =~= write@);
        assert(read@ =~= read@.take(i as int) + read@.skip(i as int));
        Ok(())
    }

    /// One SPI transaction of a single transfer: selects the chip, clocks out `write`
    /// while storing what comes back at the start of `read`, then releases the chip.
    pub fn transfer(&mut self, read: &mut [u8], write: &[u8]) -> (r: Result<
        (),
        FakeTc6SpiDeviceError,
    >)
        requires
            old(self).wf(),
            old(read)@.len() >= write@.len(),
            old(self).device@.run_ok(write@),
        ensures
            final(self).device@ == old(self).device@.run(write@).0.release().0,
            final(read)@ == old(self).device@.run(write@).1 + old(read)@.skip(write@.len() as int),
            r == spi_result(old(self).device@.run(write@).0.release().1),
            final(self).wf(),
    {
        match self.device.assert_cs() {
            Ok(()) => {},
            Err(e) => {
                return Err(e);
            },
        }
        match self.helper_transfer(read, write) {
            Ok(()) => {},
            Err(e) => {
                return Err(e);
            },
        }
        match self.device.de_assert_cs() {
            Ok(()) => Ok(()),
            Err(e) => Err(FakeTc6SpiDeviceError::from(e)),
        }
    }
}

impl Default for FakeTc6SpiDevice {
    fn default() -> (r: Self)
        ensures
            r.device@ == DeviceState::initial(),
            r.wf(),
    {
        Self::new()
    }
}

} // verus!
