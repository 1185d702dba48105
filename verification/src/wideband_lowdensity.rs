//! The robustness floor: wide-band OFDM with one bit to a sub-carrier, coded in blocks.
//!
//! A payload is framed into information bits, cut into blocks, and every block coded
//! and spread over whole symbols, the last one padded. A receiver reads the first block
//! for the number of blocks, then the rest.
use crate::transport::PhyError;
use vstd::prelude::*;
use vstd::string::*;

verus! {

/// Samples of the preamble.
pub const PREAMBLE_LEN_SAMPLES: usize = crate::preamble::PREAMBLE_LEN;

/// Samples by which the symbol window starts before the detected end of the preamble.
pub const SYNC_WINDOW_GUARD_SAMPLES: usize = 32;

/// Samples over which neighbouring symbols are faded into one another.
pub const WINDOW_ROLLOFF_SAMPLES: usize = 128;

/// Zeros put before and after a capture before it is made analytic.
pub const ANALYTIC_PAD: usize = 512;

/// Largest payload of one frame.
pub const MAX_PAYLOAD: usize = 65535;

/// What a scan for a frame found.
#[allow(inconsistent_fields)]
#[derive(Debug, Clone, PartialEq, Eq)]
pub enum SyncDecodeOutcome {
    /// No preamble: only noise.
    NoSignal,
    /// A preamble, but the frame after it did not decode.
    DetectedDecodeFailed {
        /// Where the preamble starts.
        start_sample: usize,
        /// Channel SNR in thousandths of a decibel, where a body followed.
        snr_mdb: Option<i32>,
    },
    /// A frame.
    Frame {
        /// Where the preamble starts.
        start_sample: usize,
        /// The payload.
        payload: Vec<u8>,
        /// Channel SNR in thousandths of a decibel.
        snr_mdb: Option<i32>,
    },
}

/// Where the body of a frame lies in a capture.
#[allow(inconsistent_fields)]
#[derive(Debug, Clone, Copy, PartialEq, Eq, Structural)]
pub enum SyncLocate {
    /// No preamble.
    NoPreamble,
    /// A preamble with nothing after it.
    NoBody {
        /// Where the preamble starts.
        start_sample: usize,
    },
    /// A preamble and a body.
    Body {
        /// Where the preamble starts.
        start_sample: usize,
        /// Where the body starts.
        body_start: usize,
    },
}

/// A range of samples.
#[derive(Debug, Clone, Copy, PartialEq, Eq, Structural)]
pub struct Span {
    /// First sample.
    pub start: usize,
    /// Sample after the last.
    pub end: usize,
}

/// One term of a sample of the windowed signal.
#[derive(Debug, Clone, Copy, PartialEq, Eq, Structural)]
pub struct WindowTap {
    /// Number of the symbol.
    pub symbol: usize,
    /// Sample of that symbol.
    pub index: usize,
    /// Step of the rising ramp that it is multiplied with; none where it is not faded.
    pub ramp: Option<usize>,
}

/// The layout of a floor: its symbols and the blocks of its code.
#[derive(Debug, Clone, Copy, PartialEq, Eq, Structural)]
pub struct WidebandLowDensityFloor {
    /// Occupied sub-carriers, pilots counted.
    pub subcarriers: usize,
    /// Sub-carriers that carry data.
    pub data_bits_per_symbol: usize,
    /// Samples of a symbol's body.
    pub fft_size: usize,
    /// Samples of its cyclic prefix.
    pub cp_len: usize,
    /// Information bits of a block.
    pub block_info_bits: usize,
    /// Coded bits of a block.
    pub block_coded_bits: usize,
}

/// Quotient rounded up.
pub open spec fn ceil_div(a: int, b: int) -> int {
    (a + b - 1) / b
}

/// Quotient rounded up.
fn div_up(a: usize, b: usize) -> (q: usize)
    requires
        b >= 1,
    ensures
        q == ceil_div(a as int, b as int),
{
    if a == 0 {
        proof {
            vstd::arithmetic::div_mod::lemma_basic_div(b - 1, b as int);
        }
        return 0;
    }
    proof {
        vstd::arithmetic::div_mod::lemma_div_is_ordered(b as int, a + b - 1, b as int);
        vstd::arithmetic::div_mod::lemma_div_by_self(b as int);
    }
    crate::mac::frames_for(a, b)
}

/// Block `b` of a stream.
pub open spec fn block_of(bits: Seq<u8>, size: int, b: int) -> Seq<u8> {
    bits.subrange(b * size, (b + 1) * size)
}

/// The blocks of a stream of whole blocks.
pub open spec fn blocks_of(bits: Seq<u8>, size: int) -> Seq<Seq<u8>> {
    Seq::new((bits.len() as int / size) as nat, |b: int| block_of(bits, size, b))
}

/// Blocks one after another.
pub open spec fn joined(blocks: Seq<Seq<u8>>) -> Seq<u8>
    decreases blocks.len(),
{
    if blocks.len() == 0 {
        Seq::empty()
    } else {
        joined(blocks.drop_last()) + blocks.last()
    }
}

/// The bits of symbol `s` of a coded block: the block's, then zeros.
pub open spec fn symbol_of(coded: Seq<u8>, width: int, s: int) -> Seq<u8> {
    Seq::new(
        width as nat,
        |i: int|
            if s * width + i < coded.len() {
                coded[s * width + i]
            } else {
                0u8
            },
    )
}

impl WidebandLowDensityFloor {
    /// The layout has symbols and blocks, and a block of symbols can be counted.
    pub open spec fn wf(self) -> bool {
        &&& self.data_bits_per_symbol >= 1
        &&& self.fft_size >= 1
        &&& self.block_coded_bits >= 1
        &&& self.block_info_bits >= crate::coded_framing::HEADER_BITS
        &&& self.block_info_bits + crate::coded_framing::HEADER_BITS + MAX_PAYLOAD * 8
            <= usize::MAX
        &&& self.fft_size + self.cp_len <= usize::MAX
        &&& self.symbols() * self.symbol_size() <= usize::MAX
    }

    /// Samples of a symbol.
    pub open spec fn symbol_size(self) -> int {
        self.fft_size + self.cp_len
    }

    /// Symbols of a block.
    pub open spec fn symbols(self) -> int {
        ceil_div(self.block_coded_bits as int, self.data_bits_per_symbol as int)
    }

    /// Samples of a block.
    pub open spec fn block_size(self) -> int {
        self.symbols() * self.symbol_size()
    }

    /// One bit on every occupied sub-carrier.
    pub fn bits_per_subcarrier(&self) -> (loads: Vec<u8>)
        ensures
            loads@ == Seq::new(self.subcarriers as nat, |i: int| 1u8),
    {
        let mut loads: Vec<u8> = Vec::new();
        while loads.len() < self.subcarriers
            invariant
                loads@.len() <= self.subcarriers,
                loads@ == Seq::new(loads@.len(), |i: int| 1u8),
            decreases self.subcarriers - loads@.len(),
        {
            loads.push(1);
            assert(loads@ =~= Seq::new(loads@.len(), |i: int| 1u8));
        }
        loads
    }

    /// Samples of a symbol.
    pub fn symbol_size_samples(&self) -> (n: usize)
        requires
            self.fft_size + self.cp_len <= usize::MAX,
        ensures
            n == self.symbol_size(),
    {
        self.fft_size + self.cp_len
    }

    /// Symbols that carry one coded block.
    pub fn symbols_per_block(&self) -> (n: usize)
        requires
            self.data_bits_per_symbol >= 1,
        ensures
            n == self.symbols(),
    {
        div_up(self.block_coded_bits, self.data_bits_per_symbol)
    }

    /// The information blocks of a payload, in the order in which they are coded and sent.
    pub fn transmit_multi(&self, payload: &[u8]) -> (r: Result<Vec<Vec<u8>>, PhyError>)
        requires
            self.wf(),
        ensures
            match r {
                Ok(blocks) => {
                    let bits = crate::coded_framing::framed(
                        payload@,
                        self.block_info_bits as int,
                    );
                    &&& payload@.len() <= MAX_PAYLOAD
                    &&& blocks@.len() == blocks_of(bits, self.block_info_bits as int).len()
                    &&& forall|b: int|
                        0 <= b < blocks@.len() ==> (#[trigger] blocks@[b])@ == block_of(
                            bits,
                            self.block_info_bits as int,
                            b,
                        )
                },
                Err(PhyError::PayloadTooLarge { actual, capacity }) => {
                    &&& payload@.len() > MAX_PAYLOAD
                    &&& actual == payload@.len()
                    &&& capacity == MAX_PAYLOAD
                },
                Err(_) => false,
            },
    {
        if payload.len() > MAX_PAYLOAD {
            return Err(
                PhyError::PayloadTooLarge { actual: payload.len(), capacity: MAX_PAYLOAD },
            );
        }
        let size: usize = self.block_info_bits;
        let bits = crate::coded_framing::frame_info_bits(payload, size);
        let n: usize = bits.len() / size;
        let mut blocks: Vec<Vec<u8>> = Vec::new();
        let mut b: usize = 0;
        while b < n
            invariant
                size >= 1,
                n == bits@.len() / size as nat,
                bits@.len() <= usize::MAX,
                b <= n,
                blocks@.len() == b,
                forall|i: int|
                    0 <= i < b ==> (#[trigger] blocks@[i])@ == block_of(bits@, size as int, i),
            decreases n - b,
        {
            proof {
                lemma_block_in_range(bits@.len() as int, size as int, b as int);
            }
            let from: usize = b * size;
            let to: usize = from + size;
            let mut block: Vec<u8> = Vec::new();
            let mut i: usize = from;
            while i < to
                invariant
                    from <= i <= to <= bits@.len(),
                    block@ == bits@.subrange(from as int, i as int),
                decreases to - i,
            {
                block.push(bits[i]);
                assert(block@ =~= bits@.subrange(from as int, i + 1));
                i = i + 1;
            }
            assert((b + 1) * size == b * size + size) by (nonlinear_arith);
            blocks.push(block);
            b = b + 1;
        }
        Ok(blocks)
    }

    /// The symbols of one coded block: its bits in order, the last symbol padded with
    /// zeros.
    pub fn symbol_bits(&self, coded: &[u8]) -> (symbols: Vec<Vec<u8>>)
        requires
            self.data_bits_per_symbol >= 1,
        ensures
            symbols@.len() == ceil_div(coded@.len() as int, self.data_bits_per_symbol as int),
            forall|s: int|
                0 <= s < symbols@.len() ==> (#[trigger] symbols@[s])@ == symbol_of(
                    coded@,
                    self.data_bits_per_symbol as int,
                    s,
                ),
    {
        let width: usize = self.data_bits_per_symbol;
        let len: usize = coded.len();
        let n: usize = div_up(len, width);
        let mut symbols: Vec<Vec<u8>> = Vec::new();
        let mut s: usize = 0;
        let mut at: usize = 0;
        while s < n
            invariant
                width >= 1,
                len == coded@.len(),
                n == ceil_div(len as int, width as int),
                s <= n,
                at == if s * width < len {
                    s * width
                } else {
                    len as int
                },
                symbols@.len() == s,
                forall|i: int|
                    0 <= i < s ==> (#[trigger] symbols@[i])@ == symbol_of(coded@, width as int, i),
            decreases n - s,
        {
            let mut symbol: Vec<u8> = Vec::new();
            let ghost want = symbol_of(coded@, width as int, s as int);
            let start: usize = at;
            proof {
                lemma_symbol_starts(len as int, width as int, s as int);
            }
            while symbol.len() < width
                invariant
                    width >= 1,
                    len == coded@.len(),
                    start == s * width,
                    start <= at <= len,
                    at == if start + symbol@.len() < len {
                        start + symbol@.len()
                    } else {
                        len as int
                    },
                    want == symbol_of(coded@, width as int, s as int),
                    symbol@.len() <= width,
                    symbol@ == want.take(symbol@.len() as int),
                decreases width - symbol@.len(),
            {
                let ghost i = symbol@.len() as int;
                if at < len {
                    symbol.push(coded[at]);
                    at = at + 1;
                } else {
                    symbol.push(0);
                }
                assert(symbol@ =~= want.take(i + 1));
            }
            assert(symbol@ =~= want);
            assert((s + 1) * width == s * width + width) by (nonlinear_arith);
            symbols.push(symbol);
            s = s + 1;
        }
        symbols
    }

    /// Whether a capture holds one block at all.
    pub fn begin_receive(&self, samples: usize) -> (r: Result<(), PhyError>)
        requires
            self.wf(),
        ensures
            match r {
                Ok(_) => samples >= self.block_size(),
                Err(PhyError::FrameDetect(m)) => {
                    &&& samples < self.block_size()
                    &&& m@ == "input "@ + crate::text::decimal(samples as nat)
                        + " samples < one coded block ("@ + crate::text::decimal(
                        self.symbols() as nat,
                    ) + " symbols)"@
                },
                Err(_) => false,
            },
    {
        let spb: usize = self.symbols_per_block();
        if samples < spb * self.symbol_size_samples() {
            let mut m = "input ".to_owned();
            m.append(crate::text::decimal_text(samples as u64).as_str());
            m.append(" samples < one coded block (");
            m.append(crate::text::decimal_text(spb as u64).as_str());
            m.append(" symbols)");
            return Err(PhyError::FrameDetect(m));
        }
        Ok(())
    }

    /// The samples of the symbols of block `block`.
    pub fn demodulate_block_symbols(&self, samples: usize, block: usize) -> (r: Result<
        Vec<Span>,
        PhyError,
    >)
        requires
            self.wf(),
        ensures
            match r {
                Ok(spans) => {
                    &&& (block + 1) * self.block_size() <= samples
                    &&& spans@.len() == self.symbols()
                    &&& forall|s: int|
                        0 <= s < spans@.len() ==> {
                            &&& (#[trigger] spans@[s]).start == block * self.block_size() + s
                                * self.symbol_size()
                            &&& spans@[s].end == spans@[s].start + self.symbol_size()
                        }
                },
                Err(PhyError::FrameDetect(m)) => {
                    &&& (block + 1) * self.block_size() > samples
                    &&& m@ == "coded block truncated"@
                },
                Err(_) => false,
            },
    {
        let sym: usize = self.symbol_size_samples();
        let spb: usize = self.symbols_per_block();
        let size: usize = spb * sym;
        proof {
            lemma_block_size(*self);
            lemma_whole_blocks(samples as int, size as int, block as int);
        }
        if block >= samples / size {
            return Err(PhyError::FrameDetect("coded block truncated".to_owned()));
        }
        let base: usize = block * size;
        let mut spans: Vec<Span> = Vec::new();
        let mut s: usize = 0;
        let mut start: usize = base;
        while s < spb
            invariant
                sym == self.symbol_size(),
                spb == self.symbols(),
                size == spb * sym,
                base == block * size,
                base + size <= samples,
                s <= spb,
                start == base + s * sym,
                spans@.len() == s,
                forall|i: int|
                    0 <= i < s ==> {
                        &&& (#[trigger] spans@[i]).start == base + i * sym
                        &&& spans@[i].end == spans@[i].start + sym
                    },
            decreases spb - s,
        {
            assert(s * sym + sym <= spb * sym && (s + 1) * sym == s * sym + sym)
                by (nonlinear_arith)
                requires
                    s < spb,
            ;
            spans.push(Span { start, end: start + sym });
            start = start + sym;
            s = s + 1;
        }
        Ok(spans)
    }

    /// What to do next for a frame of which `reader` holds the blocks decoded so far, in a
    /// capture of `samples` samples. A capture shorter than a block fails at the start, a
    /// block that runs past its end when it is wanted.
    pub fn receive_multi(&self, samples: usize, reader: &BlockReader) -> (step: ReceiveStep)
        requires
            self.wf(),
        ensures
            match step {
                ReceiveStep::Decode { block, spans } => {
                    &&& block == reader@.read < reader@.total
                    &&& (block + 1) * self.block_size() <= samples
                    &&& spans@.len() == self.symbols()
                    &&& forall|s: int|
                        0 <= s < spans@.len() ==> {
                            &&& (#[trigger] spans@[s]).start == block * self.block_size() + s
                                * self.symbol_size()
                            &&& spans@[s].end == spans@[s].start + self.symbol_size()
                        }
                },
                ReceiveStep::Done(r) => if reader@.read < reader@.total {
                    &&& (reader@.read + 1) * self.block_size() > samples
                    &&& r matches Err(PhyError::FrameDetect(m)) && m@ == if reader@.read == 0 {
                        "input "@ + crate::text::decimal(samples as nat)
                            + " samples < one coded block ("@ + crate::text::decimal(
                            self.symbols() as nat,
                        ) + " symbols)"@
                    } else {
                        "coded block truncated"@
                    }
                } else {
                    match (r, crate::coded_framing::deframed(reader@.info)) {
                        (Ok(p), Ok(payload)) => p@ == payload,
                        (Err(PhyError::FrameDetect(m)), Err(text)) => m@ == text,
                        _ => false,
                    }
                },
            },
    {
        match reader.wanted() {
            None => ReceiveStep::Done(reader.finish()),
            Some(block) => {
                proof {
                    assert(1 * self.block_size() == self.block_size());
                }
                if block == 0 {
                    match self.begin_receive(samples) {
                        Ok(_) => {},
                        Err(e) => {
                            return ReceiveStep::Done(Err(e));
                        },
                    }
                }
                match self.demodulate_block_symbols(samples, block) {
                    Ok(spans) => ReceiveStep::Decode { block, spans },
                    Err(e) => ReceiveStep::Done(Err(e)),
                }
            },
        }
    }

    /// The samples of the whole symbols of a body, over which its SNR is measured.
    pub fn body_symbols(&self, samples: usize) -> (spans: Vec<Span>)
        requires
            self.wf(),
        ensures
            spans@.len() == samples as int / self.symbol_size(),
            forall|i: int|
                0 <= i < spans@.len() ==> {
                    &&& (#[trigger] spans@[i]).start == i * self.symbol_size()
                    &&& spans@[i].end == spans@[i].start + self.symbol_size()
                    &&& spans@[i].end <= samples
                },
    {
        let sym: usize = self.symbol_size_samples();
        let n: usize = samples / sym;
        let mut spans: Vec<Span> = Vec::new();
        let mut i: usize = 0;
        while i < n
            invariant
                sym == self.symbol_size(),
                sym >= 1,
                n == samples as int / sym as int,
                i <= n,
                spans@.len() == i,
                forall|j: int|
                    0 <= j < i ==> {
                        &&& (#[trigger] spans@[j]).start == j * sym
                        &&& spans@[j].end == spans@[j].start + sym
                        &&& spans@[j].end <= samples
                    },
            decreases n - i,
        {
            proof {
                lemma_block_in_range(samples as int, sym as int, i as int);
            }
            spans.push(Span { start: i * sym, end: i * sym + sym });
            i = i + 1;
        }
        spans
    }

    /// The terms of sample `position` of `symbols` symbols, each faded into the next.
    pub open spec fn window_sum(self, symbols: int, position: int) -> Seq<WindowTap> {
        let k = position / self.symbol_size();
        let j = position % self.symbol_size();
        let before = if j < WINDOW_ROLLOFF_SAMPLES && 1 <= k <= symbols {
            seq![
                WindowTap {
                    symbol: (k - 1) as usize,
                    index: (self.cp_len + j) as usize,
                    ramp: Some((WINDOW_ROLLOFF_SAMPLES - 1 - j) as usize),
                },
            ]
        } else {
            Seq::empty()
        };
        let own = if k < symbols {
            seq![
                WindowTap {
                    symbol: k as usize,
                    index: j as usize,
                    ramp: if j < WINDOW_ROLLOFF_SAMPLES {
                        Some(j as usize)
                    } else {
                        None
                    },
                },
            ]
        } else {
            Seq::empty()
        };
        before + own
    }

    /// Length of so many symbols, faded into one another.
    pub open spec fn faded_len(self, symbols: int) -> int {
        if symbols == 0 {
            0
        } else {
            symbols * self.symbol_size() + WINDOW_ROLLOFF_SAMPLES
        }
    }

    /// Length of so many symbols, faded into one another.
    pub fn windowed_len(&self, symbols: usize) -> (n: usize)
        requires
            self.wf(),
            symbols * self.symbol_size() + WINDOW_ROLLOFF_SAMPLES <= usize::MAX,
        ensures
            n == if symbols == 0 {
                0
            } else {
                symbols * self.symbol_size() + WINDOW_ROLLOFF_SAMPLES
            },
            n == self.faded_len(symbols as int),
    {
        if symbols == 0 {
            0
        } else {
            symbols * self.symbol_size_samples() + WINDOW_ROLLOFF_SAMPLES
        }
    }

    /// The terms of sample `position` of `symbols` symbols, each faded into the next: the
    /// start of a symbol rises while the continuation of the one before it falls.
    pub fn window_taps(&self, symbols: usize, position: usize) -> (taps: Vec<WindowTap>)
        requires
            self.wf(),
            self.fft_size >= WINDOW_ROLLOFF_SAMPLES,
        ensures
            taps@ == self.window_sum(symbols as int, position as int),
    {
        let sym: usize = self.symbol_size_samples();
        let k: usize = position / sym;
        let j: usize = position % sym;
        let mut taps: Vec<WindowTap> = Vec::new();
        if j < WINDOW_ROLLOFF_SAMPLES && 1 <= k && k <= symbols {
            taps.push(
                WindowTap {
                    symbol: k - 1,
                    index: self.cp_len + j,
                    ramp: Some(WINDOW_ROLLOFF_SAMPLES - 1 - j),
                },
            );
        }
        if k < symbols {
            let ramp: Option<usize> = if j < WINDOW_ROLLOFF_SAMPLES {
                Some(j)
            } else {
                None
            };
            taps.push(WindowTap { symbol: k, index: j, ramp });
        }
        assert(taps@ =~= self.window_sum(symbols as int, position as int));
        taps
    }
}

/// Where the body of a frame lies, for a preamble found at `detected` of a capture of
/// `samples` samples that was padded before the search.
pub fn locate_synced_body(detected: Option<usize>, samples: usize) -> (l: SyncLocate)
    requires
        samples + 2 * ANALYTIC_PAD <= usize::MAX,
        detected matches Some(d) ==> d < samples + 2 * ANALYTIC_PAD,
    ensures
        l == located(detected, samples as int),
{
    match detected {
        None => SyncLocate::NoPreamble,
        Some(d) => {
            let start_sample: usize = if d < ANALYTIC_PAD {
                0
            } else {
                d - ANALYTIC_PAD
            };
            let body_start: usize = start_sample + (PREAMBLE_LEN_SAMPLES
                - SYNC_WINDOW_GUARD_SAMPLES);
            if body_start >= samples {
                SyncLocate::NoBody { start_sample }
            } else {
                SyncLocate::Body { start_sample, body_start }
            }
        },
    }
}

/// Where a frame that was found at `detected` of the padded capture starts in the
/// capture itself.
pub open spec fn unpadded(detected: usize) -> int {
    if detected < ANALYTIC_PAD {
        0
    } else {
        detected - ANALYTIC_PAD
    }
}

/// Where the body of a frame lies.
pub open spec fn located(detected: Option<usize>, samples: int) -> SyncLocate {
    match detected {
        None => SyncLocate::NoPreamble,
        Some(d) => {
            let start = unpadded(d);
            let body = start + PREAMBLE_LEN_SAMPLES - SYNC_WINDOW_GUARD_SAMPLES;
            if body >= samples {
                SyncLocate::NoBody { start_sample: start as usize }
            } else {
                SyncLocate::Body { start_sample: start as usize, body_start: body as usize }
            }
        },
    }
}

/// The payload of the frame that was located, `decoded` being what its body decoded to.
pub fn receive_multi_with_sync(located: SyncLocate, decoded: Result<Vec<u8>, PhyError>) -> (r:
    Result<(usize, Vec<u8>), PhyError>)
    ensures
        match located {
            SyncLocate::NoPreamble => r matches Err(PhyError::FrameDetect(m)) && m@
                == "preamble not detected in input (signal too weak or no preamble present); pass a longer/cleaner capture"@,
            SyncLocate::NoBody { start_sample } => r matches Err(PhyError::FrameDetect(m)) && m@
                == "preamble detected at sample "@ + crate::text::decimal(start_sample as nat)
                + " but no body samples follow"@,
            SyncLocate::Body { start_sample, .. } => match decoded {
                Ok(payload) => r == Ok::<(usize, Vec<u8>), PhyError>((start_sample, payload)),
                Err(e) => r == Err::<(usize, Vec<u8>), PhyError>(e),
            },
        },
{
    match located {
        SyncLocate::NoPreamble => Err(
            PhyError::FrameDetect(
                "preamble not detected in input (signal too weak or no preamble present); pass a longer/cleaner capture".to_owned(),
            ),
        ),
        SyncLocate::NoBody { start_sample } => {
            let mut m = "preamble detected at sample ".to_owned();
            m.append(crate::text::decimal_text(start_sample as u64).as_str());
            m.append(" but no body samples follow");
            Err(PhyError::FrameDetect(m))
        },
        SyncLocate::Body { start_sample, .. } => match decoded {
            Ok(payload) => Ok((start_sample, payload)),
            Err(e) => Err(e),
        },
    }
}

/// What a scan found, `snr_mdb` being measured over the body and `decoded` what it decoded to.
pub open spec fn scan_outcome(
    located: SyncLocate,
    snr_mdb: Option<i32>,
    decoded: Result<Vec<u8>, PhyError>,
) -> SyncDecodeOutcome {
    match located {
        SyncLocate::NoPreamble => SyncDecodeOutcome::NoSignal,
        SyncLocate::NoBody { start_sample } => SyncDecodeOutcome::DetectedDecodeFailed {
            start_sample,
            snr_mdb: None,
        },
        SyncLocate::Body { start_sample, .. } => match decoded {
            Ok(payload) => SyncDecodeOutcome::Frame { start_sample, payload, snr_mdb },
            Err(_) => SyncDecodeOutcome::DetectedDecodeFailed { start_sample, snr_mdb },
        },
    }
}

/// What a scan found, `snr_mdb` being measured over the body and `decoded` what it
/// decoded to. A frame that was detected and failed counts as one; noise does not.
pub fn receive_multi_with_sync_scan(
    located: SyncLocate,
    snr_mdb: Option<i32>,
    decoded: Result<Vec<u8>, PhyError>,
) -> (o: SyncDecodeOutcome)
    ensures
        o == match located {
            SyncLocate::NoPreamble => SyncDecodeOutcome::NoSignal,
            SyncLocate::NoBody { start_sample } => SyncDecodeOutcome::DetectedDecodeFailed {
                start_sample,
                snr_mdb: None,
            },
            SyncLocate::Body { start_sample, .. } => match decoded {
                Ok(payload) => SyncDecodeOutcome::Frame { start_sample, payload, snr_mdb },
                Err(_) => SyncDecodeOutcome::DetectedDecodeFailed { start_sample, snr_mdb },
            },
        },
        o == scan_outcome(located, snr_mdb, decoded),
{
    match located {
        SyncLocate::NoPreamble => SyncDecodeOutcome::NoSignal,
        SyncLocate::NoBody { start_sample } => SyncDecodeOutcome::DetectedDecodeFailed {
            start_sample,
            snr_mdb: None,
        },
        SyncLocate::Body { start_sample, .. } => match decoded {
            Ok(payload) => SyncDecodeOutcome::Frame { start_sample, payload, snr_mdb },
            Err(_) => SyncDecodeOutcome::DetectedDecodeFailed { start_sample, snr_mdb },
        },
    }
}

/// The blocks of a frame that a receiver has decoded so far.
pub struct BlockReader {
    block_info: usize,
    info: Vec<u8>,
    read: usize,
    total: usize,
}

/// What to do next for a frame.
pub enum ReceiveStep {
    /// Decode a block from the samples of its symbols and hand it to the reader.
    Decode {
        /// Number of the block.
        block: usize,
        /// The samples of its symbols.
        spans: Vec<Span>,
    },
    /// The frame is read: its payload, or why there is none.
    Done(Result<Vec<u8>, PhyError>),
}

/// What a receiver knows of a frame.
#[verifier::ext_equal]
pub ghost struct ReaderModel {
    /// Information bits of a block.
    pub block_info: int,
    /// The blocks decoded so far.
    pub info: Seq<u8>,
    /// Their number.
    pub read: int,
    /// Number of blocks of the frame; one until the first is decoded.
    pub total: int,
}

impl ReaderModel {
    /// A receiver at the start of a frame.
    pub open spec fn fresh(block_info: int) -> Self {
        ReaderModel { block_info, info: Seq::empty(), read: 0, total: 1 }
    }

    /// After one more block: the first says how many there are.
    pub open spec fn with_block(self, block: Seq<u8>) -> Self {
        ReaderModel {
            block_info: self.block_info,
            info: self.info + block,
            read: self.read + 1,
            total: if self.read == 0 {
                crate::coded_framing::blocks_needed(
                    crate::coded_framing::declared_len(block),
                    self.block_info,
                )
            } else {
                self.total
            },
        }
    }

    /// After some more blocks.
    pub open spec fn with_blocks(self, blocks: Seq<Seq<u8>>) -> Self
        decreases blocks.len(),
    {
        if blocks.len() == 0 {
            self
        } else {
            self.with_blocks(blocks.drop_last()).with_block(blocks.last())
        }
    }
}

impl View for BlockReader {
    type V = ReaderModel;

    closed spec fn view(&self) -> ReaderModel {
        ReaderModel {
            block_info: self.block_info as int,
            info: self.info@,
            read: self.read as int,
            total: self.total as int,
        }
    }
}

impl BlockReader {
    /// A receiver at the start of a frame.
    pub fn new(block_info: usize) -> (r: Self)
        ensures
            r@ == ReaderModel::fresh(block_info as int),
    {
        BlockReader { block_info, info: Vec::new(), read: 0, total: 1 }
    }

    /// The block to decode next; none when all are there.
    pub fn wanted(&self) -> (b: Option<usize>)
        ensures
            match b {
                Some(k) => k == self@.read && self@.read < self@.total,
                None => self@.read >= self@.total,
            },
    {
        if self.read < self.total {
            Some(self.read)
        } else {
            None
        }
    }

    /// Take the information bits of the wanted block.
    pub fn accept(&mut self, block: &[u8])
        requires
            old(self)@.read < old(self)@.total,
            old(self)@.block_info >= 1,
            old(self)@.read == 0 ==> block@.len() >= crate::coded_framing::HEADER_BITS,
        ensures
            final(self)@ == old(self)@.with_block(block@),
    {
        if self.read == 0 {
            self.total = crate::coded_framing::blocks_from_first_block(block, self.block_info);
        }
        let ghost before = self.info@;
        let mut i: usize = 0;
        while i < block.len()
            invariant
                i <= block@.len(),
                self.info@ == before + block@.take(i as int),
                self.block_info == old(self)@.block_info,
                self.read == old(self)@.read,
                self.read < old(self)@.total <= usize::MAX,
                self.total == old(self)@.with_block(block@).total,
            decreases block@.len() - i,
        {
            self.info.push(block[i]);
            assert(self.info@ =~= before + block@.take(i + 1));
            i = i + 1;
        }
        self.read = self.read + 1;
        assert(self@ =~= old(self)@.with_block(block@)) by {
            assert(block@.take(block@.len() as int) =~= block@);
        }
    }

    /// The payload in the blocks.
    pub fn finish(&self) -> (r: Result<Vec<u8>, PhyError>)
        ensures
            match (r, crate::coded_framing::deframed(self@.info)) {
                (Ok(p), Ok(payload)) => p@ == payload,
                (Err(PhyError::FrameDetect(m)), Err(text)) => m@ == text,
                _ => false,
            },
    {
        crate::coded_framing::deframe_info_bits(self.info.as_slice())
    }
}

/// A block of a stream lies within it.
proof fn lemma_block_in_range(len: int, size: int, b: int)
    requires
        size >= 1,
        0 <= b < len / size,
    ensures
        0 <= b * size,
        b * size + size <= len,
        (b + 1) * size == b * size + size,
{
    vstd::arithmetic::div_mod::lemma_fundamental_div_mod(len, size);
    vstd::arithmetic::div_mod::lemma_mod_bound(len, size);
    assert(0 <= b * size && b * size + size <= size * (len / size) && (b + 1) * size == b * size
        + size) by (nonlinear_arith)
        requires
            size >= 1,
            0 <= b < len / size,
    ;
}

/// A symbol before the last starts within the block.
proof fn lemma_symbol_starts(len: int, width: int, s: int)
    requires
        width >= 1,
        len >= 0,
        0 <= s < ceil_div(len, width),
    ensures
        s * width < len,
{
    let t = len + width - 1;
    vstd::arithmetic::div_mod::lemma_fundamental_div_mod(t, width);
    vstd::arithmetic::div_mod::lemma_mod_bound(t, width);
    assert(s * width + width <= width * (t / width)) by (nonlinear_arith)
        requires
            width >= 1,
            s < t / width,
    ;
}

/// A block has at least one sample.
proof fn lemma_block_size(f: WidebandLowDensityFloor)
    requires
        f.wf(),
    ensures
        f.symbols() >= 1,
        f.block_size() >= 1,
{
    let (c, d) = (f.block_coded_bits as int, f.data_bits_per_symbol as int);
    vstd::arithmetic::div_mod::lemma_div_is_ordered(d, c + d - 1, d);
    vstd::arithmetic::div_mod::lemma_div_by_self(d);
    assert(f.symbols() * f.symbol_size() >= 1) by (nonlinear_arith)
        requires
            f.symbols() >= 1,
            f.symbol_size() >= 1,
    ;
}

/// A block is complete exactly where the capture has that many whole blocks.
proof fn lemma_whole_blocks(len: int, size: int, b: int)
    requires
        size >= 1,
        len >= 0,
        b >= 0,
    ensures
        b < len / size <==> (b + 1) * size <= len,
        (b + 1) * size == b * size + size,
{
    vstd::arithmetic::div_mod::lemma_fundamental_div_mod(len, size);
    vstd::arithmetic::div_mod::lemma_mod_bound(len, size);
    let q = len / size;
    assert((b + 1) * size == b * size + size) by (nonlinear_arith);
    if b < q {
        assert((b + 1) * size <= size * q) by (nonlinear_arith)
            requires
                b + 1 <= q,
                size >= 1,
        ;
    } else {
        assert((b + 1) * size >= size * q + size) by (nonlinear_arith)
            requires
                b >= q,
                size >= 1,
        ;
    }
}

/// Blocks of a stream of whole blocks, one after another, are the stream.
proof fn lemma_joined_blocks(bits: Seq<u8>, size: int, n: nat)
    requires
        size >= 1,
        bits.len() == n * size,
    ensures
        blocks_of(bits, size).len() == n,
        joined(blocks_of(bits, size)) == bits,
    decreases n,
{
    vstd::arithmetic::div_mod::lemma_div_multiples_vanish(n as int, size);
    assert(n * size == size * n) by (nonlinear_arith);
    if n > 0 {
        let m = (n - 1) as nat;
        assert(m * size + size == n * size && m * size >= 0) by (nonlinear_arith)
            requires
                m == n - 1,
                size >= 1,
        ;
        let head = bits.take(m * size);
        lemma_joined_blocks(head, size, m);
        assert(blocks_of(bits, size).drop_last() =~= blocks_of(head, size)) by {
            assert forall|b: int| 0 <= b < m implies block_of(bits, size, b) == block_of(
                head,
                size,
                b,
            ) by {
                assert(0 <= b * size && (b + 1) * size <= m * size && b * size <= (b + 1) * size)
                    by (nonlinear_arith)
                    requires
                        0 <= b < m,
                        size >= 1,
                ;
                assert(block_of(bits, size, b) =~= block_of(head, size, b));
            }
        }
        assert((m + 1) * size == n * size) by (nonlinear_arith)
            requires
                m == n - 1,
        ;
        assert(blocks_of(bits, size).last() =~= bits.subrange(m * size, n * size));
        assert(joined(blocks_of(bits, size)) =~= head + bits.subrange(m * size, n * size));
        assert(head + bits.subrange(m * size, n * size) =~= bits);
    } else {
        assert(0 * size == 0) by (nonlinear_arith);
        assert(joined(blocks_of(bits, size)) =~= bits);
    }
}

/// After all blocks of a sequence, the reader holds them in order; the first one, where
/// the reader was fresh, has told it how many to expect.
proof fn lemma_reader(block_info: int, blocks: Seq<Seq<u8>>)
    ensures
        ({
            let m = ReaderModel::fresh(block_info).with_blocks(blocks);
            &&& m.info == joined(blocks)
            &&& m.read == blocks.len()
            &&& m.block_info == block_info
            &&& m.total == if blocks.len() == 0 {
                1
            } else {
                crate::coded_framing::blocks_needed(
                    crate::coded_framing::declared_len(blocks[0]),
                    block_info,
                )
            }
        }),
    decreases blocks.len(),
{
    if blocks.len() > 0 {
        lemma_reader(block_info, blocks.drop_last());
    }
}

/// A frame whose blocks all decode gives its payload back: the receiver asks for as many
/// blocks as were sent, and deframes them to the payload.
pub proof fn received_blocks_give_back_the_payload(payload: Seq<u8>, block_info: int)
    requires
        payload.len() <= MAX_PAYLOAD,
        block_info >= crate::coded_framing::HEADER_BITS,
    ensures
        ({
            let blocks = blocks_of(crate::coded_framing::framed(payload, block_info), block_info);
            let end = ReaderModel::fresh(block_info).with_blocks(blocks);
            &&& end.read == end.total
            &&& crate::coded_framing::deframed(end.info) == Ok::<Seq<u8>, Seq<char>>(payload)
        }),
{
    let bits = crate::coded_framing::framed(payload, block_info);
    let n = crate::coded_framing::blocks_needed(payload.len() as int, block_info);
    let blocks = blocks_of(bits, block_info);
    crate::coded_framing::framed_payload_comes_back(payload, block_info);
    crate::coded_framing::first_block_announces_the_count(payload, block_info);
    crate::coded_framing::lemma_block_total(payload.len() as int, block_info);
    assert(n >= 1) by (nonlinear_arith)
        requires
            n * block_info >= 16,
            block_info >= 16,
    ;
    lemma_joined_blocks(bits, block_info, n as nat);
    lemma_reader(block_info, blocks);
    assert(0 * block_info == 0 && 1 * block_info == block_info) by (nonlinear_arith);
    assert(bits.len() >= block_info) by (nonlinear_arith)
        requires
            bits.len() == n * block_info,
            n >= 1,
            block_info >= 16,
    ;
    assert(blocks[0] =~= bits.take(block_info));
    let total = crate::coded_framing::blocks_needed(
        crate::coded_framing::declared_len(blocks[0]),
        block_info,
    );
    assert(total == n) by (nonlinear_arith)
        requires
            total * block_info == n * block_info,
            block_info >= 16,
    ;
}

/// Every coded bit is sent, in its place: bit `j` is bit `j % width` of symbol
/// `j / width`, and what follows the last is zero.
pub proof fn symbols_carry_the_coded_bits(coded: Seq<u8>, width: int, j: int)
    requires
        width >= 1,
        0 <= j < ceil_div(coded.len() as int, width) * width,
    ensures
        0 <= j / width < ceil_div(coded.len() as int, width),
        symbol_of(coded, width, j / width)[j % width] == if j < coded.len() {
            coded[j]
        } else {
            0u8
        },
{
    let n = ceil_div(coded.len() as int, width);
    vstd::arithmetic::div_mod::lemma_fundamental_div_mod(j, width);
    vstd::arithmetic::div_mod::lemma_mod_bound(j, width);
    let (q, r) = (j / width, j % width);
    assert(q * width == width * q) by (nonlinear_arith);
    assert(0 <= q < n) by (nonlinear_arith)
        requires
            j == width * q + r,
            0 <= r < width,
            0 <= j < n * width,
            width >= 1,
    ;
}

/// Fading touches only the cyclic prefix: a sample of a symbol's body is sent as it is.
pub proof fn symbol_bodies_are_untouched(
    f: WidebandLowDensityFloor,
    symbols: int,
    k: int,
    j: int,
)
    requires
        f.wf(),
        f.cp_len >= WINDOW_ROLLOFF_SAMPLES,
        0 <= k < symbols,
        f.cp_len <= j < f.symbol_size(),
    ensures
        f.window_sum(symbols, k * f.symbol_size() + j) == seq![
            WindowTap { symbol: k as usize, index: j as usize, ramp: None::<usize> },
        ],
{
    let sym = f.symbol_size();
    let p = k * sym + j;
    vstd::arithmetic::div_mod::lemma_fundamental_div_mod_converse(p, sym, k, j);
    assert(f.window_sum(symbols, p) =~= seq![
        WindowTap { symbol: k as usize, index: j as usize, ramp: None::<usize> },
    ]);
}

/// The window of the first symbol starts the guard before the end of the preamble: early
/// is harmless, late would reach into the next symbol.
pub proof fn window_starts_early(detected: usize, samples: int)
    requires
        detected >= ANALYTIC_PAD,
        located(Some(detected), samples) is Body,
        samples <= usize::MAX,
    ensures
        match located(Some(detected), samples) {
            SyncLocate::Body { start_sample, body_start } => {
                &&& start_sample == detected - ANALYTIC_PAD
                &&& body_start < start_sample + PREAMBLE_LEN_SAMPLES
                &&& start_sample + PREAMBLE_LEN_SAMPLES - body_start == SYNC_WINDOW_GUARD_SAMPLES
            },
            _ => false,
        },
{
}

/// Where a body lies: the padding of 512 samples does not count, the body begins 288 samples
/// behind the start, which is the preamble less a guard of 32, and only one that has samples
/// is a body.
pub proof fn body_lies_behind_the_preamble(detected: Option<usize>, samples: usize)
    requires
        detected matches Some(d) ==> d + 288 <= usize::MAX,
    ensures
        MAX_PAYLOAD == 65535,
        match located(detected, samples as int) {
            SyncLocate::NoPreamble => detected is None,
            SyncLocate::NoBody { start_sample } => {
                &&& detected matches Some(d) && start_sample == (if d < 512 {
                    0
                } else {
                    d - 512
                })
                &&& start_sample + 288 >= samples
            },
            SyncLocate::Body { start_sample, body_start } => {
                &&& detected matches Some(d) && start_sample == (if d < 512 {
                    0
                } else {
                    d - 512
                })
                &&& body_start == start_sample + 288
                &&& body_start < samples
            },
        },
{
}

/// A block takes as many symbols as its bits fill, the last one counted whole, and a symbol
/// lasts its body and its prefix.
pub proof fn block_takes_the_symbols_it_fills(f: WidebandLowDensityFloor)
    requires
        f.wf(),
    ensures
        ({
            let n = f.symbols();
            let w = f.data_bits_per_symbol as int;
            &&& w * (n - 1) < f.block_coded_bits <= w * n
            &&& f.symbol_size() == f.fft_size + f.cp_len
            &&& f.block_size() == n * (f.fft_size + f.cp_len)
        }),
{
    let w = f.data_bits_per_symbol as int;
    let t = f.block_coded_bits + w - 1;
    vstd::arithmetic::div_mod::lemma_fundamental_div_mod(t, w);
    vstd::arithmetic::div_mod::lemma_mod_bound(t, w);
    let n = t / w;
    assert(w * (n - 1) == w * n - w) by (nonlinear_arith);
}

/// How symbols are faded into one another. Sample `j` of symbol `k` is the symbol's own, and
/// in the first 128 samples it rises step by step while the symbol before it, read on from
/// behind its prefix, falls by as many steps. Behind the last symbol only the fall is left,
/// and before the first only the rise.
pub proof fn symbols_fade_into_one_another(
    f: WidebandLowDensityFloor,
    symbols: int,
    k: int,
    j: int,
)
    requires
        f.wf(),
        f.fft_size >= 128,
        0 <= k <= symbols <= usize::MAX,
        0 <= j < f.symbol_size(),
    ensures
        ({
            let taps = f.window_sum(symbols, k * f.symbol_size() + j);
            let fades = j < 128;
            let falls = fades && k >= 1;
            let own = k < symbols;
            let n = taps.len() as int;
            &&& n == (if falls {
                1int
            } else {
                0
            }) + (if own {
                1int
            } else {
                0
            })
            &&& falls ==> taps[0].symbol == k - 1 && taps[0].index == f.cp_len + j
                && taps[0].ramp is Some && taps[0].ramp->0 + j == 127
            &&& own ==> taps[n - 1].symbol == k && taps[n - 1].index == j
            &&& own && fades ==> taps[n - 1].ramp is Some && taps[n - 1].ramp->0 == j
            &&& own && !fades ==> taps[n - 1].ramp is None
        }),
{
    let w = f.symbol_size();
    vstd::arithmetic::div_mod::lemma_fundamental_div_mod_converse(k * w + j, w, k, j);
}

/// What a receiver knows after a block: the bits of the block behind those before it, and one
/// block more. The first block tells how many there are, as many as its header, the payload
/// and less than a block of filling take; no later one changes that.
pub proof fn first_block_tells_the_number(r: ReaderModel, block: Seq<u8>)
    requires
        r.block_info >= 1,
        block.len() >= 16,
    ensures
        ({
            let t = r.with_block(block);
            let bits = 16 + 8 * crate::coded_framing::declared_len(block);
            &&& t.block_info == r.block_info
            &&& t.info == r.info + block
            &&& t.read == r.read + 1
            &&& r.read != 0 ==> t.total == r.total
            &&& r.read == 0 && crate::coded_framing::declared_len(block) >= 0 ==> bits <= t.total
                * r.block_info < bits + r.block_info
        }),
        ({
            let s = ReaderModel::fresh(r.block_info);
            s.info.len() == 0 && s.read == 0 && s.total == 1 && s.block_info == r.block_info
        }),
{
    let len = crate::coded_framing::declared_len(block);
    if len >= 0 {
        crate::coded_framing::lemma_block_total(len, r.block_info);
    }
}

/// Cutting a stream of whole blocks into blocks and joining them again gives the stream, and
/// every block has its size.
pub proof fn blocks_join_to_the_stream(bits: Seq<u8>, size: int, n: nat)
    requires
        size >= 1,
        bits.len() == n * size,
    ensures
        blocks_of(bits, size).len() == n,
        joined(blocks_of(bits, size)) == bits,
        forall|b: int| 0 <= b < n ==> (#[trigger] blocks_of(bits, size)[b]).len() == size,
    decreases n,
{
    vstd::arithmetic::div_mod::lemma_fundamental_div_mod_converse(
        bits.len() as int,
        size,
        n as int,
        0,
    );
    let all = blocks_of(bits, size);
    assert forall|b: int| 0 <= b < n implies (#[trigger] all[b]).len() == size by {
        lemma_block_in_range(bits.len() as int, size, b);
    }
    if n == 0 {
        assert(0 * size == 0);
        assert(all =~= Seq::empty());
        assert(bits =~= Seq::empty());
    } else {
        let head = bits.take((n - 1) * size);
        lemma_block_in_range(bits.len() as int, size, n - 1);
        blocks_join_to_the_stream(head, size, (n - 1) as nat);
        assert(blocks_of(head, size) =~= all.drop_last()) by {
            assert forall|b: int| 0 <= b < n - 1 implies blocks_of(head, size)[b] == all[b] by {
                lemma_block_in_range(head.len() as int, size, b);
                lemma_block_in_range(bits.len() as int, size, b);
                assert(blocks_of(head, size)[b] =~= all[b]);
            }
        }
        assert(bits =~= head + all.last());
    }
}

/// What a scan tells: noise exactly where there was no preamble, a frame exactly where a body
/// decoded, and a failure in between; the SNR is the body's, and there is none without one.
pub proof fn scan_tells_noise_from_failure(
    located: SyncLocate,
    snr_mdb: Option<i32>,
    decoded: Result<Vec<u8>, PhyError>,
)
    ensures
        match scan_outcome(located, snr_mdb, decoded) {
            SyncDecodeOutcome::NoSignal => located is NoPreamble,
            SyncDecodeOutcome::Frame { start_sample, payload, snr_mdb: snr } => {
                &&& decoded == Ok::<Vec<u8>, PhyError>(payload)
                &&& snr == snr_mdb
                &&& located matches SyncLocate::Body { start_sample: s, .. } && s == start_sample
            },
            SyncDecodeOutcome::DetectedDecodeFailed { start_sample, snr_mdb: snr } => {
                ||| located matches SyncLocate::NoBody { start_sample: s } && s == start_sample
                    && snr is None
                ||| located matches SyncLocate::Body { start_sample: s, .. } && s == start_sample
                    && decoded is Err && snr == snr_mdb
            },
        },
{
}

/// The faded signal is just as long as it has terms: its last sample has one, and there is
/// none behind it.
pub proof fn faded_signal_ends_with_the_last_fall(f: WidebandLowDensityFloor, symbols: int)
    requires
        f.wf(),
        f.fft_size >= 128,
        f.symbol_size() > 128,
        1 <= symbols <= usize::MAX,
    ensures
        f.faded_len(symbols) == symbols * f.symbol_size() + 128,
        f.faded_len(0) == 0,
        f.window_sum(symbols, f.faded_len(symbols) - 1).len() == 1,
        f.window_sum(symbols, f.faded_len(symbols)).len() == 0,
{
    symbols_fade_into_one_another(f, symbols, symbols, 127);
    symbols_fade_into_one_another(f, symbols, symbols, 128);
}

} // verus!
