//! WAV containers: a header parser that trusts the bytes on disk over the
//! declared sizes, and a writer for canonical RIFF and 64-bit RF64 files.
//!
//! A sample is the bit pattern of a 32-bit float, so that reading and writing
//! move it unchanged.
use vstd::prelude::*;
use crate::bytes;
use crate::bytes::{push_le16, push_le32, push_le64, read_le16, read_le32, read_le64};

verus! {

#[derive(Clone, Copy, Debug, PartialEq, Eq, Structural)]
pub enum SampleFormat {
    Float,
    Int,
}

/// Layout of the samples in a WAV file.
#[derive(Clone, Copy, Debug, PartialEq, Eq, Structural)]
pub struct WavSpec {
    pub channels: u16,
    pub sample_rate: u32,
    pub bits_per_sample: u16,
    pub sample_format: SampleFormat,
}

/// What is wrong with a malformed header.
#[derive(Clone, Copy, Debug, PartialEq, Eq, Structural)]
pub enum FormatError {
    NotRiff,
    MissingWave,
    FmtTooSmall,
    MissingFmt,
    ZeroChannels,
    BitDepth,
    MissingData,
}

#[derive(Clone, Copy, Debug, PartialEq, Eq, Structural)]
pub enum WavError {
    /// The file ends inside a field that has to be read.
    UnexpectedEof,
    Format(FormatError),
    /// A sample format that this reader does not decode.
    Unsupported,
}

impl FormatError {
    pub open spec fn text(self) -> Seq<char> {
        match self {
            FormatError::NotRiff => "not a RIFF/RF64 WAVE file"@,
            FormatError::MissingWave => "missing WAVE form type"@,
            FormatError::FmtTooSmall => "fmt chunk too small"@,
            FormatError::MissingFmt => "missing fmt chunk"@,
            FormatError::ZeroChannels => "zero-channel WAV"@,
            FormatError::BitDepth => "unsupported bit depth"@,
            FormatError::MissingData => "missing data chunk"@,
        }
    }

    pub fn message(&self) -> (r: &'static str)
        ensures
            r@ == self.text(),
    {
        match self {
            FormatError::NotRiff => "not a RIFF/RF64 WAVE file",
            FormatError::MissingWave => "missing WAVE form type",
            FormatError::FmtTooSmall => "fmt chunk too small",
            FormatError::MissingFmt => "missing fmt chunk",
            FormatError::ZeroChannels => "zero-channel WAV",
            FormatError::BitDepth => "unsupported bit depth",
            FormatError::MissingData => "missing data chunk",
        }
    }
}

/// Essentials of a RIFF/RF64 WAVE header, with the data-chunk length already
/// resolved against the file's real size.
#[derive(Clone, Copy, Debug)]
pub struct WavHeader {
    pub spec: WavSpec,
    /// Byte offset of the first sample.
    pub data_offset: u64,
    /// Number of usable PCM bytes, floored to a whole frame.
    pub data_len: u64,
}

impl WavHeader {
    pub open spec fn frame_size(&self) -> int {
        frame_size(self.spec.channels as int, self.spec.bits_per_sample as int)
    }

    /// Bytes of one frame: one sample of every channel.
    pub fn frame_bytes(&self) -> (r: u64)
        ensures
            r == self.frame_size(),
    {
        mul_u16(self.spec.channels, self.spec.bits_per_sample / 8)
    }
}

pub open spec fn frame_size(channels: int, bits: int) -> int {
    channels * (bits / 8)
}

fn mul_u16(a: u16, b: u16) -> (r: u64)
    ensures
        r == a * b,
{
    assert(a * b <= 0xffff * 0xffff) by (nonlinear_arith)
        requires
            a <= 0xffff,
            b <= 0xffff,
    ;
    assert(0 <= a * b) by (nonlinear_arith);
    (a as u64) * (b as u64)
}

/// What the chunks seen so far have said.
#[derive(Clone, Copy, Debug)]
pub struct ChunkScan {
    pub channels: Option<u16>,
    pub sample_rate: u32,
    pub bits: u16,
    pub is_float: bool,
    pub ds64_data_size: Option<u64>,
    /// Offset and declared length of the data chunk.
    pub data: Option<(u64, u64)>,
}

/// The scan before any chunk.
pub open spec fn empty_scan() -> ChunkScan {
    ChunkScan {
        channels: None,
        sample_rate: 0,
        bits: 0,
        is_float: false,
        ds64_data_size: None,
        data: None,
    }
}

pub open spec fn has_tag(s: Seq<u8>, i: int, tag: Seq<char>) -> bool {
    forall|k: int| 0 <= k < 4 ==> s[i + k] == #[trigger] tag[k] as u8
}

pub open spec fn tag_riff() -> Seq<char> {
    seq!['R', 'I', 'F', 'F']
}

pub open spec fn tag_rf64() -> Seq<char> {
    seq!['R', 'F', '6', '4']
}

pub open spec fn tag_bw64() -> Seq<char> {
    seq!['B', 'W', '6', '4']
}

pub open spec fn tag_wave() -> Seq<char> {
    seq!['W', 'A', 'V', 'E']
}

pub open spec fn tag_fmt() -> Seq<char> {
    seq!['f', 'm', 't', ' ']
}

pub open spec fn tag_ds64() -> Seq<char> {
    seq!['d', 's', '6', '4']
}

pub open spec fn tag_fact() -> Seq<char> {
    seq!['f', 'a', 'c', 't']
}

pub open spec fn tag_data() -> Seq<char> {
    seq!['d', 'a', 't', 'a']
}

/// Number of bytes at a chunk's start that decide what it says: id, size and
/// the longest `fmt ` body that is looked at.
pub const CHUNK_WINDOW: u64 = 48;

/// The data size that stands for "not representable in 32 bits".
pub const SIZE_PLACEHOLDER: u64 = 0xFFFF_FFFF;

/// The up to 48 bytes of `file` from `pos` on.
pub open spec fn chunk_window(file: Seq<u8>, pos: int) -> Seq<u8> {
    file.subrange(
        pos,
        if pos + CHUNK_WINDOW <= file.len() {
            pos + CHUNK_WINDOW
        } else {
            file.len() as int
        },
    )
}

/// Whether a `fmt ` chunk of which `want` body bytes were read, in `w` from 8
/// on, declares float samples: by its tag, or for the extensible tag by the
/// first two bytes of its sub-format.
pub open spec fn fmt_is_float(w: Seq<u8>, want: int) -> bool {
    ||| bytes::le16(w, 8) == 0x0003
    ||| bytes::le16(w, 8) == 0xFFFE && want >= 26 && bytes::le16(w, 32) == 0x0003
}

/// What one chunk, whose first bytes are `w` and which starts at `pos`, adds
/// to the scan.
pub open spec fn chunk_step(scan: ChunkScan, pos: int, w: Seq<u8>) -> Result<ChunkScan, WavError> {
    let declared = bytes::le32(w, 4);
    if has_tag(w, 0, tag_fmt()) {
        let want = if declared <= 40 {
            declared
        } else {
            40
        };
        if want < 16 {
            Err(WavError::Format(FormatError::FmtTooSmall))
        } else if w.len() < 8 + want {
            Err(WavError::UnexpectedEof)
        } else {
            Ok(
                ChunkScan {
                    channels: Some(bytes::le16(w, 10) as u16),
                    sample_rate: bytes::le32(w, 12) as u32,
                    bits: bytes::le16(w, 22) as u16,
                    is_float: fmt_is_float(w, want),
                    ..scan
                },
            )
        }
    } else if has_tag(w, 0, tag_ds64()) && declared >= 16 {
        if w.len() < 24 {
            Err(WavError::UnexpectedEof)
        } else {
            Ok(ChunkScan { ds64_data_size: Some(bytes::le64(w, 16) as u64), ..scan })
        }
    } else if has_tag(w, 0, tag_data()) {
        Ok(ChunkScan { data: Some(((pos + 8) as u64, declared as u64)), ..scan })
    } else {
        Ok(scan)
    }
}

/// Where the chunk after one at `pos` starts: past the body, padded to an even
/// length. A placeholder size, or one that runs past the end of the file,
/// leaves no trustworthy next chunk.
pub open spec fn next_chunk(pos: int, declared: int, file_len: int) -> Option<int> {
    let next = pos + 8 + declared + declared % 2;
    if declared == SIZE_PLACEHOLDER || next > file_len {
        None
    } else {
        Some(next)
    }
}

/// What the chunks from `pos` on add to the scan.
pub open spec fn scan_from(file: Seq<u8>, pos: int, scan: ChunkScan) -> Result<ChunkScan, WavError>
    decreases file.len() - pos,
{
    if pos + 8 > file.len() {
        Ok(scan)
    } else {
        let w = chunk_window(file, pos);
        match chunk_step(scan, pos, w) {
            Err(e) => Err(e),
            Ok(next_scan) => match next_chunk(pos, bytes::le32(w, 4), file.len() as int) {
                Some(next) => if next > pos {
                    scan_from(file, next, next_scan)
                } else {
                    Ok(next_scan)
                },
                None => Ok(next_scan),
            },
        }
    }
}

/// The usable length of a data chunk of which `avail` bytes are on disk: the
/// 64-bit size if it fits, else a sane 32-bit size that fits, else all of it.
pub open spec fn data_extent(ds64: Option<u64>, declared: int, avail: int) -> int {
    if ds64 is Some && ds64->0 <= avail {
        ds64->0 as int
    } else if declared != 0 && declared != SIZE_PLACEHOLDER && declared <= avail {
        declared
    } else {
        avail
    }
}

/// The header that a finished scan of a file of `file_len` bytes stands for.
pub open spec fn resolve(scan: ChunkScan, file_len: int) -> Result<WavHeader, WavError> {
    if scan.channels is None {
        Err(WavError::Format(FormatError::MissingFmt))
    } else if scan.channels->0 == 0 {
        Err(WavError::Format(FormatError::ZeroChannels))
    } else if scan.bits == 0 || scan.bits % 8 != 0 {
        Err(WavError::Format(FormatError::BitDepth))
    } else if scan.data is None {
        Err(WavError::Format(FormatError::MissingData))
    } else {
        let offset = (scan.data->0).0;
        let avail = if offset <= file_len {
            file_len - offset
        } else {
            0
        };
        let raw = data_extent(scan.ds64_data_size, (scan.data->0).1 as int, avail);
        let frame = frame_size(scan.channels->0 as int, scan.bits as int);
        Ok(
            WavHeader {
                spec: WavSpec {
                    channels: scan.channels->0,
                    sample_rate: scan.sample_rate,
                    bits_per_sample: scan.bits,
                    sample_format: if scan.is_float {
                        SampleFormat::Float
                    } else {
                        SampleFormat::Int
                    },
                },
                data_offset: offset,
                data_len: (raw - raw % frame) as u64,
            },
        )
    }
}

/// What the first twelve bytes of a file say: `None` if they open a WAVE file.
pub open spec fn preamble_error(head: Seq<u8>) -> Option<WavError> {
    if head.len() < 4 {
        Some(WavError::UnexpectedEof)
    } else if !has_tag(head, 0, tag_riff()) && !has_tag(head, 0, tag_rf64()) && !has_tag(
        head,
        0,
        tag_bw64(),
    ) {
        Some(WavError::Format(FormatError::NotRiff))
    } else if head.len() < 12 {
        Some(WavError::UnexpectedEof)
    } else if !has_tag(head, 8, tag_wave()) {
        Some(WavError::Format(FormatError::MissingWave))
    } else {
        None
    }
}

/// The header of a whole file.
pub open spec fn header_of(file: Seq<u8>) -> Result<WavHeader, WavError> {
    match preamble_error(file) {
        Some(e) => Err(e),
        None => match scan_from(file, 12, empty_scan()) {
            Err(e) => Err(e),
            Ok(scan) => resolve(scan, file.len() as int),
        },
    }
}

fn tag_at(s: &[u8], i: usize, a: u8, b: u8, c: u8, d: u8) -> (r: bool)
    requires
        i + 4 <= s@.len(),
    ensures
        r == (s@[i as int] == a && s@[i + 1] == b && s@[i + 2] == c && s@[i + 3] == d),
{
    s[i] == a && s[i + 1] == b && s[i + 2] == c && s[i + 3] == d
}

proof fn lemma_tag(s: Seq<u8>, i: int, tag: Seq<char>)
    requires
        tag.len() == 4,
    ensures
        has_tag(s, i, tag) == (s[i] == tag[0] as u8 && s[i + 1] == tag[1] as u8 && s[i + 2]
            == tag[2] as u8 && s[i + 3] == tag[3] as u8),
{
    if s[i] == tag[0] as u8 && s[i + 1] == tag[1] as u8 && s[i + 2] == tag[2] as u8 && s[i + 3]
        == tag[3] as u8 {
        assert forall|k: int| 0 <= k < 4 implies s[i + k] == #[trigger] tag[k] as u8 by {}
    }
    if has_tag(s, i, tag) {
        assert(s[i + 0] == tag[0] as u8);
        assert(s[i + 1] == tag[1] as u8);
        assert(s[i + 2] == tag[2] as u8);
        assert(s[i + 3] == tag[3] as u8);
    }
}

/// Checks the first bytes of a file: magic and form type. RIFF has 32-bit
/// sizes; RF64 and BW64 carry 64-bit sizes in a `ds64` chunk.
pub fn check_preamble(head: &[u8]) -> (r: Result<(), WavError>)
    ensures
        match r {
            Ok(_) => preamble_error(head@) is None,
            Err(e) => preamble_error(head@) == Some(e),
        },
{
    if head.len() < 4 {
        return Err(WavError::UnexpectedEof);
    }
    proof {
        lemma_tag(head@, 0, tag_riff());
        lemma_tag(head@, 0, tag_rf64());
        lemma_tag(head@, 0, tag_bw64());
        lemma_tag(head@, 8, tag_wave());
    }
    if !tag_at(head, 0, 0x52, 0x49, 0x46, 0x46) && !tag_at(head, 0, 0x52, 0x46, 0x36, 0x34)
        && !tag_at(head, 0, 0x42, 0x57, 0x36, 0x34) {
        return Err(WavError::Format(FormatError::NotRiff));
    }
    if head.len() < 12 {
        return Err(WavError::UnexpectedEof);
    }
    if !tag_at(head, 8, 0x57, 0x41, 0x56, 0x45) {
        return Err(WavError::Format(FormatError::MissingWave));
    }
    Ok(())
}

impl ChunkScan {
    pub fn new() -> (r: ChunkScan)
        ensures
            r == empty_scan(),
    {
        ChunkScan {
            channels: None,
            sample_rate: 0,
            bits: 0,
            is_float: false,
            ds64_data_size: None,
            data: None,
        }
    }

    /// Takes in the chunk that starts at `pos`, given the up to 48 bytes found
    /// there in a file of `file_len` bytes. Returns where the next chunk
    /// starts, if there is one to go on with.
    pub fn chunk(&mut self, pos: u64, w: &[u8], file_len: u64) -> (r: Result<Option<u64>, WavError>)
        requires
            w@.len() >= 8,
            pos + 8 <= file_len,
        ensures
            match r {
                Err(e) => chunk_step(*old(self), pos as int, w@) == Err::<ChunkScan, _>(e)
                    && *final(self) == *old(self),
                Ok(next) => {
                    &&& chunk_step(*old(self), pos as int, w@) == Ok::<_, WavError>(*final(self))
                    &&& match next {
                        Some(n) => next_chunk(pos as int, bytes::le32(w@, 4), file_len as int) == Some(
                            n as int,
                        ),
                        None => next_chunk(pos as int, bytes::le32(w@, 4), file_len as int) is None,
                    }
                },
            },
    {
        proof {
            lemma_tag(w@, 0, tag_fmt());
            lemma_tag(w@, 0, tag_ds64());
            lemma_tag(w@, 0, tag_data());
        }
        let declared: u64 = read_le32(w, 4) as u64;
        if tag_at(w, 0, 0x66, 0x6d, 0x74, 0x20) {
            let want: u64 = if declared <= 40 {
                declared
            } else {
                40
            };
            if want < 16 {
                return Err(WavError::Format(FormatError::FmtTooSmall));
            }
            if (w.len() as u64) < 8 + want {
                return Err(WavError::UnexpectedEof);
            }
            let tag: u16 = read_le16(w, 8);
            self.channels = Some(read_le16(w, 10));
            self.sample_rate = read_le32(w, 12);
            self.bits = read_le16(w, 22);
            self.is_float = tag == 0x0003 || (tag == 0xFFFE && want >= 26 && read_le16(w, 32)
                == 0x0003);
        } else if tag_at(w, 0, 0x64, 0x73, 0x36, 0x34) && declared >= 16 {
            if w.len() < 24 {
                return Err(WavError::UnexpectedEof);
            }
            self.ds64_data_size = Some(read_le64(w, 16));
        } else if tag_at(w, 0, 0x64, 0x61, 0x74, 0x61) {
            self.data = Some((pos + 8, declared));
        }
        if declared == SIZE_PLACEHOLDER {
            return Ok(None);
        }
        let room: u64 = file_len - (pos + 8);
        let padded: u64 = declared + declared % 2;
        if padded > room {
            Ok(None)
        } else {
            Ok(Some(pos + 8 + padded))
        }
    }

    /// Turns a finished scan of a file of `file_len` bytes into its header.
    pub fn finish(&self, file_len: u64) -> (r: Result<WavHeader, WavError>)
        ensures
            r == resolve(*self, file_len as int),
    {
        let channels: u16 = match self.channels {
            None => {
                return Err(WavError::Format(FormatError::MissingFmt));
            },
            Some(c) => c,
        };
        if channels == 0 {
            return Err(WavError::Format(FormatError::ZeroChannels));
        }
        if self.bits == 0 || self.bits % 8 != 0 {
            return Err(WavError::Format(FormatError::BitDepth));
        }
        let (offset, declared): (u64, u64) = match self.data {
            None => {
                return Err(WavError::Format(FormatError::MissingData));
            },
            Some(d) => d,
        };
        let avail: u64 = if offset <= file_len {
            file_len - offset
        } else {
            0
        };
        let sane: u64 = if declared != 0 && declared != SIZE_PLACEHOLDER && declared <= avail {
            declared
        } else {
            avail
        };
        let raw: u64 = match self.ds64_data_size {
            Some(d) => if d <= avail {
                d
            } else {
                sane
            },
            None => sane,
        };
        let frame: u64 = mul_u16(channels, self.bits / 8);
        assert(frame > 0) by (nonlinear_arith)
            requires
                frame == channels * (self.bits / 8),
                channels > 0,
                self.bits / 8 > 0,
        ;
        proof {
            vstd::arithmetic::div_mod::lemma_mod_decreases(raw as nat, frame as nat);
        }
        Ok(
            WavHeader {
                spec: WavSpec {
                    channels,
                    sample_rate: self.sample_rate,
                    bits_per_sample: self.bits,
                    sample_format: if self.is_float {
                        SampleFormat::Float
                    } else {
                        SampleFormat::Int
                    },
                },
                data_offset: offset,
                data_len: raw - raw % frame,
            },
        )
    }
}

/// The bytes of `file` from `pos` on, 48 at most.
fn window_at(file: &Vec<u8>, pos: usize) -> (w: Vec<u8>)
    requires
        pos <= file@.len(),
    ensures
        w@ == chunk_window(file@, pos as int),
{
    let mut w: Vec<u8> = Vec::new();
    let end: usize = if file.len() - pos >= CHUNK_WINDOW as usize {
        pos + CHUNK_WINDOW as usize
    } else {
        file.len()
    };
    let mut i: usize = pos;
    while i < end
        invariant
            pos <= i <= end <= file@.len(),
            w@ == file@.subrange(pos as int, i as int),
        decreases end - i,
    {
        w.push(file[i]);
        i += 1;
    }
    w
}

/// Parses the header of a whole file: walks the chunks (id, size, body padded
/// to an even length) and resolves the true length of the data chunk.
pub fn parse_wav_header(file: &Vec<u8>) -> (r: Result<WavHeader, WavError>)
    ensures
        r == header_of(file@),
{
    match check_preamble(file.as_slice()) {
        Err(e) => {
            return Err(e);
        },
        Ok(_) => {},
    }
    let mut scan = ChunkScan::new();
    let mut pos: usize = 12;
    let n: usize = file.len();
    while n - pos >= 8
        invariant_except_break
            scan_from(file@, pos as int, scan) == scan_from(file@, 12, empty_scan()),
        invariant
            n == file@.len(),
            pos <= n,
            preamble_error(file@) is None,
        ensures
            scan_from(file@, 12, empty_scan()) == Ok::<_, WavError>(scan),
        decreases n - pos,
    {
        let w = window_at(file, pos);
        match scan.chunk(pos as u64, w.as_slice(), n as u64) {
            Err(e) => {
                return Err(e);
            },
            Ok(Some(next)) => {
                pos = next as usize;
            },
            Ok(None) => {
                break;
            },
        }
    }
    scan.finish(n as u64)
}

/// The `n` samples stored from byte `offset` on.
pub open spec fn samples_at(file: Seq<u8>, offset: int, n: int) -> Seq<u32> {
    Seq::new(n as nat, |i: int| bytes::le32(file, offset + 4 * i) as u32)
}

/// Decodes little-endian samples: four bytes each, a trailing part dropped.
pub fn decode_samples(block: &[u8]) -> (r: Vec<u32>)
    ensures
        r@ == samples_at(block@, 0, block@.len() as int / 4),
{
    let mut r: Vec<u32> = Vec::new();
    let n: usize = block.len() / 4;
    let mut i: usize = 0;
    while i < n
        invariant
            i <= n,
            n == block@.len() / 4,
            r@ == samples_at(block@, 0, i as int),
        decreases n - i,
    {
        assert(block.len() == block@.len());
        r.push(read_le32(block, 4 * i));
        i += 1;
    }
    r
}

/// Interleaved PCM as it lives on disk.
pub struct Pcm {
    /// Float bit patterns, one frame after the other.
    pub samples: Vec<u32>,
    pub spec: WavSpec,
}

impl Pcm {
    pub fn channels(&self) -> (r: usize)
        ensures
            r == self.spec.channels,
    {
        self.spec.channels as usize
    }

    pub fn sample_rate(&self) -> (r: u32)
        ensures
            r == self.spec.sample_rate,
    {
        self.spec.sample_rate
    }

    /// Number of whole frames.
    pub fn frames(&self) -> (r: usize)
        requires
            self.spec.channels > 0,
        ensures
            r == self.samples@.len() as int / self.spec.channels as int,
    {
        self.samples.len() / self.channels()
    }
}

/// Whether the samples behind a header are the 32-bit floats that this library
/// reads and writes.
pub open spec fn is_f32(spec: WavSpec) -> bool {
    spec.sample_format == SampleFormat::Float && spec.bits_per_sample == 32
}

/// Reads a multichannel float WAV with its channels left interleaved.
///
/// The length comes from the bytes really there, so a payload that overflows
/// the 32-bit size field and a file cut short both give every whole frame.
pub fn read_interleaved_f32(file: &Vec<u8>) -> (r: Result<Pcm, WavError>)
    ensures
        match header_of(file@) {
            Err(e) => r == Err::<Pcm, _>(e),
            Ok(h) => if !is_f32(h.spec) {
                r == Err::<Pcm, _>(WavError::Unsupported)
            } else {
                &&& r is Ok
                &&& r->Ok_0.spec == h.spec
                &&& r->Ok_0.samples@ == samples_at(file@, h.data_offset as int, h.data_len as int / 4)
            },
        },
{
    let file_len: usize = file.len();
    let h: WavHeader = match parse_wav_header(file) {
        Err(e) => {
            return Err(e);
        },
        Ok(h) => h,
    };
    if h.spec.sample_format != SampleFormat::Float || h.spec.bits_per_sample != 32 {
        return Err(WavError::Unsupported);
    }
    proof {
        lemma_header_in_file(file@);
    }
    assert(h.data_offset + h.data_len <= file_len);
    let n: usize = (h.data_len / 4) as usize;
    let start: usize = h.data_offset as usize;
    let mut samples: Vec<u32> = Vec::new();
    let mut i: usize = 0;
    while i < n
        invariant
            i <= n,
            n == h.data_len / 4,
            start == h.data_offset,
            h.data_offset + h.data_len <= file_len == file@.len(),
            samples@ == samples_at(file@, start as int, i as int),
        decreases n - i,
    {
        samples.push(read_le32(file.as_slice(), start + 4 * i));
        i += 1;
    }
    Ok(Pcm { samples, spec: h.spec })
}

/// Header-only metadata: frames, sample rate and channel count.
#[derive(Clone, Copy, Debug)]
pub struct WavInfo {
    pub frames: u64,
    pub sample_rate: u32,
    pub channels: u16,
}

/// The metadata that a header stands for.
pub open spec fn info_of(h: WavHeader) -> WavInfo {
    WavInfo {
        frames: (h.data_len as int / h.frame_size()) as u64,
        sample_rate: h.spec.sample_rate,
        channels: h.spec.channels,
    }
}

/// Metadata of a parsed header.
pub fn header_info(h: &WavHeader) -> (r: WavInfo)
    requires
        h.frame_size() > 0,
    ensures
        r == info_of(*h),
{
    let frame: u64 = h.frame_bytes();
    WavInfo {
        frames: h.data_len / frame,
        sample_rate: h.spec.sample_rate,
        channels: h.spec.channels,
    }
}

/// Reads just the header of a file.
pub fn probe_frames(file: &Vec<u8>) -> (r: Result<WavInfo, WavError>)
    ensures
        match header_of(file@) {
            Err(e) => r == Err::<WavInfo, _>(e),
            Ok(h) => r == Ok::<_, WavError>(info_of(h)),
        },
{
    let file_len: usize = file.len();
    match parse_wav_header(file) {
        Err(e) => Err(e),
        Ok(h) => {
            proof {
                assert(file_len == file@.len());
                lemma_header_in_file(file@);
            }
            Ok(header_info(&h))
        },
    }
}

/// The scan never records a data chunk that starts past the end of the file.
proof fn lemma_scan_data_in_file(file: Seq<u8>, pos: int, scan: ChunkScan)
    requires
        0 <= pos <= file.len() <= u64::MAX,
        scan.data is Some ==> (scan.data->0).0 <= file.len(),
    ensures
        scan_from(file, pos, scan) matches Ok(s) ==> (s.data is Some ==> (s.data->0).0
            <= file.len()),
    decreases file.len() - pos,
{
    if pos + 8 <= file.len() {
        let w = chunk_window(file, pos);
        if let Ok(next_scan) = chunk_step(scan, pos, w) {
            if let Some(next) = next_chunk(pos, bytes::le32(w, 4), file.len() as int) {
                if next > pos {
                    lemma_scan_data_in_file(file, next, next_scan);
                }
            }
        }
    }
}

/// A header that parses has whole, non-empty frames, and its data lies inside
/// the file.
pub proof fn lemma_header_in_file(file: Seq<u8>)
    requires
        file.len() <= u64::MAX,
    ensures
        header_of(file) matches Ok(h) ==> {
            &&& h.frame_size() > 0
            &&& h.data_len as int % h.frame_size() == 0
            &&& h.data_offset + h.data_len <= file.len()
        },
{
    if header_of(file) is Ok {
        lemma_scan_data_in_file(file, 12, empty_scan());
        let scan = scan_from(file, 12, empty_scan())->Ok_0;
        let h = header_of(file)->Ok_0;
        let frame = frame_size(scan.channels->0 as int, scan.bits as int);
        assert(frame > 0) by (nonlinear_arith)
            requires
                frame == scan.channels->0 * (scan.bits as int / 8),
                scan.channels->0 > 0,
                scan.bits as int / 8 > 0,
        ;
        let avail = file.len() - (scan.data->0).0;
        let raw = data_extent(scan.ds64_data_size, (scan.data->0).1 as int, avail);
        lemma_floor_to_multiple(raw, frame);
    }
}

/// Dropping the remainder leaves a multiple.
proof fn lemma_floor_to_multiple(x: int, m: int)
    requires
        0 <= x,
        0 < m,
    ensures
        0 <= x - x % m <= x,
        (x - x % m) % m == 0,
        x - x % m == m * (x / m),
{
    vstd::arithmetic::div_mod::lemma_fundamental_div_mod(x, m);
    vstd::arithmetic::div_mod::lemma_mod_bound(x, m);
    vstd::arithmetic::div_mod::lemma_div_pos_is_pos(x, m);
    assert(m * (x / m) >= 0) by (nonlinear_arith)
        requires
            m > 0,
            x / m >= 0,
    ;
    vstd::arithmetic::div_mod::lemma_mod_multiples_basic(x / m, m);
    assert(m * (x / m) == (x / m) * m) by (nonlinear_arith);
}

/// Four ASCII characters as bytes.
pub open spec fn tag_bytes(tag: Seq<char>) -> Seq<u8> {
    Seq::new(4, |i: int| tag[i] as u8)
}

/// A chunk: id, size and body.
#[verifier::opaque]
pub open spec fn chunk_bytes(tag: Seq<char>, body: Seq<u8>) -> Seq<u8> {
    tag_bytes(tag) + bytes::le32_bytes(body.len() as int) + body
}

/// The `fmt ` body for interleaved 32-bit floats: tag, channels, rate, bytes
/// per second, bytes per frame, bits per sample.
#[verifier::opaque]
pub open spec fn fmt_body(spec: WavSpec) -> Seq<u8> {
    bytes::le16_bytes(3) + bytes::le16_bytes(spec.channels as int) + bytes::le32_bytes(
        spec.sample_rate as int,
    ) + bytes::le32_bytes(spec.sample_rate * (spec.channels * 4)) + bytes::le16_bytes(
        spec.channels * 4,
    ) + bytes::le16_bytes(32)
}

/// Samples per channel.
pub open spec fn frame_count(n_samples: int, channels: int) -> int {
    if channels == 0 {
        0
    } else {
        n_samples / channels
    }
}

/// The `ds64` body: 64-bit RIFF size, data size and frame count, empty table.
#[verifier::opaque]
pub open spec fn ds64_body(n_samples: int, channels: int) -> Seq<u8> {
    bytes::le64_bytes(72 + 4 * n_samples) + bytes::le64_bytes(4 * n_samples) + bytes::le64_bytes(
        frame_count(n_samples, channels),
    ) + bytes::le32_bytes(0)
}

/// Everything before the samples: RF64 with its sizes in `ds64` and
/// placeholders in the 32-bit fields, or canonical RIFF.
#[verifier::opaque]
pub open spec fn header_bytes(n_samples: int, spec: WavSpec, use_rf64: bool) -> Seq<u8> {
    if use_rf64 {
        tag_bytes(tag_rf64()) + bytes::le32_bytes(SIZE_PLACEHOLDER as int) + tag_bytes(tag_wave())
            + chunk_bytes(tag_ds64(), ds64_body(n_samples, spec.channels as int)) + chunk_bytes(
            tag_fmt(),
            fmt_body(spec),
        ) + tag_bytes(tag_data()) + bytes::le32_bytes(SIZE_PLACEHOLDER as int)
    } else {
        tag_bytes(tag_riff()) + bytes::le32_bytes(48 + 4 * n_samples) + tag_bytes(tag_wave())
            + chunk_bytes(tag_fmt(), fmt_body(spec)) + chunk_bytes(
            tag_fact(),
            bytes::le32_bytes(frame_count(n_samples, spec.channels as int)),
        ) + tag_bytes(tag_data()) + bytes::le32_bytes(4 * n_samples)
    }
}

/// The samples as little-endian bytes.
pub open spec fn payload_bytes(samples: Seq<u32>) -> Seq<u8> {
    Seq::new(4 * samples.len(), |i: int| bytes::le32_bytes(samples[i / 4] as int)[i % 4])
}

/// A whole file.
pub open spec fn file_bytes(samples: Seq<u32>, spec: WavSpec, use_rf64: bool) -> Seq<u8> {
    header_bytes(samples.len() as int, spec, use_rf64) + payload_bytes(samples)
}

/// Whether `n_samples` samples overflow the 32-bit size fields, so that only
/// RF64 can hold them.
pub open spec fn needs_rf64(n_samples: int) -> bool {
    4 * n_samples + 128 > u32::MAX
}

/// Chooses RF64 once the 32-bit size fields can no longer hold the totals.
pub fn uses_rf64(n_samples: u64) -> (r: bool)
    requires
        n_samples <= i64::MAX / 4,
    ensures
        r == needs_rf64(n_samples as int),
{
    n_samples * 4 + 128 > u32::MAX as u64
}

fn push_tag(out: &mut Vec<u8>, a: u8, b: u8, c: u8, d: u8)
    ensures
        final(out)@ == old(out)@ + seq![a, b, c, d],
{
    out.push(a);
    out.push(b);
    out.push(c);
    out.push(d);
}

proof fn lemma_tag_bytes(tag: Seq<char>)
    requires
        tag.len() == 4,
    ensures
        tag_bytes(tag) == seq![tag[0] as u8, tag[1] as u8, tag[2] as u8, tag[3] as u8],
{
    assert(tag_bytes(tag) =~= seq![tag[0] as u8, tag[1] as u8, tag[2] as u8, tag[3] as u8]);
}

fn push_fmt_chunk(out: &mut Vec<u8>, spec: &WavSpec)
    ensures
        final(out)@ == old(out)@ + chunk_bytes(tag_fmt(), fmt_body(*spec)),
{
    let ghost start = out@;
    let align: u64 = spec.channels as u64 * 4;
    assert(0 <= spec.sample_rate * align <= 0xffff_ffff * 0x4_0000) by (nonlinear_arith)
        requires
            0 <= spec.sample_rate <= 0xffff_ffff,
            0 <= align <= 0x4_0000,
    ;
    push_tag(out, 0x66, 0x6d, 0x74, 0x20);
    push_le32(out, 16);
    push_le16(out, 3);
    push_le16(out, spec.channels as u64);
    push_le32(out, spec.sample_rate as u64);
    push_le32(out, spec.sample_rate as u64 * align);
    push_le16(out, align);
    push_le16(out, 32);
    proof {
        reveal(chunk_bytes);
        reveal(fmt_body);
        bytes::lemma_le_lens();
        lemma_tag_bytes(tag_fmt());
        assert(fmt_body(*spec).len() == 16);
        assert(out@ =~= start + chunk_bytes(tag_fmt(), fmt_body(*spec)));
    }
}

/// The header for `n_samples` interleaved samples.
pub fn wav_header(n_samples: u64, spec: &WavSpec, use_rf64: bool) -> (out: Vec<u8>)
    requires
        n_samples <= i64::MAX / 4,
    ensures
        out@ == header_bytes(n_samples as int, *spec, use_rf64),
{
    let frames: u64 = if spec.channels == 0 {
        0
    } else {
        n_samples / (spec.channels as u64)
    };
    let data_bytes: u64 = n_samples * 4;
    let mut out: Vec<u8> = Vec::new();
    proof {
        reveal(chunk_bytes);
        reveal(ds64_body);
        reveal(header_bytes);
        bytes::lemma_le_lens();
        lemma_tag_bytes(tag_riff());
        lemma_tag_bytes(tag_rf64());
        lemma_tag_bytes(tag_wave());
        lemma_tag_bytes(tag_ds64());
        lemma_tag_bytes(tag_fact());
        lemma_tag_bytes(tag_data());
    }
    if use_rf64 {
        push_tag(&mut out, 0x52, 0x46, 0x36, 0x34);
        push_le32(&mut out, SIZE_PLACEHOLDER);
        push_tag(&mut out, 0x57, 0x41, 0x56, 0x45);
        let ghost before = out@;
        push_tag(&mut out, 0x64, 0x73, 0x36, 0x34);
        push_le32(&mut out, 28);
        push_le64(&mut out, 72 + data_bytes);
        push_le64(&mut out, data_bytes);
        push_le64(&mut out, frames);
        push_le32(&mut out, 0);
        proof {
            let body = ds64_body(n_samples as int, spec.channels as int);
            assert(body.len() == 28);
            assert(out@ =~= before + chunk_bytes(tag_ds64(), body));
        }
        push_fmt_chunk(&mut out, spec);
        push_tag(&mut out, 0x64, 0x61, 0x74, 0x61);
        push_le32(&mut out, SIZE_PLACEHOLDER);
    } else {
        push_tag(&mut out, 0x52, 0x49, 0x46, 0x46);
        push_le32(&mut out, 48 + data_bytes);
        push_tag(&mut out, 0x57, 0x41, 0x56, 0x45);
        push_fmt_chunk(&mut out, spec);
        let ghost before = out@;
        push_tag(&mut out, 0x66, 0x61, 0x63, 0x74);
        push_le32(&mut out, 4);
        push_le32(&mut out, frames);
        proof {
            let body = bytes::le32_bytes(frames as int);
            assert(body.len() == 4);
            assert(out@ =~= before + chunk_bytes(tag_fact(), body));
        }
        push_tag(&mut out, 0x64, 0x61, 0x74, 0x61);
        push_le32(&mut out, data_bytes);
    }
    out
}

/// Encodes samples as little-endian bytes.
pub fn encode_samples(samples: &Vec<u32>) -> (out: Vec<u8>)
    ensures
        out@ == payload_bytes(samples@),
{
    let mut out: Vec<u8> = Vec::new();
    let mut i: usize = 0;
    while i < samples.len()
        invariant
            i <= samples@.len(),
            out@ == payload_bytes(samples@.take(i as int)),
        decreases samples@.len() - i,
    {
        let ghost before = out@;
        push_le32(&mut out, samples[i] as u64);
        i += 1;
        proof {
            bytes::lemma_le_lens();
            lemma_payload_push(samples@, i as int);
        }
    }
    proof {
        assert(samples@.take(i as int) =~= samples@);
    }
    out
}

proof fn lemma_payload_push(samples: Seq<u32>, i: int)
    requires
        0 < i <= samples.len(),
    ensures
        payload_bytes(samples.take(i)) == payload_bytes(samples.take(i - 1)) + bytes::le32_bytes(
            samples[i - 1] as int,
        ),
{
    bytes::lemma_le_lens();
    let a = payload_bytes(samples.take(i));
    let b = payload_bytes(samples.take(i - 1)) + bytes::le32_bytes(samples[i - 1] as int);
    assert(a.len() == b.len());
    assert forall|k: int| 0 <= k < a.len() implies a[k] == b[k] by {
        if k >= 4 * (i - 1) {
            assert(k / 4 == i - 1);
            assert(k % 4 == k - 4 * (i - 1));
        } else {
            assert(k / 4 < i - 1);
        }
    }
    assert(a =~= b);
}

/// Writes an interleaved float WAV with an explicit choice of container.
pub fn write_f32_with_format(samples: &Vec<u32>, spec: &WavSpec, use_rf64: bool) -> (out: Vec<u8>)
    requires
        samples@.len() <= i64::MAX / 4,
    ensures
        out@ == file_bytes(samples@, *spec, use_rf64),
{
    let mut out = wav_header(samples.len() as u64, spec, use_rf64);
    let mut payload = encode_samples(samples);
    out.append(&mut payload);
    out
}

/// Writes an interleaved float WAV: canonical RIFF while its 32-bit size
/// fields hold the totals, RF64 beyond.
pub fn write_interleaved_f32(samples: &Vec<u32>, spec: &WavSpec) -> (out: Vec<u8>)
    requires
        samples@.len() <= i64::MAX / 4,
    ensures
        out@ == file_bytes(samples@, *spec, needs_rf64(samples@.len() as int)),
{
    let use_rf64 = uses_rf64(samples.len() as u64);
    write_f32_with_format(samples, spec, use_rf64)
}

/// How the samples of a file become floats in [-1, 1].
#[derive(Clone, Copy, Debug, PartialEq, Eq, Structural)]
pub enum MonoDecoding {
    /// They are floats already.
    Float,
    /// Integers of this many bits, to be scaled.
    Int { bits: u16 },
}

/// How reading a file for correlation decodes it: 32-bit
/// floats and integers of any width are taken, other floats are not.
pub fn mono_decoding(spec: &WavSpec) -> (r: Result<MonoDecoding, WavError>)
    ensures
        r == match spec.sample_format {
            SampleFormat::Int => Ok::<_, WavError>(
                MonoDecoding::Int { bits: spec.bits_per_sample },
            ),
            SampleFormat::Float => if spec.bits_per_sample == 32 {
                Ok(MonoDecoding::Float)
            } else {
                Err(WavError::Unsupported)
            },
        },
{
    match spec.sample_format {
        SampleFormat::Int => Ok(MonoDecoding::Int { bits: spec.bits_per_sample }),
        SampleFormat::Float => if spec.bits_per_sample == 32 {
            Ok(MonoDecoding::Float)
        } else {
            Err(WavError::Unsupported)
        },
    }
}

/// The first channel of interleaved samples. The other channels are dropped
/// rather than averaged in: averaging would cancel out-of-phase content.
pub fn first_channel(samples: &Vec<u32>, channels: usize) -> (mono: Vec<u32>)
    requires
        channels > 0,
    ensures
        mono@.len() == samples@.len() as int / channels as int,
        forall|f: int| 0 <= f < mono@.len() ==> #[trigger] mono@[f] == samples@[f * channels],
{
    let frames: usize = samples.len() / channels;
    let mut mono: Vec<u32> = Vec::new();
    let mut f: usize = 0;
    while f < frames
        invariant
            channels > 0,
            f <= frames,
            frames == samples@.len() as int / channels as int,
            mono@.len() == f,
            forall|g: int| 0 <= g < f ==> #[trigger] mono@[g] == samples@[g * channels],
        decreases frames - f,
    {
        proof {
            vstd::arithmetic::div_mod::lemma_fundamental_div_mod(
                samples@.len() as int,
                channels as int,
            );
            vstd::arithmetic::div_mod::lemma_mod_bound(samples@.len() as int, channels as int);
            assert(samples.len() == samples@.len());
            assert(0 <= f * channels < samples@.len()) by (nonlinear_arith)
                requires
                    0 <= f,
                    f + 1 <= frames,
                    channels > 0,
                    channels * frames <= samples@.len(),
            ;
        }
        mono.push(samples[f * channels]);
        f += 1;
    }
    mono
}

/// The layout that the writer declares: 32-bit floats.
pub open spec fn written_spec(spec: WavSpec) -> WavSpec {
    WavSpec { bits_per_sample: 32, sample_format: SampleFormat::Float, ..spec }
}

/// Length of the header that the writer puts before the samples.
pub open spec fn header_len(use_rf64: bool) -> int {
    if use_rf64 {
        80
    } else {
        56
    }
}

/// `file` reads back as the first `frames` frames of `samples`.
pub open spec fn reads_as(file: Seq<u8>, samples: Seq<u32>, spec: WavSpec, frames: int) -> bool {
    &&& header_of(file) matches Ok(h)
    &&& h.spec == written_spec(spec)
    &&& h.data_len == 4 * (frames * spec.channels)
    &&& info_of(h).frames == frames
    &&& samples_at(file, h.data_offset as int, h.data_len as int / 4) == samples.take(
        frames * spec.channels,
    )
}

/// `file` is a written header, its data size possibly replaced by the
/// placeholder, followed by the first `kept` bytes of the samples.
pub open spec fn is_written_file(
    file: Seq<u8>,
    samples: Seq<u32>,
    spec: WavSpec,
    use_rf64: bool,
    kept: int,
) -> bool {
    let h = header_len(use_rf64);
    let head = header_bytes(samples.len() as int, spec, use_rf64);
    &&& file.len() == h + kept
    &&& file.take(h - 4) == head.take(h - 4)
    &&& file.subrange(h - 4, h) == head.subrange(h - 4, h) || file.subrange(h - 4, h)
        == bytes::le32_bytes(SIZE_PLACEHOLDER as int)
    &&& file.skip(h) == payload_bytes(samples).take(kept)
}

proof fn lemma_fmt_body(spec: WavSpec)
    ensures
        fmt_body(spec).len() == 16,
        fmt_body(spec).subrange(0, 2) == bytes::le16_bytes(3),
        fmt_body(spec).subrange(2, 4) == bytes::le16_bytes(spec.channels as int),
        fmt_body(spec).subrange(4, 8) == bytes::le32_bytes(spec.sample_rate as int),
        fmt_body(spec).subrange(14, 16) == bytes::le16_bytes(32),
{
    reveal(fmt_body);
    bytes::lemma_le_lens();
    let body = fmt_body(spec);
    assert(body.subrange(0, 2) =~= bytes::le16_bytes(3));
    assert(body.subrange(2, 4) =~= bytes::le16_bytes(spec.channels as int));
    assert(body.subrange(4, 8) =~= bytes::le32_bytes(spec.sample_rate as int));
    assert(body.subrange(14, 16) =~= bytes::le16_bytes(32));
}

proof fn lemma_ds64_body(n_samples: int, channels: int)
    ensures
        ds64_body(n_samples, channels).len() == 28,
        ds64_body(n_samples, channels).subrange(8, 16) == bytes::le64_bytes(4 * n_samples),
{
    reveal(ds64_body);
    bytes::lemma_le_lens();
    assert(ds64_body(n_samples, channels).subrange(8, 16) =~= bytes::le64_bytes(4 * n_samples));
}

/// Where each piece of a written header lies.
proof fn lemma_header_layout(n: int, spec: WavSpec, use_rf64: bool)
    ensures
        ({
            let head = header_bytes(n, spec, use_rf64);
            let ch = spec.channels as int;
            &&& head.len() == header_len(use_rf64)
            &&& head.subrange(8, 12) == tag_bytes(tag_wave())
            &&& if use_rf64 {
                &&& head.subrange(0, 4) == tag_bytes(tag_rf64())
                &&& head.subrange(12, 48) == chunk_bytes(tag_ds64(), ds64_body(n, ch))
                &&& head.subrange(48, 72) == chunk_bytes(tag_fmt(), fmt_body(spec))
                &&& head.subrange(72, 76) == tag_bytes(tag_data())
                &&& head.subrange(76, 80) == bytes::le32_bytes(SIZE_PLACEHOLDER as int)
            } else {
                &&& head.subrange(0, 4) == tag_bytes(tag_riff())
                &&& head.subrange(12, 36) == chunk_bytes(tag_fmt(), fmt_body(spec))
                &&& head.subrange(36, 48) == chunk_bytes(
                    tag_fact(),
                    bytes::le32_bytes(frame_count(n, ch)),
                )
                &&& head.subrange(48, 52) == tag_bytes(tag_data())
                &&& head.subrange(52, 56) == bytes::le32_bytes(4 * n)
            }
        }),
{
    reveal(header_bytes);
    bytes::lemma_le_lens();
    lemma_fmt_body(spec);
    let ch = spec.channels as int;
    lemma_ds64_body(n, ch);
    let head = header_bytes(n, spec, use_rf64);
    let fmt = chunk_bytes(tag_fmt(), fmt_body(spec));
    let ds64 = chunk_bytes(tag_ds64(), ds64_body(n, ch));
    let fact = chunk_bytes(tag_fact(), bytes::le32_bytes(frame_count(n, ch)));
    assert(fmt.len() == 24 && ds64.len() == 36 && fact.len() == 12) by {
        reveal(chunk_bytes);
    }
    assert(head.subrange(8, 12) =~= tag_bytes(tag_wave()));
    if use_rf64 {
        assert(head.subrange(0, 4) =~= tag_bytes(tag_rf64()));
        assert(head.subrange(12, 48) =~= ds64);
        assert(head.subrange(48, 72) =~= fmt);
        assert(head.subrange(72, 76) =~= tag_bytes(tag_data()));
        assert(head.subrange(76, 80) =~= bytes::le32_bytes(SIZE_PLACEHOLDER as int));
    } else {
        assert(head.subrange(0, 4) =~= tag_bytes(tag_riff()));
        assert(head.subrange(12, 36) =~= fmt);
        assert(head.subrange(36, 48) =~= fact);
        assert(head.subrange(48, 52) =~= tag_bytes(tag_data()));
        assert(head.subrange(52, 56) =~= bytes::le32_bytes(4 * n));
    }
}

/// A range of the file before its last header field holds what the header does.
proof fn lemma_head_range(file: Seq<u8>, head: Seq<u8>, hl: int, a: int, b: int)
    requires
        0 <= a <= b <= hl - 4,
        hl <= file.len(),
        head.len() == hl,
        file.take(hl - 4) == head.take(hl - 4),
    ensures
        file.subrange(a, b) == head.subrange(a, b),
{
    assert(file.subrange(a, b) =~= file.take(hl - 4).subrange(a, b));
    assert(head.subrange(a, b) =~= head.take(hl - 4).subrange(a, b));
}

/// The body of a `fmt ` chunk at `pos` that the writer made.
proof fn lemma_written_fmt(file: Seq<u8>, pos: int, spec: WavSpec, scan: ChunkScan)
    requires
        0 <= pos,
        pos + 24 <= file.len(),
        file.subrange(pos, pos + 24) == chunk_bytes(tag_fmt(), fmt_body(spec)),
    ensures
        chunk_step(scan, pos, chunk_window(file, pos)) == Ok::<_, WavError>(
            (ChunkScan {
                channels: Some(spec.channels),
                sample_rate: spec.sample_rate,
                bits: 32,
                is_float: true,
                ..scan
            }),
        ),
        bytes::le32(chunk_window(file, pos), 4) == 16,
{
    reveal(chunk_bytes);
    bytes::lemma_le_lens();
    let w = chunk_window(file, pos);
    let c = chunk_bytes(tag_fmt(), fmt_body(spec));
    let body = fmt_body(spec);
    lemma_fmt_body(spec);
    assert(c.len() == 24);
    assert(w.subrange(0, 24) =~= c);
    lemma_tag(w, 0, tag_fmt());
    assert(w.subrange(0, 4) =~= c.subrange(0, 4));
    assert(c.subrange(0, 4) =~= tag_bytes(tag_fmt()));
    assert(w[0] == c[0] && w[1] == c[1] && w[2] == c[2] && w[3] == c[3]);
    assert(w.subrange(4, 8) =~= c.subrange(4, 8));
    assert(c.subrange(4, 8) =~= bytes::le32_bytes(16));
    bytes::lemma_le32_round_trip(w, 4, 16);
    assert(w.subrange(8, 24) =~= c.subrange(8, 24));
    assert(c.subrange(8, 24) =~= body);
    assert(w.subrange(8, 10) =~= body.subrange(0, 2));
    bytes::lemma_le16_round_trip(w, 8, 3);
    assert(w.subrange(10, 12) =~= body.subrange(2, 4));
    bytes::lemma_le16_round_trip(w, 10, spec.channels as int);
    assert(w.subrange(12, 16) =~= body.subrange(4, 8));
    bytes::lemma_le32_round_trip(w, 12, spec.sample_rate as int);
    assert(w.subrange(22, 24) =~= body.subrange(14, 16));
    bytes::lemma_le16_round_trip(w, 22, 32);
}

proof fn lemma_written_ds64(
    file: Seq<u8>,
    pos: int,
    n_samples: int,
    channels: int,
    scan: ChunkScan,
)
    requires
        0 <= pos,
        pos + 36 <= file.len(),
        0 <= n_samples <= i64::MAX / 4,
        file.subrange(pos, pos + 36) == chunk_bytes(tag_ds64(), ds64_body(n_samples, channels)),
    ensures
        chunk_step(scan, pos, chunk_window(file, pos)) == Ok::<_, WavError>(
            (ChunkScan { ds64_data_size: Some((4 * n_samples) as u64), ..scan }),
        ),
        bytes::le32(chunk_window(file, pos), 4) == 28,
{
    reveal(chunk_bytes);
    bytes::lemma_le_lens();
    let w = chunk_window(file, pos);
    let body = ds64_body(n_samples, channels);
    let c = chunk_bytes(tag_ds64(), body);
    lemma_ds64_body(n_samples, channels);
    assert(c.subrange(8, 36) =~= body);
    assert(w.subrange(0, 36) =~= c);
    lemma_tag(w, 0, tag_fmt());
    lemma_tag(w, 0, tag_ds64());
    assert(w[0] == c[0] && w[1] == c[1] && w[2] == c[2] && w[3] == c[3]);
    assert(w.subrange(4, 8) =~= c.subrange(4, 8));
    assert(c.subrange(4, 8) =~= bytes::le32_bytes(28));
    bytes::lemma_le32_round_trip(w, 4, 28);
    assert(w.subrange(16, 24) =~= c.subrange(8, 36).subrange(8, 16));
    bytes::lemma_le64_round_trip(w, 16, 4 * n_samples);
}

proof fn lemma_written_fact(file: Seq<u8>, pos: int, frames: int, scan: ChunkScan)
    requires
        0 <= pos,
        pos + 12 <= file.len(),
        file.subrange(pos, pos + 12) == chunk_bytes(tag_fact(), bytes::le32_bytes(frames)),
    ensures
        chunk_step(scan, pos, chunk_window(file, pos)) == Ok::<_, WavError>(scan),
        bytes::le32(chunk_window(file, pos), 4) == 4,
{
    reveal(chunk_bytes);
    bytes::lemma_le_lens();
    let w = chunk_window(file, pos);
    let body = bytes::le32_bytes(frames);
    let c = chunk_bytes(tag_fact(), body);
    assert(w.subrange(0, 12) =~= c);
    lemma_tag(w, 0, tag_fmt());
    lemma_tag(w, 0, tag_ds64());
    lemma_tag(w, 0, tag_data());
    assert(w[0] == c[0] && w[1] == c[1] && w[2] == c[2] && w[3] == c[3]);
    assert(w.subrange(4, 8) =~= c.subrange(4, 8));
    assert(c.subrange(4, 8) =~= bytes::le32_bytes(4));
    bytes::lemma_le32_round_trip(w, 4, 4);
}

/// The data chunk ends the scan: its size is the placeholder, or reaches to
/// the end of the file or past it.
proof fn lemma_written_data(file: Seq<u8>, pos: int, declared: int, scan: ChunkScan)
    requires
        0 <= pos,
        pos + 8 <= file.len() <= u64::MAX,
        file.subrange(pos, pos + 4) == tag_bytes(tag_data()),
        file.subrange(pos + 4, pos + 8) == bytes::le32_bytes(declared),
        0 <= declared <= u32::MAX,
        declared == SIZE_PLACEHOLDER || pos + 8 + declared >= file.len(),
    ensures
        scan_from(file, pos, scan) == Ok::<_, WavError>(
            (ChunkScan { data: Some(((pos + 8) as u64, declared as u64)), ..scan }),
        ),
{
    let w = chunk_window(file, pos);
    lemma_tag(w, 0, tag_fmt());
    lemma_tag(w, 0, tag_ds64());
    lemma_tag(w, 0, tag_data());
    let t = file.subrange(pos, pos + 4);
    assert(w[0] == t[0] && w[1] == t[1] && w[2] == t[2] && w[3] == t[3]);
    assert(w.subrange(4, 8) =~= file.subrange(pos + 4, pos + 8));
    bytes::lemma_le32_round_trip(w, 4, declared);
    let next_scan = chunk_step(scan, pos, w)->Ok_0;
    if let Some(next) = next_chunk(pos, declared, file.len() as int) {
        assert(next == file.len());
        assert(scan_from(file, next, next_scan) == Ok::<_, WavError>(next_scan));
    }
}

proof fn lemma_written_scan(
    file: Seq<u8>,
    samples: Seq<u32>,
    spec: WavSpec,
    use_rf64: bool,
    kept: int,
) -> (declared: int)
    requires
        samples.len() <= i64::MAX / 4,
        use_rf64 || !needs_rf64(samples.len() as int),
        0 <= kept <= 4 * samples.len(),
        is_written_file(file, samples, spec, use_rf64, kept),
    ensures
        preamble_error(file) is None,
        declared == SIZE_PLACEHOLDER || (!use_rf64 && declared == 4 * samples.len()),
        scan_from(file, 12, empty_scan()) == Ok::<_, WavError>(
            (ChunkScan {
                channels: Some(spec.channels),
                sample_rate: spec.sample_rate,
                bits: 32,
                is_float: true,
                ds64_data_size: if use_rf64 {
                    Some((4 * samples.len()) as u64)
                } else {
                    None
                },
                data: Some((header_len(use_rf64) as u64, declared as u64)),
            }),
        ),
{
    let n = samples.len() as int;
    let hl = header_len(use_rf64);
    let head = header_bytes(n, spec, use_rf64);
    lemma_header_layout(n, spec, use_rf64);
    lemma_head_range(file, head, hl, 0, 4);
    lemma_head_range(file, head, hl, 8, 12);
    lemma_tag(file, 0, tag_riff());
    lemma_tag(file, 0, tag_rf64());
    lemma_tag(file, 0, tag_bw64());
    lemma_tag(file, 8, tag_wave());
    let magic = file.subrange(0, 4);
    let form = file.subrange(8, 12);
    assert(file[0] == magic[0] && file[1] == magic[1] && file[2] == magic[2] && file[3]
        == magic[3]);
    assert(file[8] == form[0] && file[9] == form[1] && file[10] == form[2] && file[11]
        == form[3]);
    assert(preamble_error(file) is None);
    let scan0 = empty_scan();
    let fields = ChunkScan {
        channels: Some(spec.channels),
        sample_rate: spec.sample_rate,
        bits: 32,
        is_float: true,
        ..scan0
    };
    if use_rf64 {
        lemma_head_range(file, head, hl, 12, 48);
        lemma_head_range(file, head, hl, 48, 72);
        lemma_head_range(file, head, hl, 72, 76);
        lemma_written_ds64(file, 12, n, spec.channels as int, scan0);
        let scan1 = ChunkScan { ds64_data_size: Some((4 * n) as u64), ..scan0 };
        assert(scan_from(file, 12, scan0) == scan_from(file, 48, scan1));
        lemma_written_fmt(file, 48, spec, scan1);
        let scan2 = ChunkScan { ds64_data_size: Some((4 * n) as u64), ..fields };
        assert(scan_from(file, 48, scan1) == scan_from(file, 72, scan2));
        lemma_written_data(file, 72, SIZE_PLACEHOLDER as int, scan2);
        SIZE_PLACEHOLDER as int
    } else {
        lemma_head_range(file, head, hl, 12, 36);
        lemma_head_range(file, head, hl, 36, 48);
        lemma_head_range(file, head, hl, 48, 52);
        lemma_written_fmt(file, 12, spec, scan0);
        assert(scan_from(file, 12, scan0) == scan_from(file, 36, fields));
        lemma_written_fact(file, 36, frame_count(n, spec.channels as int), fields);
        assert(scan_from(file, 36, fields) == scan_from(file, 48, fields));
        let declared = if file.subrange(52, 56) == bytes::le32_bytes(4 * n) {
            4 * n
        } else {
            SIZE_PLACEHOLDER as int
        };
        lemma_written_data(file, 48, declared, fields);
        declared
    }
}

/// Reading what the writer wrote gives back the samples, whichever container
/// was chosen; when the file was cut short inside the samples, or its data
/// size was overwritten with the 32-bit placeholder, it gives back every frame
/// that is whole on disk.
pub proof fn law_reads_every_whole_frame(
    file: Seq<u8>,
    samples: Seq<u32>,
    spec: WavSpec,
    use_rf64: bool,
    kept: int,
)
    requires
        spec.channels > 0,
        samples.len() <= i64::MAX / 4,
        use_rf64 || !needs_rf64(samples.len() as int),
        0 <= kept <= 4 * samples.len(),
        is_written_file(file, samples, spec, use_rf64, kept),
    ensures
        reads_as(file, samples, spec, kept / (4 * spec.channels)),
{
    let declared = lemma_written_scan(file, samples, spec, use_rf64, kept);
    let h = header_of(file)->Ok_0;
    let ch = spec.channels as int;
    let frame = frame_size(ch, 32);
    let frames = kept / frame;
    assert(frame == 4 * ch);
    lemma_floor_to_multiple(kept, frame);
    assert(h.data_len == frame * frames);
    assert(frame * frames == 4 * (frames * ch)) by (nonlinear_arith)
        requires
            frame == 4 * ch,
    ;
    assert(info_of(h).frames == frames) by {
        assert(h.data_len as int / h.frame_size() == frames) by {
            vstd::arithmetic::div_mod::lemma_div_multiples_vanish(frames, frame);
            assert(frame * frames == frames * frame) by (nonlinear_arith);
        }
        vstd::arithmetic::div_mod::lemma_div_is_ordered_by_denominator(kept, 1, frame);
    }
    let m = frames * ch;
    let read = samples_at(file, h.data_offset as int, h.data_len as int / 4);
    assert(read.len() == m);
    assert forall|i: int| 0 <= i < m implies read[i] == samples[i] by {
        let hl = header_len(use_rf64);
        let p = payload_bytes(samples);
        assert forall|j: int| 0 <= j < 4 implies file[hl + 4 * i + j] == #[trigger] bytes::le32_bytes(
            samples[i] as int,
        )[j] by {
            assert(file.skip(hl)[4 * i + j] == p.take(kept)[4 * i + j]);
            assert((4 * i + j) / 4 == i);
            assert((4 * i + j) % 4 == j);
        }
        bytes::lemma_le_lens();
        assert(file.subrange(hl + 4 * i, hl + 4 * i + 4) =~= bytes::le32_bytes(samples[i] as int));
        bytes::lemma_le32_round_trip(file, hl + 4 * i, samples[i] as int);
    }
    assert(read =~= samples.take(m));
}

/// Reading back a written file gives back its samples, down to the last whole
/// frame, with its channel count and sample rate.
pub proof fn law_write_read_round_trip(samples: Seq<u32>, spec: WavSpec, use_rf64: bool)
    requires
        spec.channels > 0,
        samples.len() <= i64::MAX / 4,
        use_rf64 || !needs_rf64(samples.len() as int),
    ensures
        reads_as(
            file_bytes(samples, spec, use_rf64),
            samples,
            spec,
            samples.len() as int / spec.channels as int,
        ),
{
    let n = samples.len() as int;
    let ch = spec.channels as int;
    let file = file_bytes(samples, spec, use_rf64);
    let head = header_bytes(n, spec, use_rf64);
    lemma_header_layout(n, spec, use_rf64);
    let hl = header_len(use_rf64);
    assert(file.take(hl - 4) =~= head.take(hl - 4));
    assert(file.subrange(hl - 4, hl) =~= head.subrange(hl - 4, hl));
    assert(file.skip(hl) =~= payload_bytes(samples).take(4 * n));
    law_reads_every_whole_frame(file, samples, spec, use_rf64, 4 * n);
    assert((4 * n) / (4 * ch) == n / ch) by {
        vstd::arithmetic::div_mod::lemma_truncate_middle(n, 1, 4);
        vstd::arithmetic::div_mod::lemma_div_denominator(4 * n, 4, ch);
        assert((4 * n) / 4 == n);
    }
}

/// What the `fmt ` chunk at `at` says.
pub open spec fn tells_format(file: Seq<u8>, at: int, spec: WavSpec) -> bool {
    &&& bytes::le32(file, at + 4) == 16
    &&& bytes::le16(file, at + 8) == 3
    &&& bytes::le16(file, at + 10) == spec.channels
    &&& bytes::le32(file, at + 12) == spec.sample_rate
    &&& bytes::le32(file, at + 16) == (4 * spec.channels * spec.sample_rate) % 0x1_0000_0000
    &&& bytes::le16(file, at + 20) == (4 * spec.channels) % 0x1_0000
    &&& bytes::le16(file, at + 22) == 32
}

proof fn lemma_tells_format(file: Seq<u8>, at: int, spec: WavSpec)
    requires
        0 <= at,
        at + 24 <= file.len(),
        file.subrange(at, at + 24) == chunk_bytes(tag_fmt(), fmt_body(spec)),
    ensures
        tells_format(file, at, spec),
{
    reveal(chunk_bytes);
    reveal(fmt_body);
    bytes::lemma_le_lens();
    let c = chunk_bytes(tag_fmt(), fmt_body(spec));
    let rate = spec.sample_rate * (spec.channels * 4);
    assert(rate == 4 * spec.channels * spec.sample_rate) by (nonlinear_arith)
        requires
            rate == spec.sample_rate * (spec.channels * 4),
    ;
    assert(rate >= 0) by (nonlinear_arith)
        requires
            rate == spec.sample_rate * (spec.channels * 4),
    ;
    lemma_field(file, at, c, 4, 8);
    assert(c.subrange(4, 8) =~= bytes::le32_bytes(16));
    bytes::lemma_le32_round_trip(file, at + 4, 16);
    lemma_field(file, at, c, 8, 10);
    assert(c.subrange(8, 10) =~= bytes::le16_bytes(3));
    bytes::lemma_le16_round_trip(file, at + 8, 3);
    lemma_field(file, at, c, 10, 12);
    assert(c.subrange(10, 12) =~= bytes::le16_bytes(spec.channels as int));
    bytes::lemma_le16_round_trip(file, at + 10, spec.channels as int);
    lemma_field(file, at, c, 12, 16);
    assert(c.subrange(12, 16) =~= bytes::le32_bytes(spec.sample_rate as int));
    bytes::lemma_le32_round_trip(file, at + 12, spec.sample_rate as int);
    lemma_field(file, at, c, 16, 20);
    assert(c.subrange(16, 20) =~= bytes::le32_bytes(rate));
    bytes::lemma_le32_round_trip(file, at + 16, rate);
    lemma_field(file, at, c, 20, 22);
    assert(c.subrange(20, 22) =~= bytes::le16_bytes(spec.channels * 4));
    bytes::lemma_le16_round_trip(file, at + 20, spec.channels * 4);
    lemma_field(file, at, c, 22, 24);
    assert(c.subrange(22, 24) =~= bytes::le16_bytes(32));
    bytes::lemma_le16_round_trip(file, at + 22, 32);
}

proof fn lemma_field(file: Seq<u8>, at: int, c: Seq<u8>, a: int, b: int)
    requires
        0 <= at,
        0 <= a <= b <= c.len(),
        at + c.len() <= file.len(),
        file.subrange(at, at + c.len()) == c,
    ensures
        file.subrange(at + a, at + b) == c.subrange(a, b),
{
    assert(file.subrange(at + a, at + b) =~= file.subrange(at, at + c.len()).subrange(a, b));
}

/// A file is written as 64-bit only where its sizes could pass 32 bits.
pub proof fn law_wide_files(n_samples: int)
    requires
        n_samples >= 0,
    ensures
        needs_rf64(n_samples) <==> 4 * n_samples + 128 > 4_294_967_295,
        !needs_rf64(n_samples) ==> 48 + 4 * n_samples < 4_294_967_295,
{
}

/// The sizes in a written file are its sizes: of the whole behind the first
/// eight bytes, of the samples, and the number of frames. The format is 32-bit
/// float.
pub proof fn law_written_sizes(samples: Seq<u32>, spec: WavSpec, use_rf64: bool)
    requires
        spec.channels > 0,
        samples.len() <= i64::MAX / 4,
        use_rf64 || !needs_rf64(samples.len() as int),
    ensures
        ({
            let n = samples.len() as int;
            let file = file_bytes(samples, spec, use_rf64);
            let frames = n / (spec.channels as int);
            if use_rf64 {
                &&& file.len() == 80 + 4 * n
                &&& bytes::le32(file, 4) == 0xffff_ffff
                &&& bytes::le32(file, 16) == 28
                &&& bytes::le64(file, 20) == file.len() - 8
                &&& bytes::le64(file, 28) == 4 * n
                &&& bytes::le64(file, 36) == frames
                &&& tells_format(file, 48, spec)
                &&& bytes::le32(file, 76) == 0xffff_ffff
            } else {
                &&& file.len() == 56 + 4 * n
                &&& bytes::le32(file, 4) == file.len() - 8
                &&& tells_format(file, 12, spec)
                &&& bytes::le32(file, 40) == 4
                &&& bytes::le32(file, 44) == frames
                &&& bytes::le32(file, 52) == 4 * n
            }
        }),
{
    let n = samples.len() as int;
    let ch = spec.channels as int;
    let file = file_bytes(samples, spec, use_rf64);
    let head = header_bytes(n, spec, use_rf64);
    let hl = header_len(use_rf64);
    let frames = n / ch;
    lemma_header_layout(n, spec, use_rf64);
    bytes::lemma_le_lens();
    vstd::arithmetic::div_mod::lemma_div_pos_is_pos(n, ch);
    vstd::arithmetic::div_mod::lemma_div_is_ordered_by_denominator(n, 1, ch);
    assert(file.len() == hl + 4 * n);
    assert(file.subrange(0, hl) =~= head);
    if use_rf64 {
        let d = chunk_bytes(tag_ds64(), ds64_body(n, ch));
        assert(file.subrange(48, 72) =~= head.subrange(48, 72));
        lemma_tells_format(file, 48, spec);
        assert(file.subrange(12, 48) =~= head.subrange(12, 48));
        assert(file.subrange(76, 80) =~= head.subrange(76, 80));
        bytes::lemma_le32_round_trip(file, 76, SIZE_PLACEHOLDER as int);
        assert(head.subrange(4, 8) =~= bytes::le32_bytes(SIZE_PLACEHOLDER as int)) by {
            reveal(header_bytes);
        }
        assert(file.subrange(4, 8) =~= head.subrange(4, 8));
        bytes::lemma_le32_round_trip(file, 4, SIZE_PLACEHOLDER as int);
        reveal(chunk_bytes);
        reveal(ds64_body);
        assert(d.len() == 36);
        lemma_field(file, 12, d, 4, 8);
        assert(d.subrange(4, 8) =~= bytes::le32_bytes(28));
        bytes::lemma_le32_round_trip(file, 16, 28);
        lemma_field(file, 12, d, 8, 16);
        assert(d.subrange(8, 16) =~= bytes::le64_bytes(72 + 4 * n));
        bytes::lemma_le64_round_trip(file, 20, 72 + 4 * n);
        lemma_field(file, 12, d, 16, 24);
        assert(d.subrange(16, 24) =~= bytes::le64_bytes(4 * n));
        bytes::lemma_le64_round_trip(file, 28, 4 * n);
        lemma_field(file, 12, d, 24, 32);
        assert(d.subrange(24, 32) =~= bytes::le64_bytes(frames));
        bytes::lemma_le64_round_trip(file, 36, frames);
    } else {
        let f = chunk_bytes(tag_fact(), bytes::le32_bytes(frames));
        assert(file.subrange(12, 36) =~= head.subrange(12, 36));
        lemma_tells_format(file, 12, spec);
        assert(file.subrange(36, 48) =~= head.subrange(36, 48));
        assert(file.subrange(52, 56) =~= head.subrange(52, 56));
        bytes::lemma_le32_round_trip(file, 52, 4 * n);
        assert(head.subrange(4, 8) =~= bytes::le32_bytes(48 + 4 * n)) by {
            reveal(header_bytes);
        }
        assert(file.subrange(4, 8) =~= head.subrange(4, 8));
        bytes::lemma_le32_round_trip(file, 4, 48 + 4 * n);
        reveal(chunk_bytes);
        assert(f.len() == 12);
        lemma_field(file, 36, f, 4, 8);
        assert(f.subrange(4, 8) =~= bytes::le32_bytes(4));
        bytes::lemma_le32_round_trip(file, 40, 4);
        lemma_field(file, 36, f, 8, 12);
        assert(f.subrange(8, 12) =~= bytes::le32_bytes(frames));
        bytes::lemma_le32_round_trip(file, 44, frames);
    }
}

/// Chunks lie on even offsets from each other, behind eight bytes of their own,
/// and the walk ends at the end of the file or at a size that is not known.
pub proof fn law_chunks_are_even(pos: int, declared: int, file_len: int)
    requires
        0 <= pos,
        0 <= declared <= 0xffff_ffff,
    ensures
        match next_chunk(pos, declared, file_len) {
            Some(next) => {
                &&& (next - pos) % 2 == 0
                &&& pos + 8 + declared <= next <= pos + 9 + declared
                &&& next <= file_len
                &&& declared != 0xffff_ffff
            },
            None => declared == 0xffff_ffff || pos + 8 + declared + declared % 2 > file_len,
        },
{
}

/// How much data a file holds: what its 64-bit size says if that much is there,
/// else what its chunk says if that much is there, else all there is.
pub proof fn law_data_extent(ds64: Option<u64>, declared: int, avail: int)
    requires
        0 <= declared <= 0xffff_ffff,
        0 <= avail,
    ensures
        0 <= data_extent(ds64, declared, avail) <= avail,
        ds64 matches Some(n) ==> n <= avail ==> data_extent(ds64, declared, avail) == n,
        (ds64 is None || ds64->0 > avail) && 0 < declared <= avail && declared != 0xffff_ffff
            ==> data_extent(ds64, declared, avail) == declared,
        (ds64 is None || ds64->0 > avail) && (declared == 0 || declared == 0xffff_ffff || declared
            > avail) ==> data_extent(ds64, declared, avail) == avail,
{
}

/// A header speaks of whole frames that are in the file, as many as fit, and is
/// refused only for want of a format, channels, whole bytes or data.
pub proof fn law_header_has_whole_frames(scan: ChunkScan, file_len: int)
    requires
        0 <= file_len <= u64::MAX,
        scan.data matches Some(d) ==> 0 <= d.1 <= 0xffff_ffff && d.0 <= file_len,
    ensures
        resolve(scan, file_len) is Err <==> scan.channels is None || scan.channels == Some(0u16)
            || scan.bits == 0 || scan.bits % 8 != 0 || scan.data is None,
        resolve(scan, file_len) matches Ok(h) ==> {
            let frame = h.spec.channels * (h.spec.bits_per_sample as int / 8);
            let raw = data_extent(
                scan.ds64_data_size,
                (scan.data->0).1 as int,
                file_len - (scan.data->0).0,
            );
            &&& Some(h.spec.channels) == scan.channels
            &&& h.spec.sample_rate == scan.sample_rate
            &&& h.spec.bits_per_sample == scan.bits
            &&& h.spec.sample_format == SampleFormat::Float <==> scan.is_float
            &&& h.data_offset == (scan.data->0).0
            &&& h.data_len as int % frame == 0
            &&& h.data_len <= raw < h.data_len + frame
            &&& h.data_offset + h.data_len <= file_len
            &&& info_of(h).frames * frame == h.data_len
        },
{
    if resolve(scan, file_len) is Ok {
        let h = resolve(scan, file_len)->Ok_0;
        let ch = scan.channels->0 as int;
        let b = scan.bits as int / 8;
        let frame = ch * b;
        assert(b >= 1);
        assert(frame > 0) by (nonlinear_arith)
            requires
                frame == ch * b,
                ch > 0,
                b >= 1,
        ;
        let raw = data_extent(
            scan.ds64_data_size,
            (scan.data->0).1 as int,
            file_len - (scan.data->0).0,
        );
        law_data_extent(
            scan.ds64_data_size,
            (scan.data->0).1 as int,
            file_len - (scan.data->0).0,
        );
        vstd::arithmetic::div_mod::lemma_fundamental_div_mod(raw, frame);
        vstd::arithmetic::div_mod::lemma_mod_bound(raw, frame);
        let q = raw / frame;
        vstd::arithmetic::div_mod::lemma_div_pos_is_pos(raw, frame);
        assert(frame * q >= 0) by (nonlinear_arith)
            requires
                frame > 0,
                q >= 0,
        ;
        assert(frame * q == q * frame) by (nonlinear_arith);
        assert(h.data_len == q * frame);
        vstd::arithmetic::div_mod::lemma_div_multiples_vanish(q, frame);
        vstd::arithmetic::div_mod::lemma_mod_multiples_basic(q, frame);
        vstd::arithmetic::div_mod::lemma_div_is_ordered_by_denominator(raw, 1, frame);
        assert(h.data_len as int / frame == q);
    }
}

/// The four bytes at `at`.
pub open spec fn four(file: Seq<u8>, at: int, a: u8, b: u8, c: u8, d: u8) -> bool {
    file[at] == a && file[at + 1] == b && file[at + 2] == c && file[at + 3] == d
}

/// The names of the chunks of a written file, as bytes.
pub proof fn law_written_names(samples: Seq<u32>, spec: WavSpec, use_rf64: bool)
    ensures
        ({
            let file = file_bytes(samples, spec, use_rf64);
            &&& four(file, 8, 0x57, 0x41, 0x56, 0x45)
            &&& if use_rf64 {
                &&& four(file, 0, 0x52, 0x46, 0x36, 0x34)
                &&& four(file, 12, 0x64, 0x73, 0x36, 0x34)
                &&& four(file, 48, 0x66, 0x6d, 0x74, 0x20)
                &&& four(file, 72, 0x64, 0x61, 0x74, 0x61)
            } else {
                &&& four(file, 0, 0x52, 0x49, 0x46, 0x46)
                &&& four(file, 12, 0x66, 0x6d, 0x74, 0x20)
                &&& four(file, 36, 0x66, 0x61, 0x63, 0x74)
                &&& four(file, 48, 0x64, 0x61, 0x74, 0x61)
            }
        }),
{
    let n = samples.len() as int;
    let ch = spec.channels as int;
    let file = file_bytes(samples, spec, use_rf64);
    let head = header_bytes(n, spec, use_rf64);
    lemma_header_layout(n, spec, use_rf64);
    assert(file.take(head.len() as int) =~= head);
    lemma_name(file, head, 8, tag_wave(), head.subrange(8, 12));
    reveal(chunk_bytes);
    bytes::lemma_le_lens();
    lemma_fmt_body(spec);
    lemma_ds64_body(n, ch);
    if use_rf64 {
        lemma_name(file, head, 0, tag_rf64(), head.subrange(0, 4));
        lemma_name(file, head, 12, tag_ds64(), head.subrange(12, 48));
        lemma_name(file, head, 48, tag_fmt(), head.subrange(48, 72));
        lemma_name(file, head, 72, tag_data(), head.subrange(72, 76));
    } else {
        lemma_name(file, head, 0, tag_riff(), head.subrange(0, 4));
        lemma_name(file, head, 12, tag_fmt(), head.subrange(12, 36));
        lemma_name(file, head, 36, tag_fact(), head.subrange(36, 48));
        lemma_name(file, head, 48, tag_data(), head.subrange(48, 52));
    }
}

proof fn lemma_name(file: Seq<u8>, head: Seq<u8>, at: int, tag: Seq<char>, piece: Seq<u8>)
    requires
        0 <= at,
        tag.len() == 4,
        piece.len() >= 4,
        at + piece.len() <= head.len() <= file.len(),
        file.take(head.len() as int) == head,
        piece == head.subrange(at, at + piece.len()),
        forall|k: int| 0 <= k < 4 ==> #[trigger] piece[k] == tag_bytes(tag)[k],
    ensures
        four(file, at, tag[0] as u8, tag[1] as u8, tag[2] as u8, tag[3] as u8),
{
    assert forall|k: int| 0 <= k < 4 implies #[trigger] file[at + k] == tag[k] as u8 by {
        assert(file[at + k] == head[at + k]);
        assert(piece[k] == head[at + k]);
    }
    assert(file[at + 0] == tag[0] as u8);
    assert(file[at + 1] == tag[1] as u8);
    assert(file[at + 2] == tag[2] as u8);
    assert(file[at + 3] == tag[3] as u8);
}

} // verus!
