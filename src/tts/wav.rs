use vstd::prelude::*;

verus! {

/// Little-endian 16-bit value of `b[i..i + 2]`.
pub open spec fn le_u16(b: Seq<u8>, i: int) -> int {
    b[i] as int + 256 * b[i + 1] as int
}

/// Little-endian 32-bit value of `b[i..i + 4]`.
pub open spec fn le_u32(b: Seq<u8>, i: int) -> int {
    le_u16(b, i) + 65536 * le_u16(b, i + 2)
}

/// The four little-endian bytes of `x`.
pub open spec fn u32_bytes(x: int) -> Seq<u8> {
    seq![(x % 256) as u8, ((x / 256) % 256) as u8, ((x / 65536) % 256) as u8, (x / 16777216) as u8]
}

/// The two little-endian bytes of `x`.
pub open spec fn u16_bytes(x: int) -> Seq<u8> {
    seq![(x % 256) as u8, (x / 256) as u8]
}

pub open spec fn riff_id() -> Seq<u8> {
    seq![0x52u8, 0x49u8, 0x46u8, 0x46u8]
}

pub open spec fn wave_id() -> Seq<u8> {
    seq![0x57u8, 0x41u8, 0x56u8, 0x45u8]
}

pub open spec fn fmt_id() -> Seq<u8> {
    seq![0x66u8, 0x6du8, 0x74u8, 0x20u8]
}

pub open spec fn data_id() -> Seq<u8> {
    seq![0x64u8, 0x61u8, 0x74u8, 0x61u8]
}

/// The canonical 44-byte header of a mono 16-bit PCM file holding
/// `data_len` bytes of samples at `sample_rate`.
pub open spec fn canonical_header(data_len: int, sample_rate: int) -> Seq<u8> {
    riff_id() + u32_bytes(36 + data_len) + wave_id() + fmt_id() + u32_bytes(16) + u16_bytes(1)
        + u16_bytes(1) + u32_bytes(sample_rate) + u32_bytes(2 * sample_rate) + u16_bytes(2)
        + u16_bytes(16) + data_id() + u32_bytes(data_len)
}

/// The canonical WAVE file around `pcm`.
pub open spec fn canonical_wav(pcm: Seq<u8>, sample_rate: int) -> Seq<u8> {
    canonical_header(pcm.len() as int, sample_rate) + pcm
}

fn push_u32(out: &mut Vec<u8>, x: u32)
    ensures
        final(out)@ == old(out)@ + u32_bytes(x as int),
{
    out.push((x % 256) as u8);
    out.push(((x / 256) % 256) as u8);
    out.push(((x / 65536) % 256) as u8);
    out.push((x / 16777216) as u8);
    assert(final(out)@ =~= old(out)@ + u32_bytes(x as int));
}

fn push_u16(out: &mut Vec<u8>, x: u16)
    ensures
        final(out)@ == old(out)@ + u16_bytes(x as int),
{
    out.push((x % 256) as u8);
    out.push((x / 256) as u8);
    assert(final(out)@ =~= old(out)@ + u16_bytes(x as int));
}

fn push_id(out: &mut Vec<u8>, a: u8, b: u8, c: u8, d: u8)
    ensures
        final(out)@ == old(out)@ + seq![a, b, c, d],
{
    out.push(a);
    out.push(b);
    out.push(c);
    out.push(d);
    assert(final(out)@ =~= old(out)@ + seq![a, b, c, d]);
}

/// Wraps mono 16-bit PCM in the canonical 44-byte WAVE header.
pub fn wav_wrap(pcm: &[u8], sample_rate: u32) -> (r: Vec<u8>)
    requires
        pcm@.len() + 36 <= u32::MAX,
        2 * sample_rate <= u32::MAX,
    ensures
        r@ == canonical_wav(pcm@, sample_rate as int),
        r@.len() == pcm@.len() + 44,
{
    let data_len = pcm.len() as u32;
    let mut out: Vec<u8> = Vec::new();
    push_id(&mut out, 0x52, 0x49, 0x46, 0x46);
    push_u32(&mut out, 36 + data_len);
    push_id(&mut out, 0x57, 0x41, 0x56, 0x45);
    push_id(&mut out, 0x66, 0x6d, 0x74, 0x20);
    push_u32(&mut out, 16);
    push_u16(&mut out, 1);
    push_u16(&mut out, 1);
    push_u32(&mut out, sample_rate);
    push_u32(&mut out, 2 * sample_rate);
    push_u16(&mut out, 2);
    push_u16(&mut out, 16);
    push_id(&mut out, 0x64, 0x61, 0x74, 0x61);
    push_u32(&mut out, data_len);
    let ghost header = out@;
    assert(header =~= canonical_header(pcm@.len() as int, sample_rate as int));
    let mut i: usize = 0;
    while i < pcm.len()
        invariant
            i <= pcm@.len(),
            out@ == header + pcm@.subrange(0, i as int),
        decreases pcm@.len() - i,
    {
        out.push(pcm[i]);
        i = i + 1;
        assert(out@ =~= header + pcm@.subrange(0, i as int));
    }
    assert(pcm@.subrange(0, pcm@.len() as int) =~= pcm@);
    out
}


/// Why a WAVE buffer could not be decoded.
#[derive(Clone, Copy, Debug, PartialEq, Eq, Structural)]
pub enum WavError {
    /// Fewer than the twelve bytes of the RIFF header.
    TooShort,
    /// The buffer does not start with `RIFF....WAVE`.
    BadHeader,
    /// A `fmt ` chunk shorter than sixteen bytes.
    FmtTooSmall,
    /// No `fmt ` chunk.
    MissingFmt,
    /// No `data` chunk.
    MissingData,
    /// The format declares zero channels.
    ZeroChannels,
    /// The data chunk is shorter than one frame.
    DataTooSmall,
    /// A format code and bit depth that are not decoded.
    Unsupported { format: u16, bits: u16 },
}

/// The fields of a `fmt ` chunk that decoding reads.
#[derive(Clone, Copy, Debug, PartialEq, Eq, Structural)]
pub struct WavFormat {
    pub format: u16,
    pub num_channels: u16,
    pub sample_rate: u32,
    pub bits_per_sample: u16,
}

pub open spec fn has_id(b: Seq<u8>, off: int, id: Seq<u8>) -> bool {
    b.subrange(off, off + 4) == id
}

pub open spec fn format_at(b: Seq<u8>, s: int) -> WavFormat {
    WavFormat {
        format: le_u16(b, s) as u16,
        num_channels: le_u16(b, s + 2) as u16,
        sample_rate: le_u32(b, s + 4) as u32,
        bits_per_sample: le_u16(b, s + 14) as u16,
    }
}

/// End of the body of the chunk whose header starts at `off`, cut at the
/// end of the buffer.
pub open spec fn body_end(b: Seq<u8>, off: int) -> int {
    if off + 8 + le_u32(b, off + 4) <= b.len() {
        off + 8 + le_u32(b, off + 4)
    } else {
        b.len() as int
    }
}

/// Start of the chunk after the one at `off`: bodies are padded to even length.
pub open spec fn next_chunk(b: Seq<u8>, off: int) -> int {
    body_end(b, off) + le_u32(b, off + 4) % 2
}

/// Walks the chunks from `off` on, keeping the last `fmt ` fields and the
/// last `data` body span seen.
pub open spec fn scan_chunks(
    b: Seq<u8>,
    off: int,
    fmt: Option<WavFormat>,
    data: Option<(int, int)>,
) -> Result<(Option<WavFormat>, Option<(int, int)>), WavError>
    decreases b.len() + 1 - off,
{
    if off < 0 || off + 8 > b.len() {
        Ok((fmt, data))
    } else if has_id(b, off, fmt_id()) {
        if le_u32(b, off + 4) < 16 || body_end(b, off) < off + 24 {
            Err(WavError::FmtTooSmall)
        } else {
            scan_chunks(b, next_chunk(b, off), Some(format_at(b, off + 8)), data)
        }
    } else if has_id(b, off, data_id()) {
        scan_chunks(b, next_chunk(b, off), fmt, Some((off + 8, body_end(b, off))))
    } else {
        scan_chunks(b, next_chunk(b, off), fmt, data)
    }
}

/// The format and the data body span of a WAVE buffer, or why there are none.
pub open spec fn parse_chunks_spec(b: Seq<u8>) -> Result<(WavFormat, (int, int)), WavError> {
    if b.len() < 12 {
        Err(WavError::TooShort)
    } else if !has_id(b, 0, riff_id()) || !has_id(b, 8, wave_id()) {
        Err(WavError::BadHeader)
    } else {
        match scan_chunks(b, 12, None, None) {
            Err(e) => Err(e),
            Ok((None, _)) => Err(WavError::MissingFmt),
            Ok((Some(_), None)) => Err(WavError::MissingData),
            Ok((Some(f), Some(d))) => if f.num_channels == 0 {
                Err(WavError::ZeroChannels)
            } else {
                Ok((f, d))
            },
        }
    }
}

fn read_u16(b: &[u8], i: usize) -> (r: u16)
    requires
        i + 2 <= b@.len(),
    ensures
        r as int == le_u16(b@, i as int),
{
    b[i] as u16 + 256 * (b[i + 1] as u16)
}

pub(crate) fn read_u32(b: &[u8], i: usize) -> (r: u32)
    requires
        i + 4 <= b@.len(),
    ensures
        r as int == le_u32(b@, i as int),
{
    let n = b.len();
    let lo = read_u16(b, i) as u32;
    let hi = read_u16(b, i + 2) as u32;
    assert(65536 * hi <= 65536 * 65535) by (nonlinear_arith)
        requires
            hi <= 65535,
    ;
    lo + 65536 * hi
}

fn id_at(b: &[u8], off: usize, c0: u8, c1: u8, c2: u8, c3: u8) -> (r: bool)
    requires
        off + 4 <= b@.len(),
    ensures
        r == (b@.subrange(off as int, off + 4) == seq![c0, c1, c2, c3]),
{
    let r = b[off] == c0 && b[off + 1] == c1 && b[off + 2] == c2 && b[off + 3] == c3;
    if r {
        assert(b@.subrange(off as int, off + 4) =~= seq![c0, c1, c2, c3]);
    } else {
        assert(b@.subrange(off as int, off + 4) != seq![c0, c1, c2, c3]) by {
            let s = b@.subrange(off as int, off + 4);
            assert(s[0] == b@[off as int] && s[1] == b@[off + 1] && s[2] == b@[off + 2] && s[3]
                == b@[off + 3]);
        }
    }
    r
}

/// Walks the RIFF chunks of `wav_bytes` and returns the format fields and
/// the body of the `data` chunk.
pub fn parse_wav_chunks(wav_bytes: &[u8]) -> (r: Result<(WavFormat, &[u8]), WavError>)
    ensures
        match parse_chunks_spec(wav_bytes@) {
            Ok((f, d)) => r matches Ok((g, data)) && g == f && data@ == wav_bytes@.subrange(
                d.0,
                d.1,
            ) && 0 <= d.0 <= d.1 <= wav_bytes@.len(),
            Err(e) => r == Err::<(WavFormat, &[u8]), WavError>(e),
        },
{
    let len = wav_bytes.len();
    if len < 12 {
        return Err(WavError::TooShort);
    }
    if !id_at(wav_bytes, 0, 0x52, 0x49, 0x46, 0x46) || !id_at(wav_bytes, 8, 0x57, 0x41, 0x56, 0x45) {
        return Err(WavError::BadHeader);
    }
    let ghost b = wav_bytes@;
    let mut offset: usize = 12;
    let mut format: Option<WavFormat> = None;
    let mut data_span: Option<(usize, usize)> = None;
    while offset <= len && len - offset >= 8
        invariant
            len == b.len(),
            b == wav_bytes@,
            has_id(b, 0, riff_id()) && has_id(b, 8, wave_id()),
            offset <= len,
            scan_chunks(b, 12, None, None) == scan_chunks(
                b,
                offset as int,
                format,
                match data_span {
                    Some(d) => Some((d.0 as int, d.1 as int)),
                    None => None,
                },
            ),
            data_span matches Some(d) ==> d.0 <= d.1 <= len,
        decreases len - offset,
    {
        let chunk_size = read_u32(wav_bytes, offset + 4);
        let chunk_start = offset + 8;
        let chunk_end = if chunk_size as usize <= len - chunk_start {
            chunk_start + chunk_size as usize
        } else {
            len
        };
        assert(chunk_end == body_end(b, offset as int));
        let ghost old_format = format;
        let ghost span = match data_span {
            Some(d) => Some((d.0 as int, d.1 as int)),
            None => None,
        };
        assert(next_chunk(b, offset as int) == (if chunk_size % 2 == 1 && chunk_end < len {
            chunk_end + 1
        } else {
            chunk_end as int
        }) || next_chunk(b, offset as int) > len);
        if id_at(wav_bytes, offset, 0x66, 0x6d, 0x74, 0x20) {
            assert(has_id(b, offset as int, fmt_id()));
            if chunk_size < 16 || chunk_end - chunk_start < 16 {
                assert(scan_chunks(b, offset as int, format, span) == Err::<(Option<WavFormat>, Option<(int, int)>), WavError>(WavError::FmtTooSmall));
                return Err(WavError::FmtTooSmall);
            }
            format = Some(
                WavFormat {
                    format: read_u16(wav_bytes, chunk_start),
                    num_channels: read_u16(wav_bytes, chunk_start + 2),
                    sample_rate: read_u32(wav_bytes, chunk_start + 4),
                    bits_per_sample: read_u16(wav_bytes, chunk_start + 14),
                },
            );
        } else if id_at(wav_bytes, offset, 0x64, 0x61, 0x74, 0x61) {
            data_span = Some((chunk_start, chunk_end));
        }
        let ghost span2 = match data_span {
            Some(d) => Some((d.0 as int, d.1 as int)),
            None => None,
        };
        assert(scan_chunks(b, offset as int, old_format, span) == scan_chunks(b, next_chunk(b, offset as int), format, span2));
        if chunk_size % 2 == 1 && chunk_end < len {
            offset = chunk_end + 1;
        } else {
            offset = chunk_end;
        }
    }
    match (format, data_span) {
        (None, _) => Err(WavError::MissingFmt),
        (Some(_), None) => Err(WavError::MissingData),
        (Some(f), Some(d)) => {
            if f.num_channels == 0 {
                Err(WavError::ZeroChannels)
            } else {
                Ok((f, &wav_bytes[d.0..d.1]))
            }
        },
    }
}


/// Signed 16-bit sample at `b[i..i + 2]`.
pub open spec fn s16(b: Seq<u8>, i: int) -> int {
    if le_u16(b, i) >= 32768 {
        le_u16(b, i) - 65536
    } else {
        le_u16(b, i)
    }
}

/// Sum of the first `n` channels of frame `k` of 16-bit data with `ch` channels.
pub open spec fn frame_sum(d: Seq<u8>, ch: int, k: int, n: int) -> int
    decreases n,
{
    if n <= 0 {
        0
    } else {
        frame_sum(d, ch, k, n - 1) + s16(d, 2 * ch * k + 2 * (n - 1))
    }
}

/// Integer division rounding toward zero.
pub open spec fn trunc_div(a: int, d: int) -> int {
    if a >= 0 {
        a / d
    } else {
        -((-a) / d)
    }
}

/// Frame `k` of 16-bit data with `ch` channels, averaged to one sample.
pub open spec fn mono_sample(d: Seq<u8>, ch: int, k: int) -> int {
    trunc_div(frame_sum(d, ch, k, ch), ch)
}

/// The two little-endian bytes of the 16-bit sample `v`.
pub open spec fn sample_bytes(v: int) -> Seq<u8> {
    u16_bytes(if v < 0 { v + 65536 } else { v })
}

/// Every whole frame of 16-bit data with `ch` channels averaged to mono;
/// a partial last frame is dropped.
pub open spec fn mono_pcm16(d: Seq<u8>, ch: int) -> Seq<u8> {
    Seq::new((2 * (d.len() as int / (2 * ch))) as nat, |j: int| sample_bytes(mono_sample(d, ch, j / 2))[j % 2])
}

/// The samples of a decoded WAVE buffer: mono 16-bit PCM, or 32-bit float
/// frames still to be mixed down.
pub enum DecodedWav {
    Pcm16Mono { pcm: Vec<u8>, sample_rate: u32 },
    Float32 { data: Vec<u8>, num_channels: usize, sample_rate: u32 },
}

/// What a [`DecodedWav`] holds, as sequences.
pub enum DecodedView {
    Pcm16Mono { pcm: Seq<u8>, sample_rate: u32 },
    Float32 { data: Seq<u8>, num_channels: nat, sample_rate: u32 },
}

impl View for DecodedWav {
    type V = DecodedView;

    open spec fn view(&self) -> DecodedView {
        match self {
            DecodedWav::Pcm16Mono { pcm, sample_rate } => DecodedView::Pcm16Mono {
                pcm: pcm@,
                sample_rate: *sample_rate,
            },
            DecodedWav::Float32 { data, num_channels, sample_rate } => DecodedView::Float32 {
                data: data@,
                num_channels: *num_channels as nat,
                sample_rate: *sample_rate,
            },
        }
    }
}

/// The decoding of a WAVE buffer: 16-bit PCM (format 1, or 0xFFFE with 16
/// bits) is mixed down to mono; 32-bit float (format 3, or 0xFFFE with 32
/// bits) is handed on with its channel count.
pub open spec fn decode_spec(b: Seq<u8>) -> Result<DecodedView, WavError> {
    match parse_chunks_spec(b) {
        Err(e) => Err(e),
        Ok((f, span)) => {
            let data = b.subrange(span.0, span.1);
            let ch = f.num_channels as int;
            if (f.format == 1 || f.format == 0xFFFE) && f.bits_per_sample == 16 {
                if data.len() < 2 * ch {
                    Err(WavError::DataTooSmall)
                } else {
                    Ok(DecodedView::Pcm16Mono { pcm: mono_pcm16(data, ch), sample_rate: f.sample_rate })
                }
            } else if (f.format == 3 || f.format == 0xFFFE) && f.bits_per_sample == 32 {
                if data.len() < 4 * ch {
                    Err(WavError::DataTooSmall)
                } else {
                    Ok(
                        DecodedView::Float32 {
                            data,
                            num_channels: ch as nat,
                            sample_rate: f.sample_rate,
                        },
                    )
                }
            } else {
                Err(WavError::Unsupported { format: f.format, bits: f.bits_per_sample })
            }
        },
    }
}

proof fn lemma_frame_sum_bounds(d: Seq<u8>, ch: int, k: int, n: int)
    requires
        n >= 0,
    ensures
        -32768 * n <= frame_sum(d, ch, k, n) <= 32767 * n,
    decreases n,
{
    if n > 0 {
        lemma_frame_sum_bounds(d, ch, k, n - 1);
    }
}

proof fn lemma_frame_in_bounds(len: int, fb: int, k: int, c: int)
    requires
        fb > 0,
        0 <= k,
        fb * k + fb <= len,
        0 <= c,
        2 * c + 2 <= fb,
    ensures
        fb * k + 2 * c + 2 <= len,
{
}

proof fn lemma_frames_done(len: int, fb: int, k: int)
    requires
        fb > 0,
        0 <= k,
        fb * k <= len,
        fb * k + fb > len,
    ensures
        k == len / fb,
{
    assert(k == len / fb) by (nonlinear_arith)
        requires
            fb > 0,
            0 <= k,
            fb * k <= len,
            fb * k + fb > len,
    ;
}

/// Mixes 16-bit frames of `num_channels` channels down to mono by the
/// integer average of each frame.
pub fn pcm16_to_mono(data: &[u8], num_channels: usize, sample_rate: u32) -> (r: Result<
    (Vec<u8>, u32),
    WavError,
>)
    requires
        1 <= num_channels <= 65535,
    ensures
        data@.len() < 2 * num_channels ==> r == Err::<(Vec<u8>, u32), WavError>(
            WavError::DataTooSmall,
        ),
        data@.len() >= 2 * num_channels ==> (r matches Ok((pcm, rate)) && pcm@ == mono_pcm16(
            data@,
            num_channels as int,
        ) && rate == sample_rate),
{
    let frame_bytes = num_channels * 2;
    let len = data.len();
    if len < frame_bytes {
        return Err(WavError::DataTooSmall);
    }
    let ghost ch = num_channels as int;
    let ghost target = mono_pcm16(data@, ch);
    let mut pcm: Vec<u8> = Vec::new();
    let mut base: usize = 0;
    let ghost mut k: int = 0;
    while frame_bytes <= len - base
        invariant
            frame_bytes == 2 * num_channels,
            1 <= num_channels <= 65535,
            ch == num_channels,
            len == data@.len(),
            target == mono_pcm16(data@, ch),
            0 <= k,
            base == frame_bytes * k,
            base <= len,
            pcm@ == target.subrange(0, 2 * k),
            2 * k <= target.len(),
        decreases len - base,
    {
        let mut sum: i64 = 0;
        let mut c: usize = 0;
        while c < num_channels
            invariant
                frame_bytes == 2 * num_channels,
                1 <= num_channels <= 65535,
                ch == num_channels,
                len == data@.len(),
                0 <= k,
                base == frame_bytes * k,
                base + frame_bytes <= len,
                c <= num_channels,
                sum == frame_sum(data@, ch, k, c as int),
            decreases num_channels - c,
        {
            proof {
                lemma_frame_in_bounds(len as int, frame_bytes as int, k, c as int);
                lemma_frame_sum_bounds(data@, ch, k, c as int);
                assert(-32768 * c >= -32768 * 65535 && 32767 * c <= 32767 * 65535) by (nonlinear_arith)
                    requires
                        c <= 65535,
                ;
            }
            let off = base + 2 * c;
            let u = read_u16(data, off) as i64;
            let sample: i64 = if u >= 32768 {
                u - 65536
            } else {
                u
            };
            sum = sum + sample;
            c = c + 1;
        }
        proof {
            lemma_frame_sum_bounds(data@, ch, k, ch);
        }
        let n = num_channels as i64;
        let mono: i64 = if sum >= 0 {
            sum / n
        } else {
            -((-sum) / n)
        };
        assert(-32768 <= mono <= 32767) by (nonlinear_arith)
            requires
                n >= 1,
                -32768 * n <= sum <= 32767 * n,
                mono == (if sum >= 0 { sum as int / n as int } else { -((-sum) as int / n as int) }),
        ;
        let u: u16 = if mono < 0 {
            (mono + 65536) as u16
        } else {
            mono as u16
        };
        pcm.push((u % 256) as u8);
        pcm.push((u / 256) as u8);
        proof {
            assert(frame_bytes * k + frame_bytes <= len);
            assert(frame_bytes * (k + 1) == frame_bytes * k + frame_bytes) by (nonlinear_arith);
            assert(k + 1 <= len as int / frame_bytes as int) by (nonlinear_arith)
                requires
                    frame_bytes * (k + 1) <= len,
                    frame_bytes > 0,
            ;
            assert(mono == mono_sample(data@, ch, k));
            assert(target[2 * k] == sample_bytes(mono as int)[0]);
            assert(target[2 * k + 1] == sample_bytes(mono as int)[1]);
            k = k + 1;
            assert(pcm@ =~= target.subrange(0, 2 * k));
        }
        base = base + frame_bytes;
    }
    proof {
        lemma_frames_done(len as int, frame_bytes as int, k);
        assert(pcm@ =~= target);
    }
    Ok((pcm, sample_rate))
}


/// Decodes a WAVE buffer of any chunk layout. 16-bit PCM comes back as mono
/// 16-bit PCM; 32-bit float comes back as its frames, for the caller to mix.
pub fn wav_to_int16_pcm(wav_bytes: &[u8]) -> (r: Result<DecodedWav, WavError>)
    ensures
        match decode_spec(wav_bytes@) {
            Ok(v) => r matches Ok(d) && d@ == v,
            Err(e) => r matches Err(e2) && e2 == e,
        },
{
    let (f, data) = match parse_wav_chunks(wav_bytes) {
        Ok(p) => p,
        Err(e) => {
            return Err(e);
        },
    };
    let ch = f.num_channels as usize;
    if (f.format == 1 || f.format == 0xFFFE) && f.bits_per_sample == 16 {
        match pcm16_to_mono(data, ch, f.sample_rate) {
            Ok((pcm, sample_rate)) => Ok(DecodedWav::Pcm16Mono { pcm, sample_rate }),
            Err(e) => Err(e),
        }
    } else if (f.format == 3 || f.format == 0xFFFE) && f.bits_per_sample == 32 {
        if data.len() < 4 * ch {
            Err(WavError::DataTooSmall)
        } else {
            Ok(
                DecodedWav::Float32 {
                    data: vstd::slice::slice_to_vec(data),
                    num_channels: ch,
                    sample_rate: f.sample_rate,
                },
            )
        }
    } else {
        Err(WavError::Unsupported { format: f.format, bits: f.bits_per_sample })
    }
}


proof fn lemma_u32_bytes(b: Seq<u8>, i: int, x: int)
    requires
        0 <= x <= u32::MAX,
        0 <= i,
        i + 4 <= b.len(),
        b.subrange(i, i + 4) == u32_bytes(x),
    ensures
        le_u32(b, i) == x,
{
    let s = b.subrange(i, i + 4);
    assert(b[i] == s[0] && b[i + 1] == s[1] && b[i + 2] == s[2] && b[i + 3] == s[3]);
    assert(x == (x % 256) + 256 * ((x / 256) % 256) + 65536 * ((x / 65536) % 256) + 16777216 * (x
        / 16777216)) by (nonlinear_arith)
        requires
            0 <= x <= u32::MAX,
    ;
    assert((x / 16777216) < 256) by (nonlinear_arith)
        requires
            0 <= x <= u32::MAX,
    ;
}

proof fn lemma_u16_bytes(b: Seq<u8>, i: int, x: int)
    requires
        0 <= x <= u16::MAX,
        0 <= i,
        i + 2 <= b.len(),
        b.subrange(i, i + 2) == u16_bytes(x),
    ensures
        le_u16(b, i) == x,
{
    let s = b.subrange(i, i + 2);
    assert(b[i] == s[0] && b[i + 1] == s[1]);
    assert(x == (x % 256) + 256 * (x / 256)) by (nonlinear_arith);
    assert((x / 256) < 256) by (nonlinear_arith)
        requires
            0 <= x <= u16::MAX,
    ;
}

proof fn lemma_sample_bytes(b: Seq<u8>, i: int)
    requires
        0 <= i,
        i + 2 <= b.len(),
    ensures
        sample_bytes(s16(b, i)) == b.subrange(i, i + 2),
{
    let lo = b[i] as int;
    let hi = b[i + 1] as int;
    let u = lo + 256 * hi;
    assert(u % 256 == lo && u / 256 == hi) by (nonlinear_arith)
        requires
            0 <= lo < 256,
            0 <= hi < 256,
            u == lo + 256 * hi,
    ;
    assert(sample_bytes(s16(b, i)) =~= b.subrange(i, i + 2));
}

proof fn lemma_mono_identity(pcm: Seq<u8>)
    requires
        pcm.len() % 2 == 0,
    ensures
        mono_pcm16(pcm, 1) == pcm,
{
    let m = mono_pcm16(pcm, 1);
    assert(m.len() == pcm.len());
    assert forall|j: int| 0 <= j < pcm.len() implies m[j] == pcm[j] by {
        let k = j / 2;
        assert(0 <= 2 * k && 2 * k + 2 <= pcm.len() && (j == 2 * k || j == 2 * k + 1) && j % 2 == j
            - 2 * k);
        reveal_with_fuel(frame_sum, 2);
        assert(frame_sum(pcm, 1, k, 1) == s16(pcm, 2 * k));
        lemma_sample_bytes(pcm, 2 * k);
        assert(pcm.subrange(2 * k, 2 * k + 2)[j - 2 * k] == pcm[j]);
    }
    assert(m =~= pcm);
}

#[verifier::spinoff_prover]
#[verifier::rlimit(80)]
/// Decoding a buffer in the canonical form gives back its PCM and rate:
/// for any PCM of whole 16-bit samples, at least one of them, that fits the
/// header's size fields.
pub proof fn lemma_canonical_decode(pcm: Seq<u8>, sample_rate: u32)
    requires
        pcm.len() % 2 == 0,
        pcm.len() >= 2,
        pcm.len() + 36 <= u32::MAX,
        2 * sample_rate <= u32::MAX,
    ensures
        decode_spec(canonical_wav(pcm, sample_rate as int)) == Ok::<DecodedView, WavError>(
            DecodedView::Pcm16Mono { pcm, sample_rate },
        ),
{
    let n = pcm.len() as int;
    let w = canonical_wav(pcm, sample_rate as int);
    let h = canonical_header(n, sample_rate as int);
    assert(h.len() == 44);
    assert(w.len() == 44 + n);
    assert(w.subrange(0, 4) =~= riff_id());
    assert(w.subrange(8, 12) =~= wave_id());
    assert(w.subrange(12, 16) =~= fmt_id());
    assert(w.subrange(16, 20) =~= u32_bytes(16));
    assert(w.subrange(20, 22) =~= u16_bytes(1));
    assert(w.subrange(22, 24) =~= u16_bytes(1));
    assert(w.subrange(24, 28) =~= u32_bytes(sample_rate as int));
    assert(w.subrange(34, 36) =~= u16_bytes(16));
    assert(w.subrange(36, 40) =~= data_id());
    assert(w.subrange(40, 44) =~= u32_bytes(n));
    assert(w.subrange(44, 44 + n) =~= pcm);
    lemma_u32_bytes(w, 16, 16);
    lemma_u16_bytes(w, 20, 1);
    lemma_u16_bytes(w, 22, 1);
    lemma_u32_bytes(w, 24, sample_rate as int);
    lemma_u16_bytes(w, 34, 16);
    lemma_u32_bytes(w, 40, n);
    let f = WavFormat { format: 1, num_channels: 1, sample_rate, bits_per_sample: 16 };
    assert(format_at(w, 20) == f);
    assert(next_chunk(w, 12) == 36);
    assert(next_chunk(w, 36) == 44 + n);
    assert(scan_chunks(w, 44 + n, Some(f), Some((44, 44 + n))) == Ok::<
        (Option<WavFormat>, Option<(int, int)>),
        WavError,
    >((Some(f), Some((44, 44 + n)))));
    assert(scan_chunks(w, 36, Some(f), None) == scan_chunks(w, 44 + n, Some(f), Some((44, 44 + n))));
    assert(scan_chunks(w, 12, None, None) == scan_chunks(w, 36, Some(f), None));
    lemma_mono_identity(pcm);
}

/// Every PCM that decoding hands out is made of whole 16-bit samples, at least one.
pub proof fn lemma_decoded_pcm_shape(b: Seq<u8>)
    ensures
        decode_spec(b) matches Ok(DecodedView::Pcm16Mono { pcm, .. }) ==> pcm.len() % 2 == 0
            && pcm.len() >= 2,
{
    if let Ok((f, span)) = parse_chunks_spec(b) {
        let ch = f.num_channels as int;
        let d = b.subrange(span.0, span.1);
        if ch >= 1 && d.len() >= 2 * ch {
            assert(d.len() as int / (2 * ch) >= 1) by (nonlinear_arith)
                requires
                    ch >= 1,
                    d.len() >= 2 * ch,
            ;
        }
    }
}

/// Re-encoding the PCM of any decoded buffer in the canonical form and
/// decoding that again gives the same PCM and rate.
pub proof fn lemma_reencode_round_trip(b: Seq<u8>)
    requires
        decode_spec(b) is Ok,
        decode_spec(b)->Ok_0 is Pcm16Mono,
        decode_spec(b)->Ok_0->Pcm16Mono_pcm.len() + 36 <= u32::MAX,
        2 * decode_spec(b)->Ok_0->Pcm16Mono_sample_rate <= u32::MAX,
    ensures
        decode_spec(canonical_wav(decode_spec(b)->Ok_0->Pcm16Mono_pcm, decode_spec(b)->Ok_0->Pcm16Mono_sample_rate as int))
            == decode_spec(b),
{
    lemma_decoded_pcm_shape(b);
    lemma_canonical_decode(decode_spec(b)->Ok_0->Pcm16Mono_pcm, decode_spec(b)->Ok_0->Pcm16Mono_sample_rate);
}

} // verus!
