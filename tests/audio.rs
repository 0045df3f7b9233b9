use narration::tts::synth::{engine_output, OutputError};
use narration::tts::wav::{parse_wav_chunks, pcm16_to_mono, wav_to_int16_pcm, wav_wrap, DecodedWav, WavError};

fn wav_bytes(format: u16, channels: u16, rate: u32, bits: u16, fmt_extra: &[u8], chunks: &[(&[u8; 4], &[u8])]) -> Vec<u8> {
    let mut body: Vec<u8> = Vec::new();
    body.extend_from_slice(b"WAVE");
    body.extend_from_slice(b"fmt ");
    body.extend_from_slice(&((16 + fmt_extra.len()) as u32).to_le_bytes());
    body.extend_from_slice(&format.to_le_bytes());
    body.extend_from_slice(&channels.to_le_bytes());
    body.extend_from_slice(&rate.to_le_bytes());
    let block = channels as u32 * (bits as u32 / 8);
    body.extend_from_slice(&(rate * block).to_le_bytes());
    body.extend_from_slice(&(block as u16).to_le_bytes());
    body.extend_from_slice(&bits.to_le_bytes());
    body.extend_from_slice(fmt_extra);
    for (id, data) in chunks {
        body.extend_from_slice(*id);
        body.extend_from_slice(&(data.len() as u32).to_le_bytes());
        body.extend_from_slice(data);
        if data.len() % 2 == 1 {
            body.push(0);
        }
    }
    let mut out = Vec::new();
    out.extend_from_slice(b"RIFF");
    out.extend_from_slice(&(body.len() as u32).to_le_bytes());
    out.extend_from_slice(&body);
    out
}

fn samples16(v: &[i16]) -> Vec<u8> {
    v.iter().flat_map(|s| s.to_le_bytes()).collect()
}

#[test]
fn wrap_writes_canonical_header() {
    let w = wav_wrap(&[1, 2, 3, 4], 24000);
    assert_eq!(w.len(), 48);
    assert_eq!(&w[0..4], b"RIFF");
    assert_eq!(u32::from_le_bytes([w[4], w[5], w[6], w[7]]), 40);
    assert_eq!(&w[8..16], b"WAVEfmt ");
    assert_eq!(u32::from_le_bytes([w[16], w[17], w[18], w[19]]), 16);
    assert_eq!(u16::from_le_bytes([w[20], w[21]]), 1);
    assert_eq!(u16::from_le_bytes([w[22], w[23]]), 1);
    assert_eq!(u32::from_le_bytes([w[24], w[25], w[26], w[27]]), 24000);
    assert_eq!(u32::from_le_bytes([w[28], w[29], w[30], w[31]]), 48000);
    assert_eq!(u16::from_le_bytes([w[32], w[33]]), 2);
    assert_eq!(u16::from_le_bytes([w[34], w[35]]), 16);
    assert_eq!(&w[36..40], b"data");
    assert_eq!(u32::from_le_bytes([w[40], w[41], w[42], w[43]]), 4);
    assert_eq!(&w[44..], &[1, 2, 3, 4]);
}

#[test]
fn reencoded_pcm_decodes_to_same_bytes() {
    let src = wav_bytes(1, 2, 22050, 16, &[], &[(b"data", &samples16(&[100, 200, -7, 8, 32767, -32768]))]);
    let (pcm, rate) = match wav_to_int16_pcm(&src).unwrap() {
        DecodedWav::Pcm16Mono { pcm, sample_rate } => (pcm, sample_rate),
        _ => panic!("expected PCM"),
    };
    let again = wav_wrap(&pcm, rate);
    match wav_to_int16_pcm(&again).unwrap() {
        DecodedWav::Pcm16Mono { pcm: again_pcm, sample_rate } => {
            assert_eq!(again_pcm, pcm);
            assert_eq!(sample_rate, 22050);
        }
        _ => panic!("expected PCM"),
    }
}

#[test]
fn stereo_pcm16_is_averaged_toward_zero() {
    let src = wav_bytes(1, 2, 16000, 16, &[], &[(b"data", &samples16(&[100, 200, -3, 0, 32767, -32768]))]);
    match wav_to_int16_pcm(&src).unwrap() {
        DecodedWav::Pcm16Mono { pcm, sample_rate } => {
            assert_eq!(pcm, samples16(&[150, -1, 0]));
            assert_eq!(sample_rate, 16000);
        }
        _ => panic!("expected PCM"),
    }
}

#[test]
fn extensible_format_with_extra_chunks_decodes() {
    let extra = [22u8, 0, 16, 0, 4, 0, 0, 0, 1, 0, 0, 0, 0, 0, 16, 0, 128, 0, 0, 170, 0, 56, 155, 113];
    let src = wav_bytes(0xFFFE, 1, 24000, 16, &[0x16, 0x00], &[(b"LIST", &extra[..3]), (b"data", &samples16(&[5, -5]))]);
    match wav_to_int16_pcm(&src).unwrap() {
        DecodedWav::Pcm16Mono { pcm, sample_rate } => {
            assert_eq!(pcm, samples16(&[5, -5]));
            assert_eq!(sample_rate, 24000);
        }
        _ => panic!("expected PCM"),
    }
}

#[test]
fn float_stereo_is_handed_on_with_its_frames() {
    let mut data = Vec::new();
    for _ in 0..3 {
        data.extend_from_slice(&1.0f32.to_le_bytes());
        data.extend_from_slice(&(-1.0f32).to_le_bytes());
    }
    let src = wav_bytes(3, 2, 44100, 32, &[], &[(b"data", &data)]);
    match wav_to_int16_pcm(&src).unwrap() {
        DecodedWav::Float32 { data: d, num_channels, sample_rate } => {
            assert_eq!(d, data);
            assert_eq!(num_channels, 2);
            assert_eq!(sample_rate, 44100);
        }
        _ => panic!("expected float frames"),
    }
}

#[test]
fn decode_errors_name_the_problem() {
    assert_eq!(wav_to_int16_pcm(b"RIFF").err(), Some(WavError::TooShort));
    assert_eq!(wav_to_int16_pcm(b"RIFX\0\0\0\0WAVE").err(), Some(WavError::BadHeader));
    let no_fmt = {
        let mut v = b"RIFF\x0c\0\0\0WAVEdata\x00\0\0\0".to_vec();
        v.truncate(20);
        v
    };
    assert_eq!(wav_to_int16_pcm(&no_fmt).err(), Some(WavError::MissingFmt));
    let no_data = wav_bytes(1, 1, 8000, 16, &[], &[]);
    assert_eq!(wav_to_int16_pcm(&no_data).err(), Some(WavError::MissingData));
    let zero = wav_bytes(1, 0, 8000, 16, &[], &[(b"data", &[0, 0])]);
    assert_eq!(wav_to_int16_pcm(&zero).err(), Some(WavError::ZeroChannels));
    let small = wav_bytes(1, 2, 8000, 16, &[], &[(b"data", &[0, 0])]);
    assert_eq!(wav_to_int16_pcm(&small).err(), Some(WavError::DataTooSmall));
    let eight = wav_bytes(1, 1, 8000, 8, &[], &[(b"data", &[0, 0])]);
    assert_eq!(wav_to_int16_pcm(&eight).err(), Some(WavError::Unsupported { format: 1, bits: 8 }));
    let mut short_fmt = b"RIFF\x14\0\0\0WAVEfmt \x08\0\0\0".to_vec();
    short_fmt.extend_from_slice(&[1, 0, 1, 0, 0, 0, 0, 0]);
    assert_eq!(wav_to_int16_pcm(&short_fmt).err(), Some(WavError::FmtTooSmall));
}

#[test]
fn chunk_walk_keeps_the_data_body() {
    let src = wav_bytes(1, 1, 8000, 16, &[], &[(b"junk", &[9, 9, 9]), (b"data", &[1, 2, 3, 4])]);
    let (f, data) = parse_wav_chunks(&src).unwrap();
    assert_eq!(f.format, 1);
    assert_eq!(f.num_channels, 1);
    assert_eq!(f.sample_rate, 8000);
    assert_eq!(f.bits_per_sample, 16);
    assert_eq!(data, &[1, 2, 3, 4]);
}

#[test]
fn pcm16_downmix_drops_partial_frame() {
    let (pcm, rate) = pcm16_to_mono(&[10, 0, 20, 0, 7], 2, 100).unwrap();
    assert_eq!(pcm, samples16(&[15]));
    assert_eq!(rate, 100);
    assert_eq!(pcm16_to_mono(&[1, 2, 3], 2, 100).err(), Some(WavError::DataTooSmall));
}

#[test]
fn empty_engine_output_is_a_failure() {
    assert_eq!(engine_output(&[]).err(), Some(OutputError::NoAudio));
    assert_eq!(engine_output(b"RIFF").err(), Some(OutputError::Decode(WavError::TooShort)));
}
