use vstd::prelude::*;
use vstd::string::StringSliceAdditionalSpecFns;
use vstd::utf8::encode_utf8;
use sha2::Digest;
use crate::num::{decimal, hex_digits, parse_uint, parse_uint_exec, push_decimal, push_hex, push_text};
use crate::text::{trim_span, trim_span_exec};
use crate::tts::wav::{le_u32, read_u32};

verus! {

/// One synthesized sentence: mono 16-bit PCM, its sample rate, and the
/// engine's raw alignment output (possibly empty).
pub struct CachedSentence {
    pub pcm: Vec<u8>,
    pub sample_rate: u32,
    pub tsv_content: String,
}

/// The SHA-256 digest of `data`.
pub uninterp spec fn sha256_of(data: Seq<u8>) -> Seq<u8>;

/// Relies on `sha2::Sha256::digest`: the 32-byte SHA-256 digest of the bytes.
#[verifier::external_body]
pub(crate) fn sha256(data: &[u8]) -> (r: Vec<u8>)
    ensures
        r@ == sha256_of(data@),
        r@.len() == 32,
{
    sha2::Sha256::digest(data).to_vec()
}

/// Little-endian 64-bit value of `b[0..8]`.
pub open spec fn le_u64(b: Seq<u8>) -> int {
    le_u32(b, 0) + 4294967296 * le_u32(b, 4)
}

/// The key of a digest: its first eight bytes, little-endian.
pub fn key_from_digest(digest: &[u8]) -> (r: u64)
    requires
        digest@.len() >= 8,
    ensures
        r as int == le_u64(digest@),
{
    let lo = read_u32(digest, 0) as u64;
    let hi = read_u32(digest, 4) as u64;
    assert(4294967296 * hi <= 4294967296 * 4294967295) by (nonlinear_arith)
        requires
            hi <= 4294967295,
    ;
    lo + 4294967296 * hi
}

/// The 64-bit key of a text: the first eight bytes of the SHA-256 digest of
/// its UTF-8 bytes, little-endian. The same text gives the same key in every
/// process and build.
pub fn hash_text(text: &str) -> (r: u64)
    ensures
        r as int == le_u64(sha256_of(text.spec_bytes())),
{
    hash_bytes(text.as_bytes())
}

/// The 64-bit key of a byte string, as [`hash_text`] gives it for text.
pub fn hash_bytes(data: &[u8]) -> (r: u64)
    ensures
        r as int == le_u64(sha256_of(data@)),
{
    let d = sha256(data);
    key_from_digest(&d)
}


/// The file name `<key as 16 lower-case hex digits>.<ext>`.
pub open spec fn key_file_name(key: u64, ext: Seq<char>) -> Seq<char> {
    hex_digits(key as nat, 16) + seq!['.'] + ext
}

/// The file name of artifact `ext` under `key`.
pub fn key_file_name_exec(key: u64, ext: &str) -> (r: String)
    ensures
        r@ == key_file_name(key, ext@),
{
    let mut s = String::new();
    push_hex(&mut s, key, 16);
    crate::num::push_char(&mut s, '.');
    push_text(&mut s, ext);
    assert(s@ =~= key_file_name(key, ext@));
    s
}

/// The sample rate recorded in a metadata text: its trimmed content as a `u32`.
pub open spec fn meta_rate(meta: Seq<char>) -> Option<int> {
    let b = encode_utf8(meta);
    let t = trim_span(b, 0, b.len() as int);
    parse_uint(b, t.0, t.0 + t.1, u32::MAX as int)
}

/// The cache entry that three artifacts make: there is none without the
/// PCM, or without a metadata text that holds a sample rate; missing
/// alignment text reads as empty.
pub open spec fn cache_entry(
    pcm: Option<Seq<u8>>,
    meta: Option<Seq<char>>,
    tsv: Option<Seq<char>>,
) -> Option<(Seq<u8>, u32, Seq<char>)> {
    match (pcm, meta) {
        (Some(p), Some(m)) => match meta_rate(m) {
            Some(rate) => Some(
                (
                    p,
                    rate as u32,
                    match tsv {
                        Some(t) => t,
                        None => Seq::empty(),
                    },
                ),
            ),
            None => None,
        },
        _ => None,
    }
}

pub open spec fn bytes_of(o: Option<Vec<u8>>) -> Option<Seq<u8>> {
    match o {
        Some(v) => Some(v@),
        None => None,
    }
}

pub open spec fn text_of(o: Option<String>) -> Option<Seq<char>> {
    match o {
        Some(v) => Some(v@),
        None => None,
    }
}

/// Rebuilds a cached sentence from the artifacts read under its key
/// (`None` where one could not be read).
pub fn cache_hit(pcm: Option<Vec<u8>>, meta: Option<String>, tsv: Option<String>) -> (r: Option<
    CachedSentence,
>)
    ensures
        match cache_entry(bytes_of(pcm), text_of(meta), text_of(tsv)) {
            Some((p, rate, t)) => r matches Some(c) && c.pcm@ == p && c.sample_rate == rate
                && c.tsv_content@ == t,
            None => r is None,
        },
{
    let pcm = match pcm {
        Some(p) => p,
        None => {
            return None;
        },
    };
    let meta = match meta {
        Some(m) => m,
        None => {
            return None;
        },
    };
    let b = meta.as_str().as_bytes();
    let t = trim_span_exec(b, 0, b.len());
    let sample_rate = match parse_uint_exec(b, t.0, t.0 + t.1, u32::MAX as u64) {
        Some(v) => v as u32,
        None => {
            return None;
        },
    };
    let tsv_content = match tsv {
        Some(t) => t,
        None => String::new(),
    };
    Some(CachedSentence { pcm, sample_rate, tsv_content })
}

/// The three artifacts stored under a key: file name and content of the
/// PCM, of the metadata (the sample rate in decimal) and of the alignment text.
pub struct CacheFiles {
    pub pcm_name: String,
    pub pcm: Vec<u8>,
    pub meta_name: String,
    pub meta: String,
    pub tsv_name: String,
    pub tsv: String,
}

/// The artifacts to store for a synthesized sentence under `hash`.
pub fn cache_write(hash: u64, pcm: &[u8], sample_rate: u32, tsv_content: &str) -> (r: CacheFiles)
    ensures
        r.pcm_name@ == key_file_name(hash, "pcm"@),
        r.meta_name@ == key_file_name(hash, "meta"@),
        r.tsv_name@ == key_file_name(hash, "tsv"@),
        r.pcm@ == pcm@,
        r.meta@ == decimal(sample_rate as nat),
        r.tsv@ == tsv_content@,
{
    let mut meta = String::new();
    push_decimal(&mut meta, sample_rate as u64);
    CacheFiles {
        pcm_name: key_file_name_exec(hash, "pcm"),
        pcm: vstd::slice::slice_to_vec(pcm),
        meta_name: key_file_name_exec(hash, "meta"),
        meta,
        tsv_name: key_file_name_exec(hash, "tsv"),
        tsv: tsv_content.to_owned(),
    }
}

/// Reading back what [`cache_write`] stores gives the same PCM, sample rate
/// and alignment text.
pub proof fn lemma_cache_round_trip(pcm: Seq<u8>, sample_rate: u32, tsv: Seq<char>)
    ensures
        cache_entry(Some(pcm), Some(decimal(sample_rate as nat)), Some(tsv)) == Some(
            (pcm, sample_rate, tsv),
        ),
{
    let m = decimal(sample_rate as nat);
    let b = encode_utf8(m);
    crate::num::lemma_decimal_bytes(sample_rate as nat);
    let n = b.len() as int;
    assert(crate::num::is_digit(b[0]));
    assert(crate::num::is_digit(b[n - 1]));
    assert(crate::text::lead_ws(b, 0, n) == 0);
    assert(crate::text::trail_ws(b, 0, n) == 0) by {
        if n >= 2 {
            assert(crate::num::is_digit(b[n - 2]));
        }
        if n >= 3 {
            assert(crate::num::is_digit(b[n - 3]));
        }
    }
    assert(trim_span(b, 0, n) == (0int, n));
    assert(crate::num::after_plus(b, 0, n) == 0);
}

} // verus!
