//! Recording sessions: the WAV format, file names and the decoding of the
//! audio chunks that the front end sends.
use base64::Engine;
use vstd::prelude::*;

use crate::text::{decimal, push_decimal};

verus! {

/// What `audio_start` hands back: the new session and its file.
pub struct StartResult {
    pub session_id: String,
    pub path: String,
}

/// How samples are stored in a WAV file.
#[derive(Clone, Copy, Debug, PartialEq, Eq, Structural)]
pub enum SampleFormat {
    Int,
    Float,
}

/// The layout of a WAV file.
#[derive(Clone, Copy, Debug, PartialEq, Eq, Structural)]
pub struct WavFormat {
    pub channels: u16,
    pub sample_rate: u32,
    pub bits_per_sample: u16,
    pub sample_format: SampleFormat,
}

/// Recordings are mono, 16-bit integer PCM at the rate the front end uses.
pub fn recording_format(sample_rate: u32) -> (res: WavFormat)
    ensures
        res == (WavFormat {
            channels: 1,
            sample_rate,
            bits_per_sample: 16,
            sample_format: SampleFormat::Int,
        }),
{
    WavFormat { channels: 1, sample_rate, bits_per_sample: 16, sample_format: SampleFormat::Int }
}

/// The file name of the recording of session `session_id`.
pub fn recording_file_name(session_id: &str) -> (res: String)
    ensures
        res@ == session_id@ + ".wav"@,
{
    let mut name = session_id.to_owned();
    name.append(".wav");
    name
}

/// The message for a session id that no open session has.
pub fn unknown_session_message(session_id: &str) -> (res: String)
    ensures
        res@ == "unknown session: "@ + session_id@,
{
    let mut m = "unknown session: ".to_owned();
    m.append(session_id);
    m
}

/// The message for a session whose file path is not known.
pub fn unknown_session_path_message(session_id: &str) -> (res: String)
    ensures
        res@ == "unknown session path: "@ + session_id@,
{
    let mut m = "unknown session path: ".to_owned();
    m.append(session_id);
    m
}

/// What the standard base64 engine (padding required) decodes `input` to,
/// or the text of its error.
pub uninterp spec fn base64_standard_decode(input: Seq<char>) -> Result<Seq<u8>, Seq<char>>;

/// The bytes of a decoding.
pub open spec fn bytes_view(r: Result<Vec<u8>, String>) -> Result<Seq<u8>, Seq<char>> {
    match r {
        Ok(b) => Ok(b@),
        Err(e) => Err(e@),
    }
}

/// Calls `base64::engine::general_purpose::STANDARD.decode` on the bytes of
/// `input` and renders an error with `Display`. Claimed: the result is the one
/// named `base64_standard_decode`, a function of the text alone.
#[verifier::external_body]
fn decode_base64(input: &str) -> (res: Result<Vec<u8>, String>)
    ensures
        bytes_view(res) == base64_standard_decode(input@),
{
    base64::engine::general_purpose::STANDARD.decode(input.as_bytes()).map_err(|e| e.to_string())
}

/// The signed 16-bit sample whose little-endian bytes are `lo`, `hi`.
pub open spec fn le_sample(lo: u8, hi: u8) -> int {
    let u = lo + 256 * hi;
    if u >= 32768 {
        u - 65536
    } else {
        u
    }
}

/// The samples of 16-bit little-endian PCM data; a trailing odd byte is
/// not a sample.
pub open spec fn pcm_samples(b: Seq<u8>) -> Seq<int> {
    Seq::new(b.len() / 2, |i: int| le_sample(b[2 * i], b[2 * i + 1]))
}

/// The samples of 16-bit little-endian PCM data.
pub fn pcm16le_samples(bytes: &[u8]) -> (res: Vec<i16>)
    ensures
        res@.len() == pcm_samples(bytes@).len(),
        forall|i: int| 0 <= i < res@.len() ==> res@[i] == #[trigger] pcm_samples(bytes@)[i],
{
    let n = bytes.len() / 2;
    let mut out: Vec<i16> = Vec::new();
    let mut i: usize = 0;
    while i < n
        invariant
            n == bytes.len() / 2,
            i <= n,
            out@.len() == i,
            forall|j: int| 0 <= j < i ==> out@[j] == #[trigger] pcm_samples(bytes@)[j],
        decreases n - i,
    {
        let lo = bytes[2 * i];
        let hi = bytes[2 * i + 1];
        let u: u32 = lo as u32 + 256 * (hi as u32);
        let s: i16 = if u >= 32768 {
            (u as i32 - 65536) as i16
        } else {
            u as i16
        };
        out.push(s);
        i = i + 1;
    }
    out
}

/// The samples of an audio chunk, given what decoding its base64 text gave:
/// a decoding error or an odd number of bytes is reported.
pub fn samples_from_decoded(decoded: Result<Vec<u8>, String>) -> (res: Result<Vec<i16>, String>)
    ensures
        match decoded {
            Err(e) => res matches Err(m) && m@ == "base64 decode: "@ + e@,
            Ok(b) => if b@.len() % 2 != 0 {
                res matches Err(m) && m@ == "odd byte length: "@ + decimal(b@.len())
            } else {
                res matches Ok(s) && s@.len() == pcm_samples(b@).len() && forall|i: int|
                    0 <= i < s@.len() ==> s@[i] == #[trigger] pcm_samples(b@)[i]
            },
        },
{
    match decoded {
        Err(e) => {
            let mut m = "base64 decode: ".to_owned();
            m.append(e.as_str());
            Err(m)
        },
        Ok(b) => {
            if b.len() % 2 != 0 {
                let mut m = "odd byte length: ".to_owned();
                push_decimal(&mut m, b.len() as u64);
                Err(m)
            } else {
                Ok(pcm16le_samples(b.as_slice()))
            }
        },
    }
}

/// The samples that an audio chunk of base64 text carries.
pub fn decode_audio_chunk(data_b64: &str) -> (res: Result<Vec<i16>, String>)
    ensures
        match base64_standard_decode(data_b64@) {
            Err(e) => res matches Err(m) && m@ == "base64 decode: "@ + e,
            Ok(b) => if b.len() % 2 != 0 {
                res matches Err(m) && m@ == "odd byte length: "@ + decimal(b.len())
            } else {
                res matches Ok(s) && s@.len() == pcm_samples(b).len() && forall|i: int|
                    0 <= i < s@.len() ==> s@[i] == #[trigger] pcm_samples(b)[i]
            },
        },
{
    samples_from_decoded(decode_base64(data_b64))
}

} // verus!
