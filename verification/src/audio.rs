//! Raw audio bytes from the cloud providers: framing a PCM stream that
//! arrives in chunks of any length, decoding 16-bit little-endian samples,
//! and base64-wrapped audio.

use vstd::prelude::*;
use base64::Engine;

verus! {

/// The signed 16-bit value of the little-endian byte pair `lo`, `hi`.
pub open spec fn le_i16(lo: u8, hi: u8) -> int {
    let u = lo as int + 256 * hi as int;
    if u >= 32768 {
        u - 65536
    } else {
        u
    }
}

/// 16-bit little-endian samples of `bytes`; a trailing odd byte is ignored.
pub open spec fn s16le_of(bytes: Seq<u8>) -> Seq<i16> {
    Seq::new(bytes.len() / 2, |k: int| le_i16(bytes[2 * k], bytes[2 * k + 1]) as i16)
}

fn pair_to_i16(lo: u8, hi: u8) -> (r: i16)
    ensures
        r as int == le_i16(lo, hi),
{
    let u: u32 = lo as u32 + 256 * hi as u32;
    if u >= 32768 {
        (u as i32 - 65536) as i16
    } else {
        u as i16
    }
}

/// Little-endian signed 16-bit PCM to samples. Ignores a trailing odd byte
/// (callers carry it into the next chunk).
pub fn s16le_samples(bytes: &[u8]) -> (r: Vec<i16>)
    ensures
        r@ == s16le_of(bytes@),
        r.len() == bytes.len() / 2,
{
    let n = bytes.len() / 2;
    let mut r: Vec<i16> = Vec::new();
    let mut k: usize = 0;
    while k < n
        invariant
            n == bytes.len() / 2,
            k <= n,
            r@ == s16le_of(bytes@).take(k as int),
        decreases n - k,
    {
        let s = pair_to_i16(bytes[2 * k], bytes[2 * k + 1]);
        r.push(s);
        k += 1;
        assert(r@ =~= s16le_of(bytes@).take(k as int));
    }
    assert(s16le_of(bytes@).take(n as int) =~= s16le_of(bytes@));
    r
}

pub open spec fn opt_seq(b: Option<u8>) -> Seq<u8> {
    match b {
        Some(x) => seq![x],
        None => Seq::empty(),
    }
}

/// What framing one chunk gives: the carried byte and the chunk, cut to an
/// even length, and the odd byte left over (if any).
pub open spec fn frame_step(carry: Option<u8>, chunk: Seq<u8>) -> (Seq<u8>, Option<u8>) {
    let all = opt_seq(carry) + chunk;
    if all.len() % 2 == 1 {
        (all.drop_last(), Some(all.last()))
    } else {
        (all, None)
    }
}

/// Framing a whole stream, chunk by chunk from no carry: the framed bytes of
/// each chunk, and the byte carried at the end.
pub open spec fn frame_stream(chunks: Seq<Seq<u8>>) -> (Seq<Seq<u8>>, Option<u8>)
    decreases chunks.len(),
{
    if chunks.len() == 0 {
        (Seq::empty(), None)
    } else {
        let prev = frame_stream(chunks.drop_last());
        let step = frame_step(prev.1, chunks.last());
        (prev.0.push(step.0), step.1)
    }
}

/// Frame the next chunk of a byte stream into whole 16-bit samples: the
/// carried byte (if any) comes first, and an odd byte left at the end is
/// carried into the next chunk. Nothing is lost or reordered: the framed
/// bytes followed by the new carry are exactly the old carry followed by
/// the chunk.
pub fn frame_pcm(carry: Option<u8>, chunk: &[u8]) -> (r: (Vec<u8>, Option<u8>))
    ensures
        r.0@ + opt_seq(r.1) == opt_seq(carry) + chunk@,
        r.0.len() % 2 == 0,
        (r.0@, r.1) == frame_step(carry, chunk@),
{
    let mut bytes: Vec<u8> = Vec::new();
    if let Some(b) = carry {
        bytes.push(b);
    }
    let mut k: usize = 0;
    while k < chunk.len()
        invariant
            k <= chunk.len(),
            bytes@ == opt_seq(carry) + chunk@.take(k as int),
        decreases chunk.len() - k,
    {
        bytes.push(chunk[k]);
        k += 1;
        assert(bytes@ =~= opt_seq(carry) + chunk@.take(k as int));
    }
    assert(chunk@.take(chunk.len() as int) =~= chunk@);
    if bytes.len() % 2 == 1 {
        let last = bytes.pop();
        assert(bytes@ + opt_seq(last) =~= opt_seq(carry) + chunk@);
        (bytes, last)
    } else {
        assert(bytes@ + opt_seq(None) =~= bytes@);
        (bytes, None)
    }
}

/// Samples of two byte runs, the first of even length, are the samples of
/// each run in turn.
proof fn lemma_s16le_concat(a: Seq<u8>, b: Seq<u8>)
    requires
        a.len() % 2 == 0,
    ensures
        s16le_of(a + b) == s16le_of(a) + s16le_of(b),
{
    let h = a.len() / 2;
    assert(a.len() == 2 * h);
    let ab = a + b;
    assert(ab.len() / 2 == h + b.len() / 2);
    assert forall|k: int| 0 <= k < ab.len() / 2 implies
        #[trigger] s16le_of(ab)[k] == (s16le_of(a) + s16le_of(b))[k] by {
        if k < h {
            assert(ab[2 * k] == a[2 * k]);
            assert(ab[2 * k + 1] == a[2 * k + 1]);
        } else {
            let j = k - h;
            assert(2 * k == a.len() + 2 * j);
            assert(ab[2 * k] == b[2 * j]);
            assert(ab[2 * k + 1] == b[2 * j + 1]);
        }
    }
    assert(s16le_of(ab) =~= s16le_of(a) + s16le_of(b));
}

/// Samples decoded run by run from even-length runs are the samples of the
/// runs laid end to end.
proof fn lemma_samples_of_runs(outs: Seq<Seq<u8>>)
    requires
        forall|i: int| 0 <= i < outs.len() ==> #[trigger] outs[i].len() % 2 == 0,
    ensures
        outs.map_values(|o: Seq<u8>| s16le_of(o)).flatten() == s16le_of(outs.flatten()),
        outs.flatten().len() % 2 == 0,
    decreases outs.len(),
{
    if outs.len() == 0 {
        assert(outs.map_values(|o: Seq<u8>| s16le_of(o)) =~= Seq::<Seq<i16>>::empty());
        assert(s16le_of(outs.flatten()) =~= Seq::<i16>::empty());
    } else {
        let init = outs.drop_last();
        let o = outs.last();
        assert(outs =~= init.push(o));
        assert(forall|i: int| 0 <= i < init.len() ==> #[trigger] init[i] == outs[i]);
        lemma_samples_of_runs(init);
        init.lemma_flatten_push(o);
        let f = |x: Seq<u8>| s16le_of(x);
        assert(outs.map_values(f) =~= init.map_values(f).push(s16le_of(o)));
        init.map_values(f).lemma_flatten_push(s16le_of(o));
        lemma_s16le_concat(init.flatten(), o);
    }
}

/// Framing a stream chunk by chunk loses, adds and reorders nothing,
/// wherever the chunks are cut: the framed bytes laid end to end, then the
/// byte carried at the end, are the stream's bytes; each framed run has an
/// even length; a byte is carried at the end exactly when the stream's
/// length is odd; and the samples decoded run by run are the samples of the
/// whole stream (a final odd byte dropped).
pub proof fn lemma_frame_stream(chunks: Seq<Seq<u8>>)
    ensures
        frame_stream(chunks).0.len() == chunks.len(),
        frame_stream(chunks).0.flatten() + opt_seq(frame_stream(chunks).1) == chunks.flatten(),
        forall|i: int|
            0 <= i < chunks.len() ==> #[trigger] frame_stream(chunks).0[i].len() % 2 == 0,
        frame_stream(chunks).1 is Some <==> chunks.flatten().len() % 2 == 1,
        frame_stream(chunks).0.map_values(|o: Seq<u8>| s16le_of(o)).flatten() == s16le_of(
            chunks.flatten(),
        ),
    decreases chunks.len(),
{
    let outs = frame_stream(chunks).0;
    let carry = frame_stream(chunks).1;
    if chunks.len() == 0 {
        assert(chunks.flatten() =~= Seq::<u8>::empty());
        assert(outs.flatten() + opt_seq(carry) =~= chunks.flatten());
    } else {
        let init = chunks.drop_last();
        let c = chunks.last();
        assert(chunks =~= init.push(c));
        lemma_frame_stream(init);
        let prev = frame_stream(init);
        let step = frame_step(prev.1, c);
        assert(outs == prev.0.push(step.0));
        assert(forall|i: int| 0 <= i < prev.0.len() ==> #[trigger] outs[i] == prev.0[i]);
        init.lemma_flatten_push(c);
        prev.0.lemma_flatten_push(step.0);
        let all = opt_seq(prev.1) + c;
        assert(step.0 + opt_seq(step.1) =~= all);
        assert(outs.flatten() + opt_seq(carry) =~= prev.0.flatten() + all);
        assert(prev.0.flatten() + all =~= (prev.0.flatten() + opt_seq(prev.1)) + c);
        lemma_samples_of_runs(prev.0);
        lemma_samples_of_runs(outs);
        lemma_s16le_concat(outs.flatten(), opt_seq(carry));
        assert(s16le_of(opt_seq(carry)) =~= Seq::<i16>::empty());
        assert(s16le_of(outs.flatten()) + s16le_of(opt_seq(carry)) =~= s16le_of(outs.flatten()));
    }
}

/// The bytes that standard base64 (padded alphabet) decodes `text` to, if
/// it is valid.
pub uninterp spec fn base64_decoded(text: Seq<char>) -> Option<Seq<u8>>;

#[verifier::external_type_specification]
#[verifier::external_body]
pub struct ExDecodeError(base64::DecodeError);

/// `base64::engine::general_purpose::STANDARD.decode`: the standard
/// alphabet with canonical padding. Its result is named, not spelled out.
#[verifier::external_body]
fn base64_standard_decode(text: &str) -> (r: Result<Vec<u8>, base64::DecodeError>)
    ensures
        r is Ok <==> base64_decoded(text@) is Some,
        r matches Ok(b) ==> b@ == base64_decoded(text@)->0,
{
    base64::engine::general_purpose::STANDARD.decode(text)
}

/// The text `base64::DecodeError` displays (which byte or length was
/// wrong). Nothing is stated of it.
#[verifier::external_body]
fn decode_error_text(e: &base64::DecodeError) -> String {
    format!("{e}")
}

/// Why provider audio could not be read.
#[derive(Debug, PartialEq, Eq, Clone)]
pub enum AudioError {
    /// The audio field was not valid base64; the decoder's reason.
    BadBase64(String),
}

/// Audio delivered as base64-wrapped 16-bit little-endian PCM, as samples.
pub fn decode_base64_pcm(text: &str) -> (r: Result<Vec<i16>, AudioError>)
    ensures
        match base64_decoded(text@) {
            Some(bytes) => r matches Ok(v) && v@ == s16le_of(bytes),
            None => r matches Err(AudioError::BadBase64(_)),
        },
{
    match base64_standard_decode(text) {
        Ok(bytes) => Ok(s16le_samples(bytes.as_slice())),
        Err(e) => Err(AudioError::BadBase64(decode_error_text(&e))),
    }
}

} // verus!
