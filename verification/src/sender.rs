//! Outbound message formatting.
//!
//! Each outbox record is turned into one MQTT publish: the grouping
//! identifiers become percent-encoded `key=value` pairs in the topic, the
//! payload is compressed when that makes it strictly smaller, an oversized
//! payload is sent through file upload and replaced by a link document, and
//! close semantics append their flags.

use vstd::prelude::*;
use vstd::string::StringSliceAdditionalSpecFns;

use crate::bytes::{str_bytes, string_bytes};
use crate::messages::{CloseOption, Compression, DeviceMessage};
use crate::url::{url_encode, url_encoded};

verus! {

/// What the brotli encoder produces for the given quality and bytes: a
/// function of the two alone.
pub uninterp spec fn brotli_of(quality: int, data: Seq<u8>) -> Seq<u8>;

/// Relies on brotli::BrotliCompress: the output is a deterministic function
/// of the encoder quality and the input bytes.
#[verifier::external_body]
fn brotli_compress(content: &Vec<u8>, quality: i32) -> (r: Option<Vec<u8>>)
    ensures
        r matches Some(c) ==> c@ == brotli_of(quality as int, content@),
{
    let params = brotli::enc::BrotliEncoderParams { quality, ..Default::default() };
    let mut compressed: Vec<u8> = Vec::new();
    match brotli::BrotliCompress(&mut content.as_slice(), &mut compressed, &params) {
        Ok(_) => Some(compressed),
        Err(_) => None,
    }
}

/// The encoder quality a compression choice stands for: 1 is the fastest,
/// 11 gives the smallest output.
pub open spec fn quality_of(c: Compression) -> Option<int> {
    match c {
        Compression::Uncompressed => Option::None,
        Compression::BrotliFastest => Option::Some(1),
        Compression::BrotliSmallestSize => Option::Some(11),
    }
}

pub fn compression_quality(c: &Compression) -> (r: Option<i32>)
    ensures
        match quality_of(*c) {
            Option::None => r is None,
            Option::Some(q) => r matches Some(e) && e as int == q,
        },
{
    match c {
        Compression::Uncompressed => Option::None,
        Compression::BrotliFastest => Option::Some(1),
        Compression::BrotliSmallestSize => Option::Some(11),
    }
}

/// What became of a payload offered to the encoder.  In every case the
/// carried bytes are the ones that travel.
pub enum CompressionOutcome {
    /// Compression was requested and strictly shrank the payload: the
    /// compressed bytes travel, with `content-encoding=br` appended.
    Compressed(Vec<u8>),
    /// Compression was requested but would not shrink the payload: the
    /// original bytes travel, without the encoding property.
    NotSmaller(Vec<u8>),
    /// No compression was requested, or the payload is empty: the original
    /// bytes travel.
    NotRequested(Vec<u8>),
    /// The encoder reported an error: the original bytes travel.  The
    /// encoder's own error arm cannot be denied here, so this case remains;
    /// the contract pins every other case exactly.
    EncoderFailed(Vec<u8>),
}

impl CompressionOutcome {
    /// The bytes that travel.
    pub open spec fn payload_view(self) -> Seq<u8> {
        match self {
            CompressionOutcome::Compressed(p) => p@,
            CompressionOutcome::NotSmaller(p) => p@,
            CompressionOutcome::NotRequested(p) => p@,
            CompressionOutcome::EncoderFailed(p) => p@,
        }
    }

    /// Takes the bytes that travel.
    pub fn into_payload(self) -> (r: Vec<u8>)
        ensures
            r@ == self.payload_view(),
    {
        match self {
            CompressionOutcome::Compressed(p) => p,
            CompressionOutcome::NotSmaller(p) => p,
            CompressionOutcome::NotRequested(p) => p,
            CompressionOutcome::EncoderFailed(p) => p,
        }
    }
}

/// Compresses a payload when compression is requested, and keeps the result
/// only when it is strictly smaller than the original.
///
/// When compression is requested on a non-empty payload and the encoder
/// answers, the compressed bytes travel exactly when the encoder's output is
/// strictly smaller than the original; otherwise the original travels.
pub fn compress_content(content: &Vec<u8>, compression: &Compression) -> (r: CompressionOutcome)
    ensures
        match r {
            CompressionOutcome::Compressed(p) => quality_of(*compression) matches Option::Some(q)
                && content@.len() > 0 && p@ == brotli_of(q, content@) && p@.len()
                < content@.len(),
            CompressionOutcome::NotSmaller(p) => quality_of(*compression) matches Option::Some(q)
                && content@.len() > 0 && p@ == content@ && brotli_of(q, content@).len()
                >= content@.len(),
            CompressionOutcome::NotRequested(p) => p@ == content@ && (quality_of(*compression)
                is None || content@.len() == 0),
            CompressionOutcome::EncoderFailed(p) => p@ == content@ && quality_of(*compression)
                is Some && content@.len() > 0,
        },
        (quality_of(*compression) is None || content@.len() == 0) <==> r is NotRequested,
{
    if content.len() == 0 {
        return CompressionOutcome::NotRequested(crate::json::copy_bytes(content));
    }
    let quality = match compression_quality(compression) {
        Option::None => {
            return CompressionOutcome::NotRequested(crate::json::copy_bytes(content));
        },
        Option::Some(q) => q,
    };
    match brotli_compress(content, quality) {
        Option::Some(compressed) => {
            if compressed.len() < content.len() {
                CompressionOutcome::Compressed(compressed)
            } else {
                CompressionOutcome::NotSmaller(crate::json::copy_bytes(content))
            }
        },
        Option::None => CompressionOutcome::EncoderFailed(crate::json::copy_bytes(content)),
    }
}

/// A payload above this many bytes travels through file upload instead of
/// the telemetry topic.
pub fn is_file_upload(content: &[u8]) -> (r: bool)
    ensures
        r <==> content@.len() > 250000,
{
    content.len() > 250000
}

/// The payload that stands in for an externalized one: a JSON document that
/// links the uploaded blob by name.
pub fn link_payload(blob_name: &str) -> (r: Vec<u8>)
    ensures
        r@ == "{\"link\":\"".spec_bytes() + blob_name.spec_bytes() + "\"}".spec_bytes(),
{
    let mut out = str_bytes("{\"link\":\"");
    let mut mid = str_bytes(blob_name);
    let mut tail = str_bytes("\"}");
    out.append(&mut mid);
    out.append(&mut tail);
    out
}

/// The view of a list of byte strings.
pub open spec fn bytes_views(s: Seq<Vec<u8>>) -> Seq<Seq<u8>>
    decreases s,
{
    if s.len() == 0 {
        Seq::empty()
    } else {
        seq![s[0]@] + bytes_views(s.drop_first())
    }
}

pub proof fn lemma_bytes_views_index(s: Seq<Vec<u8>>)
    ensures
        bytes_views(s).len() == s.len(),
        forall|i: int| 0 <= i < s.len() ==> #[trigger] bytes_views(s)[i] == s[i]@,
    decreases s.len(),
{
    if s.len() > 0 {
        lemma_bytes_views_index(s.drop_first());
    }
}

proof fn lemma_bytes_views_push(s: Seq<Vec<u8>>, v: Vec<u8>)
    ensures
        bytes_views(s.push(v)) =~= bytes_views(s) + seq![v@],
{
    lemma_bytes_views_index(s.push(v));
    lemma_bytes_views_index(s);
}

/// The property pairs joined by `&`.
pub open spec fn join_amp(parts: Seq<Seq<u8>>) -> Seq<u8>
    decreases parts.len(),
{
    if parts.len() == 0 {
        Seq::empty()
    } else if parts.len() == 1 {
        parts[0]
    } else {
        parts[0] + seq![38u8] + join_amp(parts.drop_first())
    }
}

/// One optional `key=value` pair: absent identifiers contribute nothing.
pub open spec fn opt_seg(key_text: Seq<u8>, v: Option<String>) -> Seq<Seq<u8>> {
    match v {
        Option::None => Seq::empty(),
        Option::Some(s) => seq![key_text + url_encoded(string_bytes(s))],
    }
}

/// The flag pairs that the close semantics append.
pub open spec fn close_segs(c: CloseOption) -> Seq<Seq<u8>> {
    match c {
        CloseOption::NoClose => Seq::empty(),
        CloseOption::CloseBatch => seq!["complete-batch=true".spec_bytes()],
        CloseOption::CloseBatchOnly => seq![
            "complete-batch=true".spec_bytes(),
            "ignore-payload=true".spec_bytes(),
        ],
        CloseOption::CloseMessageOnly => seq![
            "complete-message=true".spec_bytes(),
            "ignore-payload=true".spec_bytes(),
        ],
    }
}

/// All property pairs of one message, in the order they are published:
/// the grouping identifiers, then `content-encoding=br` when the payload is
/// compressed, then `has-externalized-payload=true` when it was uploaded,
/// then the close flags.
pub open spec fn msg_segments(m: DeviceMessage, encoded: bool, externalized: bool) -> Seq<
    Seq<u8>,
> {
    opt_seg("stream-group-name=".spec_bytes(), m.stream_group) + opt_seg(
        "stream-name=".spec_bytes(),
        m.stream,
    ) + opt_seg("site-id=".spec_bytes(), m.site_id) + opt_seg(
        "batch-id=".spec_bytes(),
        m.batch_id,
    ) + opt_seg("batch-slice-id=".spec_bytes(), m.batch_slice_id) + opt_seg(
        "message-id=".spec_bytes(),
        m.message_id,
    ) + opt_seg("chunk-id=".spec_bytes(), m.chunk_id) + (if encoded {
        seq!["content-encoding=br".spec_bytes()]
    } else {
        Seq::<Seq<u8>>::empty()
    }) + (if externalized {
        seq!["has-externalized-payload=true".spec_bytes()]
    } else {
        Seq::<Seq<u8>>::empty()
    }) + close_segs(m.close_option)
}

fn push_opt(parts: &mut Vec<Vec<u8>>, key: &str, v: &Option<String>)
    ensures
        bytes_views(final(parts)@) == bytes_views(old(parts)@) + opt_seg(key.spec_bytes(), *v),
{
    match v {
        Option::None => {
            proof {
                assert(bytes_views(parts@) =~= bytes_views(parts@) + opt_seg(
                    key.spec_bytes(),
                    *v,
                ));
            }
        },
        Option::Some(s) => {
            let mut seg = str_bytes(key);
            let raw = str_bytes(s.as_str());
            let mut encoded = url_encode(raw.as_slice());
            seg.append(&mut encoded);
            let ghost before = parts@;
            parts.push(seg);
            proof {
                lemma_bytes_views_push(before, final(parts)@.last());
                assert(bytes_views(final(parts)@) =~= bytes_views(old(parts)@) + opt_seg(
                    key.spec_bytes(),
                    *v,
                ));
            }
        },
    }
}

fn push_lit(parts: &mut Vec<Vec<u8>>, text: &str)
    ensures
        bytes_views(final(parts)@) == bytes_views(old(parts)@) + seq![text.spec_bytes()],
{
    let ghost before = parts@;
    parts.push(str_bytes(text));
    proof {
        lemma_bytes_views_push(before, final(parts)@.last());
        assert(bytes_views(final(parts)@) =~= bytes_views(old(parts)@) + seq![text.spec_bytes()]);
    }
}

/// Builds the property pairs of one message.
#[verifier::rlimit(100)]
pub fn message_properties(m: &DeviceMessage, encoded: bool, externalized: bool) -> (r: Vec<
    Vec<u8>,
>)
    ensures
        bytes_views(r@) == msg_segments(*m, encoded, externalized),
{
    let mut parts: Vec<Vec<u8>> = Vec::new();
    proof {
        assert(bytes_views(parts@) =~= Seq::<Seq<u8>>::empty());
    }
    push_opt(&mut parts, "stream-group-name=", &m.stream_group);
    push_opt(&mut parts, "stream-name=", &m.stream);
    push_opt(&mut parts, "site-id=", &m.site_id);
    push_opt(&mut parts, "batch-id=", &m.batch_id);
    push_opt(&mut parts, "batch-slice-id=", &m.batch_slice_id);
    push_opt(&mut parts, "message-id=", &m.message_id);
    push_opt(&mut parts, "chunk-id=", &m.chunk_id);
    if encoded {
        push_lit(&mut parts, "content-encoding=br");
    }
    if externalized {
        push_lit(&mut parts, "has-externalized-payload=true");
    }
    match m.close_option {
        CloseOption::NoClose => {},
        CloseOption::CloseBatch => {
            push_lit(&mut parts, "complete-batch=true");
        },
        CloseOption::CloseBatchOnly => {
            push_lit(&mut parts, "complete-batch=true");
            push_lit(&mut parts, "ignore-payload=true");
        },
        CloseOption::CloseMessageOnly => {
            push_lit(&mut parts, "complete-message=true");
            push_lit(&mut parts, "ignore-payload=true");
        },
    }
    proof {
        assert(bytes_views(parts@) =~= msg_segments(*m, encoded, externalized));
    }
    parts
}

/// Joins the property pairs with `&` into the topic suffix.
pub fn join_properties(parts: &Vec<Vec<u8>>) -> (r: Vec<u8>)
    ensures
        r@ == join_amp(bytes_views(parts@)),
{
    proof {
        lemma_bytes_views_index(parts@);
    }
    let mut out: Vec<u8> = Vec::new();
    let ghost all = bytes_views(parts@);
    let mut k: usize = 0;
    proof {
        assert(all.skip(0) =~= all);
    }
    while k < parts.len()
        invariant
            k <= parts@.len(),
            all == bytes_views(parts@),
            all.len() == parts@.len(),
            forall|i: int| 0 <= i < parts@.len() ==> #[trigger] all[i] == parts@[i]@,
            k == 0 ==> out@ == Seq::<u8>::empty(),
            0 < k < all.len() ==> join_amp(all) == out@ + seq![38u8] + join_amp(
                all.skip(k as int),
            ),
            k == all.len() && k > 0 ==> out@ == join_amp(all),
        decreases parts@.len() - k,
    {
        proof {
            assert(all.skip(k as int)[0] == all[k as int]);
            assert(all.skip(k as int).drop_first() =~= all.skip(k as int + 1));
            if k == 0 {
                assert(all.skip(0) =~= all);
            }
        }
        let ghost out0 = out@;
        if k > 0 {
            out.push(38);
        }
        let mut seg = crate::json::copy_bytes(&parts[k]);
        out.append(&mut seg);
        proof {
            if k + 1 < all.len() {
                assert(join_amp(all) =~= out@ + seq![38u8] + join_amp(all.skip(k as int + 1)));
            } else {
                assert(out@ =~= join_amp(all));
            }
        }
        k = k + 1;
    }
    proof {
        if parts@.len() == 0 {
            assert(out@ =~= join_amp(all));
        }
    }
    out
}

} // verus!
