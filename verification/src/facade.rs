//! The public client surface: message contexts, the records the enqueue
//! calls build, builder-option validation, and the signal hook.

use vstd::prelude::*;
use vstd::string::{StrSliceExecFns, StringExecFns};

use crate::config::clone_opt_string;
use crate::messages::{CloseOption, Compression as StoredCompression, DeviceMessage};

verus! {

/// The compression a caller asks for when sending messages.
pub enum Compression {
    /// The fastest settings.
    Fastest,
    /// The settings that give the smallest output.
    SmallestSize,
}

/// The stored form of a requested compression: no request means none.
pub open spec fn persisted_compression(c: Option<Compression>) -> StoredCompression {
    match c {
        Option::None => StoredCompression::Uncompressed,
        Option::Some(Compression::Fastest) => StoredCompression::BrotliFastest,
        Option::Some(Compression::SmallestSize) => StoredCompression::BrotliSmallestSize,
    }
}

pub fn to_persisted_compression(c: &Option<Compression>) -> (r: StoredCompression)
    ensures
        r == persisted_compression(*c),
{
    match c {
        Option::None => StoredCompression::Uncompressed,
        Option::Some(Compression::Fastest) => StoredCompression::BrotliFastest,
        Option::Some(Compression::SmallestSize) => StoredCompression::BrotliSmallestSize,
    }
}

/// Options for sending messages to one stream.
pub struct MessageContext {
    pub stream_group: Option<String>,
    pub stream: Option<String>,
    pub compression: Option<Compression>,
}

impl MessageContext {
    /// A context for the given stream group and stream, without compression.
    pub fn new(stream_group: Option<String>, stream: Option<String>) -> (r: MessageContext)
        ensures
            r.stream_group == stream_group,
            r.stream == stream,
            r.compression is None,
    {
        MessageContext { stream_group, stream, compression: Option::None }
    }

    /// The stream group messages go to.
    pub fn stream_group(&self) -> (r: &Option<String>)
        ensures
            r == &self.stream_group,
    {
        &self.stream_group
    }

    /// Changes the stream group messages go to.
    pub fn set_stream_group(&mut self, stream_group: Option<String>)
        ensures
            final(self).stream_group == stream_group,
            final(self).stream == old(self).stream,
            final(self).compression == old(self).compression,
    {
        self.stream_group = stream_group;
    }

    /// The stream messages go to.
    pub fn stream(&self) -> (r: &Option<String>)
        ensures
            r == &self.stream,
    {
        &self.stream
    }

    /// Changes the stream messages go to.
    pub fn set_stream(&mut self, stream: Option<String>)
        ensures
            final(self).stream == stream,
            final(self).stream_group == old(self).stream_group,
            final(self).compression == old(self).compression,
    {
        self.stream = stream;
    }

    /// The compression messages are sent with.
    pub fn compression(&self) -> (r: &Option<Compression>)
        ensures
            r == &self.compression,
    {
        &self.compression
    }

    /// Changes the compression messages are sent with.
    pub fn set_compression(&mut self, compression: Option<Compression>)
        ensures
            final(self).compression == compression,
            final(self).stream_group == old(self).stream_group,
            final(self).stream == old(self).stream,
    {
        self.compression = compression;
    }
}

/// One string field of a built record matches its source.
pub open spec fn same_opt_string(a: Option<String>, b: Option<String>) -> bool {
    match (a, b) {
        (Option::None, Option::None) => true,
        (Option::Some(x), Option::Some(y)) => x@ == y@,
        _ => false,
    }
}

/// The record that an enqueue call stores: an ordinary message.
pub fn build_message(
    ctx: &MessageContext,
    site_id: &Option<String>,
    batch_id: Option<String>,
    message_id: Option<String>,
    payload: Vec<u8>,
) -> (r: DeviceMessage)
    ensures
        same_opt_string(r.site_id, *site_id),
        same_opt_string(r.stream_group, ctx.stream_group),
        same_opt_string(r.stream, ctx.stream),
        r.batch_id == batch_id,
        r.message_id == message_id,
        r.batch_slice_id is None,
        r.chunk_id is None,
        r.content@ == payload@,
        r.close_option is NoClose,
        r.compression == persisted_compression(ctx.compression),
{
    DeviceMessage {
        site_id: clone_opt_string(site_id),
        stream_group: clone_opt_string(&ctx.stream_group),
        stream: clone_opt_string(&ctx.stream),
        batch_id,
        message_id,
        content: payload,
        close_option: CloseOption::NoClose,
        compression: to_persisted_compression(&ctx.compression),
        batch_slice_id: Option::None,
        chunk_id: Option::None,
    }
}

/// The record that an advanced enqueue call stores: slices and chunks too.
pub fn build_message_advanced(
    ctx: &MessageContext,
    site_id: &Option<String>,
    batch_id: Option<String>,
    batch_slice_id: Option<String>,
    message_id: Option<String>,
    chunk_id: Option<String>,
    payload: Vec<u8>,
) -> (r: DeviceMessage)
    ensures
        same_opt_string(r.site_id, *site_id),
        same_opt_string(r.stream_group, ctx.stream_group),
        same_opt_string(r.stream, ctx.stream),
        r.batch_id == batch_id,
        r.message_id == message_id,
        r.batch_slice_id == batch_slice_id,
        r.chunk_id == chunk_id,
        r.content@ == payload@,
        r.close_option is NoClose,
        r.compression == persisted_compression(ctx.compression),
{
    DeviceMessage {
        site_id: clone_opt_string(site_id),
        stream_group: clone_opt_string(&ctx.stream_group),
        stream: clone_opt_string(&ctx.stream),
        batch_id,
        message_id,
        content: payload,
        close_option: CloseOption::NoClose,
        compression: to_persisted_compression(&ctx.compression),
        batch_slice_id,
        chunk_id,
    }
}

/// The record that completes a batch: no payload, no compression.
pub fn build_batch_completion(
    ctx: &MessageContext,
    site_id: &Option<String>,
    batch_id: String,
) -> (r: DeviceMessage)
    ensures
        same_opt_string(r.site_id, *site_id),
        same_opt_string(r.stream_group, ctx.stream_group),
        same_opt_string(r.stream, ctx.stream),
        r.batch_id matches Option::Some(b) && b == batch_id,
        r.message_id is None,
        r.batch_slice_id is None,
        r.chunk_id is None,
        r.content@.len() == 0,
        r.close_option is CloseBatchOnly,
        r.compression is Uncompressed,
{
    DeviceMessage {
        site_id: clone_opt_string(site_id),
        stream_group: clone_opt_string(&ctx.stream_group),
        stream: clone_opt_string(&ctx.stream),
        batch_id: Option::Some(batch_id),
        message_id: Option::None,
        content: Vec::new(),
        close_option: CloseOption::CloseBatchOnly,
        compression: StoredCompression::Uncompressed,
        batch_slice_id: Option::None,
        chunk_id: Option::None,
    }
}

/// The record that completes a message under chunking: no payload.
pub fn build_message_completion(
    ctx: &MessageContext,
    site_id: &Option<String>,
    batch_id: String,
    message_id: String,
) -> (r: DeviceMessage)
    ensures
        same_opt_string(r.site_id, *site_id),
        same_opt_string(r.stream_group, ctx.stream_group),
        same_opt_string(r.stream, ctx.stream),
        r.batch_id matches Option::Some(b) && b == batch_id,
        r.message_id matches Option::Some(m) && m == message_id,
        r.batch_slice_id is None,
        r.chunk_id is None,
        r.content@.len() == 0,
        r.close_option is CloseMessageOnly,
        r.compression is Uncompressed,
{
    DeviceMessage {
        site_id: clone_opt_string(site_id),
        stream_group: clone_opt_string(&ctx.stream_group),
        stream: clone_opt_string(&ctx.stream),
        batch_id: Option::Some(batch_id),
        message_id: Option::Some(message_id),
        content: Vec::new(),
        close_option: CloseOption::CloseMessageOnly,
        compression: StoredCompression::Uncompressed,
        batch_slice_id: Option::None,
        chunk_id: Option::None,
    }
}

/// `p` begins `s`.
pub open spec fn chars_prefix(s: Seq<char>, p: Seq<char>) -> bool {
    p.len() <= s.len() && s.take(p.len() as int) == p
}

/// `p` ends `s`.
pub open spec fn chars_suffix(s: Seq<char>, p: Seq<char>) -> bool {
    p.len() <= s.len() && s.skip(s.len() - p.len()) == p
}

/// The instance name a builder option resolves to: the default instance when
/// none is given, and the given one with one leading `https://` stripped.
pub open spec fn resolved_instance(instance: Option<String>) -> Seq<char> {
    match instance {
        Option::None => "api.eu1.spotflow.io"@,
        Option::Some(s) => if chars_prefix(s@, "https://"@) {
            s@.skip("https://"@.len() as int)
        } else {
            s@
        },
    }
}

/// Resolves the builder's instance option.
pub fn normalize_instance(instance: &Option<String>) -> (r: String)
    ensures
        r@ == resolved_instance(*instance),
{
    match instance {
        Option::None => String::from_str("api.eu1.spotflow.io"),
        Option::Some(s) => {
            let prefix = "https://";
            proof {
                reveal_strlit("https://");
            }
            let s_len = s.as_str().unicode_len();
            let p_len = prefix.unicode_len();
            let is_prefix = crate::config::has_char_prefix(s.as_str(), s_len, prefix, p_len);
            if is_prefix {
                let stripped = s.as_str().substring_char(p_len, s_len);
                String::from_str(stripped)
            } else {
                s.clone()
            }
        },
    }
}

/// The platform URL of a resolved instance name.
pub fn instance_url_text(instance: &str) -> (r: String)
    ensures
        r@ == "https://"@ + instance@,
{
    let mut out = String::from_str("https://");
    out.append(instance);
    out
}

/// Whether a database-file path is acceptable: it must not be empty and must
/// end in `.db`.
pub fn validate_database_file(path: &str) -> (r: bool)
    ensures
        r <==> (path@.len() > 0 && chars_suffix(path@, ".db"@)),
{
    proof {
        reveal_strlit(".db");
    }
    let n = path.unicode_len();
    if n < 3 {
        return false;
    }
    let suffix = path.substring_char(n - 3, n);
    let ok = crate::config::has_char_prefix(suffix, 3, ".db", 3);
    proof {
        assert(suffix@.take(3) =~= suffix@);
    }
    ok
}

/// A stop request observed by a signal source.
pub struct SignalStop {}

/// Checks whether a system signal asked the process to stop.  Blocking waits
/// poll this between rounds.  A user-provided source may report a stop at
/// any time, so the trait itself promises nothing of the result.
pub trait ProcessSignalsSource {
    /// Reports a pending stop request as an error.
    fn check_signals(&self) -> Result<(), SignalStop>;
}

/// The signal source used when the caller provides none: it never reports a
/// stop request.
pub struct EmptyProcessSignalsSource {}

impl EmptyProcessSignalsSource {
    /// A source that never stops the process.
    pub fn instance() -> (r: EmptyProcessSignalsSource) {
        EmptyProcessSignalsSource {  }
    }
}

impl ProcessSignalsSource for EmptyProcessSignalsSource {
    /// The empty source always allows the process to continue.
    fn check_signals(&self) -> (r: Result<(), SignalStop>)
        ensures
            r is Ok,
    {
        Result::Ok(())
    }
}

} // verus!
