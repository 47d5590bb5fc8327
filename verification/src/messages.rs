//! The records that the durable store carries.

use vstd::prelude::*;

use crate::json::Json;

verus! {

/// How the platform is asked to finalize a batch or message.
pub enum CloseOption {
    /// No close semantics: an ordinary message.
    NoClose,
    /// Complete the batch that the message belongs to.
    CloseBatch,
    /// Complete the batch and ignore the payload.
    CloseBatchOnly,
    /// Complete the message and ignore the payload.
    CloseMessageOnly,
}

/// The compression applied to an outbound payload.
pub enum Compression {
    /// Send the payload as it is.
    Uncompressed,
    /// Compress with the fastest settings.
    BrotliFastest,
    /// Compress with the settings that give the smallest output.
    BrotliSmallestSize,
}

/// One outbound telemetry record, as the outbox stores it.
pub struct DeviceMessage {
    pub site_id: Option<String>,
    pub stream_group: Option<String>,
    pub stream: Option<String>,
    pub batch_id: Option<String>,
    pub message_id: Option<String>,
    pub content: Vec<u8>,
    pub close_option: CloseOption,
    pub compression: Compression,
    pub batch_slice_id: Option<String>,
    pub chunk_id: Option<String>,
}

/// One inbound cloud-to-device record, as the inbox stores it.
pub struct CloudToDeviceMessage {
    pub content: Vec<u8>,
    pub properties: Vec<(Vec<u8>, Vec<u8>)>,
}

/// Whether a queued reported-properties update carries the intended complete
/// object or a ready-made patch.
pub enum ReportedPropertiesUpdateType {
    /// The caller supplied the whole intended reported object; the reconciler
    /// diffs it against the last snapshot.
    Full,
    /// The caller supplied the patch itself.
    Patch,
}

/// One queued reported-properties update.
pub struct ReportedPropertiesUpdate {
    pub update_type: ReportedPropertiesUpdateType,
    pub patch: Json,
}

} // verus!
