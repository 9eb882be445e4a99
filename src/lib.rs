//! Deterministic normalization, hashing, schema inference and protobuf
//! encoding of dynamically shaped JSON payloads, for a traffic-recording
//! pipeline.
use vstd::prelude::*;

pub mod error;
pub mod export_request_proto;
pub mod hash;
pub mod json_text;
pub mod laws;
pub mod merge_rule;
pub mod normalize;
pub mod order;
pub mod payload;
pub mod protobuf_struct;
pub mod schema;
pub mod span_proto;
pub mod value;

pub use error::{CoreError, CoreResult};
pub use export_request_proto::build_export_spans_request_bytes;
pub use hash::{deterministic_hash, normalize_and_hash};
pub use normalize::normalize_json;
pub use payload::{
    process_export_payload, process_export_payload_value, ExportPayloadResult,
    ExportPayloadValueResult,
};
pub use protobuf_struct::{
    object_to_protobuf_struct, object_to_protobuf_struct_bytes,
    object_to_protobuf_struct_field_count,
};
pub use span_proto::{build_span_proto_bytes, BuildSpanProtoInput};
pub use value::JsonValue;

verus! {

} // verus!
