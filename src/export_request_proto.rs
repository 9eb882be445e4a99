//! The export batch builder: span encodings wrapped, with the service's
//! identity, into one export request.
use vstd::prelude::*;
use crate::error::{CoreError, CoreResult};
use crate::json_text::{int_text, serde_integer_text};
use crate::protobuf_struct::decode_error_message;
use crate::span_proto::{decode_span, span_decoding, span_model, span_within, SpanModel};

verus! {

#[verifier::external_type_specification]
#[verifier::external_body]
pub struct ExExportSpansRequest(tusk_drift_schemas::tusk::drift::backend::v1::ExportSpansRequest);

/// The model of an export request.
pub struct RequestModel {
    pub observable_service_id: Seq<char>,
    pub environment: Seq<char>,
    pub sdk_version: Seq<char>,
    pub sdk_instance_id: Seq<char>,
    pub spans: Seq<SpanModel>,
}

/// What an export request holds.
pub uninterp spec fn request_model(r: tusk_drift_schemas::tusk::drift::backend::v1::ExportSpansRequest) -> RequestModel;

/// The export request that protobuf decodes from these bytes, or `None`
/// where they are not a request's encoding.
pub uninterp spec fn request_decoding(b: Seq<u8>) -> Option<RequestModel>;

pub open spec fn spans_model(s: Seq<tusk_drift_schemas::tusk::drift::core::v1::Span>) -> Seq<SpanModel> {
    Seq::new(s.len(), |i: int| span_model(s[i]))
}

/// Relies on the fields of tusk_drift_schemas' ExportSpansRequest.
#[verifier::external_body]
fn make_request(
    observable_service_id: &str,
    environment: &str,
    sdk_version: &str,
    sdk_instance_id: &str,
    spans: Vec<tusk_drift_schemas::tusk::drift::core::v1::Span>,
) -> (r: tusk_drift_schemas::tusk::drift::backend::v1::ExportSpansRequest)
    ensures
        request_model(r) == (RequestModel {
            observable_service_id: observable_service_id@,
            environment: environment@,
            sdk_version: sdk_version@,
            sdk_instance_id: sdk_instance_id@,
            spans: spans_model(spans@),
        }),
{
    tusk_drift_schemas::tusk::drift::backend::v1::ExportSpansRequest {
        observable_service_id: observable_service_id.to_string(),
        environment: environment.to_string(),
        sdk_version: sdk_version.to_string(),
        sdk_instance_id: sdk_instance_id.to_string(),
        spans,
    }
}

/// Relies on prost::Message::encode_to_vec for an ExportSpansRequest:
/// where the bytes decode, they give the request back; they do decode where
/// every span's nesting is within prost's recursion limit, one level lower.
#[verifier::external_body]
fn encode_request(req: &tusk_drift_schemas::tusk::drift::backend::v1::ExportSpansRequest) -> (r: Vec<u8>)
    ensures
        request_decoding(r@) is Some ==> request_decoding(r@) == Some(request_model(*req)),
        (forall|i: int| 0 <= i < request_model(*req).spans.len() ==> span_within(
            #[trigger] request_model(*req).spans[i],
        )) ==> request_decoding(r@) is Some,
{
    prost::Message::encode_to_vec(req)
}

/// Whether every buffer decodes as a span.
pub open spec fn all_spans_decode(list: Seq<Vec<u8>>) -> bool {
    forall|i: int| 0 <= i < list.len() ==> (#[trigger] span_decoding(list[i]@)) is Some
}

/// The request that the batch builder assembles.
pub open spec fn batch_of(
    observable_service_id: Seq<char>,
    environment: Seq<char>,
    sdk_version: Seq<char>,
    sdk_instance_id: Seq<char>,
    list: Seq<Vec<u8>>,
) -> RequestModel {
    RequestModel {
        observable_service_id,
        environment,
        sdk_version,
        sdk_instance_id,
        spans: Seq::new(list.len(), |i: int| span_decoding(list[i]@)->0),
    }
}

/// The start of the message for a buffer that does not decode: it names
/// the buffer's index.
pub open spec fn failure_prefix(i: int) -> Seq<char> {
    "failed to decode span proto bytes at index "@ + int_text(i)
}

/// Decodes each span encoding and wraps the spans, in order, with the four
/// identity strings into one export request, which it encodes. Fails with
/// `SerializationError` where a buffer does not decode as a span.
pub fn build_export_spans_request_bytes(
    observable_service_id: &str,
    environment: &str,
    sdk_version: &str,
    sdk_instance_id: &str,
    span_proto_bytes_list: &[Vec<u8>],
) -> (r: CoreResult<Vec<u8>>)
    ensures
        r is Ok <==> all_spans_decode(span_proto_bytes_list@),
        r matches Ok(b) ==> (request_decoding(b@) is Some ==> request_decoding(b@) == Some(
            batch_of(
                observable_service_id@,
                environment@,
                sdk_version@,
                sdk_instance_id@,
                span_proto_bytes_list@,
            ),
        )),
        r matches Ok(b) ==> ((forall|i: int| 0 <= i < span_proto_bytes_list@.len() ==> span_within(
            #[trigger] span_decoding(span_proto_bytes_list@[i]@)->0,
        )) ==> request_decoding(b@) is Some),
        r matches Err(e) ==> e is SerializationError,
        r matches Err(CoreError::SerializationError(m)) ==> exists|i: int|
            0 <= i < span_proto_bytes_list@.len() && span_decoding(span_proto_bytes_list@[i]@) is None
                && (i <= i64::MAX ==> m@.len() >= failure_prefix(i).len() && m@.subrange(
                0,
                failure_prefix(i).len() as int,
            ) == failure_prefix(i)),
{
    let mut spans: Vec<tusk_drift_schemas::tusk::drift::core::v1::Span> = Vec::new();
    let mut i: usize = 0;
    while i < span_proto_bytes_list.len()
        invariant
            i <= span_proto_bytes_list@.len(),
            spans@.len() == i,
            forall|k: int| 0 <= k < i ==> span_decoding(span_proto_bytes_list@[k]@) == Some(span_model(#[trigger] spans@[k])),
        decreases span_proto_bytes_list@.len() - i,
    {
        match decode_span(span_proto_bytes_list[i].as_slice()) {
            Ok(s) => {
                spans.push(s);
            },
            Err(e) => {
                let mut m = String::from_str("failed to decode span proto bytes at index ");
                let index: i64 = if (i as u64) <= 9223372036854775807u64 { i as i64 } else { -1 };
                m.append(serde_integer_text(index).as_str());
                let ghost p = m@;
                m.append(": ");
                m.append(decode_error_message(&e).as_str());
                proof {
                    assert(i <= i64::MAX ==> p == failure_prefix(i as int));
                    assert(m@.subrange(0, p.len() as int) =~= p);
                    assert(span_decoding(span_proto_bytes_list@[i as int]@) is None);
                    let k = i as int;
                    assert(m@.len() >= p.len());
                    assert(k <= i64::MAX ==> m@.len() >= failure_prefix(k).len() && m@.subrange(0, failure_prefix(k).len() as int) == failure_prefix(k));
                }
                return Err(CoreError::SerializationError(m));
            },
        }
        i = i + 1;
    }
    let req = make_request(observable_service_id, environment, sdk_version, sdk_instance_id, spans);
    proof {
        assert forall|k: int| 0 <= k < span_proto_bytes_list@.len() implies (#[trigger] span_decoding(span_proto_bytes_list@[k]@)) is Some by {
            assert(span_decoding(span_proto_bytes_list@[k]@) == Some(span_model(spans@[k])));
        }
        assert(spans_model(spans@) =~= batch_of(
            observable_service_id@,
            environment@,
            sdk_version@,
            sdk_instance_id@,
            span_proto_bytes_list@,
        ).spans);
    }
    Ok(encode_request(&req))
}

} // verus!
