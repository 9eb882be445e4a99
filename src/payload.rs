//! The payload processor: normalization, decode merges, schema inference,
//! hashing and the dynamic-value struct, in one pass.
use vstd::prelude::*;
use crate::error::{CoreError, CoreResult};
use crate::hash::{hash_json_value_deterministic, value_hash};
use crate::json_text::{
    json_parse, json_text, max_depth, numbers_valid, serde_form, sorted_keys, within_depth,
};
use crate::merge_rule::{merge_rules_of, parse_merge_rules, rules_view, MergeRule, RuleModel};
use crate::normalize::{
    json_roundtrip_normalize, lemma_canonical_fixed, lemma_serde_form_keys_sorted, normalizable,
    lemma_serde_form_numbers_valid, parse_json, roundtrip_model, write_json,
};
use crate::protobuf_struct::{encode_struct, json_object_to_struct, struct_encoding, struct_of};
use crate::schema::{
    apply_schema_merges_top_level, decoded_of, generate_schema_json_value, schema_of,
};
use crate::value::{Json, JsonValue};

verus! {

/// What payload processing gives for a JSON text.
#[derive(Debug)]
pub struct ExportPayloadResult {
    pub normalized_json: String,
    pub decoded_json: String,
    pub decoded_value_hash: String,
    pub decoded_schema_json: String,
    pub decoded_schema_hash: String,
    pub protobuf_struct_bytes: Vec<u8>,
}

/// What payload processing gives for a value tree.
#[derive(Debug)]
pub struct ExportPayloadValueResult {
    pub normalized_value: JsonValue,
    pub decoded_value: JsonValue,
    pub decoded_value_hash: String,
    pub decoded_schema_value: JsonValue,
    pub decoded_schema_hash: String,
    pub protobuf_struct_bytes: Vec<u8>,
}

/// The merge map of an optional directive text: empty when there is none.
pub open spec fn merges_of(merges: Option<Seq<char>>) -> Option<Seq<(Seq<char>, RuleModel)>> {
    match merges {
        Some(t) => merge_rules_of(t),
        None => Some(Seq::empty()),
    }
}

pub open spec fn opt_text(s: Option<&str>) -> Option<Seq<char>> {
    match s {
        Some(t) => Some(t@),
        None => None,
    }
}

/// The fields of a successful result for a normalized value `n` and merge
/// map `rs`: the struct reflects `n`, the hashes and the schema reflect the
/// decoded value.
pub open spec fn value_result_matches(res: ExportPayloadValueResult, n: Json, rs: Seq<(Seq<char>, RuleModel)>) -> bool {
    let d = decoded_of(n, rs);
    let s = schema_of(d, rs, true);
    &&& res.normalized_value@ == n
    &&& res.decoded_value@ == d
    &&& res.decoded_value_hash@ == value_hash(d)
    &&& res.decoded_schema_value@ == s
    &&& res.decoded_schema_hash@ == value_hash(s)
    &&& res.protobuf_struct_bytes@ == struct_encoding(struct_of(n))
}

/// Processes a value tree: normalizes it, applies the decode merges of the
/// directive text to its top-level fields, infers the schema of the decoded
/// value, hashes the decoded value and its schema, and encodes the
/// normalized (not the decoded) value as a protobuf struct. Fails with
/// `InvalidJson` where the directive text is not a valid merge map,
/// whatever the value, and otherwise with `SerializationError` where the
/// value cannot be normalized (a number text that is not a JSON number, or
/// nesting deeper than serde_json reads).
pub fn process_export_payload_value(
    payload_value: &JsonValue,
    schema_merges_json: Option<&str>,
) -> (r: CoreResult<ExportPayloadValueResult>)
    ensures
        r is Ok <==> normalizable(payload_value@) && merges_of(opt_text(schema_merges_json)) is Some,
        r matches Ok(res) ==> value_result_matches(
            res,
            roundtrip_model(payload_value@)->0,
            merges_of(opt_text(schema_merges_json))->0,
        ),
        merges_of(opt_text(schema_merges_json)) is None ==> (r matches Err(e) && e is InvalidJson),
        merges_of(opt_text(schema_merges_json)) is Some ==> (r matches Err(e) ==> e is SerializationError),
        merges_of(opt_text(schema_merges_json)) is Some && numbers_valid(sorted_keys(payload_value@)) && within_depth(
            serde_form(payload_value@),
            max_depth(),
        ) ==> normalizable(payload_value@),
        r matches Ok(res) ==> numbers_valid(sorted_keys(res.normalized_value@)) && numbers_valid(
            sorted_keys(res.decoded_value@),
        ) && numbers_valid(sorted_keys(res.decoded_schema_value@)),
{
    let rules: Vec<(String, MergeRule)> = match schema_merges_json {
        Some(t) => parse_merge_rules(t)?,
        None => Vec::new(),
    };
    let normalized = json_roundtrip_normalize(payload_value)?;
    proof {
        if schema_merges_json is None {
            assert(rules_view(rules@) =~= Seq::<(Seq<char>, RuleModel)>::empty());
        }
        assert(crate::schema::weights_valid(rules@));
    }
    let decoded = apply_schema_merges_top_level(&normalized, &rules);
    let decoded_schema_value = generate_schema_json_value(&decoded, &rules, true);
    proof {
        crate::normalize::lemma_parsed_normalizable(normalized@);
        lemma_serde_form_keys_sorted(decoded@);
        lemma_canonical_fixed(decoded@);
        lemma_serde_form_numbers_valid(decoded@);
        lemma_canonical_fixed(decoded_schema_value@);
    }
    let decoded_value_hash = match hash_json_value_deterministic(&decoded) {
        Ok(h) => h,
        Err(e) => {
            proof {
                assert(false);
            }
            return Err(e);
        },
    };
    let decoded_schema_hash = match hash_json_value_deterministic(&decoded_schema_value) {
        Ok(h) => h,
        Err(e) => {
            proof {
                assert(false);
            }
            return Err(e);
        },
    };
    let protobuf_struct_bytes = encode_struct(&json_object_to_struct(&normalized));
    Ok(
        ExportPayloadValueResult {
            normalized_value: normalized,
            decoded_value: decoded,
            decoded_value_hash,
            decoded_schema_value,
            decoded_schema_hash,
            protobuf_struct_bytes,
        },
    )
}

/// Processes a JSON text as [`process_export_payload_value`] does its value
/// tree, and writes the normalized value, the decoded value and the schema
/// as compact JSON text. Fails with `InvalidJson` where the text is not JSON
/// or the directive text is not a valid merge map, whichever the payload.
#[verifier::rlimit(30)]
pub fn process_export_payload(
    payload_json: &str,
    schema_merges_json: Option<&str>,
) -> (r: CoreResult<ExportPayloadResult>)
    ensures
        r is Ok <==> json_parse(payload_json@) is Some && merges_of(opt_text(schema_merges_json)) is Some,
        r matches Ok(res) ==> {
            let n = roundtrip_model(json_parse(payload_json@)->0)->0;
            let rs = merges_of(opt_text(schema_merges_json))->0;
            let d = decoded_of(n, rs);
            let s = schema_of(d, rs, true);
            &&& res.normalized_json@ == json_text(serde_form(n))
            &&& res.decoded_json@ == json_text(serde_form(d))
            &&& res.decoded_value_hash@ == value_hash(d)
            &&& res.decoded_schema_json@ == json_text(serde_form(s))
            &&& res.decoded_schema_hash@ == value_hash(s)
            &&& res.protobuf_struct_bytes@ == struct_encoding(struct_of(n))
        },
        r matches Err(e) ==> e is InvalidJson,
        merges_of(opt_text(schema_merges_json)) is None ==> r is Err,
{
    let input = parse_json(payload_json)?;
    proof {
        crate::normalize::lemma_parsed_normalizable(input@);
    }
    let value_result = match process_export_payload_value(&input, schema_merges_json) {
        Ok(v) => v,
        Err(e) => {
            return Err(
                match e {
                    CoreError::InvalidJson(m) => CoreError::InvalidJson(m),
                    CoreError::SerializationError(m) => {
                        proof {
                            assert(false);
                        }
                        CoreError::InvalidJson(m)
                    },
                },
            );
        },
    };
    let normalized_json = match write_json(&value_result.normalized_value) {
        Ok(t) => t,
        Err(e) => {
            proof {
                assert(false);
            }
            return Err(CoreError::InvalidJson(e.message().clone()));
        },
    };
    let decoded_json = match write_json(&value_result.decoded_value) {
        Ok(t) => t,
        Err(e) => {
            proof {
                assert(false);
            }
            return Err(CoreError::InvalidJson(e.message().clone()));
        },
    };
    let decoded_schema_json = match write_json(&value_result.decoded_schema_value) {
        Ok(t) => t,
        Err(e) => {
            proof {
                assert(false);
            }
            return Err(CoreError::InvalidJson(e.message().clone()));
        },
    };
    Ok(
        ExportPayloadResult {
            normalized_json,
            decoded_json,
            decoded_value_hash: value_result.decoded_value_hash,
            decoded_schema_json,
            decoded_schema_hash: value_result.decoded_schema_hash,
            protobuf_struct_bytes: value_result.protobuf_struct_bytes,
        },
    )
}

} // verus!
