//! The per-message pipeline: one accepted intake message is parsed, pivoted
//! and typed into the batch to submit under its collection's name, or into
//! the failure to report. By then the request has long been acknowledged, so
//! every failure here is terminal for the message and only observable
//! through logs.

use vstd::prelude::*;
use crate::batch::{
    build_batch, build_result_model, spec_process, BatchModel, BuildError, ColumnarBatch,
    ErrModel,
};
use crate::json::{parse_bytes, parsed_json};

verus! {

/// One accepted intake message: when it was accepted (epoch seconds), the
/// destination collection, and the raw body bytes. Consumed exactly once.
pub struct RawMessage {
    pub accepted: i64,
    pub index: String,
    pub body: Vec<u8>,
}

/// Parses the raw bytes as JSON and builds the columnar batch, exactly as
/// `spec_process` states it; never panics, whatever the bytes hold.
pub fn process_payload(bytes: &[u8]) -> (r: Result<ColumnarBatch, BuildError>)
    ensures
        build_result_model(r) == spec_process(bytes@),
{
    match parse_bytes(bytes) {
        None => Err(BuildError::MalformedPayload),
        Some(v) => build_batch(v),
    }
}

/// The verified core of one unit of work: what batch an accepted message
/// yields for its collection, or which failure it ends in.
pub fn process_json(msg: RawMessage) -> (r: Result<(String, ColumnarBatch), BuildError>)
    ensures
        match r {
            Ok(p) => p.0@ == msg.index@ && spec_process(msg.body@) == Ok::<
                BatchModel,
                ErrModel,
            >(p.1@),
            Err(e) => spec_process(msg.body@) == Err::<BatchModel, ErrModel>(e@),
        },
{
    match process_payload(msg.body.as_slice()) {
        Ok(b) => Ok((msg.index, b)),
        Err(e) => Err(e),
    }
}

/// Bytes that are not one well-formed JSON document always end in
/// `MalformedPayload`, so no batch exists and no write can be attempted.
pub proof fn lemma_malformed_payload(bytes: Seq<u8>)
    requires
        parsed_json(bytes) is None,
    ensures
        spec_process(bytes) == Err::<BatchModel, ErrModel>(ErrModel::MalformedPayload),
{
}

} // verus!
