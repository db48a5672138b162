//! Reading the Part 21 bytes with step-io: the one place where the library
//! hands the raw input to the reader, and turns a parse failure into the
//! message that the viewer shows.
use vstd::prelude::*;
use crate::info::{parse_failure, parse_failure_text};

verus! {

#[verifier::external_type_specification]
#[verifier::external_body]
pub struct ExStepModel(step_io::StepModel);

#[verifier::external_type_specification]
#[verifier::external_body]
pub struct ExStepReport(step_io::Report);

/// Whether step-io parses these bytes. `step_io::read` fails only when the
/// source does not parse, and its outcome depends on the bytes alone.
pub uninterp spec fn step_parses(bytes: Seq<u8>) -> bool;

/// The `Display` text of the error `step_io::read` gives on bytes that do not
/// parse (for instance "parse error at line 3, column 7: ..."). The error is
/// a function of the bytes, and its text a function of the error.
pub uninterp spec fn step_error_message(bytes: Seq<u8>) -> Seq<char>;

/// Calls `step_io::read`, turning a parse error into its `Display` text.
/// Claimed: it returns `Ok` exactly on the bytes that parse (a parsed source
/// never fails the read: bad entities are dropped and reported), and on the
/// others the error's text, which is named by the bytes. Nothing is claimed
/// of the model or the report themselves.
#[verifier::external_body]
fn step_read(bytes: &[u8]) -> (r: Result<(step_io::StepModel, step_io::Report), String>)
    ensures
        r is Ok <==> step_parses(bytes@),
        r matches Err(t) ==> t@ == step_error_message(bytes@),
{
    match step_io::read(bytes) {
        Ok(v) => Ok(v),
        Err(e) => Err(format!("{e}")),
    }
}

/// Reads a STEP file. On bytes that do not parse, the error is the message
/// that the viewer shows: "parse failed: " and the reader's own description.
pub fn read_step(bytes: &[u8]) -> (r: Result<(step_io::StepModel, step_io::Report), String>)
    ensures
        r is Ok <==> step_parses(bytes@),
        r matches Err(msg) ==> msg@ == parse_failure_text(step_error_message(bytes@)),
{
    match step_read(bytes) {
        Ok(v) => Ok(v),
        Err(text) => Err(parse_failure(text.as_str())),
    }
}

} // verus!
