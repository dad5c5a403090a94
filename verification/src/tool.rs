//! What a hosted tool run answers: the status that a tool's outcome maps to,
//! the checked delimiter option, and the relabelled report.
use vstd::prelude::*;

use crate::delimiter::{parse_delimiter, spec_parse_delimiter};
use crate::error::{
    is_status_code, HostError, BAD_REQUEST, INTERNAL_SERVER_ERROR, OK, UNPROCESSABLE_ENTITY,
};
use crate::input::{spec_display_name, FileInput};
use crate::report::{rewrite_report_file_labels, spec_rewrite_report};

verus! {

/// A tool's answer: a status and the JSON report sent with it.
#[derive(Debug)]
pub struct ToolRun {
    status: u16,
    report_json: String,
}

impl ToolRun {
    #[verifier::type_invariant]
    spec fn well_formed(self) -> bool {
        is_status_code(self.status)
    }

    /// The status the run is answered with.
    pub closed spec fn spec_status(&self) -> u16 {
        self.status
    }

    /// The report sent with the answer.
    pub closed spec fn spec_report_json(&self) -> Seq<char> {
        self.report_json@
    }

    /// A JSON answer with the given status.
    pub fn json(status: u16, report_json: String) -> (t: Self)
        requires
            is_status_code(status),
        ensures
            t.spec_status() == status,
            t.spec_report_json() == report_json@,
    {
        ToolRun { status, report_json }
    }

    /// The status the run is answered with.
    pub fn status(&self) -> (s: u16)
        ensures
            s == self.spec_status(),
            is_status_code(s),
    {
        proof {
            use_type_invariant(self);
        }
        self.status
    }

    /// The report sent with the answer.
    pub fn report_json(&self) -> (r: &str)
        ensures
            r@ == self.spec_report_json(),
    {
        self.report_json.as_str()
    }
}

impl Clone for ToolRun {
    fn clone(&self) -> (r: Self)
        ensures
            r == *self,
    {
        proof {
            use_type_invariant(self);
        }
        ToolRun { status: self.status, report_json: self.report_json.clone() }
    }
}

/// The message for a delimiter option that names no delimiter.
pub open spec fn unsupported_delimiter_message(raw: Seq<char>) -> Seq<char> {
    "unsupported delimiter value: "@ + raw
}

/// The delimiter a request asks for: none when the option is absent, the
/// byte it names, or a `400` error when it names none.
pub fn requested_delimiter(raw: Option<&str>) -> (r: Result<Option<u8>, HostError>)
    ensures
        match raw {
            None => r matches Ok(None),
            Some(text) => match spec_parse_delimiter(text@) {
                Some(b) => r matches Ok(Some(d)) && d == b,
                None => r matches Err(e) && e.spec_status() == BAD_REQUEST && e.spec_message()
                    == unsupported_delimiter_message(text@),
            },
        },
{
    match raw {
        None => Ok(None),
        Some(text) => match parse_delimiter(text) {
            Some(b) => Ok(Some(b)),
            None => {
                let mut message = "unsupported delimiter value: ".to_owned();
                message.append(text);
                Err(HostError::bad_request(message))
            },
        },
    }
}

/// The outcome of an `rvl` comparison.
#[derive(Clone, Copy, Debug, PartialEq, Eq)]
pub enum RvlOutcome {
    NoRealChange,
    RealChange,
    Refusal,
}

/// The status an `rvl` outcome is answered with.
pub open spec fn spec_rvl_status(outcome: RvlOutcome) -> u16 {
    match outcome {
        RvlOutcome::Refusal => UNPROCESSABLE_ENTITY,
        _ => OK,
    }
}

/// An `rvl` run is answered `200` unless `rvl` refused, which is `422`.
pub fn rvl_status(outcome: RvlOutcome) -> (s: u16)
    ensures
        s == spec_rvl_status(outcome),
{
    match outcome {
        RvlOutcome::NoRealChange => OK,
        RvlOutcome::RealChange => OK,
        RvlOutcome::Refusal => UNPROCESSABLE_ENTITY,
    }
}

/// A `shape` run is answered `422` when `shape` refused, `200` otherwise.
pub fn shape_status(refused: bool) -> (s: u16)
    ensures
        s == (if refused {
            UNPROCESSABLE_ENTITY
        } else {
            OK
        }),
{
    if refused {
        UNPROCESSABLE_ENTITY
    } else {
        OK
    }
}

/// The answer to a tool run: its report with the input files relabelled,
/// under the given status.
pub fn tool_report(status: u16, report_json: &str, old_label: &str, new_label: &str) -> (t: ToolRun)
    requires
        is_status_code(status),
    ensures
        t.spec_status() == status,
        t.spec_report_json() == spec_rewrite_report(report_json@, old_label@, new_label@),
{
    ToolRun::json(status, rewrite_report_file_labels(report_json, old_label, new_label))
}

/// The report of a run with the caller's names for its inputs in place of
/// the temporary files': the old input's name defaults to `old.csv`, the new
/// one's to `new.csv`.
pub open spec fn spec_labelled_report(output: Seq<char>, old: FileInput, new: FileInput) -> Seq<char> {
    spec_rewrite_report(
        output,
        spec_display_name(old, "old.csv"@),
        spec_display_name(new, "new.csv"@),
    )
}

fn labelled_report(status: u16, output: &str, old: &FileInput, new: &FileInput) -> (t: ToolRun)
    requires
        is_status_code(status),
    ensures
        t.spec_status() == status,
        t.spec_report_json() == spec_labelled_report(output@, *old, *new),
{
    let old_label = old.display_name("old.csv");
    let new_label = new.display_name("new.csv");
    tool_report(status, output, old_label.as_str(), new_label.as_str())
}

/// The answer to an `rvl` run with outcome `outcome` and report `output`,
/// comparing the inputs `old` and `new`.
pub fn rvl_answer(outcome: RvlOutcome, output: &str, old: &FileInput, new: &FileInput) -> (t: ToolRun)
    ensures
        t.spec_status() == spec_rvl_status(outcome),
        t.spec_report_json() == spec_labelled_report(output@, *old, *new),
{
    labelled_report(rvl_status(outcome), output, old, new)
}

/// The answer to a `shape` run that refused or not, with report `output`,
/// comparing the inputs `old` and `new`.
pub fn shape_answer(refused: bool, output: &str, old: &FileInput, new: &FileInput) -> (t: ToolRun)
    ensures
        t.spec_status() == (if refused {
            UNPROCESSABLE_ENTITY
        } else {
            OK
        }),
        t.spec_report_json() == spec_labelled_report(output@, *old, *new),
{
    labelled_report(shape_status(refused), output, old, new)
}

/// The `500` error for a tool that failed to run (`rvl execution failed:
/// ...`).
pub fn tool_failure(tool_name: &str, error: &str) -> (e: HostError)
    ensures
        e.spec_status() == INTERNAL_SERVER_ERROR,
        e.spec_message() == tool_name@ + " execution failed: "@ + error@,
{
    let mut message = tool_name.to_owned();
    message.append(" execution failed: ");
    message.append(error);
    HostError::internal(message)
}

/// The `400` error for a request body that is not the tool's request.
pub fn invalid_json_body(error: &str) -> (e: HostError)
    ensures
        e.spec_status() == BAD_REQUEST,
        e.spec_message() == "invalid JSON body: "@ + error@,
{
    let mut message = "invalid JSON body: ".to_owned();
    message.append(error);
    HostError::bad_request(message)
}

} // verus!
