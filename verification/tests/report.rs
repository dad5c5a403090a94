use host_core::report::{relabel_report_value, rewrite_report_file_labels};
use host_core::input::FileInput;
use host_core::tool::{
    invalid_json_body, rvl_answer, rvl_status, shape_answer, shape_status, tool_failure,
    tool_report, RvlOutcome, ToolRun,
};

#[test]
fn rewrite_report_file_labels_replaces_temp_paths() {
    let output = rewrite_report_file_labels(
        r#"{"files":{"old":"/tmp/a.csv","new":"/tmp/b.csv"},"outcome":"OK"}"#,
        "old.csv",
        "new.csv",
    );
    let value: serde_json::Value =
        serde_json::from_str(&output).expect("rewritten JSON should parse");
    assert_eq!(value["files"]["old"], "old.csv");
    assert_eq!(value["files"]["new"], "new.csv");
}

#[test]
fn rewrite_keeps_other_members() {
    let output = rewrite_report_file_labels(
        r#"{"outcome":"OK","files":{"old":"/tmp/a.csv","extra":1},"n":[1,2]}"#,
        "a",
        "b",
    );
    assert_eq!(
        output,
        r#"{"files":{"extra":1,"new":"b","old":"a"},"n":[1,2],"outcome":"OK"}"#
    );
}

#[test]
fn rewrite_leaves_non_json_alone() {
    for report in ["", "not json", "{\"files\":", "[1,"] {
        assert_eq!(rewrite_report_file_labels(report, "a", "b"), report);
    }
}

#[test]
fn rewrite_without_files_object_only_reformats() {
    assert_eq!(rewrite_report_file_labels("{ \"b\" : 1 , \"a\" : 2 }", "x", "y"), r#"{"a":2,"b":1}"#);
    assert_eq!(rewrite_report_file_labels(r#"{"files":"old"}"#, "x", "y"), r#"{"files":"old"}"#);
    assert_eq!(rewrite_report_file_labels(r#"[{"files":{}}]"#, "x", "y"), r#"[{"files":{}}]"#);
}

#[test]
fn rewrite_is_idempotent() {
    let report = r#"{"files":{"old":"/tmp/a.csv","new":"/tmp/b.csv"},"outcome":"OK"}"#;
    let once = rewrite_report_file_labels(report, "old.csv", "new.csv");
    let twice = rewrite_report_file_labels(&once, "old.csv", "new.csv");
    assert_eq!(once, twice);
}

#[test]
fn relabel_parsed_value() {
    let value: serde_json::Value = serde_json::from_str(r#"{"files":{}}"#).unwrap();
    assert_eq!(
        relabel_report_value(value, "fallback", "o", "n"),
        r#"{"files":{"new":"n","old":"o"}}"#
    );
    let value: serde_json::Value = serde_json::from_str("3").unwrap();
    assert_eq!(relabel_report_value(value, "fallback", "o", "n"), "3");
}

#[test]
fn tool_statuses() {
    assert_eq!(rvl_status(RvlOutcome::NoRealChange), 200);
    assert_eq!(rvl_status(RvlOutcome::RealChange), 200);
    assert_eq!(rvl_status(RvlOutcome::Refusal), 422);
    assert_eq!(shape_status(true), 422);
    assert_eq!(shape_status(false), 200);
}

#[test]
fn tool_report_relabels() {
    let run = tool_report(422, r#"{"files":{"old":"/tmp/x"}}"#, "old.csv", "new.csv");
    assert_eq!(run.status(), 422);
    assert_eq!(run.report_json(), r#"{"files":{"new":"new.csv","old":"old.csv"}}"#);
    let run = ToolRun::json(200, "{}".to_string());
    let copy = run.clone();
    assert_eq!(copy.status(), 200);
    assert_eq!(copy.report_json(), "{}");
}

#[test]
fn later_labels_replace_earlier_ones() {
    let report = r#"{"files":{"old":"/tmp/a.csv","new":"/tmp/b.csv"},"outcome":"OK"}"#;
    let first = rewrite_report_file_labels(report, "a", "b");
    let again = rewrite_report_file_labels(&first, "c", "d");
    assert_eq!(again, rewrite_report_file_labels(report, "c", "d"));
}

fn inline(filename: Option<&str>) -> FileInput {
    FileInput::InlineBase64 {
        content_b64: String::new(),
        filename: filename.map(str::to_string),
    }
}

#[test]
fn rvl_answer_carries_caller_labels() {
    let output = r#"{"files":{"old":"/tmp/cmdrvl-host-1.csv","new":"/tmp/cmdrvl-host-2.csv"},"outcome":"REAL_CHANGE"}"#;
    let run = rvl_answer(RvlOutcome::RealChange, output, &inline(Some("mine.csv")), &inline(None));
    assert_eq!(run.status(), 200);
    let value: serde_json::Value = serde_json::from_str(run.report_json()).unwrap();
    assert_eq!(value["files"]["old"], "mine.csv");
    assert_eq!(value["files"]["new"], "new.csv");
    let remote = FileInput::KovrexFile { file_id: "kvx_1".to_string(), filename: None };
    let run = rvl_answer(RvlOutcome::Refusal, output, &remote, &inline(None));
    assert_eq!(run.status(), 422);
    let value: serde_json::Value = serde_json::from_str(run.report_json()).unwrap();
    assert_eq!(value["files"]["old"], "kvx_1");
}

#[test]
fn shape_answer_carries_caller_labels() {
    let output = r#"{"files":{"old":"/tmp/x.csv","new":"/tmp/y.csv"}}"#;
    let run = shape_answer(false, output, &inline(None), &inline(Some("b.csv")));
    assert_eq!(run.status(), 200);
    assert_eq!(run.report_json(), r#"{"files":{"new":"b.csv","old":"old.csv"}}"#);
    assert_eq!(shape_answer(true, output, &inline(None), &inline(None)).status(), 422);
}

#[test]
fn run_failure_errors() {
    let e = tool_failure("rvl", "boom");
    assert_eq!(e.status(), 500);
    assert_eq!(e.message(), "rvl execution failed: boom");
    let e = invalid_json_body("expected value at line 1 column 1");
    assert_eq!(e.status(), 400);
    assert_eq!(e.message(), "invalid JSON body: expected value at line 1 column 1");
}
