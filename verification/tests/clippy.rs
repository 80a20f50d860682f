use cargo_rustics::clippy::{collect_findings, stream_lines, Envelope, Message, MessageSpan};
use cargo_rustics::report::Severity;

fn envelope(reason: &str, code: &str, level: &str, file: &str, line: usize) -> Envelope {
    Envelope {
        reason: reason.into(),
        message: Some(Message {
            message: "oops".into(),
            level: level.into(),
            code: Some(code.into()),
            spans: vec![MessageSpan {
                file_name: file.into(),
                line_start: line,
                is_primary: true,
            }],
        }),
    }
}

#[test]
fn empty_input_returns_empty() {
    assert!(stream_lines("").is_empty());
    assert!(collect_findings(&[]).is_empty());
}

#[test]
fn clippy_warning_becomes_violation() {
    let envs = vec![envelope(
        "compiler-message",
        "clippy::needless_borrow",
        "warning",
        "src/x.rs",
        12,
    )];
    let v = collect_findings(&envs);
    assert_eq!(v.len(), 1);
    assert_eq!(v[0].metric, "clippy::needless_borrow");
    assert_eq!(v[0].file, "src/x.rs");
    assert_eq!(v[0].line, 12);
    assert_eq!(v[0].scope, "src/x.rs:12");
    assert_eq!(v[0].rationale, "oops");
    assert_eq!(v[0].severity, Severity::Warning);
}

#[test]
fn rustc_warnings_are_ignored() {
    let envs = vec![envelope(
        "compiler-message",
        "unused_variables",
        "warning",
        "src/x.rs",
        1,
    )];
    assert!(collect_findings(&envs).is_empty());
}

#[test]
fn error_level_becomes_error_severity() {
    let envs = vec![envelope(
        "compiler-message",
        "clippy::correctness",
        "error",
        "src/x.rs",
        1,
    )];
    let v = collect_findings(&envs);
    assert_eq!(v[0].severity, Severity::Error);
}

#[test]
fn invalid_json_lines_are_skipped() {
    let lines = stream_lines("not json\n{\"reason\":\"build-script-executed\"}\n");
    assert_eq!(lines.len(), 2);
    // The first line does not decode; the second decodes to an envelope
    // that is not a compiler message.
    let envs = vec![Envelope {
        reason: "build-script-executed".into(),
        message: None,
    }];
    assert!(collect_findings(&envs).is_empty());
}

#[test]
fn message_without_code_is_dropped() {
    let envs = vec![Envelope {
        reason: "compiler-message".into(),
        message: Some(Message {
            message: "x".into(),
            level: "warning".into(),
            code: None,
            spans: vec![],
        }),
    }];
    assert!(collect_findings(&envs).is_empty());
}

#[test]
fn message_without_spans_is_dropped() {
    let envs = vec![Envelope {
        reason: "compiler-message".into(),
        message: Some(Message {
            message: "x".into(),
            level: "warning".into(),
            code: Some("clippy::abc".into()),
            spans: vec![],
        }),
    }];
    assert!(collect_findings(&envs).is_empty());
}

#[test]
fn unknown_level_maps_to_info_severity() {
    let envs = vec![envelope(
        "compiler-message",
        "clippy::abc",
        "note",
        "src/x.rs",
        1,
    )];
    let v = collect_findings(&envs);
    assert_eq!(v[0].severity, Severity::Info);
}

#[test]
fn empty_message_is_dropped() {
    let envs = vec![Envelope {
        reason: "compiler-message".into(),
        message: None,
    }];
    assert!(collect_findings(&envs).is_empty());
}
