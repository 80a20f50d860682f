use cargo_rustics::clippy::{
    collect_findings, message_to_finding, primary_span, severity_from_level, stream_lines,
    Envelope, Message, MessageSpan,
};
use cargo_rustics::cross_file::{
    fanout_findings, rationale_for, ImplSite, TypeImplLocation,
    CROSS_FILE_METRIC_IDS,
};
use cargo_rustics::doctor::{
    check_exclude, check_metric_id, doctor_exit, has_errors, missing_config_issue, render_report,
    Issue, IssueSeverity,
};
use cargo_rustics::config::ExcludeTable;
use cargo_rustics::explain::{find_violation, identity_block, rationale_block, string_list_block};
use cargo_rustics::measured::{metric_id_for, op_from_symbol, op_word, CheckError, Op};
use cargo_rustics::report::Severity;
use cargo_rustics::rules::{find_metric, write_rationale, write_string_list};
use cargo_rustics::scan;
use cargo_rustics::scan::{reference_count, select_unused, DeclSite};
use cargo_rustics::text::str_lines;
use cargo_rustics::yaml::{needs_quoting, scalar_string};

fn span(file: &str, line: usize, primary: bool) -> MessageSpan {
    MessageSpan {
        file_name: file.into(),
        line_start: line,
        is_primary: primary,
    }
}

#[test]
fn primary_span_picks_primary_when_multiple() {
    let spans = vec![span("a.rs", 1, false), span("b.rs", 2, true)];
    let s = primary_span(&spans).expect("primary");
    assert_eq!(s.file_name, "b.rs");
}

#[test]
fn primary_span_returns_none_for_empty() {
    assert!(primary_span(&[]).is_none());
}

#[test]
fn message_falls_back_to_first_span_when_none_primary() {
    let spans = vec![span("a.rs", 3, false), span("b.rs", 4, false)];
    assert_eq!(primary_span(&spans).unwrap().file_name, "a.rs");
}

#[test]
fn clippy_message_becomes_finding() {
    let msg = Message {
        message: "oops".into(),
        level: "warning".into(),
        code: Some("clippy::needless_borrow".into()),
        spans: vec![span("src/x.rs", 5, true)],
    };
    let f = message_to_finding(&msg).unwrap();
    assert_eq!(f.scope, "src/x.rs:5");
    assert_eq!(f.metric, "clippy::needless_borrow");
    assert_eq!(f.severity, Severity::Warning);
    let rustc = Message {
        message: "unused".into(),
        level: "warning".into(),
        code: Some("unused_variables".into()),
        spans: vec![span("src/x.rs", 5, true)],
    };
    assert!(message_to_finding(&rustc).is_none());
    assert_eq!(severity_from_level("error"), Severity::Error);
    assert_eq!(severity_from_level("note"), Severity::Info);
}

#[test]
fn non_message_envelope_is_ignored() {
    let envs = vec![
        Envelope {
            reason: "compiler-artifact".into(),
            message: None,
        },
        Envelope {
            reason: "compiler-message".into(),
            message: Some(Message {
                message: "m".into(),
                level: "error".into(),
                code: Some("clippy::x".into()),
                spans: vec![span("a.rs", 1, true)],
            }),
        },
    ];
    let out = collect_findings(&envs);
    assert_eq!(out.len(), 1);
    assert_eq!(out[0].severity, Severity::Error);
}

#[test]
fn stream_lines_trims_and_drops_blanks() {
    let lines = stream_lines("  a \n\n b\r\n");
    assert_eq!(lines, vec!["a".to_string(), "b".to_string()]);
}

#[test]
fn has_errors_distinguishes_severity() {
    assert!(!has_errors(&[]));
    assert!(!has_errors(&[Issue {
        severity: IssueSeverity::Info,
        message: "x".into(),
    }]));
    assert!(has_errors(&[Issue {
        severity: IssueSeverity::Error,
        message: "x".into(),
    }]));
}

#[test]
fn exclude_negation_pattern_is_flagged() {
    let mut issues = Vec::new();
    check_exclude(
        &ExcludeTable {
            patterns: vec!["!target/**".into(), "../x".into(), "ok/**".into()],
        },
        &mut issues,
    );
    assert_eq!(issues.len(), 2);
    assert!(issues[0].message.contains("starts with `!`"));
    assert!(issues[1].message.contains("contains `..`"));
    assert_eq!(doctor_exit(&issues), 1);
}

#[test]
fn unknown_metric_id_is_an_error() {
    let known = ["cyclomatic-complexity", "afferent-coupling"];
    let issue = check_metric_id("does-not-exist", &known).unwrap();
    assert_eq!(issue.severity, IssueSeverity::Error);
    assert_eq!(issue.message, "unknown metric id `does-not-exist` in rustics.toml");
    assert!(check_metric_id("afferent-coupling", &known).is_none());
}

#[test]
fn print_report_handles_empty_and_populated() {
    assert_eq!(
        render_report("/tmp/x", &[]),
        "rustics doctor — workspace: /tmp/x\n  no issues — config is healthy.\n"
    );
    let r = render_report(
        "/tmp/y",
        &[
            Issue {
                severity: IssueSeverity::Info,
                message: "i".into(),
            },
            Issue {
                severity: IssueSeverity::Error,
                message: "e".into(),
            },
        ],
    );
    assert_eq!(r, "rustics doctor — workspace: /tmp/y\n  INFO   i\n  ERROR  e\n");
}

#[test]
fn write_string_list_renders_each_item() {
    let mut buf = Vec::new();
    write_string_list(&mut buf, "hints", &["a", "b"]);
    let s = String::from_utf8(buf).unwrap();
    assert!(s.contains("hints:"));
    assert!(s.contains("- a"));
    assert!(s.contains("- b"));
}

#[test]
fn write_string_list_skips_when_empty() {
    let mut buf = Vec::new();
    write_string_list(&mut buf, "x", &[]);
    assert!(buf.is_empty());
}

#[test]
fn write_rationale_indents_each_line() {
    let mut buf = Vec::new();
    write_rationale(&mut buf, "first\nsecond\n");
    assert_eq!(String::from_utf8(buf).unwrap(), "  rationale:\n    first\n    second\n");
}

#[test]
fn run_errors_for_unknown_metric() {
    let ids = ["cyclomatic-complexity", "halstead-volume"];
    assert_eq!(find_metric(&ids, "halstead-volume"), Ok(1));
    let err = find_metric(&ids, "no-such-metric").unwrap_err();
    assert!(err.contains("no metric with id"));
}

#[test]
fn cross_file_rationale_lists_each_site() {
    let locations = vec![
        TypeImplLocation { file: "a.rs".into(), line: 1 },
        TypeImplLocation { file: "b.rs".into(), line: 7 },
    ];
    let s = rationale_for("Foo", 9, &locations);
    assert!(s.contains("`Foo` has 9 impl blocks"));
    assert!(s.contains("a.rs:1"));
    assert!(s.contains("b.rs:7"));
}

#[test]
fn trait_impl_fanout_rationale_lists_each_site() {
    let locations = vec![
        TypeImplLocation { file: "a.rs".into(), line: 1 },
        TypeImplLocation { file: "b.rs".into(), line: 7 },
    ];
    let s = rationale_for("Foo", 9, &locations);
    assert!(s.contains("`Foo` has 9 impl blocks"));
    assert!(s.contains("a.rs:1"));
    assert!(s.contains("b.rs:7"));
    assert!(s.ends_with("Sites:\n  - a.rs:1\n  - b.rs:7"));
}

#[test]
fn cross_file_metric_ids_unique_and_kebab_case() {
    let mut sorted: Vec<&'static str> = CROSS_FILE_METRIC_IDS.to_vec();
    sorted.sort_unstable();
    let dedup_count = {
        let mut d = sorted.clone();
        d.dedup();
        d.len()
    };
    assert_eq!(sorted.len(), dedup_count, "duplicate cross-file id");
    for id in CROSS_FILE_METRIC_IDS {
        assert!(
            id.chars().all(|c| c.is_ascii_lowercase() || c == '-'),
            "non-kebab-case id: {id}"
        );
    }
}

#[test]
fn fanout_groups_sorts_and_anchors_at_first_site() {
    let mut sites = Vec::new();
    for i in 0..9 {
        sites.push(ImplSite { target: "Zed".into(), file: "z.rs".into(), line: i + 1 });
        sites.push(ImplSite { target: "Alpha".into(), file: "a.rs".into(), line: 10 * (i + 1) });
    }
    sites.push(ImplSite { target: "Small".into(), file: "s.rs".into(), line: 1 });
    let out = fanout_findings(&sites);
    assert_eq!(out.len(), 2);
    assert_eq!(out[0].name, "Alpha");
    assert_eq!(out[0].line, 10);
    assert_eq!(out[0].count, 9);
    assert_eq!(out[0].severity, Severity::Warning);
    assert_eq!(out[1].name, "Zed");
    assert_eq!(out[1].file, "z.rs");
}

#[test]
fn op_word_renders_each_variant() {
    assert_eq!(op_word(Op::Lt), "<");
    assert_eq!(op_word(Op::Le), "<=");
    assert_eq!(op_word(Op::Eq), "==");
    assert_eq!(op_word(Op::Ne), "!=");
    assert_eq!(op_word(Op::Ge), ">=");
    assert_eq!(op_word(Op::Gt), ">");
}

#[test]
fn op_symbols_round_trip() {
    for op in [Op::Lt, Op::Le, Op::Eq, Op::Ge, Op::Gt, Op::Ne] {
        assert_eq!(op_from_symbol(op_word(op)), Some(op));
    }
    assert_eq!(op_from_symbol("=<"), None);
}

#[test]
fn check_error_displays_message() {
    let e = CheckError("hello".into());
    assert_eq!(e.message(), "hello");
}

#[test]
fn ident_to_metric_id_maps_known() {
    let known = ["cognitive-complexity", "cyclomatic-complexity"];
    assert_eq!(metric_id_for("cyclomatic_complexity", &known).unwrap(), 1);
}

#[test]
fn ident_to_metric_id_rejects_unknown() {
    let known = ["cyclomatic-complexity"];
    let err = metric_id_for("no_such_metric", &known).unwrap_err();
    assert!(err.message().contains("unknown metric"));
}

#[test]
fn quoting_kicks_in_for_yaml_specials() {
    assert!(needs_quoting("a: b"));
    assert!(needs_quoting("# tag"));
    assert!(needs_quoting("-leading"));
    assert!(!needs_quoting("plain word"));
}

#[test]
fn scalar_string_escapes_and_flattens() {
    assert_eq!(scalar_string("plain"), "plain");
    assert_eq!(scalar_string(""), "\"\"");
    assert_eq!(scalar_string("say \"hi\""), "\"say \\\"hi\\\"\"");
    assert_eq!(scalar_string("a\nb"), "\"a b\"");
}

#[test]
fn format_says_no_candidates_when_empty() {
    assert_eq!(scan::format(&[]), "rustics unused: no candidates found.\n");
}

#[test]
fn token_scan_reports_items_referenced_once() {
    let decls = vec![
        DeclSite { file: "b.rs".into(), line: 3, name: "g".into(), kind: "fn" },
        DeclSite { file: "a.rs".into(), line: 9, name: "S".into(), kind: "struct" },
        DeclSite { file: "a.rs".into(), line: 1, name: "f".into(), kind: "fn" },
    ];
    let tokens: Vec<String> = ["fn", "f", "fn", "g", "f", "struct", "S"]
        .iter()
        .map(|s| s.to_string())
        .collect();
    assert_eq!(reference_count(&tokens, "f"), 2);
    let out = select_unused(&decls, &tokens);
    let names: Vec<&str> = out.iter().map(|i| i.name.as_str()).collect();
    assert_eq!(names, vec!["S", "g"]);
    assert_eq!(
        scan::format(&out),
        "rustics unused: 2 candidate(s):\n  struct S — a.rs:9\n  fn g — b.rs:3\n"
    );
}

#[test]
fn explain_blocks_render() {
    let ids = vec!["abc".to_string(), "def".to_string()];
    assert_eq!(find_violation(&ids, "def"), Ok(1));
    assert_eq!(
        find_violation(&ids, "zzz"),
        Err("violation id `zzz` not found in snapshot".to_string())
    );
    assert_eq!(identity_block("abc", "x", 1), "# rustics explain v1\nid: abc\nfile: x\nline: 1\n");
    assert_eq!(rationale_block(Some("a\nb")), "rationale: |\n  a\n  b\n");
    assert_eq!(rationale_block(None), "");
    assert_eq!(string_list_block("references", &["r".to_string()]), "references:\n  - r\n");
    assert_eq!(string_list_block("references", &[]), "");
}

#[test]
fn str_lines_matches_std_lines() {
    for text in ["", "a", "a\n", "a\r\nb", "a\rb\n", "\n\nx\r", "x\n\n"] {
        let ours: Vec<String> = str_lines(text).into_iter().map(|l| l.into_iter().collect()).collect();
        let theirs: Vec<String> = text.lines().map(|l| l.to_string()).collect();
        assert_eq!(ours, theirs, "text {text:?}");
    }
}

#[test]
fn missing_config_is_informational() {
    let i = missing_config_issue();
    assert_eq!(i.severity, IssueSeverity::Info);
    assert_eq!(i.message, "no rustics.toml found — using lens defaults");
    assert_eq!(doctor_exit(&[i]), 0);
}
