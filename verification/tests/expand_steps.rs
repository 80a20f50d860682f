use cargo_rustics::expanded::{
    expand_step, expand_workspace_with, ExpandAction, ExpandEvent, ExpandOutput, ExpandRunner, ExpandState,
    ExpandTarget, TargetKind,
};
use std::cell::RefCell;

fn lib(pkg: &str) -> ExpandTarget {
    ExpandTarget { package: pkg.into(), kind: TargetKind::Lib }
}

fn out(success: bool, stdout: &[u8], stderr: &str) -> ExpandOutput {
    ExpandOutput { success, stdout: stdout.to_vec(), stderr: stderr.to_string() }
}

/// A runner that answers from tables and records every call.
struct Recorder {
    targets: Result<Vec<ExpandTarget>, String>,
    answers: Vec<(String, Result<ExpandOutput, String>)>,
    calls: RefCell<Vec<String>>,
    written: RefCell<Option<(String, String)>>,
}

impl ExpandRunner for Recorder {
    fn cargo_expand_available(&self) -> bool {
        self.calls.borrow_mut().push("available".to_string());
        true
    }
    fn enumerate_targets(&self, _root: &str) -> Result<Vec<ExpandTarget>, String> {
        self.calls.borrow_mut().push("list".to_string());
        self.targets.clone()
    }
    fn run_cargo_expand(&self, _root: &str, t: &ExpandTarget) -> Result<ExpandOutput, String> {
        self.calls.borrow_mut().push(format!("run {}", t.package));
        let (_, a) = self.answers.iter().find(|(p, _)| *p == t.package).expect("answer");
        a.clone()
    }
    fn persist(&self, path: &str, source: &str) -> bool {
        self.calls.borrow_mut().push("persist".to_string());
        *self.written.borrow_mut() = Some((path.to_string(), source.to_string()));
        true
    }
}

fn three_targets() -> Vec<ExpandTarget> {
    vec![
        lib("p1"),
        ExpandTarget { package: "p2".into(), kind: TargetKind::Bin("p2".into()) },
        lib("p3"),
    ]
}

#[test]
fn expansion_runs_each_target_once_in_order() {
    let r = Recorder {
        targets: Ok(three_targets()),
        answers: vec![
            ("p1".to_string(), Ok(out(true, b"fn a() {}", ""))),
            ("p2".to_string(), Ok(out(false, b"", "compile error"))),
            ("p3".to_string(), Ok(out(true, b"fn b() {}", ""))),
        ],
        calls: RefCell::new(Vec::new()),
        written: RefCell::new(None),
    };
    let f = expand_workspace_with("/ws", &r).unwrap().expect("Some");
    assert_eq!(f.relative, ".rustics-expanded.rs");
    assert_eq!(*r.calls.borrow(), vec!["available", "list", "run p1", "run p2", "run p3", "persist"]);
    let (path, body) = r.written.borrow().clone().unwrap();
    assert_eq!(path, "/ws/target/.rustics-expanded.rs");
    assert_eq!(body, "fn a() {}\nfn b() {}");
}

#[test]
fn expansion_stops_at_the_first_spawn_error_and_names_its_target() {
    let r = Recorder {
        targets: Ok(three_targets()),
        answers: vec![
            ("p1".to_string(), Ok(out(true, b"fn a() {}", ""))),
            ("p2".to_string(), Err("no cargo".to_string())),
            ("p3".to_string(), Ok(out(true, b"fn b() {}", ""))),
        ],
        calls: RefCell::new(Vec::new()),
        written: RefCell::new(None),
    };
    let err = expand_workspace_with("/ws", &r).unwrap_err();
    assert_eq!(err, "invoke cargo expand for p2 (Bin(\"p2\")) at /ws: no cargo");
    assert_eq!(*r.calls.borrow(), vec!["available", "list", "run p1", "run p2"]);
    assert!(r.written.borrow().is_none());
}

#[test]
fn empty_or_failed_listing_runs_nothing() {
    for targets in [Ok(Vec::new()), Err("no manifest".to_string())] {
        let r = Recorder {
            targets,
            answers: Vec::new(),
            calls: RefCell::new(Vec::new()),
            written: RefCell::new(None),
        };
        assert!(expand_workspace_with("/ws", &r).unwrap().is_none());
        assert_eq!(*r.calls.borrow(), vec!["available", "list"]);
    }
}

#[test]
fn expand_step_missing_tool_finishes_with_none() {
    let (next, action) = expand_step("/ws", ExpandState::CheckingTool, ExpandEvent::ToolAvailable(false));
    assert!(matches!(next, ExpandState::Finished));
    assert!(matches!(action, ExpandAction::Finish(Ok(None))));
    let (next, action) = expand_step("/ws", ExpandState::CheckingTool, ExpandEvent::ToolAvailable(true));
    assert!(matches!(next, ExpandState::Listing));
    assert!(matches!(action, ExpandAction::ListTargets));
}

#[test]
fn expand_step_asks_for_the_next_target_then_persists() {
    let (state, action) = expand_step("/ws", ExpandState::Listing, ExpandEvent::Targets(Ok(three_targets())));
    match action {
        ExpandAction::Expand(t) => assert_eq!(t, lib("p1")),
        _ => panic!("expected a run of p1"),
    }
    let (state, action) = expand_step("/ws", state, ExpandEvent::Expanded(Ok(out(true, b"fn a() {}", ""))));
    match action {
        ExpandAction::Expand(t) => assert_eq!(t.kind, TargetKind::Bin("p2".into())),
        _ => panic!("expected a run of p2"),
    }
    let (state, _) = expand_step("/ws", state, ExpandEvent::Expanded(Ok(out(false, b"", "boom"))));
    let (state, action) = expand_step("/ws", state, ExpandEvent::Expanded(Ok(out(true, b"fn b() {}", ""))));
    match action {
        ExpandAction::Persist { path, source } => {
            assert_eq!(path, "/ws/target/.rustics-expanded.rs");
            assert_eq!(source, "fn a() {}\nfn b() {}");
        }
        _ => panic!("expected a write"),
    }
    let (state, action) = expand_step("/ws", state, ExpandEvent::Persisted(true));
    assert!(matches!(state, ExpandState::Finished));
    match action {
        ExpandAction::Finish(Ok(Some(f))) => {
            assert_eq!(f.absolute, "/ws/target/.rustics-expanded.rs");
            assert_eq!(f.relative, ".rustics-expanded.rs");
        }
        _ => panic!("expected the synthetic file"),
    }
}

#[test]
fn expand_step_failed_write_finishes_with_none() {
    let state = ExpandState::Persisting { path: "/ws/target/.rustics-expanded.rs".to_string() };
    let (_, action) = expand_step("/ws", state, ExpandEvent::Persisted(false));
    assert!(matches!(action, ExpandAction::Finish(Ok(None))));
}

#[test]
fn spawn_error_escapes_the_bin_name_as_debug_does() {
    let name = "we\"ird\\bin";
    let state = ExpandState::Expanding {
        targets: vec![ExpandTarget { package: "p".into(), kind: TargetKind::Bin(name.into()) }],
        outs: Vec::new(),
    };
    let (_, action) = expand_step("/ws", state, ExpandEvent::Expanded(Err("gone".to_string())));
    match action {
        ExpandAction::Finish(Err(m)) => {
            assert_eq!(m, format!("invoke cargo expand for p ({:?}) at /ws: gone", TargetKind::Bin(name.into())));
            assert_eq!(m, "invoke cargo expand for p (Bin(\"we\\\"ird\\\\bin\")) at /ws: gone");
        }
        _ => panic!("expected the spawn error"),
    }
}
