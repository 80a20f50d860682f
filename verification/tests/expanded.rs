use cargo_rustics::expanded::{
    classify_target_kind, combine_outputs, expand_workspace_with, expansion_source, synthetic_file_path,
    workspace_targets, CargoPackage, CargoTarget, CargoTargetKind, ExpandOutput, ExpandRunner,
    ExpandTarget, TargetKind,
};
use std::cell::{Cell, RefCell};

struct FakeRunner {
    available: bool,
    targets: Vec<ExpandTarget>,
    outputs: Vec<ExpandOutput>,
    spawn_error: bool,
    persist_ok: bool,
    run_calls: Cell<usize>,
    written: RefCell<Option<(String, String)>>,
}

impl FakeRunner {
    fn new(targets: Vec<ExpandTarget>, outputs: Vec<ExpandOutput>) -> Self {
        FakeRunner {
            available: true,
            targets,
            outputs,
            spawn_error: false,
            persist_ok: true,
            run_calls: Cell::new(0),
            written: RefCell::new(None),
        }
    }
}

impl ExpandRunner for FakeRunner {
    fn cargo_expand_available(&self) -> bool {
        self.available
    }
    fn enumerate_targets(&self, _root: &str) -> Result<Vec<ExpandTarget>, String> {
        Ok(self.targets.clone())
    }
    fn run_cargo_expand(&self, _root: &str, _t: &ExpandTarget) -> Result<ExpandOutput, String> {
        let n = self.run_calls.get();
        self.run_calls.set(n + 1);
        if self.spawn_error {
            return Err("simulated spawn failure".to_string());
        }
        Ok(self.outputs[n].clone())
    }
    fn persist(&self, path: &str, source: &str) -> bool {
        if self.persist_ok {
            *self.written.borrow_mut() = Some((path.to_string(), source.to_string()));
        }
        self.persist_ok
    }
}

fn lib(pkg: &str) -> ExpandTarget {
    ExpandTarget { package: pkg.into(), kind: TargetKind::Lib }
}

fn out(success: bool, stdout: &[u8]) -> ExpandOutput {
    ExpandOutput { success, stdout: stdout.to_vec(), stderr: String::new() }
}

#[test]
fn returns_none_when_cargo_expand_unavailable() {
    let mut r = FakeRunner::new(vec![lib("fake")], vec![out(true, b"")]);
    r.available = false;
    assert!(expand_workspace_with("/ws", &r).unwrap().is_none());
    assert_eq!(r.run_calls.get(), 0, "must short-circuit before run");
}

#[test]
fn happy_path_writes_synthetic_file() {
    let r = FakeRunner::new(vec![lib("fake")], vec![out(true, b"fn expanded() {}\n")]);
    let f = expand_workspace_with("/ws", &r).unwrap().expect("Some");
    assert_eq!(f.relative, ".rustics-expanded.rs");
    assert_eq!(f.absolute, synthetic_file_path("/ws"));
    let (path, body) = r.written.borrow().clone().unwrap();
    assert_eq!(path, "/ws/target/.rustics-expanded.rs");
    assert!(body.contains("fn expanded()"));
}

#[test]
fn non_zero_exit_returns_none_with_stderr_logged() {
    let r = FakeRunner::new(vec![lib("fake")], vec![out(false, b"")]);
    assert!(expand_workspace_with("/ws", &r).unwrap().is_none());
}

#[test]
fn non_utf8_stdout_returns_none() {
    let r = FakeRunner::new(vec![lib("fake")], vec![out(true, &[0xff, 0xfe, 0xfd])]);
    assert!(expand_workspace_with("/ws", &r).unwrap().is_none());
}

#[test]
fn spawn_error_propagates_with_context() {
    let mut r = FakeRunner::new(vec![lib("fake")], vec![]);
    r.spawn_error = true;
    let err = expand_workspace_with("/ws", &r).unwrap_err();
    assert!(err.contains("invoke cargo expand"));
    assert_eq!(err, "invoke cargo expand for fake (Lib) at /ws: simulated spawn failure");
}

#[test]
fn expand_workspace_returns_none_when_persist_fails() {
    let mut r = FakeRunner::new(vec![lib("fake")], vec![out(true, b"fn expanded() {}\n")]);
    r.persist_ok = false;
    assert!(expand_workspace_with("/ws", &r).unwrap().is_none());
}

#[test]
fn enumerates_and_concatenates_per_target_output() {
    let targets = vec![
        lib("lib_pkg"),
        ExpandTarget { package: "bin_pkg".into(), kind: TargetKind::Bin("bin_pkg".into()) },
    ];
    let r = FakeRunner::new(
        targets,
        vec![out(true, b"fn lib_marker() {}\n"), out(true, b"fn bin_marker() {}\n")],
    );
    expand_workspace_with("/ws", &r).unwrap().expect("Some");
    let (_, body) = r.written.borrow().clone().unwrap();
    assert_eq!(body, "fn lib_marker() {}\n\nfn bin_marker() {}\n");
    assert_eq!(r.run_calls.get(), 2, "ran once per target");
}

#[test]
fn one_failing_target_does_not_lose_the_other() {
    let r = FakeRunner::new(
        vec![lib("lib_pkg"), lib("bin_pkg")],
        vec![out(true, b"fn lib_marker() {}\n"), out(false, b"")],
    );
    expand_workspace_with("/ws", &r).unwrap().expect("Some");
    let (_, body) = r.written.borrow().clone().unwrap();
    assert_eq!(body, "fn lib_marker() {}\n");
}

#[test]
fn all_failing_targets_returns_none() {
    let r = FakeRunner::new(vec![lib("lib_pkg")], vec![out(false, b"")]);
    assert!(expand_workspace_with("/ws", &r).unwrap().is_none());
}

#[test]
fn empty_target_list_returns_none() {
    let r = FakeRunner::new(vec![], vec![]);
    assert!(expand_workspace_with("/ws", &r).unwrap().is_none());
    assert_eq!(r.run_calls.get(), 0, "no targets → no invocations");
}

#[test]
fn combine_outputs_separates_only_after_content() {
    let outs = vec![out(true, b""), out(true, b"a"), out(false, b"x"), out(true, b"b")];
    assert_eq!(combine_outputs(&outs), Some(b"a\nb".to_vec()));
    assert_eq!(combine_outputs(&[out(false, b"x")]), None);
}

fn cargo_target(name: &str, kinds: &[CargoTargetKind]) -> CargoTarget {
    CargoTarget { name: name.to_string(), kinds: kinds.to_vec() }
}

#[test]
fn classify_target_kind_recognises_lib_and_bin() {
    let lib = cargo_target("anything", &[CargoTargetKind::Lib]);
    let bin = cargo_target("tool", &[CargoTargetKind::Bin]);
    let other = cargo_target("ex", &[CargoTargetKind::Other]);
    let both = cargo_target("both", &[CargoTargetKind::Other, CargoTargetKind::Bin, CargoTargetKind::Lib]);
    assert_eq!(classify_target_kind(&lib), Some(TargetKind::Lib));
    assert_eq!(classify_target_kind(&bin), Some(TargetKind::Bin("tool".into())));
    assert_eq!(classify_target_kind(&other), None);
    assert_eq!(classify_target_kind(&both), Some(TargetKind::Lib));
}

#[test]
fn workspace_targets_keeps_members_in_order() {
    let packages = vec![
        CargoPackage {
            name: "a".into(),
            member: true,
            targets: vec![
                cargo_target("a", &[CargoTargetKind::Lib]),
                cargo_target("a-cli", &[CargoTargetKind::Bin]),
                cargo_target("bench", &[CargoTargetKind::Other]),
            ],
        },
        CargoPackage {
            name: "dep".into(),
            member: false,
            targets: vec![cargo_target("dep", &[CargoTargetKind::Lib])],
        },
        CargoPackage {
            name: "b".into(),
            member: true,
            targets: vec![cargo_target("b", &[CargoTargetKind::Bin])],
        },
    ];
    let out = workspace_targets(&packages);
    assert_eq!(
        out,
        vec![
            ExpandTarget { package: "a".into(), kind: TargetKind::Lib },
            ExpandTarget { package: "a".into(), kind: TargetKind::Bin("a-cli".into()) },
            ExpandTarget { package: "b".into(), kind: TargetKind::Bin("b".into()) },
        ]
    );
}

#[test]
fn expansion_source_decodes_the_successful_runs() {
    let outs = vec![out(true, b"fn a() {}"), out(false, b"junk"), out(true, b"fn b() {}")];
    let (path, source) = expansion_source("/ws", &outs).unwrap();
    assert_eq!(path, synthetic_file_path("/ws"));
    assert_eq!(source, "fn a() {}\nfn b() {}");
    assert!(expansion_source("/ws", &[out(false, b"x")]).is_none());
    assert!(expansion_source("/ws", &[out(true, &[0xff, 0xfe])]).is_none());
}
