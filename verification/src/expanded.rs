//! `--expanded-macros`: lenses re-run on `cargo expand` output.
//!
//! Every lib and bin target of every workspace member is expanded, the
//! captured stdouts of the successful runs are concatenated, and the
//! result is persisted to one synthetic file fed back through the file
//! walker. The subprocess and file work goes through an [`ExpandRunner`],
//! so every branch can be driven without a real `cargo-expand`.

use vstd::prelude::*;
use crate::discover::DiscoveredFile;
use crate::path::{join_path, join_path_exec};
use crate::text::{owned, push_str};
use vstd::utf8::{decode_utf8, valid_utf8};

verus! {

/// One `cargo expand` invocation target kind.
#[derive(Debug, Clone, PartialEq, Eq)]
pub enum TargetKind {
    /// `cargo expand --lib -p <package>`.
    Lib,
    /// `cargo expand --bin <name> -p <package>`.
    Bin(String),
}

/// One workspace target to expand: a `(package, kind)` pair.
#[derive(Debug, Clone, PartialEq, Eq)]
pub struct ExpandTarget {
    /// Cargo package name.
    pub package: String,
    /// Which `cargo expand` flag set to invoke.
    pub kind: TargetKind,
}

/// Captured output of one `cargo expand` invocation.
#[derive(Clone)]
pub struct ExpandOutput {
    /// Whether the subprocess exited with status 0.
    pub success: bool,
    /// Captured stdout, as raw bytes.
    pub stdout: Vec<u8>,
    /// Captured stderr (already lossy-decoded).
    pub stderr: String,
}

/// The outside work of an expansion run. The production runner spawns
/// `cargo` and writes files; tests use fakes.
pub trait ExpandRunner {
    /// Returns `true` iff `cargo expand --help` succeeds.
    fn cargo_expand_available(&self) -> bool;

    /// Every lib and bin target in the workspace rooted at
    /// `workspace_root`, or a description of why they could not be
    /// listed.
    fn enumerate_targets(&self, workspace_root: &str) -> Result<Vec<ExpandTarget>, String>;

    /// Runs `cargo expand` for one target. The error is the reason the
    /// subprocess could not be started; a non-zero exit is reported
    /// inside the [`ExpandOutput`].
    fn run_cargo_expand(&self, workspace_root: &str, target: &ExpandTarget) -> Result<ExpandOutput, String>;

    /// Writes `source` to `path`, creating its parent directory; `false`
    /// on any failure.
    fn persist(&self, path: &str, source: &str) -> bool;
}

/// The bytes gathered from a run of outputs: each successful stdout is
/// appended, preceded by a `\n` when something was gathered before it.
pub open spec fn combined_stdout(outs: Seq<ExpandOutput>) -> Seq<u8>
    decreases outs.len(),
{
    if outs.len() == 0 {
        Seq::empty()
    } else {
        let prev = combined_stdout(outs.drop_last());
        let o = outs.last();
        if !o.success {
            prev
        } else if prev.len() > 0 {
            prev.push(10u8) + o.stdout@
        } else {
            prev + o.stdout@
        }
    }
}

/// Some output in the run succeeded.
pub open spec fn any_success(outs: Seq<ExpandOutput>) -> bool {
    exists|i: int| 0 <= i < outs.len() && (#[trigger] outs[i]).success
}

/// Concatenates the successful stdouts, `None` when no run succeeded.
pub fn combine_outputs(outs: &[ExpandOutput]) -> (r: Option<Vec<u8>>)
    ensures
        match r {
            Some(b) => any_success(outs@) && b@ == combined_stdout(outs@),
            None => !any_success(outs@),
        },
{
    let mut combined: Vec<u8> = Vec::new();
    let mut had_any_success = false;
    let mut i: usize = 0;
    while i < outs.len()
        invariant
            0 <= i <= outs.len(),
            combined@ == combined_stdout(outs@.take(i as int)),
            had_any_success == any_success(outs@.take(i as int)),
        decreases outs.len() - i,
    {
        let o = &outs[i];
        proof {
            let t = outs@.take(i + 1);
            assert(t.drop_last() =~= outs@.take(i as int));
            assert(t.last() == *o);
        }
        let ghost before = outs@.take(i as int);
        if o.success {
            if combined.len() > 0 {
                combined.push(10u8);
            }
            let mut k: usize = 0;
            let ghost c0 = combined@;
            while k < o.stdout.len()
                invariant
                    0 <= k <= o.stdout@.len(),
                    combined@ == c0 + o.stdout@.take(k as int),
                decreases o.stdout@.len() - k,
            {
                combined.push(o.stdout[k]);
                k = k + 1;
                assert(combined@ =~= c0 + o.stdout@.take(k as int));
            }
            assert(o.stdout@.take(k as int) =~= o.stdout@);
            had_any_success = true;
            assert(outs@.take(i + 1)[i as int] == *o);
        } else {
            assert forall|j: int| 0 <= j < i + 1 && (#[trigger] outs@.take(i + 1)[j]).success
                implies before[j].success by {
                if j < i {
                    assert(outs@.take(i + 1)[j] == before[j]);
                }
            }
        }
        proof {
            if had_any_success && !any_success(before) {
                assert(outs@.take(i + 1)[i as int].success);
            }
            if any_success(before) {
                let j = choose|j: int| 0 <= j < before.len() && (#[trigger] before[j]).success;
                assert(outs@.take(i + 1)[j] == before[j]);
            }
        }
        i = i + 1;
    }
    assert(outs@.take(i as int) =~= outs@);
    if !had_any_success {
        return None;
    }
    Some(combined)
}

/// Calls `String::from_utf8`. Trusted: as documented, it succeeds exactly
/// when the bytes are valid UTF-8, and the string then holds the
/// characters they encode.
#[verifier::external_body]
fn decode_utf8_bytes(bytes: Vec<u8>) -> (r: Option<String>)
    ensures
        match r {
            Some(s) => valid_utf8(bytes@) && s@ == decode_utf8(bytes@),
            None => !valid_utf8(bytes@),
        },
{
    String::from_utf8(bytes).ok()
}

/// How cargo metadata lists the kind of a target, as far as expansion
/// goes.
#[derive(Debug, Clone, Copy, PartialEq, Eq, Structural)]
pub enum CargoTargetKind {
    /// `lib`.
    Lib,
    /// `bin`.
    Bin,
    /// Any other kind (`example`, `test`, `bench`, `proc-macro`,
    /// `custom-build`, the other library flavours).
    Other,
}

/// A target of a package, as cargo metadata lists it.
#[derive(Debug)]
pub struct CargoTarget {
    /// Target name.
    pub name: String,
    /// Its kinds.
    pub kinds: Vec<CargoTargetKind>,
}

/// A package, as cargo metadata lists it.
#[derive(Debug)]
pub struct CargoPackage {
    /// Package name.
    pub name: String,
    /// Whether the package is a member of the workspace.
    pub member: bool,
    /// Its targets.
    pub targets: Vec<CargoTarget>,
}

/// A target to expand as `(package, None)` for a lib or
/// `(package, Some(name))` for a bin.
pub open spec fn target_view(t: ExpandTarget) -> (Seq<char>, Option<Seq<char>>) {
    match t.kind {
        TargetKind::Lib => (t.package@, None),
        TargetKind::Bin(n) => (t.package@, Some(n@)),
    }
}

/// The views of targets to expand.
pub open spec fn target_views(ts: Seq<ExpandTarget>) -> Seq<(Seq<char>, Option<Seq<char>>)> {
    ts.map_values(|t: ExpandTarget| target_view(t))
}

/// How a target is expanded: as the lib when it is one, else as a bin
/// when it is one (under its own name), else not at all.
pub open spec fn classified(t: CargoTarget) -> Option<Option<Seq<char>>> {
    if t.kinds@.contains(CargoTargetKind::Lib) {
        Some(None)
    } else if t.kinds@.contains(CargoTargetKind::Bin) {
        Some(Some(t.name@))
    } else {
        None
    }
}

fn has_kind(kinds: &Vec<CargoTargetKind>, k: CargoTargetKind) -> (b: bool)
    ensures
        b == kinds@.contains(k),
{
    let mut i: usize = 0;
    while i < kinds.len()
        invariant
            0 <= i <= kinds@.len(),
            forall|j: int| 0 <= j < i ==> kinds@[j] != k,
        decreases kinds@.len() - i,
    {
        if kinds[i] == k {
            assert(kinds@[i as int] == k);
            return true;
        }
        i = i + 1;
    }
    false
}

/// Which `cargo expand` flag set a target needs: `--lib` wins over the
/// library's other flavours and over `--bin`; kinds that are neither
/// are not expanded.
pub fn classify_target_kind(target: &CargoTarget) -> (r: Option<TargetKind>)
    ensures
        match (r, classified(*target)) {
            (Some(TargetKind::Lib), Some(None)) => true,
            (Some(TargetKind::Bin(n)), Some(Some(m))) => n@ == m,
            (None, None) => true,
            _ => false,
        },
{
    if has_kind(&target.kinds, CargoTargetKind::Lib) {
        Some(TargetKind::Lib)
    } else if has_kind(&target.kinds, CargoTargetKind::Bin) {
        Some(TargetKind::Bin(owned(target.name.as_str())))
    } else {
        None
    }
}

/// The expandable targets of one package, in order.
pub open spec fn package_targets(package: Seq<char>, ts: Seq<CargoTarget>) -> Seq<(Seq<char>, Option<Seq<char>>)>
    decreases ts.len(),
{
    if ts.len() == 0 {
        Seq::empty()
    } else {
        package_targets(package, ts.drop_last()) + match classified(ts.last()) {
            Some(bin) => seq![(package, bin)],
            None => Seq::empty(),
        }
    }
}

/// The expandable targets of the workspace members, package by package.
pub open spec fn member_targets(pkgs: Seq<CargoPackage>) -> Seq<(Seq<char>, Option<Seq<char>>)>
    decreases pkgs.len(),
{
    if pkgs.len() == 0 {
        Seq::empty()
    } else {
        member_targets(pkgs.drop_last()) + if pkgs.last().member {
            package_targets(pkgs.last().name@, pkgs.last().targets@)
        } else {
            Seq::empty()
        }
    }
}

/// Every lib and bin target of every workspace member, in the order cargo
/// metadata lists packages and targets.
pub fn workspace_targets(packages: &[CargoPackage]) -> (out: Vec<ExpandTarget>)
    ensures
        target_views(out@) == member_targets(packages@),
{
    let mut out: Vec<ExpandTarget> = Vec::new();
    let mut p: usize = 0;
    assert(target_views(out@) =~= member_targets(packages@.take(0)));
    while p < packages.len()
        invariant
            0 <= p <= packages@.len(),
            target_views(out@) == member_targets(packages@.take(p as int)),
        decreases packages@.len() - p,
    {
        let pkg = &packages[p];
        proof {
            let t = packages@.take(p + 1);
            assert(t.drop_last() =~= packages@.take(p as int));
            assert(t.last() == packages@[p as int]);
        }
        let ghost base = target_views(out@);
        if pkg.member {
            let mut i: usize = 0;
            assert(target_views(out@) =~= base + package_targets(pkg.name@, pkg.targets@.take(0)));
            while i < pkg.targets.len()
                invariant
                    0 <= i <= pkg.targets@.len(),
                    target_views(out@) == base + package_targets(pkg.name@, pkg.targets@.take(i as int)),
                decreases pkg.targets@.len() - i,
            {
                proof {
                    let t = pkg.targets@.take(i + 1);
                    assert(t.drop_last() =~= pkg.targets@.take(i as int));
                    assert(t.last() == pkg.targets@[i as int]);
                }
                let ghost before = target_views(out@);
                match classify_target_kind(&pkg.targets[i]) {
                    Some(kind) => {
                        let t = ExpandTarget { package: owned(pkg.name.as_str()), kind };
                        let ghost tv = target_view(t);
                        out.push(t);
                        assert(target_views(out@) =~= before.push(tv));
                    },
                    None => {},
                }
                assert(target_views(out@) =~= base + package_targets(pkg.name@, pkg.targets@.take(i + 1)));
                i = i + 1;
            }
            assert(pkg.targets@.take(i as int) =~= pkg.targets@);
        } else {
            assert(target_views(out@) =~= base + Seq::<(Seq<char>, Option<Seq<char>>)>::empty());
        }
        p = p + 1;
    }
    assert(packages@.take(p as int) =~= packages@);
    out
}

/// The relative name under which the expanded source is analysed.
pub open spec fn synthetic_relative() -> Seq<char> {
    ".rustics-expanded.rs"@
}

/// `<root>/target/.rustics-expanded.rs`.
pub open spec fn synthetic_path_spec(root: Seq<char>) -> Seq<char> {
    join_path(join_path(root, "target"@), ".rustics-expanded.rs"@)
}

/// The path that holds the persisted expanded source. Stable, so
/// successive runs overwrite the same file.
pub fn synthetic_file_path(workspace_root: &str) -> (p: String)
    ensures
        p@ == synthetic_path_spec(workspace_root@),
{
    let t = join_path_exec(workspace_root, "target");
    join_path_exec(t.as_str(), ".rustics-expanded.rs")
}

/// The `{:?}` rendering of a string: the string in double quotes, with
/// quotes, backslashes and characters that do not print escaped.
pub uninterp spec fn str_debug(s: Seq<char>) -> Seq<char>;

/// Renders a string with `{:?}` (std's `Debug` for `str`). Trusted: the
/// result is `str_debug` of the string, a function of the string alone.
#[verifier::external_body]
fn debug_quoted(s: &str) -> (r: String)
    ensures
        r@ == str_debug(s@),
{
    format!("{:?}", s)
}

/// The `{:?}` rendering of a target kind: `Lib` or `Bin("<name>")`.
pub open spec fn kind_debug(k: TargetKind) -> Seq<char> {
    match k {
        TargetKind::Lib => "Lib"@,
        TargetKind::Bin(n) => "Bin("@ + str_debug(n@) + ")"@,
    }
}

/// The error reported when a `cargo expand` subprocess cannot start.
pub open spec fn spawn_error_message(target: ExpandTarget, root: Seq<char>, cause: Seq<char>) -> Seq<char> {
    "invoke cargo expand for "@ + target.package@ + " ("@ + kind_debug(target.kind) + ") at "@
        + root + ": "@ + cause
}

/// Renders [`spawn_error_message`].
fn spawn_error(target: &ExpandTarget, workspace_root: &str, cause: &str) -> (m: String)
    ensures
        m@ == spawn_error_message(*target, workspace_root@, cause@),
{
    let mut m = owned("invoke cargo expand for ");
    push_str(&mut m, target.package.as_str());
    push_str(&mut m, " (");
    match &target.kind {
        TargetKind::Lib => push_str(&mut m, "Lib"),
        TargetKind::Bin(n) => {
            push_str(&mut m, "Bin(");
            push_str(&mut m, debug_quoted(n.as_str()).as_str());
            push_str(&mut m, ")");
        },
    }
    push_str(&mut m, ") at ");
    push_str(&mut m, workspace_root);
    push_str(&mut m, ": ");
    push_str(&mut m, cause);
    m
}

/// What an expansion run persists, given the outputs of its `cargo
/// expand` runs: the synthetic path and the decoded concatenation of the
/// successful stdouts, when some run succeeded and those bytes are UTF-8.
pub open spec fn expansion_source_spec(root: Seq<char>, outs: Seq<ExpandOutput>) -> Option<(Seq<char>, Seq<char>)> {
    if any_success(outs) && valid_utf8(combined_stdout(outs)) {
        Some((synthetic_path_spec(root), decode_utf8(combined_stdout(outs))))
    } else {
        None
    }
}

/// The file to persist after the runs: where it goes and what it holds,
/// or nothing when no run succeeded or their output is not UTF-8.
pub fn expansion_source(workspace_root: &str, outs: &[ExpandOutput]) -> (r: Option<(String, String)>)
    ensures
        match r {
            Some((p, src)) => expansion_source_spec(workspace_root@, outs@) == Some((p@, src@)),
            None => expansion_source_spec(workspace_root@, outs@) is None,
        },
{
    let bytes = match combine_outputs(outs) {
        Some(b) => b,
        None => {
            return None;
        },
    };
    let source = match decode_utf8_bytes(bytes) {
        Some(s) => s,
        None => {
            return None;
        },
    };
    Some((synthetic_file_path(workspace_root), source))
}

/// Where an expansion run stands, between two answers of its runner.
pub enum ExpandState {
    /// Waiting to hear whether `cargo expand` is installed.
    CheckingTool,
    /// Waiting for the workspace's targets.
    Listing,
    /// Waiting for the run of `targets[outs.len()]`; `outs` holds the
    /// outputs of the targets before it, in order.
    Expanding { targets: Vec<ExpandTarget>, outs: Vec<ExpandOutput> },
    /// Waiting to hear whether the expanded source was written to `path`.
    Persisting { path: String },
    /// The run is over.
    Finished,
}

/// An answer of the runner.
pub enum ExpandEvent {
    /// Whether `cargo expand` is installed.
    ToolAvailable(bool),
    /// The workspace's targets, or why they could not be listed.
    Targets(Result<Vec<ExpandTarget>, String>),
    /// The output of one run, or why its subprocess could not start.
    Expanded(Result<ExpandOutput, String>),
    /// Whether the expanded source was written.
    Persisted(bool),
}

/// What the run asks of its runner next.
pub enum ExpandAction {
    /// List the workspace's targets.
    ListTargets,
    /// Run `cargo expand` for this target.
    Expand(ExpandTarget),
    /// Write `source` to `path`.
    Persist { path: String, source: String },
    /// The run is over with this result.
    Finish(Result<Option<DiscoveredFile>, String>),
}

/// The two targets are the same `(package, kind)` pair.
pub open spec fn same_target(a: ExpandTarget, b: ExpandTarget) -> bool {
    &&& a.package@ == b.package@
    &&& match (a.kind, b.kind) {
        (TargetKind::Lib, TargetKind::Lib) => true,
        (TargetKind::Bin(x), TargetKind::Bin(y)) => x@ == y@,
        _ => false,
    }
}

/// The state expects this kind of answer, and an expansion state waits
/// on a target that exists.
pub open spec fn expects(state: ExpandState, event: ExpandEvent) -> bool {
    match (state, event) {
        (ExpandState::CheckingTool, ExpandEvent::ToolAvailable(_)) => true,
        (ExpandState::Listing, ExpandEvent::Targets(_)) => true,
        (ExpandState::Expanding { targets, outs }, ExpandEvent::Expanded(_)) => outs@.len() < targets@.len(),
        (ExpandState::Persisting { .. }, ExpandEvent::Persisted(_)) => true,
        _ => false,
    }
}

/// A state on the way of a run at `root`: an expansion waits on a
/// listed target, and the file to persist is the synthetic one.
pub open spec fn on_course(root: Seq<char>, state: ExpandState) -> bool {
    match state {
        ExpandState::Expanding { targets, outs } => outs@.len() < targets@.len(),
        ExpandState::Persisting { path } => path@ == synthetic_path_spec(root),
        _ => true,
    }
}

/// The action waits on the answer the state expects: listing on a
/// listing state, a run of `targets[outs.len()]` on an expansion state,
/// a write to `path` on a persisting state, and nothing on a finished run.
pub open spec fn awaits(state: ExpandState, action: ExpandAction) -> bool {
    match (state, action) {
        (ExpandState::Listing, ExpandAction::ListTargets) => true,
        (ExpandState::Expanding { targets, outs }, ExpandAction::Expand(t)) => outs@.len() < targets@.len()
            && same_target(t, targets@[outs@.len() as int]),
        (ExpandState::Persisting { path }, ExpandAction::Persist { path: p, .. }) => p@ == path@,
        (ExpandState::Finished, ExpandAction::Finish(_)) => true,
        _ => false,
    }
}

/// One step of a run at `root`: the next state and action after
/// `event`.
///
/// - `cargo expand` missing: finish with `Ok(None)`; present: list the targets.
/// - Listing failed or gave no target: finish with `Ok(None)`; otherwise
///   run the first target.
/// - A run whose subprocess could not start: finish with the spawn error
///   naming that target. A run that returned: keep its output and run the
///   next target; after the last one, persist the expanded source, or
///   finish with `Ok(None)` when there is none to persist.
/// - A write that failed: finish with `Ok(None)`; that succeeded: finish
///   with the synthetic file.
pub open spec fn step_spec(root: Seq<char>, state: ExpandState, event: ExpandEvent, next: ExpandState, action: ExpandAction) -> bool {
    match (state, event) {
        (ExpandState::CheckingTool, ExpandEvent::ToolAvailable(available)) => if available {
            next is Listing
        } else {
            next is Finished && action == ExpandAction::Finish(Ok(None))
        },
        (ExpandState::Listing, ExpandEvent::Targets(listing)) => match listing {
            Ok(ts) => if ts@.len() == 0 {
                next is Finished && action == ExpandAction::Finish(Ok(None))
            } else {
                match next {
                    ExpandState::Expanding { targets, outs } => targets == ts && outs@.len() == 0,
                    _ => false,
                }
            },
            Err(_) => next is Finished && action == ExpandAction::Finish(Ok(None)),
        },
        (ExpandState::Expanding { targets, outs }, ExpandEvent::Expanded(run)) => match run {
            Err(cause) => next is Finished && match action {
                ExpandAction::Finish(Err(m)) => m@ == spawn_error_message(targets@[outs@.len() as int], root, cause@),
                _ => false,
            },
            Ok(o) => if outs@.len() + 1 < targets@.len() {
                match next {
                    ExpandState::Expanding { targets: t2, outs: o2 } => t2 == targets && o2@ == outs@.push(o),
                    _ => false,
                }
            } else {
                match expansion_source_spec(root, outs@.push(o)) {
                    None => next is Finished && action == ExpandAction::Finish(Ok(None)),
                    Some((p, src)) => next is Persisting && match action {
                        ExpandAction::Persist { path, source } => path@ == p && source@ == src,
                        _ => false,
                    },
                }
            },
        },
        (ExpandState::Persisting { path }, ExpandEvent::Persisted(written)) => next is Finished && (if written {
            match action {
                ExpandAction::Finish(Ok(Some(f))) => f.absolute@ == path@ && f.relative@ == synthetic_relative(),
                _ => false,
            }
        } else {
            action == ExpandAction::Finish(Ok(None))
        }),
        _ => false,
    }
}

/// A copy of a target.
fn copy_target(t: &ExpandTarget) -> (r: ExpandTarget)
    ensures
        same_target(r, *t),
{
    let kind = match &t.kind {
        TargetKind::Lib => TargetKind::Lib,
        TargetKind::Bin(n) => TargetKind::Bin(owned(n.as_str())),
    };
    ExpandTarget { package: owned(t.package.as_str()), kind }
}

/// Takes one answer of the runner and decides what comes next.
pub fn expand_step(workspace_root: &str, state: ExpandState, event: ExpandEvent) -> (r: (ExpandState, ExpandAction))
    requires
        expects(state, event),
        on_course(workspace_root@, state),
    ensures
        step_spec(workspace_root@, state, event, r.0, r.1),
        on_course(workspace_root@, r.0),
        awaits(r.0, r.1),
{
    match (state, event) {
        (ExpandState::CheckingTool, ExpandEvent::ToolAvailable(available)) => {
            if available {
                (ExpandState::Listing, ExpandAction::ListTargets)
            } else {
                (ExpandState::Finished, ExpandAction::Finish(Ok(None)))
            }
        },
        (ExpandState::Listing, ExpandEvent::Targets(listing)) => match listing {
            Ok(ts) => {
                if ts.len() == 0 {
                    (ExpandState::Finished, ExpandAction::Finish(Ok(None)))
                } else {
                    let first = copy_target(&ts[0]);
                    let outs: Vec<ExpandOutput> = Vec::new();
                    (ExpandState::Expanding { targets: ts, outs }, ExpandAction::Expand(first))
                }
            },
            Err(_) => (ExpandState::Finished, ExpandAction::Finish(Ok(None))),
        },
        (ExpandState::Expanding { targets, outs }, ExpandEvent::Expanded(run)) => match run {
            Err(cause) => {
                let m = spawn_error(&targets[outs.len()], workspace_root, cause.as_str());
                (ExpandState::Finished, ExpandAction::Finish(Err(m)))
            },
            Ok(o) => {
                let mut outs = outs;
                outs.push(o);
                if outs.len() < targets.len() {
                    let t = copy_target(&targets[outs.len()]);
                    (ExpandState::Expanding { targets, outs }, ExpandAction::Expand(t))
                } else {
                    match expansion_source(workspace_root, outs.as_slice()) {
                        Some((path, source)) => {
                            let waiting = owned(path.as_str());
                            (ExpandState::Persisting { path: waiting }, ExpandAction::Persist { path, source })
                        },
                        None => (ExpandState::Finished, ExpandAction::Finish(Ok(None))),
                    }
                }
            },
        },
        (ExpandState::Persisting { path }, ExpandEvent::Persisted(written)) => {
            if written {
                proof {
                    reveal_strlit(".rustics-expanded.rs");
                }
                let f = DiscoveredFile { absolute: path, relative: owned(".rustics-expanded.rs") };
                (ExpandState::Finished, ExpandAction::Finish(Ok(Some(f))))
            } else {
                (ExpandState::Finished, ExpandAction::Finish(Ok(None)))
            }
        },
        _ => (ExpandState::Finished, ExpandAction::Finish(Ok(None))),
    }
}

/// Progress of a run: states later in the run rank lower.
pub open spec fn stage_rank(state: ExpandState) -> nat {
    match state {
        ExpandState::CheckingTool => 4,
        ExpandState::Listing => 3,
        ExpandState::Expanding { .. } => 2,
        ExpandState::Persisting { .. } => 1,
        ExpandState::Finished => 0,
    }
}

/// Targets still to run.
pub open spec fn runs_left(state: ExpandState) -> nat {
    match state {
        ExpandState::Expanding { targets, outs } => (targets@.len() - outs@.len()) as nat,
        _ => 0,
    }
}

/// Runs `cargo expand` for every target the runner lists, in order and
/// once each, concatenates the successful stdouts and persists them as
/// one synthetic file. Each decision is [`expand_step`]'s; this only
/// carries its actions to the runner and the answers back.
///
/// `Ok(None)` when `cargo expand` is unavailable, the targets cannot be
/// listed, there are none, every run failed, the output is not UTF-8, or
/// the file could not be written. `Err` when a subprocess could not be
/// started, naming the target.
pub fn expand_workspace_with<R: ExpandRunner>(workspace_root: &str, runner: &R) -> (r: Result<
    Option<DiscoveredFile>,
    String,
>)
    ensures
        match r {
            Ok(Some(f)) => f.relative@ == synthetic_relative() && f.absolute@
                == synthetic_path_spec(workspace_root@),
            Ok(None) => true,
            Err(m) => exists|t: ExpandTarget, c: Seq<char>|
                m@ == spawn_error_message(t, workspace_root@, c),
        },
{
    let mut state = ExpandState::CheckingTool;
    let mut event = ExpandEvent::ToolAvailable(runner.cargo_expand_available());
    loop
        invariant
            expects(state, event),
            on_course(workspace_root@, state),
        decreases stage_rank(state), runs_left(state),
    {
        let ghost before = state;
        let (next, action) = expand_step(workspace_root, state, event);
        proof {
            assert(stage_rank(next) < stage_rank(before) || (stage_rank(next) == stage_rank(before) && runs_left(next) < runs_left(before)));
        }
        state = next;
        match action {
            ExpandAction::ListTargets => {
                event = ExpandEvent::Targets(runner.enumerate_targets(workspace_root));
            },
            ExpandAction::Expand(t) => {
                event = ExpandEvent::Expanded(runner.run_cargo_expand(workspace_root, &t));
            },
            ExpandAction::Persist { path, source } => {
                event = ExpandEvent::Persisted(runner.persist(path.as_str(), source.as_str()));
            },
            ExpandAction::Finish(r) => {
                return r;
            },
        }
    }
}

} // verus!
