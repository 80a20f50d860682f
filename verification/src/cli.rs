//! The command-line surface: subcommands and their options, and the
//! argument vector handed to the parser.
//!
//! cargo runs a plugin as `cargo-rustics rustics <args>` when the user
//! types `cargo rustics <args>`; the duplicate `rustics` token is dropped
//! before parsing. Running the binary directly works too.

use vstd::prelude::*;
use crate::analyze::strs;
use crate::text::str_eq;

verus! {

/// Top-level CLI.
#[derive(Debug)]
pub struct Cli {
    /// Subcommand to run.
    pub command: Command,
}

/// Subcommands recognised by cargo-rustics.
#[derive(Debug)]
pub enum Command {
    /// Run the lens catalogue against a workspace and emit a report.
    Analyze(AnalyzeArgs),
    /// Print the embedded operator's manual.
    Manual,
    /// List built-in lenses with their default thresholds and rationales.
    Rules(RulesArgs),
}

/// Output-format choices for `analyze`.
#[derive(Debug, Clone, Copy, PartialEq, Eq, Structural)]
pub enum Reporter {
    /// Human-readable, lined up. Suitable for terminals.
    Console,
    /// Newline-delimited JSON object.
    Json,
    /// YAML-ish, header-anchored, tuned for LLM consumption.
    Ai,
}

/// `cargo rustics analyze` arguments.
#[derive(Debug)]
pub struct AnalyzeArgs {
    /// Analysis root directory; the current directory when absent.
    pub root: Option<String>,
    /// Output format.
    pub reporter: Reporter,
    /// Run only the named lenses (kebab-case ids).
    pub include_metrics: Vec<String>,
    /// Skip the named lenses (kebab-case ids).
    pub exclude_metrics: Vec<String>,
    /// Exit with code 1 if any warning was reported.
    pub fatal_warnings: bool,
    /// Maximum files analysed in parallel.
    pub concurrency: Option<usize>,
    /// Verbose logging.
    pub verbose: bool,
}

/// `cargo rustics rules` arguments.
#[derive(Debug)]
pub struct RulesArgs {
    /// Show only the named lens.
    pub metric: Option<String>,
}

/// The arguments with the plugin token dropped: when the second argument
/// is `rustics`, it goes and everything else stays in order.
pub open spec fn stripped_args(args: Seq<Seq<char>>) -> Seq<Seq<char>> {
    if args.len() >= 2 && args[1] == "rustics"@ {
        seq![args[0]] + args.skip(2)
    } else {
        args
    }
}

/// Skips the duplicate `rustics` token cargo prepends when running the
/// binary as a plugin; direct invocation passes through unchanged.
pub fn strip_cargo_subcommand_token(args: Vec<String>) -> (out: Vec<String>)
    ensures
        strs(out@) == stripped_args(strs(args@)),
{
    if args.len() >= 2 && str_eq(args[1].as_str(), "rustics") {
        assert(strs(args@)[1] == args@[1]@);
        let mut out: Vec<String> = Vec::new();
        let mut rest = args;
        let first = rest.remove(0);
        let ghost tail = rest@;
        out.push(first);
        let _token = rest.remove(0);
        let ghost skipped = rest@;
        assert(skipped =~= tail.skip(1));
        let ghost o0 = out@;
        out.append(&mut rest);
        proof {
            assert(out@ =~= o0 + skipped);
            assert(strs(out@) =~= stripped_args(strs(args@)));
        }
        out
    } else {
        proof {
            if strs(args@).len() >= 2 {
                assert(strs(args@)[1] == args@[1]@);
            }
        }
        args
    }
}

/// The number of workers when `--concurrency` is not given: the host's
/// parallelism clamped to `1..=16`.
pub fn default_concurrency(available: usize) -> (n: usize)
    ensures
        n == (if available < 1 {
            1
        } else if available > 16 {
            16
        } else {
            available
        }),
{
    if available < 1 {
        1
    } else if available > 16 {
        16
    } else {
        available
    }
}

} // verus!
