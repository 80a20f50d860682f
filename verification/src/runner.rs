//! Work sharding for the parallel metric runner, and the records it
//! keeps of files it could not analyse.

use vstd::prelude::*;
use crate::text::{owned, push_str};
use vstd::slice::slice_subrange;
use vstd::arithmetic::div_mod::lemma_fundamental_div_mod;

verus! {

/// A single failed parse.
#[derive(Debug)]
pub struct ParseError {
    /// Workspace-relative file path.
    pub relative: String,
    /// Parse-error message.
    pub message: String,
}

/// The message recorded when a worker panic poisoned one of the
/// accumulators.
pub open spec fn panic_message(which: Seq<char>) -> Seq<char> {
    "worker panic poisoned `"@ + which + "` — partial results returned, treat exit as failure"@
}

/// The synthetic parse error that makes a poisoned accumulator count as a
/// failure.
pub fn panic_marker(which: &str) -> (e: ParseError)
    ensures
        e.relative@ == "<runner>"@,
        e.message@ == panic_message(which@),
{
    let mut m = owned("worker panic poisoned `");
    push_str(&mut m, which);
    push_str(&mut m, "` — partial results returned, treat exit as failure");
    ParseError { relative: owned("<runner>"), message: m }
}

/// Number of workers: `concurrency` clamped to `[1, len]`.
pub open spec fn worker_count(len: nat, concurrency: nat) -> nat {
    let c = if concurrency < 1 {
        1
    } else {
        concurrency
    };
    if c < len {
        c
    } else {
        len
    }
}

/// The size of chunk `i` when `len` items are shared among the workers:
/// `len / n` each, and one more for each of the first `len % n` chunks,
/// so that sizes differ by at most one.
pub open spec fn balanced_len(len: nat, concurrency: nat, i: int) -> nat {
    let n = worker_count(len, concurrency);
    if n == 0 {
        0
    } else {
        (len / n + if i < len % n {
            1nat
        } else {
            0nat
        }) as nat
    }
}

/// The concatenation of a sequence of sequences.
pub open spec fn concat<T>(parts: Seq<Seq<T>>) -> Seq<T>
    decreases parts.len(),
{
    if parts.len() == 0 {
        Seq::empty()
    } else {
        concat(parts.drop_last()) + parts.last()
    }
}

/// The views of a vector of slices.
pub open spec fn slice_views<'a, T>(chunks: Seq<&'a [T]>) -> Seq<Seq<T>> {
    chunks.map_values(|c: &'a [T]| c@)
}

/// Splits `files` into `concurrency` roughly equal contiguous chunks,
/// the count clamped to `[1, files.len()]` so no more workers are started
/// than there is work; no chunk when there are no files. The first
/// `len % n` chunks hold one item more than the others.
pub fn partition<'a, T>(files: &'a [T], concurrency: usize) -> (chunks: Vec<&'a [T]>)
    ensures
        concat(slice_views(chunks@)) == files@,
        chunks@.len() == worker_count(files@.len(), concurrency as nat),
        forall|i: int|
            0 <= i < chunks@.len() ==> (#[trigger] chunks@[i])@.len() == balanced_len(
                files@.len(),
                concurrency as nat,
                i,
            ),
{
    let mut out: Vec<&'a [T]> = Vec::new();
    let len = files.len();
    if len == 0 {
        assert(slice_views(out@) =~= Seq::<Seq<T>>::empty());
        assert(files@ =~= Seq::<T>::empty());
        return out;
    }
    let c: usize = if concurrency < 1 {
        1
    } else {
        concurrency
    };
    let n: usize = if c < len {
        c
    } else {
        len
    };
    let q = len / n;
    let r = len % n;
    proof {
        lemma_fundamental_div_mod(len as int, n as int);
    }
    let mut k: usize = 0;
    let mut start: usize = 0;
    assert(slice_views(out@) =~= Seq::<Seq<T>>::empty());
    assert(files@.take(0) =~= Seq::<T>::empty());
    while k < n
        invariant
            len == files@.len(),
            n == worker_count(len as nat, concurrency as nat),
            1 <= n <= len,
            q == len / n,
            r == len % n,
            len == n * q + r,
            r < n,
            0 <= k <= n,
            start == k * q + (if k < r { k as int } else { r as int }),
            start <= len,
            out@.len() == k,
            concat(slice_views(out@)) == files@.take(start as int),
            forall|i: int|
                0 <= i < out@.len() ==> (#[trigger] out@[i])@.len() == balanced_len(
                    len as nat,
                    concurrency as nat,
                    i,
                ),
        decreases n - k,
    {
        proof {
            if r > 0 {
                assert(q * 2 <= n * q) by (nonlinear_arith)
                    requires
                        n >= 2,
                        q >= 0,
                ;
            }
        }
        let size: usize = if k < r {
            q + 1
        } else {
            q
        };
        proof {
            assert((k + 1) * q == k * q + q) by (nonlinear_arith);
            assert((k + 1) * q <= n * q) by (nonlinear_arith)
                requires
                    k + 1 <= n,
                    q >= 0,
            ;
        }
        let end: usize = start + size;
        let piece = slice_subrange(files, start, end);
        let ghost before = out@;
        out.push(piece);
        proof {
            let v = slice_views(out@);
            assert(v.drop_last() =~= slice_views(before));
            assert(v.last() == piece@);
            assert(files@.take(end as int) =~= files@.take(start as int) + piece@);
            assert forall|i: int| 0 <= i < out@.len() implies (#[trigger] out@[i])@.len() == balanced_len(
                len as nat,
                concurrency as nat,
                i,
            ) by {
                if i < before.len() {
                    assert(out@[i] == before[i]);
                }
            }
        }
        start = end;
        k = k + 1;
    }
    assert(files@.take(len as int) =~= files@);
    out
}

/// The chunks [`partition`] makes share the work fairly: for a non-empty
/// input every chunk holds at least one item, and any two chunks differ
/// in size by at most one.
pub proof fn law_partition_balanced(len: nat, concurrency: nat, i: int, j: int)
    requires
        len > 0,
        0 <= i < worker_count(len, concurrency),
        0 <= j < worker_count(len, concurrency),
    ensures
        balanced_len(len, concurrency, i) >= 1,
        balanced_len(len, concurrency, i) <= balanced_len(len, concurrency, j) + 1,
{
    let n = worker_count(len, concurrency);
    lemma_fundamental_div_mod(len as int, n as int);
    if len / n == 0 {
        assert(n * (len / n) == 0) by (nonlinear_arith)
            requires
                len / n == 0,
        ;
        assert(len % n == len);
    }
}

} // verus!
