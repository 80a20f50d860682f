//! Snapshot locations and content fingerprints.
//!
//! `analyze --snapshot-mode <cache|baseline>` persists the finished
//! report with a SHA-256 fingerprint per analysed file; `regression
//! --before <cache|baseline>` loads it back from the same place.
//!
//! * `cache` — `target/.rustics-cache/snapshot.json`, gitignored.
//! * `baseline` — `<workspace>/rustics-snapshot.json`, committed.

use vstd::prelude::*;
use crate::path::{join_path, join_path_exec};
use crate::text::{append_utf8, chars_of, owned, push_char, str_eq};
use crate::discover::{lemma_lex_irreflexive, lemma_lex_total, lemma_lex_transitive, lex_less, lex_lt};
use vstd::utf8::encode_utf8;
use sha2::Digest;

verus! {

/// Persistence mode for `analyze --snapshot-mode`.
#[derive(Debug, Clone, Copy, PartialEq, Eq, Structural)]
pub enum SnapshotMode {
    /// `target/.rustics-cache/snapshot.json` — local, gitignored.
    Cache,
    /// `<workspace>/rustics-snapshot.json` — the committed baseline.
    Baseline,
}

/// Where a mode keeps its snapshot under `root`.
pub open spec fn snapshot_path(mode: SnapshotMode, root: Seq<char>) -> Seq<char> {
    match mode {
        SnapshotMode::Cache => join_path(
            join_path(join_path(root, "target"@), ".rustics-cache"@),
            "snapshot.json"@,
        ),
        SnapshotMode::Baseline => join_path(root, "rustics-snapshot.json"@),
    }
}

impl SnapshotMode {
    /// The path the snapshot is written to and read from, for
    /// `workspace_root`.
    pub fn path_in(self, workspace_root: &str) -> (p: String)
        ensures
            p@ == snapshot_path(self, workspace_root@),
    {
        match self {
            SnapshotMode::Cache => {
                let t = join_path_exec(workspace_root, "target");
                let c = join_path_exec(t.as_str(), ".rustics-cache");
                join_path_exec(c.as_str(), "snapshot.json")
            },
            SnapshotMode::Baseline => join_path_exec(workspace_root, "rustics-snapshot.json"),
        }
    }

    /// Resolves a `--before` keyword to its mode; `None` for a literal
    /// path the caller loads directly.
    pub fn from_keyword(value: &str) -> (m: Option<SnapshotMode>)
        ensures
            m == (if value@ == "cache"@ {
                Some(SnapshotMode::Cache)
            } else if value@ == "baseline"@ {
                Some(SnapshotMode::Baseline)
            } else {
                None
            }),
    {
        if str_eq(value, "cache") {
            Some(SnapshotMode::Cache)
        } else if str_eq(value, "baseline") {
            Some(SnapshotMode::Baseline)
        } else {
            None
        }
    }
}

/// The lowercase hexadecimal digit for `d < 16`.
pub open spec fn hex_digit(d: nat) -> char {
    if d < 10 {
        ((d + 48) as u32) as char
    } else {
        ((d + 87) as u32) as char
    }
}

/// Two lowercase hex digits per byte, most significant first
/// (`format!("{b:02x}")` for each byte).
pub open spec fn hex_spec(bytes: Seq<u8>) -> Seq<char>
    decreases bytes.len(),
{
    if bytes.len() == 0 {
        Seq::empty()
    } else {
        hex_spec(bytes.drop_last()) + seq![
            hex_digit((bytes.last() / 16) as nat),
            hex_digit((bytes.last() % 16) as nat),
        ]
    }
}

/// The character for a nibble.
fn hex_char(d: u8) -> (c: char)
    requires
        d < 16,
    ensures
        c == hex_digit(d as nat),
{
    if d < 10 {
        (d + 48) as char
    } else {
        (d + 87) as char
    }
}

/// Lowercase, zero-padded hex of `bytes`.
pub fn hex_lowercase(bytes: &[u8]) -> (s: String)
    ensures
        s@ == hex_spec(bytes@),
{
    let mut s = String::new();
    let mut i: usize = 0;
    while i < bytes.len()
        invariant
            0 <= i <= bytes.len(),
            s@ == hex_spec(bytes@.take(i as int)),
        decreases bytes.len() - i,
    {
        let b = bytes[i];
        push_char(&mut s, hex_char(b / 16));
        push_char(&mut s, hex_char(b % 16));
        proof {
            let t = bytes@.take(i + 1);
            assert(t.drop_last() =~= bytes@.take(i as int));
            assert(t.last() == b);
            assert(s@ =~= hex_spec(t));
        }
        i = i + 1;
    }
    assert(bytes@.take(i as int) =~= bytes@);
    s
}

/// The SHA-256 digest of a byte string.
pub uninterp spec fn sha256_of(data: Seq<u8>) -> Seq<u8>;

/// Calls `sha2::Sha256` (`new`, `update`, `finalize`). Trusted: the
/// result is the SHA-256 digest of `data`, a function of the bytes alone,
/// and it is 32 bytes long (the hash's fixed output size).
#[verifier::external_body]
fn sha256_digest(data: &[u8]) -> (out: Vec<u8>)
    ensures
        out@ == sha256_of(data@),
        out@.len() == 32,
{
    let mut hasher = sha2::Sha256::new();
    hasher.update(data);
    hasher.finalize().to_vec()
}

/// The content fingerprint a snapshot records for a file: the lowercase
/// hex of the SHA-256 of its bytes (64 characters).
pub fn fingerprint(contents: &[u8]) -> (s: String)
    ensures
        s@ == hex_spec(sha256_of(contents@)),
        s@.len() == 64,
{
    let digest = sha256_digest(contents);
    proof {
        lemma_hex_len(digest@);
    }
    hex_lowercase(digest.as_slice())
}

/// Hex text has two characters per byte.
pub proof fn lemma_hex_len(bytes: Seq<u8>)
    ensures
        hex_spec(bytes).len() == 2 * bytes.len(),
    decreases bytes.len(),
{
    if bytes.len() > 0 {
        lemma_hex_len(bytes.drop_last());
    }
}


/// The bytes a violation's id is hashed from: `<file>|<scope>|<metric>`
/// in UTF-8.
pub open spec fn violation_key(file: Seq<char>, scope: Seq<char>, metric: Seq<char>) -> Seq<u8> {
    encode_utf8(file) + encode_utf8("|"@) + encode_utf8(scope) + encode_utf8("|"@) + encode_utf8(metric)
}

/// A violation's stable id: the lowercase hex of the first eight bytes
/// of the SHA-256 of its key (sixteen characters).
pub open spec fn violation_id_spec(file: Seq<char>, scope: Seq<char>, metric: Seq<char>) -> Seq<char> {
    hex_spec(sha256_of(violation_key(file, scope, metric)).take(8))
}

/// The stable id of the violation of lens `metric` at `scope` in `file`,
/// the same on every run for the same three.
pub fn violation_id(file: &str, scope: &str, metric: &str) -> (s: String)
    ensures
        s@ == violation_id_spec(file@, scope@, metric@),
        s@.len() == 16,
{
    let mut key: Vec<u8> = Vec::new();
    append_utf8(&mut key, file);
    append_utf8(&mut key, "|");
    append_utf8(&mut key, scope);
    append_utf8(&mut key, "|");
    append_utf8(&mut key, metric);
    assert(key@ =~= violation_key(file@, scope@, metric@));
    let digest = sha256_digest(key.as_slice());
    let mut head: Vec<u8> = Vec::new();
    let mut i: usize = 0;
    while i < 8
        invariant
            digest@.len() == 32,
            0 <= i <= 8,
            head@ == digest@.take(i as int),
        decreases 8 - i,
    {
        head.push(digest[i]);
        i = i + 1;
        assert(head@ =~= digest@.take(i as int));
    }
    proof {
        lemma_hex_len(head@);
    }
    hex_lowercase(head.as_slice())
}

/// The fingerprints of a run's files, keyed by relative path: each file
/// read gives its path the fingerprint of its bytes, a later file with
/// the same path replacing an earlier one.
pub open spec fn hashes_spec(files: Seq<(String, Vec<u8>)>) -> Map<Seq<char>, Seq<char>>
    decreases files.len(),
{
    if files.len() == 0 {
        Map::empty()
    } else {
        hashes_spec(files.drop_last()).insert(files.last().0@, hex_spec(sha256_of(files.last().1@)))
    }
}

/// The entries are ordered by path, strictly.
pub open spec fn keys_ascending(v: Seq<(String, String)>) -> bool {
    forall|i: int, j: int| 0 <= i < j < v.len() ==> lex_lt((#[trigger] v[i]).0@, (#[trigger] v[j]).0@)
}

/// The entries are exactly the map.
pub open spec fn entries_are(v: Seq<(String, String)>, m: Map<Seq<char>, Seq<char>>) -> bool {
    &&& forall|i: int| 0 <= i < v.len() ==> m.contains_key((#[trigger] v[i]).0@) && m[v[i].0@] == v[i].1@
    &&& forall|k: Seq<char>| #[trigger] m.contains_key(k) ==> exists|i: int| 0 <= i < v.len() && v[i].0@ == k
}

/// The fingerprints of the files that could be read, given as
/// `(relative path, bytes)`: one `(path, fingerprint)` entry per path,
/// ordered by path, the last file of a path giving its fingerprint.
pub fn file_hashes(files: &[(String, Vec<u8>)]) -> (out: Vec<(String, String)>)
    ensures
        keys_ascending(out@),
        entries_are(out@, hashes_spec(files@)),
{
    let mut out: Vec<(String, String)> = Vec::new();
    let mut i: usize = 0;
    while i < files.len()
        invariant
            0 <= i <= files@.len(),
            keys_ascending(out@),
            entries_are(out@, hashes_spec(files@.take(i as int))),
        decreases files@.len() - i,
    {
        proof {
            let t = files@.take(i + 1);
            assert(t.drop_last() =~= files@.take(i as int));
            assert(t.last() == files@[i as int]);
        }
        let key = files[i].0.as_str();
        let value = fingerprint(files[i].1.as_slice());
        let ghost m0 = hashes_spec(files@.take(i as int));
        let ghost m1 = m0.insert(key@, value@);
        let kc = chars_of(key);
        let mut j: usize = 0;
        let mut done = false;
        while j < out.len() && !done
            invariant
                0 <= j <= out@.len(),
                kc@ == key@,
                forall|a: int| 0 <= a < j ==> lex_lt((#[trigger] out@[a]).0@, key@),
                done ==> j < out@.len() && !lex_lt(out@[j as int].0@, key@),
            decreases out@.len() - j + (if done { 0int } else { 1int }),
        {
            let oc = chars_of(out[j].0.as_str());
            if !lex_less(oc.as_slice(), kc.as_slice()) {
                done = true;
            } else {
                j = j + 1;
            }
        }
        let ghost o0 = out@;
        let same = j < out.len() && str_eq(out[j].0.as_str(), key);
        proof {
            lemma_lex_irreflexive(key@);
            if j < o0.len() && !same {
                lemma_lex_total(o0[j as int].0@, key@);
                assert(lex_lt(key@, o0[j as int].0@));
            }
        }
        if same {
            out.set(j, (owned(key), value));
            proof {
                assert forall|a: int, b: int| 0 <= a < b < out@.len() implies lex_lt((#[trigger] out@[a]).0@, (#[trigger] out@[b]).0@) by {
                    assert(o0[a].0@ == out@[a].0@ && o0[b].0@ == out@[b].0@);
                }
                assert forall|a: int| 0 <= a < out@.len() implies m1.contains_key((#[trigger] out@[a]).0@) && m1[out@[a].0@] == out@[a].1@ by {
                    if a != j {
                        assert(out@[a] == o0[a]);
                        assert(o0[a].0@ != key@) by {
                            if a < j {
                            } else {
                                assert(lex_lt(o0[j as int].0@, o0[a].0@));
                            }
                        }
                    }
                }
                assert forall|k: Seq<char>| #[trigger] m1.contains_key(k) implies exists|a: int| 0 <= a < out@.len() && out@[a].0@ == k by {
                    if k == key@ {
                        assert(out@[j as int].0@ == k);
                    } else {
                        let a = choose|a: int| 0 <= a < o0.len() && o0[a].0@ == k;
                        assert(out@[a].0@ == k);
                    }
                }
            }
        } else {
            out.insert(j, (owned(key), value));
            proof {
                assert forall|a: int| 0 <= a < out@.len() implies (#[trigger] out@[a]) == (if a < j {
                    o0[a]
                } else if a == j {
                    out@[j as int]
                } else {
                    o0[a - 1]
                }) by {}
                assert forall|a: int, b: int| 0 <= a < b < out@.len() implies lex_lt((#[trigger] out@[a]).0@, (#[trigger] out@[b]).0@) by {
                    if b < j {
                    } else if b == j {
                        assert(lex_lt(o0[a].0@, key@));
                    } else if a == j {
                        if b - 1 > j {
                            assert(lex_lt(o0[j as int].0@, o0[b - 1].0@));
                            lemma_lex_transitive(key@, o0[j as int].0@, o0[b - 1].0@);
                        }
                    } else if a < j {
                        assert(lex_lt(o0[a].0@, key@));
                        assert(lex_lt(key@, o0[j as int].0@));
                        if b - 1 > j {
                            assert(lex_lt(o0[j as int].0@, o0[b - 1].0@));
                            lemma_lex_transitive(key@, o0[j as int].0@, o0[b - 1].0@);
                        }
                        lemma_lex_transitive(o0[a].0@, key@, o0[b - 1].0@);
                    } else {
                        assert(lex_lt(o0[a - 1].0@, o0[b - 1].0@));
                    }
                }
                assert forall|a: int| 0 <= a < out@.len() implies m1.contains_key((#[trigger] out@[a]).0@) && m1[out@[a].0@] == out@[a].1@ by {
                    if a < j {
                        assert(lex_lt(o0[a].0@, key@));
                    } else if a > j {
                        assert(lex_lt(key@, o0[j as int].0@));
                        if a - 1 > j {
                            assert(lex_lt(o0[j as int].0@, o0[a - 1].0@));
                            lemma_lex_transitive(key@, o0[j as int].0@, o0[a - 1].0@);
                        }
                    }
                }
                assert forall|k: Seq<char>| #[trigger] m1.contains_key(k) implies exists|a: int| 0 <= a < out@.len() && out@[a].0@ == k by {
                    if k == key@ {
                        assert(out@[j as int].0@ == k);
                    } else {
                        let a = choose|a: int| 0 <= a < o0.len() && o0[a].0@ == k;
                        if a < j {
                            assert(out@[a].0@ == k);
                        } else {
                            assert(out@[a + 1].0@ == k);
                        }
                    }
                }
            }
        }
        proof {
            assert(hashes_spec(files@.take(i + 1)) == m1);
        }
        i = i + 1;
    }
    assert(files@.take(i as int) =~= files@);
    out
}

} // verus!
