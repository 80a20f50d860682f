//! The decisions of the editor bridge: which documents are open with
//! what text, and when their diagnostics are published.
//!
//! The server declares full-text synchronisation, so an open carries the
//! whole document and so does the first content change of an edit. The
//! transport and the computing of diagnostics stay with the caller, which
//! hands each notification in and performs the action that comes back.

use vstd::prelude::*;
use crate::text::{owned, str_eq};

verus! {

/// A notification from the editor, as far as the server reads it.
#[derive(Debug)]
pub enum Notification {
    /// `textDocument/didOpen`: a document and its full text.
    DidOpen { uri: String, text: String },
    /// `textDocument/didChange`: a document and the texts of its content
    /// changes, in order.
    DidChange { uri: String, changes: Vec<String> },
    /// Any other notification.
    Other,
}

/// What the caller does after a notification.
#[derive(Debug)]
pub enum Action {
    /// Compute and publish the diagnostics of `uri` for `text`.
    Publish { uri: String, text: String },
    /// Nothing.
    Nothing,
}

/// The open documents: each URI once, with its latest text.
#[derive(Debug)]
pub struct Documents {
    entries: Vec<(String, String)>,
}

/// No URI appears twice.
pub open spec fn keys_unique(s: Seq<(String, String)>) -> bool {
    forall|i: int, j: int| 0 <= i < j < s.len() ==> (#[trigger] s[i]).0@ != (#[trigger] s[j]).0@
}

/// The map from URI to text that a list of entries stands for.
pub open spec fn map_of(s: Seq<(String, String)>) -> Map<Seq<char>, Seq<char>>
    decreases s.len(),
{
    if s.len() == 0 {
        Map::empty()
    } else {
        map_of(s.drop_last()).insert(s.last().0@, s.last().1@)
    }
}

/// The URIs of the map are those of the entries.
proof fn lemma_map_of_dom(s: Seq<(String, String)>, k: Seq<char>)
    ensures
        map_of(s).dom().contains(k) <==> exists|i: int| 0 <= i < s.len() && (#[trigger] s[i]).0@ == k,
    decreases s.len(),
{
    if s.len() > 0 {
        let p = s.drop_last();
        lemma_map_of_dom(p, k);
        if map_of(s).dom().contains(k) && s.last().0@ != k {
            let i = choose|i: int| 0 <= i < p.len() && (#[trigger] p[i]).0@ == k;
            assert(s[i] == p[i]);
        }
        if exists|i: int| 0 <= i < s.len() && (#[trigger] s[i]).0@ == k {
            let i = choose|i: int| 0 <= i < s.len() && (#[trigger] s[i]).0@ == k;
            if i < s.len() - 1 {
                assert(p[i] == s[i]);
            }
        }
    }
}

/// With unique URIs, the map gives each entry's text for its URI.
proof fn lemma_map_of_value(s: Seq<(String, String)>, i: int)
    requires
        keys_unique(s),
        0 <= i < s.len(),
    ensures
        map_of(s).dom().contains(s[i].0@),
        map_of(s)[s[i].0@] == s[i].1@,
    decreases s.len(),
{
    let p = s.drop_last();
    if i < s.len() - 1 {
        assert(p[i] == s[i]);
        assert(keys_unique(p)) by {
            assert forall|a: int, b: int| 0 <= a < b < p.len() implies (#[trigger] p[a]).0@ != (#[trigger] p[b]).0@ by {
                assert(p[a] == s[a] && p[b] == s[b]);
            }
        }
        lemma_map_of_value(p, i);
        assert(s[i].0@ != s[s.len() - 1].0@);
    }
}

/// Replacing the text of an entry is inserting into the map.
proof fn lemma_map_of_update(s: Seq<(String, String)>, i: int, e: (String, String))
    requires
        keys_unique(s),
        0 <= i < s.len(),
        e.0@ == s[i].0@,
    ensures
        keys_unique(s.update(i, e)),
        map_of(s.update(i, e)) == map_of(s).insert(e.0@, e.1@),
{
    let u = s.update(i, e);
    assert(keys_unique(u)) by {
        assert forall|a: int, b: int| 0 <= a < b < u.len() implies (#[trigger] u[a]).0@ != (#[trigger] u[b]).0@ by {
            assert(u[a].0@ == s[a].0@ && u[b].0@ == s[b].0@);
        }
    }
    let m = map_of(s).insert(e.0@, e.1@);
    assert forall|k: Seq<char>| map_of(u).dom().contains(k) <==> m.dom().contains(k) by {
        lemma_map_of_dom(u, k);
        lemma_map_of_dom(s, k);
        if exists|j: int| 0 <= j < s.len() && (#[trigger] s[j]).0@ == k {
            let j = choose|j: int| 0 <= j < s.len() && (#[trigger] s[j]).0@ == k;
            assert(u[j].0@ == k);
        }
        if exists|j: int| 0 <= j < u.len() && (#[trigger] u[j]).0@ == k {
            let j = choose|j: int| 0 <= j < u.len() && (#[trigger] u[j]).0@ == k;
            assert(s[j].0@ == k);
        }
    }
    assert forall|k: Seq<char>| #[trigger] map_of(u).dom().contains(k) implies map_of(u)[k] == m[k] by {
        lemma_map_of_dom(u, k);
        let j = choose|j: int| 0 <= j < u.len() && (#[trigger] u[j]).0@ == k;
        lemma_map_of_value(u, j);
        if j != i {
            assert(u[j] == s[j]);
            lemma_map_of_value(s, j);
        }
    }
    assert(map_of(u) =~= m);
}

impl View for Documents {
    type V = Map<Seq<char>, Seq<char>>;

    closed spec fn view(&self) -> Map<Seq<char>, Seq<char>> {
        map_of(self.entries@)
    }
}

impl Documents {
    /// The store keeps each URI once.
    #[verifier::type_invariant]
    spec fn wf(self) -> bool {
        keys_unique(self.entries@)
    }

    /// No open documents.
    pub fn new() -> (d: Self)
        ensures
            d@ == Map::<Seq<char>, Seq<char>>::empty(),
    {
        Documents { entries: Vec::new() }
    }

    /// Where `uri` is, if it is open.
    fn position(&self, uri: &str) -> (r: Option<usize>)
        ensures
            match r {
                Some(i) => i < self.entries@.len() && self.entries@[i as int].0@ == uri@,
                None => !self@.dom().contains(uri@),
            },
    {
        proof {
            use_type_invariant(&*self);
        }
        let mut i: usize = 0;
        while i < self.entries.len()
            invariant
                0 <= i <= self.entries@.len(),
                forall|j: int| 0 <= j < i ==> (#[trigger] self.entries@[j]).0@ != uri@,
            decreases self.entries@.len() - i,
        {
            if str_eq(self.entries[i].0.as_str(), uri) {
                return Some(i);
            }
            i = i + 1;
        }
        proof {
            lemma_map_of_dom(self.entries@, uri@);
        }
        None
    }

    /// The text of `uri`, if it is open.
    pub fn get(&self, uri: &str) -> (r: Option<String>)
        ensures
            match r {
                Some(t) => self@.dom().contains(uri@) && t@ == self@[uri@],
                None => !self@.dom().contains(uri@),
            },
    {
        proof {
            use_type_invariant(&*self);
        }
        match self.position(uri) {
            Some(i) => {
                proof {
                    lemma_map_of_value(self.entries@, i as int);
                }
                Some(owned(self.entries[i].1.as_str()))
            },
            None => None,
        }
    }

    /// How many documents are open.
    pub fn len(&self) -> (n: usize)
        ensures
            n == self@.dom().len(),
    {
        proof {
            use_type_invariant(&*self);
            lemma_len(self.entries@);
        }
        self.entries.len()
    }

    /// Opens `uri` with `text`, or replaces its text.
    pub fn insert(&mut self, uri: String, text: String)
        ensures
            final(self)@ == old(self)@.insert(uri@, text@),
    {
        proof {
            use_type_invariant(&*self);
        }
        let pos = self.position(uri.as_str());
        let mut entries: Vec<(String, String)> = Vec::new();
        std::mem::swap(&mut entries, &mut self.entries);
        match pos {
            Some(i) => {
                proof {
                    lemma_map_of_update(entries@, i as int, (uri, text));
                }
                entries.set(i, (uri, text));
            },
            None => {
                proof {
                    lemma_map_of_dom(entries@, uri@);
                    let s = entries@;
                    let t = s.push((uri, text));
                    assert(t.drop_last() =~= s);
                    assert forall|a: int, b: int| 0 <= a < b < t.len() implies (#[trigger] t[a]).0@ != (#[trigger] t[b]).0@ by {
                        if b == s.len() {
                            assert(t[a] == s[a]);
                        } else {
                            assert(t[a] == s[a] && t[b] == s[b]);
                        }
                    }
                }
                entries.push((uri, text));
            },
        }
        self.entries = entries;
    }
}

/// With unique URIs, the map has one key per entry.
proof fn lemma_len(s: Seq<(String, String)>)
    requires
        keys_unique(s),
    ensures
        map_of(s).dom().len() == s.len(),
        map_of(s).dom().finite(),
    decreases s.len(),
{
    if s.len() > 0 {
        let p = s.drop_last();
        assert(keys_unique(p)) by {
            assert forall|a: int, b: int| 0 <= a < b < p.len() implies (#[trigger] p[a]).0@ != (#[trigger] p[b]).0@ by {
                assert(p[a] == s[a] && p[b] == s[b]);
            }
        }
        lemma_len(p);
        lemma_map_of_dom(p, s.last().0@);
        if map_of(p).dom().contains(s.last().0@) {
            let i = choose|i: int| 0 <= i < p.len() && (#[trigger] p[i]).0@ == s.last().0@;
            assert(p[i] == s[i]);
        }
    }
}

/// The text a notification brings for its document, if any: the text of
/// an open, the first content change of an edit.
pub open spec fn brought_text(n: Notification) -> Option<(Seq<char>, Seq<char>)> {
    match n {
        Notification::DidOpen { uri, text } => Some((uri@, text@)),
        Notification::DidChange { uri, changes } => if changes@.len() > 0 {
            Some((uri@, changes@[0]@))
        } else {
            None
        },
        Notification::Other => None,
    }
}

/// Applies one notification: an open or an edit with content stores the
/// document's new text and asks for its diagnostics to be published;
/// anything else changes nothing.
pub fn handle_notification(docs: &mut Documents, note: Notification) -> (a: Action)
    ensures
        match brought_text(note) {
            Some((uri, text)) => final(docs)@ == old(docs)@.insert(uri, text) && match a {
                Action::Publish { uri: u, text: t } => u@ == uri && t@ == text,
                Action::Nothing => false,
            },
            None => final(docs)@ == old(docs)@ && a is Nothing,
        },
{
    match note {
        Notification::DidOpen { uri, text } => {
            let u = owned(uri.as_str());
            let t = owned(text.as_str());
            docs.insert(uri, text);
            Action::Publish { uri: u, text: t }
        },
        Notification::DidChange { uri, changes } => {
            if changes.len() > 0 {
                let first = changes[0].as_str();
                let u = owned(uri.as_str());
                let t = owned(first);
                let stored = owned(first);
                docs.insert(uri, stored);
                Action::Publish { uri: u, text: t }
            } else {
                Action::Nothing
            }
        },
        Notification::Other => Action::Nothing,
    }
}

} // verus!
