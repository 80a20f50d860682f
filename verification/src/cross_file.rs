//! Cross-file aggregation: `trait-impl-fanout`, the number of `impl`
//! blocks that target one struct or enum across the whole workspace.
//!
//! Impl sites are grouped by the last path segment of their self type;
//! a type with more than 8 impl blocks is a warning, more than 16 an
//! error. Findings are ordered by type name and anchored at the type's
//! first impl site.

use vstd::prelude::*;
use crate::analyze::{is_among, strs};
use crate::discover::{lemma_lex_irreflexive, lex_lt};
use crate::regression::{insert_by_id, sorted_by_id};
use crate::items::{last_segment, opt_str, path_tail, TypeShape};
use crate::unused::{relative_to, strip_workspace_prefix};
use crate::report::{ScopeKind, Severity};
use crate::snapshot::{violation_id, violation_id_spec};
use crate::text::{decimal, owned, push_decimal, push_str, str_eq};

verus! {

/// Lens ids computed by the cross-file pass rather than per file; they
/// are still configurable in `rustics.toml`.
pub const CROSS_FILE_METRIC_IDS: [&'static str; 6] = [
    "afferent-coupling",
    "instability",
    "efferent-coupling",
    "cyclomatic-complexity",
    "cognitive-complexity",
    "npath-complexity",
];

/// Warning threshold of `trait-impl-fanout`.
pub const TRAIT_IMPL_FANOUT_WARNING: u32 = 8;

/// Error threshold of `trait-impl-fanout`.
pub const TRAIT_IMPL_FANOUT_ERROR: u32 = 16;

/// Where one impl block of a type is.
#[derive(Debug)]
pub struct TypeImplLocation {
    /// Workspace-relative file.
    pub file: String,
    /// 1-based line of the `impl` keyword.
    pub line: usize,
}

/// One impl block: the type it targets and where it is.
#[derive(Debug)]
pub struct ImplSite {
    /// Last path segment of the self type.
    pub target: String,
    /// Workspace-relative file.
    pub file: String,
    /// 1-based line of the `impl` keyword.
    pub line: usize,
}

/// The severity and crossed threshold for an impl count, if any.
pub open spec fn severity_spec(count: u32) -> Option<(Severity, u32)> {
    if count > 16 {
        Some((Severity::Error, 16u32))
    } else if count > 8 {
        Some((Severity::Warning, 8u32))
    } else {
        None
    }
}

/// The `count > warning / error` ladder shared by the count-based
/// lenses: the severity and the threshold crossed, if any.
pub open spec fn ladder_spec(count: u32, warning: u32, error: u32) -> Option<(Severity, u32)> {
    if count > error {
        Some((Severity::Error, error))
    } else if count > warning {
        Some((Severity::Warning, warning))
    } else {
        None
    }
}

/// The `count >= warning / error` ladder of the function-complexity
/// lenses, where reaching a threshold crosses it.
pub open spec fn ladder_at_spec(count: u32, warning: u32, error: u32) -> Option<(Severity, u32)> {
    if count >= error {
        Some((Severity::Error, error))
    } else if count >= warning {
        Some((Severity::Warning, warning))
    } else {
        None
    }
}

/// Severity tier and the threshold reached by `count` against a warning
/// and an error threshold.
pub fn severity_ladder_at(count: u32, warning: u32, error: u32) -> (r: Option<(Severity, u32)>)
    ensures
        r == ladder_at_spec(count, warning, error),
{
    if count >= error {
        Some((Severity::Error, error))
    } else if count >= warning {
        Some((Severity::Warning, warning))
    } else {
        None
    }
}

/// Severity tier and the threshold crossed by `count` against a
/// warning and an error threshold.
pub fn severity_ladder(count: u32, warning: u32, error: u32) -> (r: Option<(Severity, u32)>)
    ensures
        r == ladder_spec(count, warning, error),
{
    if count > error {
        Some((Severity::Error, error))
    } else if count > warning {
        Some((Severity::Warning, warning))
    } else {
        None
    }
}

/// Severity tier and the threshold crossed by `count` impl blocks.
pub fn severity_for(count: u32) -> (r: Option<(Severity, u32)>)
    ensures
        r == severity_spec(count),
        r == ladder_spec(count, TRAIT_IMPL_FANOUT_WARNING, TRAIT_IMPL_FANOUT_ERROR),
{
    severity_ladder(count, TRAIT_IMPL_FANOUT_WARNING, TRAIT_IMPL_FANOUT_ERROR)
}

/// The name impl blocks are grouped under: the last path segment of the
/// self type, looking through references, parentheses and invisible
/// groups; none for any other type.
pub open spec fn self_type_name_spec(ty: TypeShape) -> Option<Seq<char>>
    decreases ty,
{
    match ty {
        TypeShape::Path(segs) => last_segment(segs@),
        TypeShape::Reference(inner) => self_type_name_spec(*inner),
        TypeShape::Paren(inner) => self_type_name_spec(*inner),
        TypeShape::Group(inner) => self_type_name_spec(*inner),
        TypeShape::Other => None,
    }
}

/// The name of a self type, as [`self_type_name_spec`] defines it.
pub fn self_type_name(ty: &TypeShape) -> (r: Option<String>)
    ensures
        opt_str(r) == self_type_name_spec(*ty),
    decreases ty,
{
    match ty {
        TypeShape::Path(segs) => path_tail(segs),
        TypeShape::Reference(inner) => self_type_name(inner),
        TypeShape::Paren(inner) => self_type_name(inner),
        TypeShape::Group(inner) => self_type_name(inner),
        TypeShape::Other => None,
    }
}

/// One `- file:line` line per site.
pub open spec fn sites_text(locs: Seq<(Seq<char>, usize)>) -> Seq<char>
    decreases locs.len(),
{
    if locs.len() == 0 {
        Seq::empty()
    } else {
        sites_text(locs.drop_last()) + "\n  - "@ + locs.last().0 + ":"@ + decimal(locs.last().1 as nat)
    }
}

/// The rationale of a fanout finding: the count, the reading, and every
/// impl site.
pub open spec fn rationale_spec(name: Seq<char>, count: nat, locs: Seq<(Seq<char>, usize)>) -> Seq<char> {
    "`"@ + name + "` has "@ + decimal(count)
        + " impl blocks targeting it. Many distinct impls on one type often signal that the type is doing several jobs at once.\n\nSites:"@
        + sites_text(locs)
}

/// The locations as `(file, line)` pairs.
pub open spec fn location_views(locs: Seq<TypeImplLocation>) -> Seq<(Seq<char>, usize)> {
    locs.map_values(|l: TypeImplLocation| (l.file@, l.line))
}

/// Renders the rationale of a fanout finding.
pub fn rationale_for(name: &str, count: u32, locations: &[TypeImplLocation]) -> (s: String)
    ensures
        s@ == rationale_spec(name@, count as nat, location_views(locations@)),
{
    let mut s = owned("`");
    push_str(&mut s, name);
    push_str(&mut s, "` has ");
    push_decimal(&mut s, count as u64);
    push_str(
        &mut s,
        " impl blocks targeting it. Many distinct impls on one type often signal that the type is doing several jobs at once.\n\nSites:",
    );
    let ghost head = s@;
    let ghost lv = location_views(locations@);
    let mut i: usize = 0;
    assert(lv.take(0) =~= Seq::<(Seq<char>, usize)>::empty());
    while i < locations.len()
        invariant
            0 <= i <= locations@.len(),
            lv == location_views(locations@),
            s@ == head + sites_text(lv.take(i as int)),
        decreases locations@.len() - i,
    {
        proof {
            let t = lv.take(i + 1);
            assert(t.drop_last() =~= lv.take(i as int));
            assert(t.last() == (locations@[i as int].file@, locations@[i as int].line));
        }
        push_str(&mut s, "\n  - ");
        push_str(&mut s, locations[i].file.as_str());
        push_str(&mut s, ":");
        push_decimal(&mut s, locations[i].line as u64);
        i = i + 1;
    }
    assert(lv.take(i as int) =~= lv);
    s
}

/// The impl sites grouped by type, types in first-seen order, each with
/// the positions of its sites in order.
pub open spec fn site_groups(sites: Seq<ImplSite>) -> Seq<(Seq<char>, Seq<usize>)>
    decreases sites.len(),
{
    if sites.len() == 0 {
        Seq::empty()
    } else {
        let prev = site_groups(sites.drop_last());
        let name = sites.last().target@;
        let k = (sites.len() - 1) as usize;
        match crate::unused::apply::group_of(prev, name) {
            Some(g) => prev.update(g, (name, prev[g].1.push(k))),
            None => prev.push((name, seq![k])),
        }
    }
}

/// One fanout finding.
#[derive(Debug)]
pub struct FanoutFinding {
    /// The type.
    pub name: String,
    /// File of its first impl site.
    pub file: String,
    /// Line of its first impl site.
    pub line: usize,
    /// Number of impl blocks (truncated to 32 bits).
    pub count: u32,
    /// Severity tier.
    pub severity: Severity,
    /// Threshold crossed.
    pub threshold: u32,
    /// Rationale listing every site.
    pub rationale: String,
}

/// The sites at the given positions as `(file, line)` pairs.
pub open spec fn sites_at(sites: Seq<ImplSite>, idx: Seq<usize>) -> Seq<(Seq<char>, usize)> {
    idx.map_values(|k: usize| (sites[k as int].file@, sites[k as int].line))
}

/// `f` is the finding of group `g`.
pub open spec fn finding_of_group(sites: Seq<ImplSite>, g: (Seq<char>, Seq<usize>), f: FanoutFinding) -> bool {
    let count = g.1.len() as u32;
    &&& f.name@ == g.0
    &&& f.count == count
    &&& severity_spec(count) == Some((f.severity, f.threshold))
    &&& f.file@ == sites[g.1[0] as int].file@
    &&& f.line == sites[g.1[0] as int].line
    &&& f.rationale@ == rationale_spec(g.0, count as nat, sites_at(sites, g.1))
}

proof fn lemma_site_groups(sites: Seq<ImplSite>)
    ensures
        forall|g: int| #![trigger site_groups(sites)[g]]
            0 <= g < site_groups(sites).len() ==> site_groups(sites)[g].1.len() > 0 && forall|t: int|
                0 <= t < site_groups(sites)[g].1.len() ==> (site_groups(sites)[g].1[t] as int)
                    < sites.len(),
        forall|a: int, b: int|
            0 <= a < b < site_groups(sites).len() ==> site_groups(sites)[a].0 != site_groups(
                sites,
            )[b].0,
    decreases sites.len(),
{
    if sites.len() > 0 {
        let prev = site_groups(sites.drop_last());
        lemma_site_groups(sites.drop_last());
        let name = sites.last().target@;
        crate::unused::apply::lemma_group_of_bound_pub(prev, name);
        match crate::unused::apply::group_of(prev, name) {
            Some(g) => {
                let cur = site_groups(sites);
                assert forall|h: int| #![trigger cur[h]] 0 <= h < cur.len() implies cur[h].1.len() > 0
                    && forall|t: int| 0 <= t < cur[h].1.len() ==> (cur[h].1[t] as int) < sites.len() by {
                    if h != g {
                        assert(cur[h] == prev[h]);
                    }
                }
            },
            None => {
                crate::unused::apply::lemma_group_of_none(prev, name);
            },
        }
    }
}

/// Sites of one type, gathered in order.
struct TypeGroup {
    name: String,
    sites: Vec<usize>,
}

/// The views of type groups.
spec fn type_group_views(gs: Seq<TypeGroup>) -> Seq<(Seq<char>, Seq<usize>)> {
    gs.map_values(|g: TypeGroup| (g.name@, g.sites@))
}

/// Position of the group named `name`.
fn find_type_group(groups: &Vec<TypeGroup>, name: &str) -> (r: Option<usize>)
    ensures
        match r {
            Some(g) => crate::unused::apply::group_of(type_group_views(groups@), name@) == Some(g as int),
            None => crate::unused::apply::group_of(type_group_views(groups@), name@) == None::<int>,
        },
{
    let ghost gv = type_group_views(groups@);
    let mut i: usize = groups.len();
    while i > 0
        invariant
            0 <= i <= groups@.len(),
            gv == type_group_views(groups@),
            forall|k: int| i <= k < gv.len() ==> (#[trigger] gv[k]).0 != name@,
        decreases i,
    {
        assert(gv[i - 1].0 == groups@[i - 1].name@);
        if str_eq(groups[i - 1].name.as_str(), name) {
            proof {
                lemma_group_of_last(gv, name@, i as int);
            }
            return Some(i - 1);
        }
        i = i - 1;
    }
    proof {
        lemma_group_of_last(gv, name@, 0);
    }
    None
}

proof fn lemma_group_of_last(gs: Seq<(Seq<char>, Seq<usize>)>, name: Seq<char>, i: int)
    requires
        0 <= i <= gs.len(),
        forall|k: int| i <= k < gs.len() ==> (#[trigger] gs[k]).0 != name,
    ensures
        i > 0 && gs[i - 1].0 == name ==> crate::unused::apply::group_of(gs, name) == Some(i - 1),
        i == 0 ==> crate::unused::apply::group_of(gs, name) == None::<int>,
    decreases gs.len(),
{
    if gs.len() > 0 && i < gs.len() {
        let t = gs.drop_last();
        assert forall|k: int| i <= k < t.len() implies (#[trigger] t[k]).0 != name by {
            assert(t[k] == gs[k]);
        }
        lemma_group_of_last(t, name, i);
    }
}

/// One finding per type with more than 8 impl blocks, ordered by type
/// name, each anchored at the type's first impl site.
pub fn fanout_findings(sites: &[ImplSite]) -> (out: Vec<FanoutFinding>)
    ensures
        forall|i: int|
            0 <= i < out@.len() ==> match crate::unused::apply::group_of(
                site_groups(sites@),
                (#[trigger] out@[i]).name@,
            ) {
                Some(g) => finding_of_group(sites@, site_groups(sites@)[g], out@[i]),
                None => false,
            },
        forall|i: int, j: int| 0 <= i < j < out@.len() ==> lex_lt(out@[i].name@, out@[j].name@),
        forall|g: int|
            0 <= g < site_groups(sites@).len() && (#[trigger] severity_spec(
                site_groups(sites@)[g].1.len() as u32,
            )).is_some() ==> exists|i: int|
                0 <= i < out@.len() && out@[i].name@ == site_groups(sites@)[g].0,
{
    let mut groups: Vec<TypeGroup> = Vec::new();
    let mut k: usize = 0;
    assert(type_group_views(groups@) =~= Seq::<(Seq<char>, Seq<usize>)>::empty());
    while k < sites.len()
        invariant
            0 <= k <= sites@.len(),
            type_group_views(groups@) == site_groups(sites@.take(k as int)),
        decreases sites@.len() - k,
    {
        let site = &sites[k];
        let ghost gv = type_group_views(groups@);
        proof {
            let t = sites@.take(k + 1);
            assert(t.drop_last() =~= sites@.take(k as int));
            assert(t.last() == *site);
            crate::unused::apply::lemma_group_of_bound_pub(gv, site.target@);
        }
        match find_type_group(&groups, site.target.as_str()) {
            Some(g) => {
                let mut grp = groups.remove(g);
                grp.sites.push(k);
                groups.insert(g, grp);
                assert(type_group_views(groups@) =~= gv.update(
                    g as int,
                    (site.target@, gv[g as int].1.push(k)),
                ));
            },
            None => {
                let mut v: Vec<usize> = Vec::new();
                v.push(k);
                groups.push(TypeGroup { name: owned(site.target.as_str()), sites: v });
                assert(type_group_views(groups@) =~= gv.push((site.target@, seq![k])));
            },
        }
        k = k + 1;
    }
    assert(sites@.take(k as int) =~= sites@);
    let ghost sg = site_groups(sites@);
    proof {
        lemma_site_groups(sites@);
    }
    let mut names: Vec<String> = Vec::new();
    let mut g: usize = 0;
    while g < groups.len()
        invariant
            0 <= g <= groups@.len(),
            type_group_views(groups@) == sg,
            names@.len() == g,
            forall|t: int| 0 <= t < g ==> (#[trigger] names@[t])@ == sg[t].0,
        decreases groups@.len() - g,
    {
        names.push(owned(groups[g].name.as_str()));
        g = g + 1;
    }
    assert(strs(names@) =~= sg.map_values(|p: (Seq<char>, Seq<usize>)| p.0));
    let ghost nv = strs(names@);
    let mut order: Vec<usize> = Vec::new();
    let mut h: usize = 0;
    while h < names.len()
        invariant
            0 <= h <= names@.len(),
            nv == strs(names@),
            nv.len() == sg.len(),
            forall|a: int, b: int| 0 <= a < b < nv.len() ==> nv[a] != nv[b],
            sorted_by_id(nv, order@),
            forall|x: usize| order@.contains(x) <==> x < h,
            order@.len() == h,
        decreases names@.len() - h,
    {
        proof {
            assert forall|a: int| 0 <= a < order@.len() implies nv[#[trigger] order@[a] as int] != nv[h as int] by {
                assert(order@.contains(order@[a]));
            }
        }
        insert_by_id(&mut order, h, names.as_slice());
        h = h + 1;
    }
    let mut out: Vec<FanoutFinding> = Vec::new();
    let ghost mut pos: Seq<int> = Seq::empty();
    let mut i: usize = 0;
    while i < order.len()
        invariant
            0 <= i <= order@.len(),
            nv == strs(names@),
            nv.len() == sg.len(),
            sg == site_groups(sites@),
            type_group_views(groups@) == sg,
            sorted_by_id(nv, order@),
            forall|x: usize| order@.contains(x) <==> x < sg.len(),
            forall|q: int| #![trigger sg[q]] 0 <= q < sg.len() ==> sg[q].1.len() > 0 && forall|t: int|
                0 <= t < sg[q].1.len() ==> (sg[q].1[t] as int) < sites@.len(),
            forall|q: int| 0 <= q < sg.len() ==> (#[trigger] nv[q]) == sg[q].0,
            forall|a: int| 0 <= a < out@.len() ==> exists|q: int| 0 <= q < sg.len() && finding_of_group(sites@, sg[q], #[trigger] out@[a]),
            pos.len() == out@.len(),
            forall|a: int| 0 <= a < pos.len() ==> 0 <= #[trigger] pos[a] < i && out@[a].name@ == nv[order@[pos[a]] as int],
            forall|a: int, b: int| 0 <= a < b < pos.len() ==> #[trigger] pos[a] < #[trigger] pos[b],
            forall|t: int| 0 <= t < i && (#[trigger] severity_spec(sg[order@[t] as int].1.len() as u32)).is_some() ==> exists|a: int| 0 <= a < pos.len() && pos[a] == t,
        decreases order@.len() - i,
    {
        let q = order[i];
        assert(order@.contains(q));
        let grp = &groups[q];
        assert(type_group_views(groups@)[q as int] == (grp.name@, grp.sites@));
        let count = grp.sites.len() as u32;
        let ghost before = out@;
        let ghost pos0 = pos;
        match severity_for(count) {
            Some((severity, threshold)) => {
                let first = grp.sites[0];
                let mut locs: Vec<TypeImplLocation> = Vec::new();
                let mut t: usize = 0;
                while t < grp.sites.len()
                    invariant
                        0 <= t <= grp.sites@.len(),
                        forall|u: int| 0 <= u < grp.sites@.len() ==> (grp.sites@[u] as int) < sites@.len(),
                        location_views(locs@) == sites_at(sites@, grp.sites@.take(t as int)),
                    decreases grp.sites@.len() - t,
                {
                    let s = &sites[grp.sites[t]];
                    let ghost lo = location_views(locs@);
                    locs.push(TypeImplLocation { file: owned(s.file.as_str()), line: s.line });
                    assert(location_views(locs@) =~= lo.push((s.file@, s.line)));
                    assert(sites_at(sites@, grp.sites@.take(t + 1)) =~= sites_at(sites@, grp.sites@.take(t as int)).push((s.file@, s.line)));
                    t = t + 1;
                }
                assert(grp.sites@.take(t as int) =~= grp.sites@);
                let rationale = rationale_for(grp.name.as_str(), count, locs.as_slice());
                let f = FanoutFinding {
                    name: owned(grp.name.as_str()),
                    file: owned(sites[first].file.as_str()),
                    line: sites[first].line,
                    count,
                    severity,
                    threshold,
                    rationale,
                };
                assert(finding_of_group(sites@, sg[q as int], f));
                out.push(f);
                proof {
                    pos = pos0.push(i as int);
                    assert forall|a: int| 0 <= a < out@.len() implies exists|r: int| 0 <= r < sg.len() && finding_of_group(sites@, sg[r], #[trigger] out@[a]) by {
                        if a < before.len() {
                            assert(out@[a] == before[a]);
                        } else {
                            assert(out@[a] == f);
                        }
                    }
                    assert forall|a: int| 0 <= a < pos.len() implies 0 <= #[trigger] pos[a] < i + 1 && out@[a].name@ == nv[order@[pos[a]] as int] by {
                        if a < before.len() {
                            assert(out@[a] == before[a]);
                            assert(pos[a] == pos0[a]);
                        }
                    }
                    assert forall|a: int, b: int| 0 <= a < b < pos.len() implies #[trigger] pos[a] < #[trigger] pos[b] by {
                        if b < pos0.len() {
                            assert(pos[a] == pos0[a] && pos[b] == pos0[b]);
                        } else {
                            assert(pos[a] == pos0[a]);
                        }
                    }
                    assert forall|t: int| 0 <= t < i + 1 && (#[trigger] severity_spec(sg[order@[t] as int].1.len() as u32)).is_some() implies exists|a: int| 0 <= a < pos.len() && pos[a] == t by {
                        if t < i {
                            let a = choose|a: int| 0 <= a < pos0.len() && pos0[a] == t;
                            assert(pos[a] == t);
                        } else {
                            assert(pos[pos0.len() as int] == t);
                        }
                    }
                }
            },
            None => {
                proof {
                    assert forall|t: int| 0 <= t < i + 1 && (#[trigger] severity_spec(sg[order@[t] as int].1.len() as u32)).is_some() implies exists|a: int| 0 <= a < pos.len() && pos[a] == t by {
                        if t == i {
                            assert(severity_spec(count) is None);
                        }
                    }
                }
            },
        }
        i = i + 1;
    }
    proof {
        assert forall|a: int| 0 <= a < out@.len() implies match crate::unused::apply::group_of(
            site_groups(sites@),
            (#[trigger] out@[a]).name@,
        ) {
            Some(g) => finding_of_group(sites@, site_groups(sites@)[g], out@[a]),
            None => false,
        } by {
            let q = choose|q: int| 0 <= q < sg.len() && finding_of_group(sites@, sg[q], out@[a]);
            let nm = out@[a].name@;
            assert(sg[q].0 == nm);
            assert forall|k: int| q + 1 <= k < sg.len() implies (#[trigger] sg[k]).0 != nm by {
                assert(sg[q].0 != sg[k].0);
            }
            lemma_group_of_last(sg, nm, q + 1);
        }
        assert forall|a: int, b: int| 0 <= a < b < out@.len() implies lex_lt(out@[a].name@, out@[b].name@) by {
            assert(pos[a] < pos[b]);
            assert(0 <= pos[a] && pos[b] < order@.len());
        }
        assert forall|q: int| 0 <= q < sg.len() && (#[trigger] severity_spec(sg[q].1.len() as u32)).is_some() implies exists|a: int| 0 <= a < out@.len() && out@[a].name@ == sg[q].0 by {
            assert(order@.contains(q as usize));
            let t = choose|t: int| 0 <= t < order@.len() && order@[t] == q as usize;
            assert(severity_spec(sg[order@[t] as int].1.len() as u32).is_some());
            let a = choose|a: int| 0 <= a < pos.len() && pos[a] == t;
            assert(out@[a].name@ == nv[order@[t] as int]);
        }
    }
    out
}

// ----------------------------------------------------------------------
// Workspace-wide passes over counts
// ----------------------------------------------------------------------

/// One count a workspace-wide pass measured for a scope, with the warning
/// and error thresholds of its lens when the lens fires on it.
#[derive(Debug)]
pub struct ScopeCount {
    /// The file as the pass reports it (absolute).
    pub file: String,
    /// 1-based line of the scope.
    pub line: u32,
    /// Scope path.
    pub scope: String,
    /// Lens id.
    pub metric: String,
    /// The count.
    pub value: u32,
    /// `(warning, error)` when the lens fires on the count.
    pub thresholds: Option<(u32, u32)>,
    /// Whether a count equal to a threshold crosses it (otherwise the
    /// count must exceed it).
    pub at_threshold: bool,
}

/// What a pass keeps of a count: the measurement, always, and the
/// severity and crossed threshold when the count crosses one.
#[derive(Debug)]
pub struct CountOutcome {
    /// Workspace-relative file.
    pub file: String,
    /// 1-based line.
    pub line: u32,
    /// Scope path.
    pub scope: String,
    /// Lens id.
    pub metric: String,
    /// The count.
    pub value: u32,
    /// Severity and crossed threshold, if any.
    pub finding: Option<(Severity, u32)>,
}

/// The finding of a count, if it crosses a threshold of its lens.
pub open spec fn count_finding(c: ScopeCount) -> Option<(Severity, u32)> {
    match c.thresholds {
        Some((w, e)) => if c.at_threshold {
            ladder_at_spec(c.value, w, e)
        } else {
            ladder_spec(c.value, w, e)
        },
        None => None,
    }
}

/// An outcome as plain values: file, line, scope, lens, count, finding.
pub open spec fn outcome_view(o: CountOutcome) -> (Seq<char>, u32, Seq<char>, Seq<char>, u32, Option<(Severity, u32)>) {
    (o.file@, o.line, o.scope@, o.metric@, o.value, o.finding)
}

/// The outcomes of a pass, in order: each count is made
/// workspace-relative and, when only discovered files are analysed,
/// dropped unless its file is one of them.
pub open spec fn shaped_counts(cs: Seq<ScopeCount>, prefix: Seq<char>, discovered: Option<Seq<Seq<char>>>) -> Seq<
    (Seq<char>, u32, Seq<char>, Seq<char>, u32, Option<(Severity, u32)>),
>
    decreases cs.len(),
{
    if cs.len() == 0 {
        Seq::empty()
    } else {
        let c = cs.last();
        let rel = relative_to(c.file@, prefix);
        let prev = shaped_counts(cs.drop_last(), prefix, discovered);
        let kept = match discovered {
            Some(ds) => ds.contains(rel),
            None => true,
        };
        if kept {
            prev.push((rel, c.line, c.scope@, c.metric@, c.value, count_finding(c)))
        } else {
            prev
        }
    }
}

/// Shapes the counts of a workspace-wide pass: paths made relative to
/// `workspace_prefix`, counts of undiscovered files dropped when
/// `discovered` is given, and each count laddered against its lens's
/// thresholds.
pub fn shape_counts(counts: &[ScopeCount], workspace_prefix: &str, discovered: Option<&[String]>) -> (out: Vec<CountOutcome>)
    ensures
        out@.map_values(|o: CountOutcome| outcome_view(o)) == shaped_counts(
            counts@,
            workspace_prefix@,
            match discovered {
                Some(ds) => Some(strs(ds@)),
                None => None,
            },
        ),
{
    let ghost dv = match discovered {
        Some(ds) => Some(strs(ds@)),
        None => None,
    };
    let mut out: Vec<CountOutcome> = Vec::new();
    let mut i: usize = 0;
    assert(out@.map_values(|o: CountOutcome| outcome_view(o)) =~= shaped_counts(counts@.take(0), workspace_prefix@, dv));
    while i < counts.len()
        invariant
            0 <= i <= counts@.len(),
            dv == (match discovered {
                Some(ds) => Some(strs(ds@)),
                None => None,
            }),
            out@.map_values(|o: CountOutcome| outcome_view(o)) == shaped_counts(counts@.take(i as int), workspace_prefix@, dv),
        decreases counts@.len() - i,
    {
        let c = &counts[i];
        proof {
            let t = counts@.take(i + 1);
            assert(t.drop_last() =~= counts@.take(i as int));
            assert(t.last() == *c);
        }
        let rel = strip_workspace_prefix(c.file.as_str(), workspace_prefix);
        let kept = match discovered {
            Some(ds) => is_among(ds, rel.as_str()),
            None => true,
        };
        let ghost before = out@;
        if kept {
            let finding = match c.thresholds {
                Some((w, e)) => if c.at_threshold {
                    severity_ladder_at(c.value, w, e)
                } else {
                    severity_ladder(c.value, w, e)
                },
                None => None,
            };
            out.push(CountOutcome {
                file: rel,
                line: c.line,
                scope: owned(c.scope.as_str()),
                metric: owned(c.metric.as_str()),
                value: c.value,
                finding,
            });
            assert(out@.drop_last() =~= before);
        }
        assert(out@.map_values(|o: CountOutcome| outcome_view(o)) =~= shaped_counts(counts@.take(i + 1), workspace_prefix@, dv));
        i = i + 1;
    }
    assert(counts@.take(i as int) =~= counts@);
    out
}

/// The `afferent-coupling` count of one file (fires above 20, errs above
/// 40).
pub fn afferent_count(file: String, scope: String, afferent: u32) -> (c: ScopeCount)
    ensures
        c == (ScopeCount {
            file,
            line: 1,
            scope,
            metric: c.metric,
            value: afferent,
            thresholds: Some((20u32, 40u32)),
            at_threshold: false,
        }),
        c.metric@ == "afferent-coupling"@,
{
    ScopeCount {
        file,
        line: 1,
        scope,
        metric: owned("afferent-coupling"),
        value: afferent,
        thresholds: Some((20, 40)),
        at_threshold: false,
    }
}

/// The `efferent-coupling` count of one file: the external crates its
/// `use` items reach (fires above 15, errs above 30).
pub fn efferent_count(file: String, scope: String, efferent: u32) -> (c: ScopeCount)
    ensures
        c == (ScopeCount {
            file,
            line: 1,
            scope,
            metric: c.metric,
            value: efferent,
            thresholds: Some((15u32, 30u32)),
            at_threshold: false,
        }),
        c.metric@ == "efferent-coupling"@,
{
    ScopeCount {
        file,
        line: 1,
        scope,
        metric: owned("efferent-coupling"),
        value: efferent,
        thresholds: Some((15, 30)),
        at_threshold: false,
    }
}

/// The counts of one impl block: `lcom4` when known (fires above 2,
/// errs above 4), then `rfc` and `wmc` (each fires above 50, errs above
/// 100).
pub fn impl_cohesion_counts(file: &str, line: u32, scope: &str, lcom4: Option<u32>, rfc: u32, wmc: u32) -> (out: Vec<ScopeCount>)
    ensures
        out@.map_values(|c: ScopeCount| (c.file@, c.line, c.scope@, c.metric@, c.value, c.thresholds, c.at_threshold)) == (match lcom4 {
            Some(l) => seq![(file@, line, scope@, "lcom4"@, l, Some((2u32, 4u32)), false)],
            None => Seq::empty(),
        }) + seq![
            (file@, line, scope@, "rfc"@, rfc, Some((50u32, 100u32)), false),
            (file@, line, scope@, "wmc"@, wmc, Some((50u32, 100u32)), false),
        ],
{
    let mut out: Vec<ScopeCount> = Vec::new();
    match lcom4 {
        Some(l) => out.push(
            ScopeCount {
                file: owned(file),
                line,
                scope: owned(scope),
                metric: owned("lcom4"),
                value: l,
                thresholds: Some((2, 4)),
                at_threshold: false,
            },
        ),
        None => {},
    }
    out.push(ScopeCount { file: owned(file), line, scope: owned(scope), metric: owned("rfc"), value: rfc, thresholds: Some((50, 100)), at_threshold: false });
    out.push(ScopeCount { file: owned(file), line, scope: owned(scope), metric: owned("wmc"), value: wmc, thresholds: Some((50, 100)), at_threshold: false });
    assert(out@.map_values(|c: ScopeCount| (c.file@, c.line, c.scope@, c.metric@, c.value, c.thresholds, c.at_threshold)) =~= (match lcom4 {
        Some(l) => seq![(file@, line, scope@, "lcom4"@, l, Some((2u32, 4u32)), false)],
        None => Seq::empty(),
    }) + seq![
        (file@, line, scope@, "rfc"@, rfc, Some((50u32, 100u32)), false),
        (file@, line, scope@, "wmc"@, wmc, Some((50u32, 100u32)), false),
    ]);
    out
}

/// The counted complexities of one function: `cyclomatic-complexity`
/// (fires at 10, errs at 20) and `cognitive-complexity` (fires at 15,
/// errs at 25); for these lenses reaching a threshold crosses it.
pub fn function_counts(file: &str, line: u32, scope: &str, cyclomatic: u32, cognitive: u32) -> (out: Vec<ScopeCount>)
    ensures
        out@.map_values(|c: ScopeCount| (c.file@, c.line, c.scope@, c.metric@, c.value, c.thresholds, c.at_threshold)) == seq![
            (file@, line, scope@, "cyclomatic-complexity"@, cyclomatic, Some((10u32, 20u32)), true),
            (file@, line, scope@, "cognitive-complexity"@, cognitive, Some((15u32, 25u32)), true),
        ],
{
    let mut out: Vec<ScopeCount> = Vec::new();
    out.push(
        ScopeCount {
            file: owned(file),
            line,
            scope: owned(scope),
            metric: owned("cyclomatic-complexity"),
            value: cyclomatic,
            thresholds: Some((10, 20)),
            at_threshold: true,
        },
    );
    out.push(
        ScopeCount {
            file: owned(file),
            line,
            scope: owned(scope),
            metric: owned("cognitive-complexity"),
            value: cognitive,
            thresholds: Some((15, 25)),
            at_threshold: true,
        },
    );
    assert(out@.map_values(|c: ScopeCount| (c.file@, c.line, c.scope@, c.metric@, c.value, c.thresholds, c.at_threshold)) =~= seq![
        (file@, line, scope@, "cyclomatic-complexity"@, cyclomatic, Some((10u32, 20u32)), true),
        (file@, line, scope@, "cognitive-complexity"@, cognitive, Some((15u32, 25u32)), true),
    ]);
    out
}


/// What a lens tells the reader of one of its violations: why it
/// matters, how to fix it, and where it comes from.
#[derive(Debug)]
pub struct LensText {
    /// Why the lens matters.
    pub rationale: String,
    /// Concrete refactor hints.
    pub refactor_hints: Vec<String>,
    /// Source citations.
    pub references: Vec<String>,
}

/// A lens text as plain values.
pub open spec fn lens_text_view(t: LensText) -> (Seq<char>, Seq<Seq<char>>, Seq<Seq<char>>) {
    (t.rationale@, strs(t.refactor_hints@), strs(t.references@))
}

/// The scope kind a counted lens reports against and its texts, for a
/// count `value` at `scope`; none for a lens that builds no violation
/// record here.
pub open spec fn lens_text_spec(metric: Seq<char>, value: u32, scope: Seq<char>) -> Option<
    (ScopeKind, (Seq<char>, Seq<Seq<char>>, Seq<Seq<char>>)),
> {
    if metric == "lcom4"@ {
        Some((ScopeKind::ImplBlock, ("LCOM4 (Hitz & Montazeri 1995) reports the number of disjoint method clusters in an inherent `impl` block. LCOM4 = 1 means every method reaches every other through field-share or self-call edges; LCOM4 \u{2265} 2 suggests the impl could split into separate types. The HIR walker resolves aliased `self` (`let s = self; s.field`) and qualified self-calls (`Self::method`, `<Self as Trait>::method`) through type resolution, so the cohesion graph is exact rather than literal-`self` only."@, seq!["If methods cluster around two disjoint field sets, split the impl into two struct + impl pairs."@, "If a cluster of methods shares no state with the rest, move them onto a sibling type the original delegates to."@], seq!["Hitz, M., & Montazeri, B. (1995). Measuring Coupling and Cohesion In Object-Oriented Systems."@])))
    } else if metric == "rfc"@ {
        Some((ScopeKind::ImplBlock, ("RFC (Chidamber & Kemerer 1994) = |M \u{222a} R| where M is the set of methods on the impl and R is the set of methods called from M. The HIR walker resolves each call expression and only counts associated functions (methods) in R \u{2014} free-function calls (`module::helper()`) don't enter R, so the count reflects true method-message dispatch."@, seq!["If R is large, push some of the called helpers behind a trait that the impl depends on \u{2014} the contract narrows the response set."@, "If a method delegates to many sub-methods, consider whether the impl should split into smaller types with their own R."@], seq!["Chidamber, S. R., & Kemerer, C. F. (1994). A metrics suite for object oriented design."@])))
    } else if metric == "wmc"@ {
        Some((ScopeKind::ImplBlock, ("WMC (Chidamber & Kemerer 1994) = sum of cyclomatic complexity across methods in an inherent `impl` block. The HIR walker uses the same sealed-match-aware CC as `cyclomatic-complexity` itself, so WMC and per-method CC stay in sync \u{2014} a fix that lowers CC on one method lowers WMC by the same delta."@, seq!["Lower the CC of the dominant methods first \u{2014} WMC is dominated by the largest CC contributor."@, "Split the impl by responsibility: half the methods on a sibling type drops WMC by the sum of their CC."@], seq!["Chidamber, S. R., & Kemerer, C. F. (1994). A metrics suite for object oriented design."@])))
    } else if metric == "cyclomatic-complexity"@ {
        Some((ScopeKind::FreeFunction, ("Cyclomatic Complexity counts independent execution paths in a function. McCabe established 10 as the empirical break-even where defect rates start climbing. The HIR-backed walker refines the sealed-match adjustment by resolving the scrutinee's type \u{2014} only true enum matches without a `_` arm contribute 0; matches on `bool` / numeric / string scrutinees count each arm as a real branch."@, seq!["Extract independent branches into named helpers \u{2014} each is a unit the reader can scan separately."@, "Replace nested `if`/`else` chains with a `match` on a small enum. Sealed-aware CC charges 0 for the new match."@, "Lift early-exit checks (`return Err(...)` / `return None`) so the function reads as a happy-path sequence with guards on top."@], seq!["McCabe, T. J. (1976). A Complexity Measure. IEEE Transactions on Software Engineering, 2(4), 308-320."@])))
    } else if metric == "cognitive-complexity"@ {
        Some((ScopeKind::FreeFunction, ("Cognitive Complexity (SonarSource 2018) penalises control-flow plus nesting plus logical-op sequences plus direct recursion (B1's +1). The HIR-backed walker resolves each call expression and credits the B1 +1 when the callee is the enclosing function \u{2014} a check the AST walker cannot perform reliably across module-prefixed call shapes."@, seq!["Lift the deepest nested block into a named helper."@, "Replace deep `if`/`else` chains with a `match` on a small enum."@], seq!["Campbell, G. A. (2018). Cognitive Complexity: A new way of measuring understandability. SonarSource white paper (industry source, not peer-reviewed)."@])))
    } else if metric == "afferent-coupling"@ {
        Some(
            (
                ScopeKind::Module,
                (
                    decimal(value as nat) + " workspace files import from `"@ + scope + "`. A high afferent-coupling means many places in the codebase break if you change this module's public surface \u{2014} invest in narrow APIs, backwards-compatible changes, or splitting the module."@,
                    seq!["If many files reach into a single deep symbol of this module, publish a focused re-export at a stable path so the spread of transitive dependents narrows."@, "Keep the module's public surface trait-shaped so dependents bind to a contract, not a concrete implementation."@, "If the module has both high Ca and high Ce (= high coupling in both directions), it is a likely 'central hub' \u{2014} consider splitting it by role."@],
                    seq!["Martin, R. C. (1994). OO Design Quality Metrics: An Analysis of Dependencies."@],
                ),
            ),
        )
    } else if metric == "efferent-coupling"@ {
        Some(
            (
                ScopeKind::Module,
                ("This file reaches "@ + decimal(value as nat) + " distinct external crates via its `use` statements; past the warning threshold of 15, the module is likely pulling in more responsibilities than it cleanly owns."@, seq!["If a file imports many crates, see whether some imports could move to a sibling module that uses them more centrally."@], seq!["Martin, R. (1994). OO Design Quality Metrics: An Analysis of Dependencies."@]),
            ),
        )
    } else {
        None
    }
}

/// A list of owned copies of string slices.
fn owned_all(items: &[&str]) -> (out: Vec<String>)
    ensures
        strs(out@) == items@.map_values(|i: &str| i@),
{
    let mut out: Vec<String> = Vec::new();
    let mut i: usize = 0;
    while i < items.len()
        invariant
            0 <= i <= items@.len(),
            strs(out@) == items@.take(i as int).map_values(|x: &str| x@),
        decreases items@.len() - i,
    {
        let ghost prev = strs(out@);
        out.push(owned(items[i]));
        assert(strs(out@) =~= prev.push(items@[i as int]@));
        assert(items@.take(i + 1).map_values(|x: &str| x@) =~= items@.take(i as int).map_values(|x: &str| x@).push(
            items@[i as int]@,
        ));
        i = i + 1;
    }
    assert(items@.take(i as int) =~= items@);
    out
}

/// A lens text from its rationale, hints and citations.
fn lens_text(rationale: String, hints: &[&str], refs: &[&str]) -> (t: LensText)
    ensures
        lens_text_view(t) == (rationale@, hints@.map_values(|i: &str| i@), refs@.map_values(|i: &str| i@)),
{
    LensText { rationale, refactor_hints: owned_all(hints), references: owned_all(refs) }
}

/// The scope kind and texts of a counted lens, by its id, for a count
/// `value` at `scope`.
pub fn count_lens_text(metric: &str, value: u32, scope: &str) -> (r: Option<(ScopeKind, LensText)>)
    ensures
        match r {
            Some((k, t)) => lens_text_spec(metric@, value, scope@) == Some((k, lens_text_view(t))),
            None => lens_text_spec(metric@, value, scope@) is None,
        },
{
    if str_eq(metric, "lcom4") {
        let h = ["If methods cluster around two disjoint field sets, split the impl into two struct + impl pairs.", "If a cluster of methods shares no state with the rest, move them onto a sibling type the original delegates to."];
        let r = ["Hitz, M., & Montazeri, B. (1995). Measuring Coupling and Cohesion In Object-Oriented Systems."];
        let t = lens_text(owned("LCOM4 (Hitz & Montazeri 1995) reports the number of disjoint method clusters in an inherent `impl` block. LCOM4 = 1 means every method reaches every other through field-share or self-call edges; LCOM4 \u{2265} 2 suggests the impl could split into separate types. The HIR walker resolves aliased `self` (`let s = self; s.field`) and qualified self-calls (`Self::method`, `<Self as Trait>::method`) through type resolution, so the cohesion graph is exact rather than literal-`self` only."), &h, &r);
        assert(h@.map_values(|i: &str| i@) =~= seq!["If methods cluster around two disjoint field sets, split the impl into two struct + impl pairs."@, "If a cluster of methods shares no state with the rest, move them onto a sibling type the original delegates to."@]);
        assert(r@.map_values(|i: &str| i@) =~= seq!["Hitz, M., & Montazeri, B. (1995). Measuring Coupling and Cohesion In Object-Oriented Systems."@]);
        Some((ScopeKind::ImplBlock, t))
    } else if str_eq(metric, "rfc") {
        let h = ["If R is large, push some of the called helpers behind a trait that the impl depends on \u{2014} the contract narrows the response set.", "If a method delegates to many sub-methods, consider whether the impl should split into smaller types with their own R."];
        let r = ["Chidamber, S. R., & Kemerer, C. F. (1994). A metrics suite for object oriented design."];
        let t = lens_text(owned("RFC (Chidamber & Kemerer 1994) = |M \u{222a} R| where M is the set of methods on the impl and R is the set of methods called from M. The HIR walker resolves each call expression and only counts associated functions (methods) in R \u{2014} free-function calls (`module::helper()`) don't enter R, so the count reflects true method-message dispatch."), &h, &r);
        assert(h@.map_values(|i: &str| i@) =~= seq!["If R is large, push some of the called helpers behind a trait that the impl depends on \u{2014} the contract narrows the response set."@, "If a method delegates to many sub-methods, consider whether the impl should split into smaller types with their own R."@]);
        assert(r@.map_values(|i: &str| i@) =~= seq!["Chidamber, S. R., & Kemerer, C. F. (1994). A metrics suite for object oriented design."@]);
        Some((ScopeKind::ImplBlock, t))
    } else if str_eq(metric, "wmc") {
        let h = ["Lower the CC of the dominant methods first \u{2014} WMC is dominated by the largest CC contributor.", "Split the impl by responsibility: half the methods on a sibling type drops WMC by the sum of their CC."];
        let r = ["Chidamber, S. R., & Kemerer, C. F. (1994). A metrics suite for object oriented design."];
        let t = lens_text(owned("WMC (Chidamber & Kemerer 1994) = sum of cyclomatic complexity across methods in an inherent `impl` block. The HIR walker uses the same sealed-match-aware CC as `cyclomatic-complexity` itself, so WMC and per-method CC stay in sync \u{2014} a fix that lowers CC on one method lowers WMC by the same delta."), &h, &r);
        assert(h@.map_values(|i: &str| i@) =~= seq!["Lower the CC of the dominant methods first \u{2014} WMC is dominated by the largest CC contributor."@, "Split the impl by responsibility: half the methods on a sibling type drops WMC by the sum of their CC."@]);
        assert(r@.map_values(|i: &str| i@) =~= seq!["Chidamber, S. R., & Kemerer, C. F. (1994). A metrics suite for object oriented design."@]);
        Some((ScopeKind::ImplBlock, t))
    } else if str_eq(metric, "cyclomatic-complexity") {
        let h = ["Extract independent branches into named helpers \u{2014} each is a unit the reader can scan separately.", "Replace nested `if`/`else` chains with a `match` on a small enum. Sealed-aware CC charges 0 for the new match.", "Lift early-exit checks (`return Err(...)` / `return None`) so the function reads as a happy-path sequence with guards on top."];
        let r = ["McCabe, T. J. (1976). A Complexity Measure. IEEE Transactions on Software Engineering, 2(4), 308-320."];
        let t = lens_text(owned("Cyclomatic Complexity counts independent execution paths in a function. McCabe established 10 as the empirical break-even where defect rates start climbing. The HIR-backed walker refines the sealed-match adjustment by resolving the scrutinee's type \u{2014} only true enum matches without a `_` arm contribute 0; matches on `bool` / numeric / string scrutinees count each arm as a real branch."), &h, &r);
        assert(h@.map_values(|i: &str| i@) =~= seq!["Extract independent branches into named helpers \u{2014} each is a unit the reader can scan separately."@, "Replace nested `if`/`else` chains with a `match` on a small enum. Sealed-aware CC charges 0 for the new match."@, "Lift early-exit checks (`return Err(...)` / `return None`) so the function reads as a happy-path sequence with guards on top."@]);
        assert(r@.map_values(|i: &str| i@) =~= seq!["McCabe, T. J. (1976). A Complexity Measure. IEEE Transactions on Software Engineering, 2(4), 308-320."@]);
        Some((ScopeKind::FreeFunction, t))
    } else if str_eq(metric, "cognitive-complexity") {
        let h = ["Lift the deepest nested block into a named helper.", "Replace deep `if`/`else` chains with a `match` on a small enum."];
        let r = ["Campbell, G. A. (2018). Cognitive Complexity: A new way of measuring understandability. SonarSource white paper (industry source, not peer-reviewed)."];
        let t = lens_text(owned("Cognitive Complexity (SonarSource 2018) penalises control-flow plus nesting plus logical-op sequences plus direct recursion (B1's +1). The HIR-backed walker resolves each call expression and credits the B1 +1 when the callee is the enclosing function \u{2014} a check the AST walker cannot perform reliably across module-prefixed call shapes."), &h, &r);
        assert(h@.map_values(|i: &str| i@) =~= seq!["Lift the deepest nested block into a named helper."@, "Replace deep `if`/`else` chains with a `match` on a small enum."@]);
        assert(r@.map_values(|i: &str| i@) =~= seq!["Campbell, G. A. (2018). Cognitive Complexity: A new way of measuring understandability. SonarSource white paper (industry source, not peer-reviewed)."@]);
        Some((ScopeKind::FreeFunction, t))
    } else if str_eq(metric, "afferent-coupling") {
        proof {
            reveal_strlit("");
        }
        let mut rationale = owned("");
        assert(rationale@ =~= Seq::<char>::empty());
        push_decimal(&mut rationale, value as u64);
        assert(rationale@ =~= decimal(value as nat));
        push_str(&mut rationale, " workspace files import from `");
        push_str(&mut rationale, scope);
        push_str(&mut rationale, "`. A high afferent-coupling means many places in the codebase break if you change this module's public surface \u{2014} invest in narrow APIs, backwards-compatible changes, or splitting the module.");
        let h = ["If many files reach into a single deep symbol of this module, publish a focused re-export at a stable path so the spread of transitive dependents narrows.", "Keep the module's public surface trait-shaped so dependents bind to a contract, not a concrete implementation.", "If the module has both high Ca and high Ce (= high coupling in both directions), it is a likely 'central hub' \u{2014} consider splitting it by role."];
        let r = ["Martin, R. C. (1994). OO Design Quality Metrics: An Analysis of Dependencies."];
        let t = lens_text(rationale, &h, &r);
        assert(h@.map_values(|i: &str| i@) =~= seq!["If many files reach into a single deep symbol of this module, publish a focused re-export at a stable path so the spread of transitive dependents narrows."@, "Keep the module's public surface trait-shaped so dependents bind to a contract, not a concrete implementation."@, "If the module has both high Ca and high Ce (= high coupling in both directions), it is a likely 'central hub' \u{2014} consider splitting it by role."@]);
        assert(r@.map_values(|i: &str| i@) =~= seq!["Martin, R. C. (1994). OO Design Quality Metrics: An Analysis of Dependencies."@]);
        Some((ScopeKind::Module, t))
    } else if str_eq(metric, "efferent-coupling") {
        let mut rationale = owned("This file reaches ");
        push_decimal(&mut rationale, value as u64);
        push_str(&mut rationale, " distinct external crates via its `use` statements; past the warning threshold of 15, the module is likely pulling in more responsibilities than it cleanly owns.");
        let h = ["If a file imports many crates, see whether some imports could move to a sibling module that uses them more centrally."];
        let r = ["Martin, R. (1994). OO Design Quality Metrics: An Analysis of Dependencies."];
        let t = lens_text(rationale, &h, &r);
        assert(h@.map_values(|i: &str| i@) =~= seq!["If a file imports many crates, see whether some imports could move to a sibling module that uses them more centrally."@]);
        assert(r@.map_values(|i: &str| i@) =~= seq!["Martin, R. (1994). OO Design Quality Metrics: An Analysis of Dependencies."@]);
        Some((ScopeKind::Module, t))
    } else {
        None
    }
}

/// A violation of a counted lens.
#[derive(Debug)]
pub struct CountViolation {
    /// Stable id of `(file, scope, metric)`.
    pub id: String,
    /// Workspace-relative file.
    pub file: String,
    /// 1-based line of the scope.
    pub line: u32,
    /// Scope path.
    pub scope: String,
    /// What kind of scope it is.
    pub scope_kind: ScopeKind,
    /// Lens id.
    pub metric: String,
    /// The count.
    pub value: u32,
    /// The threshold crossed.
    pub threshold: u32,
    /// Severity tier.
    pub severity: Severity,
    /// Why the lens matters.
    pub rationale: String,
    /// Refactor hints.
    pub refactor_hints: Vec<String>,
    /// Source citations.
    pub references: Vec<String>,
}

/// A counted violation as plain values.
pub struct CountViolationView {
    pub id: Seq<char>,
    pub file: Seq<char>,
    pub line: u32,
    pub scope: Seq<char>,
    pub scope_kind: ScopeKind,
    pub metric: Seq<char>,
    pub value: u32,
    pub threshold: u32,
    pub severity: Severity,
    pub rationale: Seq<char>,
    pub refactor_hints: Seq<Seq<char>>,
    pub references: Seq<Seq<char>>,
}

/// The view of a counted violation.
pub open spec fn count_violation_view(v: CountViolation) -> CountViolationView {
    CountViolationView {
        id: v.id@,
        file: v.file@,
        line: v.line,
        scope: v.scope@,
        scope_kind: v.scope_kind,
        metric: v.metric@,
        value: v.value,
        threshold: v.threshold,
        severity: v.severity,
        rationale: v.rationale@,
        refactor_hints: strs(v.refactor_hints@),
        references: strs(v.references@),
    }
}

/// The violation an outcome gives, when its count crossed a threshold of
/// a lens that builds violation records.
pub open spec fn count_violation_of(o: CountOutcome) -> Option<CountViolationView> {
    match (o.finding, lens_text_spec(o.metric@, o.value, o.scope@)) {
        (Some((severity, threshold)), Some((scope_kind, (rationale, refactor_hints, references)))) => Some(
            CountViolationView {
                id: violation_id_spec(o.file@, o.scope@, o.metric@),
                file: o.file@,
                line: o.line,
                scope: o.scope@,
                scope_kind,
                metric: o.metric@,
                value: o.value,
                threshold,
                severity,
                rationale,
                refactor_hints,
                references,
            },
        ),
        _ => None,
    }
}

/// The violations of a pass's outcomes, in order.
pub open spec fn count_violations_spec(os: Seq<CountOutcome>) -> Seq<CountViolationView>
    decreases os.len(),
{
    if os.len() == 0 {
        Seq::empty()
    } else {
        let prev = count_violations_spec(os.drop_last());
        match count_violation_of(os.last()) {
            Some(v) => prev.push(v),
            None => prev,
        }
    }
}

/// The violation records of a pass's outcomes: one per count that
/// crossed a threshold of its lens, reported against the lens's scope
/// kind (impl block for `lcom4`, `rfc` and `wmc`; function for the
/// cyclomatic and cognitive counts; module for afferent and efferent
/// coupling) with the lens's texts and the stable id of its file, scope
/// and lens.
pub fn count_violations(outcomes: &[CountOutcome]) -> (out: Vec<CountViolation>)
    ensures
        out@.map_values(|v: CountViolation| count_violation_view(v)) == count_violations_spec(outcomes@),
{
    let mut out: Vec<CountViolation> = Vec::new();
    let mut i: usize = 0;
    assert(out@.map_values(|v: CountViolation| count_violation_view(v)) =~= count_violations_spec(outcomes@.take(0)));
    while i < outcomes.len()
        invariant
            0 <= i <= outcomes@.len(),
            out@.map_values(|v: CountViolation| count_violation_view(v)) == count_violations_spec(outcomes@.take(i as int)),
        decreases outcomes@.len() - i,
    {
        let o = &outcomes[i];
        proof {
            let t = outcomes@.take(i + 1);
            assert(t.drop_last() =~= outcomes@.take(i as int));
            assert(t.last() == *o);
        }
        let ghost before = out@;
        match o.finding {
            Some((severity, threshold)) => match count_lens_text(o.metric.as_str(), o.value, o.scope.as_str()) {
                Some((scope_kind, text)) => {
                    let id = violation_id(o.file.as_str(), o.scope.as_str(), o.metric.as_str());
                    out.push(
                        CountViolation {
                            id,
                            file: owned(o.file.as_str()),
                            line: o.line,
                            scope: owned(o.scope.as_str()),
                            scope_kind,
                            metric: owned(o.metric.as_str()),
                            value: o.value,
                            threshold,
                            severity,
                            rationale: text.rationale,
                            refactor_hints: text.refactor_hints,
                            references: text.references,
                        },
                    );
                    assert(out@.drop_last() =~= before);
                },
                None => {},
            },
            None => {},
        }
        assert(out@.map_values(|v: CountViolation| count_violation_view(v)) =~= count_violations_spec(outcomes@.take(i + 1)));
        i = i + 1;
    }
    assert(outcomes@.take(i as int) =~= outcomes@);
    out
}

/// The impl blocks of one file that the fanout count sees, as
/// `(target, file, line)`: each impl whose self type has a name, in
/// order, with the line of its `impl` keyword.
pub open spec fn impl_sites_spec(file: Seq<char>, impls: Seq<(TypeShape, usize)>) -> Seq<(Seq<char>, Seq<char>, usize)>
    decreases impls.len(),
{
    if impls.len() == 0 {
        Seq::empty()
    } else {
        let prev = impl_sites_spec(file, impls.drop_last());
        match self_type_name_spec(impls.last().0) {
            Some(name) => prev.push((name, file, impls.last().1)),
            None => prev,
        }
    }
}

/// An impl site as `(target, file, line)`.
pub open spec fn impl_site_view(s: ImplSite) -> (Seq<char>, Seq<char>, usize) {
    (s.target@, s.file@, s.line)
}

/// The impl sites of the file `relative`, from the self type and line of
/// each of its impl blocks: those whose self type has a name, in order.
pub fn impl_sites(relative: &str, impls: &[(TypeShape, usize)]) -> (out: Vec<ImplSite>)
    ensures
        out@.map_values(|s: ImplSite| impl_site_view(s)) == impl_sites_spec(relative@, impls@),
{
    let mut out: Vec<ImplSite> = Vec::new();
    let mut i: usize = 0;
    assert(out@.map_values(|s: ImplSite| impl_site_view(s)) =~= impl_sites_spec(relative@, impls@.take(0)));
    while i < impls.len()
        invariant
            0 <= i <= impls@.len(),
            out@.map_values(|s: ImplSite| impl_site_view(s)) == impl_sites_spec(relative@, impls@.take(i as int)),
        decreases impls@.len() - i,
    {
        proof {
            let t = impls@.take(i + 1);
            assert(t.drop_last() =~= impls@.take(i as int));
            assert(t.last() == impls@[i as int]);
        }
        let ghost before = out@;
        match self_type_name(&impls[i].0) {
            Some(target) => {
                out.push(ImplSite { target, file: owned(relative), line: impls[i].1 });
                assert(out@.drop_last() =~= before);
            },
            None => {},
        }
        assert(out@.map_values(|s: ImplSite| impl_site_view(s)) =~= impl_sites_spec(relative@, impls@.take(i + 1)));
        i = i + 1;
    }
    assert(impls@.take(i as int) =~= impls@);
    out
}

} // verus!
