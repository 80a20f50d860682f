//! `cargo rustics rules` — the lens catalogue as text.
//!
//! Each lens is listed with its polarity, its rationale (one indented
//! line per source line) and its refactor hints and references as
//! bulleted lists.

use vstd::prelude::*;
use crate::text::{append_utf8, lines_spec, owned, push_chars, push_str, seqs, str_eq, str_lines};
use vstd::utf8::encode_utf8;

verus! {

/// Which direction of a lens's value is better.
#[derive(Debug, Clone, Copy, PartialEq, Eq, Structural)]
pub enum Polarity {
    /// Lower values are better.
    LowerIsBetter,
    /// Higher values are better.
    HigherIsBetter,
    /// No direction; the value is for information.
    Informational,
}

/// The word a polarity is printed as.
pub open spec fn polarity_word_spec(p: Polarity) -> Seq<char> {
    match p {
        Polarity::LowerIsBetter => "lower-is-better"@,
        Polarity::HigherIsBetter => "higher-is-better"@,
        Polarity::Informational => "informational"@,
    }
}

/// The kebab-case word for a polarity.
pub fn polarity_word(p: Polarity) -> (w: &'static str)
    ensures
        w@ == polarity_word_spec(p),
{
    match p {
        Polarity::LowerIsBetter => "lower-is-better",
        Polarity::HigherIsBetter => "higher-is-better",
        Polarity::Informational => "informational",
    }
}

/// The bullet lines of a list.
pub open spec fn bullet_lines(items: Seq<Seq<char>>) -> Seq<char>
    decreases items.len(),
{
    if items.len() == 0 {
        Seq::empty()
    } else {
        bullet_lines(items.drop_last()) + "    - "@ + items.last() + "\n"@
    }
}

/// A labelled bulleted list, or nothing for an empty list.
pub open spec fn string_list_text(label: Seq<char>, items: Seq<Seq<char>>) -> Seq<char> {
    if items.len() == 0 {
        Seq::empty()
    } else {
        "  "@ + label + ":\n"@ + bullet_lines(items)
    }
}

/// The views of a list of string slices.
pub open spec fn str_views(items: Seq<&str>) -> Seq<Seq<char>> {
    items.map_values(|i: &str| i@)
}

/// Appends `label:` and one `- item` line per item; nothing when there
/// are no items.
pub fn push_string_list(s: &mut String, label: &str, items: &[&str])
    ensures
        final(s)@ == old(s)@ + string_list_text(label@, str_views(items@)),
{
    let ghost iv = str_views(items@);
    if items.len() > 0 {
        push_str(s, "  ");
        push_str(s, label);
        push_str(s, ":\n");
        let ghost head = s@;
        let mut i: usize = 0;
        assert(iv.take(0) =~= Seq::<Seq<char>>::empty());
        while i < items.len()
            invariant
                0 <= i <= items@.len(),
                iv == str_views(items@),
                s@ == head + bullet_lines(iv.take(i as int)),
            decreases items@.len() - i,
        {
            proof {
                let t = iv.take(i + 1);
                assert(t.drop_last() =~= iv.take(i as int));
                assert(t.last() == items@[i as int]@);
            }
            push_str(s, "    - ");
            push_str(s, items[i]);
            push_str(s, "\n");
            i = i + 1;
        }
        assert(iv.take(i as int) =~= iv);
        assert(s@ =~= old(s)@ + string_list_text(label@, iv));
    } else {
        assert(s@ =~= old(s)@ + string_list_text(label@, iv));
    }
}

/// Writes `label:` and one `- item` line per item; nothing when there
/// are no items.
pub fn write_string_list(out: &mut Vec<u8>, label: &str, items: &[&str])
    ensures
        final(out)@ == old(out)@ + encode_utf8(string_list_text(label@, str_views(items@))),
{
    let mut s = String::new();
    push_string_list(&mut s, label, items);
    assert(s@ =~= string_list_text(label@, str_views(items@)));
    append_utf8(out, s.as_str());
}

/// The indented lines of a block of text.
pub open spec fn indented_lines(lines: Seq<Seq<char>>, indent: Seq<char>) -> Seq<char>
    decreases lines.len(),
{
    if lines.len() == 0 {
        Seq::empty()
    } else {
        indented_lines(lines.drop_last(), indent) + indent + lines.last() + "\n"@
    }
}

/// The rationale block of a lens.
pub open spec fn rationale_text(rationale: Seq<char>) -> Seq<char> {
    "  rationale:\n"@ + indented_lines(lines_spec(rationale), "    "@)
}

/// Appends `indent + line + "\n"` for every line of `text`.
pub fn push_indented_lines(s: &mut String, text: &str, indent: &str)
    ensures
        final(s)@ == old(s)@ + indented_lines(lines_spec(text@), indent@),
{
    let lines = str_lines(text);
    let ghost lv = seqs(lines@);
    let mut i: usize = 0;
    assert(lv.take(0) =~= Seq::<Seq<char>>::empty());
    while i < lines.len()
        invariant
            0 <= i <= lines@.len(),
            lv == seqs(lines@),
            lv == lines_spec(text@),
            s@ == old(s)@ + indented_lines(lv.take(i as int), indent@),
        decreases lines@.len() - i,
    {
        proof {
            let t = lv.take(i + 1);
            assert(t.drop_last() =~= lv.take(i as int));
            assert(t.last() == lines@[i as int]@);
        }
        push_str(s, indent);
        push_chars(s, lines[i].as_slice());
        push_str(s, "\n");
        i = i + 1;
    }
    assert(lv.take(i as int) =~= lv);
}

/// Writes the rationale block: a `rationale:` heading, then each line of
/// the rationale indented.
pub fn write_rationale(out: &mut Vec<u8>, rationale: &str)
    ensures
        final(out)@ == old(out)@ + encode_utf8(rationale_text(rationale@)),
{
    let mut s = owned("  rationale:\n");
    push_indented_lines(&mut s, rationale, "    ");
    append_utf8(out, s.as_str());
}

/// Looks a lens id up in the catalogue; the error names the id.
pub fn find_metric(ids: &[&str], id: &str) -> (r: Result<usize, String>)
    ensures
        match r {
            Ok(i) => i < ids@.len() && ids@[i as int]@ == id@ && forall|j: int| 0 <= j < i ==> ids@[j]@ != id@,
            Err(m) => m@ == "no metric with id `"@ + id@ + "`"@ && forall|j: int| 0 <= j < ids@.len() ==> ids@[j]@ != id@,
        },
{
    let mut i: usize = 0;
    while i < ids.len()
        invariant
            0 <= i <= ids@.len(),
            forall|j: int| 0 <= j < i ==> ids@[j]@ != id@,
        decreases ids@.len() - i,
    {
        if str_eq(ids[i], id) {
            return Ok(i);
        }
        i = i + 1;
    }
    let mut m = owned("no metric with id `");
    push_str(&mut m, id);
    push_str(&mut m, "`");
    Err(m)
}

/// A lens's metadata as `rules` lists it, its default thresholds
/// rendered.
#[derive(Debug)]
pub struct LensInfo<'a> {
    /// Kebab-case id.
    pub id: &'a str,
    /// Human-readable name.
    pub display_name: &'a str,
    /// The lens's category, rendered.
    pub category: String,
    /// Which direction is better.
    pub polarity: Polarity,
    /// The default warning threshold, rendered, if the lens has one.
    pub default_warning: Option<String>,
    /// The default error threshold, rendered, if the lens has one.
    pub default_error: Option<String>,
    /// Why the lens matters.
    pub rationale: &'a str,
    /// Suggested refactors.
    pub refactor_hints: &'a [&'a str],
    /// Primary sources.
    pub references: &'a [&'a str],
}

/// The first lines of a lens: name and id, category, polarity.
pub open spec fn header_text(l: LensInfo) -> Seq<char> {
    l.display_name@ + " ("@ + l.id@ + ")\n  category: "@ + l.category@ + "\n  polarity: "@
        + polarity_word_spec(l.polarity) + "\n"@
}

/// A default-threshold line, or nothing when there is no threshold.
pub open spec fn threshold_text(label: Seq<char>, t: Option<String>) -> Seq<char> {
    match t {
        Some(v) => "  "@ + label + ": "@ + v@ + "\n"@,
        None => Seq::empty(),
    }
}

/// Everything `rules` prints for one lens: header, default thresholds,
/// rationale, refactor hints and references.
pub open spec fn lens_text(l: LensInfo) -> Seq<char> {
    header_text(l) + threshold_text("default warning"@, l.default_warning) + threshold_text(
        "default error  "@,
        l.default_error,
    ) + rationale_text(l.rationale@) + string_list_text("refactor hints"@, str_views(l.refactor_hints@))
        + string_list_text("references"@, str_views(l.references@))
}

/// Appends a default-threshold line when there is a threshold.
fn push_threshold_line(s: &mut String, label: &str, t: &Option<String>)
    ensures
        final(s)@ == old(s)@ + threshold_text(label@, *t),
{
    match t {
        Some(v) => {
            push_str(s, "  ");
            push_str(s, label);
            push_str(s, ": ");
            push_str(s, v.as_str());
            push_str(s, "\n");
            assert(s@ =~= old(s)@ + threshold_text(label@, *t));
        },
        None => {
            assert(s@ =~= old(s)@ + threshold_text(label@, *t));
        },
    }
}

/// Renders everything `rules` prints for one lens.
pub fn render_lens(l: &LensInfo) -> (s: String)
    ensures
        s@ == lens_text(*l),
{
    let mut s = owned(l.display_name);
    push_str(&mut s, " (");
    push_str(&mut s, l.id);
    push_str(&mut s, ")\n  category: ");
    push_str(&mut s, l.category.as_str());
    push_str(&mut s, "\n  polarity: ");
    push_str(&mut s, polarity_word(l.polarity));
    push_str(&mut s, "\n");
    push_threshold_line(&mut s, "default warning", &l.default_warning);
    push_threshold_line(&mut s, "default error  ", &l.default_error);
    push_str(&mut s, "  rationale:\n");
    push_indented_lines(&mut s, l.rationale, "    ");
    push_string_list(&mut s, "refactor hints", l.refactor_hints);
    push_string_list(&mut s, "references", l.references);
    assert(s@ =~= lens_text(*l));
    s
}

/// Writes everything `rules` prints for one lens.
pub fn write_one(out: &mut Vec<u8>, l: &LensInfo)
    ensures
        final(out)@ == old(out)@ + encode_utf8(lens_text(*l)),
{
    let s = render_lens(l);
    append_utf8(out, s.as_str());
}

/// The catalogue listing: every lens, each followed by a blank line.
pub open spec fn catalogue_text(lenses: Seq<LensInfo>) -> Seq<char>
    decreases lenses.len(),
{
    if lenses.len() == 0 {
        Seq::empty()
    } else {
        catalogue_text(lenses.drop_last()) + lens_text(lenses.last()) + "\n"@
    }
}

/// The ids of a catalogue.
pub open spec fn lens_ids(lenses: Seq<LensInfo>) -> Seq<Seq<char>> {
    lenses.map_values(|l: LensInfo| l.id@)
}

/// `rules [--metric <id>]`: the one lens named by the id, or the whole
/// catalogue; an unknown id is an error that names it.
pub fn rules_text(lenses: &[LensInfo], metric: Option<&str>) -> (r: Result<String, String>)
    ensures
        metric is Some ==> match r {
            Ok(t) => exists|i: int|
                0 <= i < lenses@.len() && (#[trigger] lenses@[i]).id@ == metric->0@ && t@ == lens_text(lenses@[i])
                    && forall|j: int| 0 <= j < i ==> lenses@[j].id@ != metric->0@,
            Err(m) => m@ == "no metric with id `"@ + metric->0@ + "`"@ && !lens_ids(lenses@).contains(metric->0@),
        },
        metric is None ==> (r matches Ok(t) && t@ == catalogue_text(lenses@)),
{
    match metric {
        Some(id) => {
            let mut i: usize = 0;
            while i < lenses.len()
                invariant
                    0 <= i <= lenses@.len(),
                    metric == Some(id),
                    forall|j: int| 0 <= j < i ==> lenses@[j].id@ != id@,
                decreases lenses@.len() - i,
            {
                if str_eq(lenses[i].id, id) {
                    let t = render_lens(&lenses[i]);
                    assert(lenses@[i as int].id@ == id@);
                    return Ok(t);
                }
                i = i + 1;
            }
            proof {
                if lens_ids(lenses@).contains(id@) {
                    let j = choose|j: int| 0 <= j < lens_ids(lenses@).len() && lens_ids(lenses@)[j] == id@;
                    assert(lenses@[j].id@ == id@);
                }
            }
            let mut m = owned("no metric with id `");
            push_str(&mut m, id);
            push_str(&mut m, "`");
            Err(m)
        },
        None => {
            let mut s = String::new();
            let mut i: usize = 0;
            assert(lenses@.take(0) =~= Seq::<LensInfo>::empty());
            while i < lenses.len()
                invariant
                    0 <= i <= lenses@.len(),
                    s@ == catalogue_text(lenses@.take(i as int)),
                decreases lenses@.len() - i,
            {
                proof {
                    let t = lenses@.take(i + 1);
                    assert(t.drop_last() =~= lenses@.take(i as int));
                    assert(t.last() == lenses@[i as int]);
                }
                let one = render_lens(&lenses[i]);
                push_str(&mut s, one.as_str());
                push_str(&mut s, "\n");
                i = i + 1;
            }
            assert(lenses@.take(i as int) =~= lenses@);
            Ok(s)
        },
    }
}

} // verus!
