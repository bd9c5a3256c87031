//! Change reporting: the line-level diff of a file's before/after content.
//!
//! The diff itself comes from an outside longest-common-subsequence
//! differ; this module turns its changes into the report the display and
//! audit sink consume. Only changed lines are reported: a deletion is
//! numbered by its 1-based position in the old text's lines, an insertion
//! by its 1-based position in the new text's lines, and a replaced line
//! is always reported as a deletion followed by an insertion, never as an
//! in-place edit.

use vstd::prelude::*;

verus! {

broadcast use vstd::string::group_string_axioms;

/// The tag of a change that leaves a line untouched.
pub const TAG_EQUAL: u8 = 0;

/// The tag of a change that removes a line of the old text.
pub const TAG_DELETE: u8 = 1;

/// The tag of a change that adds a line of the new text.
pub const TAG_INSERT: u8 = 2;

/// One raw change of a line diff: a tag, the line's 0-based index in the
/// old text's lines where it has one, its 0-based index in the new text's
/// lines where it has one, and the line's text.
pub type RawChange = (u8, Option<usize>, Option<usize>, String);

/// One reported line change.
#[derive(Debug, Clone)]
pub struct LineModification {
    /// 1-based: a deletion's position in the old text's lines, an
    /// insertion's position in the new text's lines.
    pub line: usize,
    pub content: String,
    /// A modification is either a deletion or an insertion. A replacement
    /// is therefore considered two line modifications.
    pub is_deletion: bool,
}

impl View for LineModification {
    type V = (usize, Seq<char>, bool);

    open spec fn view(&self) -> (usize, Seq<char>, bool) {
        (self.line, self.content@, self.is_deletion)
    }
}

impl DeepView for LineModification {
    type V = (usize, Seq<char>, bool);

    open spec fn deep_view(&self) -> (usize, Seq<char>, bool) {
        self@
    }
}

/// The line diff of two texts, as the outside differ computes it: a
/// function of the two texts alone.
pub uninterp spec fn line_diff_of(old: Seq<char>, new: Seq<char>) -> Seq<
    (u8, Option<usize>, Option<usize>, Seq<char>),
>;

/// Relies on similar::TextDiff::from_lines and its change iterator: the
/// diff is computed from the two texts alone; a deletion always carries
/// its 0-based index in the old text's lines, an insertion its 0-based
/// index in the new text's lines.
#[verifier::external_body]
fn diff_lines(old: &str, new: &str) -> (r: Vec<RawChange>)
    ensures
        r.deep_view() == line_diff_of(old@, new@),
        forall|i: int| 0 <= i < r.deep_view().len() && (#[trigger] r.deep_view()[i]).0
            == TAG_DELETE ==> r.deep_view()[i].1 is Some,
        forall|i: int| 0 <= i < r.deep_view().len() && (#[trigger] r.deep_view()[i]).0
            == TAG_INSERT ==> r.deep_view()[i].2 is Some,
{
    similar::TextDiff::from_lines(old, new)
        .iter_all_changes()
        .map(|c| {
            let tag = match c.tag() {
                similar::ChangeTag::Equal => 0u8,
                similar::ChangeTag::Delete => 1u8,
                similar::ChangeTag::Insert => 2u8,
            };
            (tag, c.old_index(), c.new_index(), c.value().to_string())
        })
        .collect()
}

/// A line's text with one trailing line-feed removed, if it ends in one.
pub open spec fn strip_newline(s: Seq<char>) -> Seq<char> {
    if s.len() > 0 && s.last() == '\n' {
        s.drop_last()
    } else {
        s
    }
}

fn strip_newline_exec(s: &String) -> (r: String)
    ensures
        r@ == strip_newline(s@),
{
    let n = s.as_str().unicode_len();
    if n > 0 {
        let c = s.as_str().get_char(n - 1);
        if c == '\n' {
            let r = s.as_str().substring_char(0, n - 1).to_owned();
            proof {
                assert(s@.subrange(0, n - 1) =~= s@.drop_last());
            }
            return r;
        }
    }
    s.clone()
}

/// What one raw change contributes to the report: nothing for an equal
/// line, one deletion or one insertion otherwise, numbered one past its
/// 0-based index in the side it references.
pub open spec fn report_entry(c: (u8, Option<usize>, Option<usize>, Seq<char>)) -> Seq<
    (usize, Seq<char>, bool),
> {
    if c.0 == TAG_DELETE {
        match c.1 {
            Some(v) => if v < usize::MAX {
                seq![(((v + 1) as usize), strip_newline(c.3), true)]
            } else {
                seq![]
            },
            None => seq![],
        }
    } else if c.0 == TAG_INSERT {
        match c.2 {
            Some(v) => if v < usize::MAX {
                seq![(((v + 1) as usize), strip_newline(c.3), false)]
            } else {
                seq![]
            },
            None => seq![],
        }
    } else {
        seq![]
    }
}

/// The report that a sequence of raw changes denotes.
pub open spec fn report_of(raw: Seq<(u8, Option<usize>, Option<usize>, Seq<char>)>) -> Seq<
    (usize, Seq<char>, bool),
>
    decreases raw.len(),
{
    if raw.len() == 0 {
        seq![]
    } else {
        report_of(raw.drop_last()) + report_entry(raw.last())
    }
}

/// Turns the raw changes of a line diff into the report: equal lines are
/// excluded, and each kept change keeps its side's line number.
pub fn changes_to_report(raw: &Vec<RawChange>) -> (r: Vec<LineModification>)
    ensures
        r.deep_view() == report_of(raw.deep_view()),
{
    let mut r: Vec<LineModification> = Vec::new();
    let mut k: usize = 0;
    proof {
        assert(raw.deep_view().subrange(0, 0) =~= Seq::<
            (u8, Option<usize>, Option<usize>, Seq<char>),
        >::empty());
        assert(r.deep_view() =~= Seq::<(usize, Seq<char>, bool)>::empty());
    }
    while k < raw.len()
        invariant
            k <= raw.len(),
            raw.deep_view().len() == raw.len(),
            r.deep_view() == report_of(raw.deep_view().subrange(0, k as int)),
        decreases raw.len() - k,
    {
        let ghost pref = raw.deep_view().subrange(0, k as int);
        let ghost c = raw.deep_view()[k as int];
        let tag = raw[k].0;
        if tag == TAG_DELETE {
            match raw[k].1 {
                Some(v) => {
                    if v < usize::MAX {
                        let content = strip_newline_exec(&raw[k].3);
                        let ghost prev = r.deep_view();
                        r.push(LineModification { line: v + 1, content, is_deletion: true });
                        proof {
                            assert(r.deep_view() =~= prev + report_entry(c));
                        }
                    }
                },
                None => {},
            }
        } else if tag == TAG_INSERT {
            match raw[k].2 {
                Some(v) => {
                    if v < usize::MAX {
                        let content = strip_newline_exec(&raw[k].3);
                        let ghost prev = r.deep_view();
                        r.push(LineModification { line: v + 1, content, is_deletion: false });
                        proof {
                            assert(r.deep_view() =~= prev + report_entry(c));
                        }
                    }
                },
                None => {},
            }
        }
        proof {
            assert(raw.deep_view().subrange(0, k + 1).drop_last() =~= pref);
            assert(raw.deep_view().subrange(0, k + 1).last() == c);
            assert(r.deep_view() =~= report_of(pref) + report_entry(c));
            assert(r.deep_view() == report_of(raw.deep_view().subrange(0, k + 1)));
        }
        k += 1;
    }
    proof {
        assert(raw.deep_view().subrange(0, raw.deep_view().len() as int) =~= raw.deep_view());
    }
    r
}

/// Computes the line-level diff report of an old and a new text.
pub fn diff_report(old: &str, new: &str) -> (r: Vec<LineModification>)
    ensures
        r.deep_view() == report_of(line_diff_of(old@, new@)),
{
    let raw = diff_lines(old, new);
    changes_to_report(&raw)
}

/// Whether a report entry faithfully reports a raw change: the change is
/// not an equality; a deletion is numbered one past the change's 0-based
/// index in the old text's lines, an insertion one past the change's
/// 0-based index in the new text's lines; and the entry carries the
/// change's line.
pub open spec fn reports_change(
    e: (usize, Seq<char>, bool),
    c: (u8, Option<usize>, Option<usize>, Seq<char>),
) -> bool {
    &&& e.2 ==> c.0 == TAG_DELETE && c.1 == Some((e.0 - 1) as usize)
    &&& !e.2 ==> c.0 == TAG_INSERT && c.2 == Some((e.0 - 1) as usize)
    &&& e.1 == strip_newline(c.3)
    &&& e.0 >= 1
}

/// A diff report excludes equal lines, and every entry it holds reports
/// one raw change: deletion line numbers reference the old text's line
/// sequence and insertion line numbers the new text's, independently of
/// one another.
pub proof fn lemma_report_indices(raw: Seq<(u8, Option<usize>, Option<usize>, Seq<char>)>)
    ensures
        forall|k: int| 0 <= k < report_of(raw).len() ==> exists|j: int|
            0 <= j < raw.len() && reports_change(#[trigger] report_of(raw)[k], raw[j]),
    decreases raw.len(),
{
    if raw.len() == 0 {
    } else {
        lemma_report_indices(raw.drop_last());
        let pre = report_of(raw.drop_last());
        let c = raw.last();
        assert forall|k: int| 0 <= k < report_of(raw).len() implies exists|j: int|
            0 <= j < raw.len() && reports_change(#[trigger] report_of(raw)[k], raw[j]) by {
            if k < pre.len() {
                let j = choose|j: int|
                    0 <= j < raw.drop_last().len() && reports_change(pre[k], raw.drop_last()[j]);
                assert(report_of(raw)[k] == pre[k]);
                assert(raw.drop_last()[j] == raw[j]);
                assert(reports_change(report_of(raw)[k], raw[j]));
            } else {
                assert(report_entry(c).len() == 1);
                assert(report_of(raw)[k] == report_entry(c)[0]);
                assert(reports_change(report_entry(c)[0], c));
                assert(raw[raw.len() - 1] == c);
                assert(reports_change(report_of(raw)[k], raw[raw.len() - 1]));
            }
        }
    }
}

} // verus!
