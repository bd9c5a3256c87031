//! The line-addressed mutation engine.
//!
//! An edit request addresses a file's line sequence with 1-based,
//! inclusive line numbers. An insertion splices the content's lines in
//! at the requested position, removing nothing; a replacement removes
//! the addressed range and splices the content's lines in at its start.
//! Positions are clamped to the line sequence, so a range that lies
//! beyond it degenerates to a pure insertion at the end.

use vstd::prelude::*;

use crate::error::Error;
use crate::lines::{join_content, join_lines, split_content, split_lines};

verus! {

/// How a file is to be modified.
#[derive(Clone, Copy, Debug, PartialEq, Eq, Structural)]
pub enum ModificationMode {
    Insert,
    Replace,
}

/// A request to modify one file. `start_line` and `end_line` are 1-based
/// and inclusive; `end_line` matters only to a replacement. The content
/// may be multi-line; it is split on line-feed boundaries the same way as
/// file content.
#[derive(Debug, Clone)]
pub struct ModifyFileArgs {
    pub path: String,
    pub mode: ModificationMode,
    pub start_line: usize,
    pub end_line: Option<usize>,
    pub content: String,
}

/// A validated edit: a replacement always carries its end line.
#[derive(Debug, Clone)]
pub enum FileModification {
    Insert { start_line: usize, content: String },
    Replace { start_line: usize, end_line: usize, content: String },
}

/// The full before/after content of a modified file.
#[derive(Debug, Clone)]
pub struct ModifyFileResult {
    pub old_contents: String,
    pub new_contents: String,
}

/// The 0-based splice position for a 1-based start line, clamped to the
/// line sequence: one past the last line means append.
pub open spec fn clamped_start(start_line: usize, len: nat) -> int {
    if start_line <= 1 {
        0
    } else if start_line - 1 <= len {
        start_line - 1
    } else {
        len as int
    }
}

/// The 0-based position one past a 1-based inclusive end line, clamped to
/// the line sequence.
pub open spec fn clamped_end(end_line: usize, len: nat) -> int {
    if end_line <= len {
        end_line as int
    } else {
        len as int
    }
}

/// The line sequence that an edit produces: the lines before the splice
/// position, then the content's lines, then the lines kept after it.
/// An insertion keeps every original line; a replacement drops the
/// addressed range, and an empty clamped range degenerates to a pure
/// insertion.
pub open spec fn new_lines_spec(lines: Seq<Seq<char>>, m: FileModification) -> Seq<Seq<char>> {
    match m {
        FileModification::Insert { start_line, content } => {
            let i = clamped_start(start_line, lines.len());
            lines.subrange(0, i) + split_lines(content@) + lines.subrange(i, lines.len() as int)
        },
        FileModification::Replace { start_line, end_line, content } => {
            let i = clamped_start(start_line, lines.len());
            let e = clamped_end(end_line, lines.len());
            let j = if e < i {
                i
            } else {
                e
            };
            lines.subrange(0, i) + split_lines(content@) + lines.subrange(j, lines.len() as int)
        },
    }
}

/// The content that an edit produces, in canonical on-disk form.
pub open spec fn modified_content(c: Seq<char>, m: FileModification) -> Seq<char> {
    join_lines(new_lines_spec(split_lines(c), m))
}

/// Whether a request carries every parameter its mode needs.
pub open spec fn args_valid(args: ModifyFileArgs) -> bool {
    args.mode is Insert || args.end_line is Some
}

/// The validated edit of a well-formed request.
pub open spec fn modification_of(args: ModifyFileArgs) -> FileModification {
    match args.mode {
        ModificationMode::Insert => FileModification::Insert {
            start_line: args.start_line,
            content: args.content,
        },
        ModificationMode::Replace => FileModification::Replace {
            start_line: args.start_line,
            end_line: args.end_line->0,
            content: args.content,
        },
    }
}

/// Validates a request: a replacement without an end line is rejected.
pub fn validate_modification(args: &ModifyFileArgs) -> (r: Result<FileModification, Error>)
    ensures
        match r {
            Ok(m) => args_valid(*args) && m == modification_of(*args),
            Err(e) => !args_valid(*args) && e == Error::MissingParameter,
        },
{
    match args.mode {
        ModificationMode::Insert => Ok(
            FileModification::Insert {
                start_line: args.start_line,
                content: args.content.clone(),
            },
        ),
        ModificationMode::Replace => {
            match &args.end_line {
                Some(end_line) => Ok(
                    FileModification::Replace {
                        start_line: args.start_line,
                        end_line: *end_line,
                        content: args.content.clone(),
                    },
                ),
                None => Err(Error::MissingParameter),
            }
        },
    }
}

fn clamp_start(start_line: usize, len: usize) -> (r: usize)
    ensures
        r as int == clamped_start(start_line, len as nat),
        r <= len,
{
    if start_line <= 1 {
        0
    } else if start_line - 1 <= len {
        start_line - 1
    } else {
        len
    }
}

fn clamp_end(end_line: usize, len: usize) -> (r: usize)
    ensures
        r as int == clamped_end(end_line, len as nat),
        r <= len,
{
    if end_line <= len {
        end_line
    } else {
        len
    }
}

/// Appends clones of `src[from..to]` to `dst`.
fn push_range(dst: &mut Vec<String>, src: &Vec<String>, from: usize, to: usize)
    requires
        from <= to <= src.len(),
    ensures
        final(dst).deep_view() == old(dst).deep_view() + src.deep_view().subrange(
            from as int,
            to as int,
        ),
{
    let mut k: usize = from;
    proof {
        assert(dst.deep_view() =~= old(dst).deep_view() + src.deep_view().subrange(
            from as int,
            from as int,
        ));
    }
    while k < to
        invariant
            from <= k <= to <= src.len(),
            src.deep_view().len() == src.len(),
            dst.deep_view() == old(dst).deep_view() + src.deep_view().subrange(
                from as int,
                k as int,
            ),
        decreases to - k,
    {
        let ghost prev = dst.deep_view();
        dst.push(src[k].clone());
        proof {
            assert(dst.deep_view() =~= prev.push(src.deep_view()[k as int]));
            assert(prev.push(src.deep_view()[k as int]) =~= old(dst).deep_view()
                + src.deep_view().subrange(from as int, k + 1));
        }
        k += 1;
    }
}

/// Applies a validated edit to a line sequence.
pub fn apply_modification(lines: &Vec<String>, m: &FileModification) -> (r: Vec<String>)
    ensures
        r.deep_view() == new_lines_spec(lines.deep_view(), *m),
{
    let n = lines.len();
    proof {
        assert(lines.deep_view().len() == n);
    }
    match m {
        FileModification::Insert { start_line, content } => {
            let i = clamp_start(*start_line, n);
            let mid = split_content(content.as_str());
            let mut r: Vec<String> = Vec::new();
            proof {
                assert(r.deep_view() =~= Seq::<Seq<char>>::empty());
            }
            push_range(&mut r, lines, 0, i);
            push_range(&mut r, &mid, 0, mid.len());
            push_range(&mut r, lines, i, n);
            proof {
                assert(mid.deep_view().subrange(0, mid.deep_view().len() as int) =~= mid.deep_view());
                assert(r.deep_view() =~= new_lines_spec(lines.deep_view(), *m));
            }
            r
        },
        FileModification::Replace { start_line, end_line, content } => {
            let i = clamp_start(*start_line, n);
            let e = clamp_end(*end_line, n);
            let j = if e < i {
                i
            } else {
                e
            };
            let mid = split_content(content.as_str());
            let mut r: Vec<String> = Vec::new();
            proof {
                assert(r.deep_view() =~= Seq::<Seq<char>>::empty());
            }
            push_range(&mut r, lines, 0, i);
            push_range(&mut r, &mid, 0, mid.len());
            push_range(&mut r, lines, j, n);
            proof {
                assert(mid.deep_view().subrange(0, mid.deep_view().len() as int) =~= mid.deep_view());
                assert(r.deep_view() =~= new_lines_spec(lines.deep_view(), *m));
            }
            r
        },
    }
}

/// Applies a validated edit to a text and reports the full before/after
/// content.
pub fn modify_content(old_content: &str, m: &FileModification) -> (r: ModifyFileResult)
    ensures
        r.old_contents@ == old_content@,
        r.new_contents@ == modified_content(old_content@, *m),
{
    let lines = split_content(old_content);
    let new_lines = apply_modification(&lines, m);
    let new_contents = join_content(&new_lines);
    ModifyFileResult { old_contents: old_content.to_owned(), new_contents }
}

/// An insertion at one past the last line appends the content's lines to
/// the original ones, changing nothing else.
pub proof fn lemma_insert_appends(lines: Seq<Seq<char>>, start_line: usize, content: String)
    requires
        start_line == lines.len() + 1,
    ensures
        new_lines_spec(lines, FileModification::Insert { start_line, content }) == lines
            + split_lines(content@),
{
    let m = FileModification::Insert { start_line, content };
    let i = clamped_start(start_line, lines.len());
    assert(i == lines.len());
    assert(lines.subrange(0, i) =~= lines);
    assert(lines.subrange(i, lines.len() as int) =~= Seq::<Seq<char>>::empty());
    assert(new_lines_spec(lines, m) =~= lines + split_lines(content@));
}

/// A replacement whose start and end lines agree removes exactly that one
/// original line and splices the content's lines in its place.
pub proof fn lemma_replace_single_line(lines: Seq<Seq<char>>, k: usize, content: String)
    requires
        1 <= k <= lines.len(),
    ensures
        new_lines_spec(lines, FileModification::Replace { start_line: k, end_line: k, content })
            == lines.subrange(0, k - 1) + split_lines(content@) + lines.subrange(
            k as int,
            lines.len() as int,
        ),
        new_lines_spec(lines, FileModification::Replace { start_line: k, end_line: k, content })
            .len() == lines.len() - 1 + split_lines(content@).len(),
{
    let m = FileModification::Replace { start_line: k, end_line: k, content };
    let i = clamped_start(k, lines.len());
    let e = clamped_end(k, lines.len());
    assert(i == k - 1);
    assert(e == k as int);
    assert(new_lines_spec(lines, m) =~= lines.subrange(0, k - 1) + split_lines(content@)
        + lines.subrange(k as int, lines.len() as int));
}

} // verus!
