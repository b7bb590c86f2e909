//! Creating and editing text files: whole-file creation, exact-occurrence
//! string replacement and line-indexed insertion, each as a computation from
//! the old content to the new one.
use vstd::prelude::*;

use crate::text::{chars_of, concat, decimal, decimal_string, join, joined, string_from_chars};
use crate::tools::ToolExecutionError;

verus! {

pub const FS_WRITE_TOOL_DESCRIPTION: &'static str = "
A tool for creating and editing text files.

WHEN TO USE THIS TOOL:
- Use when you need to create a new file, or modify an existing file
- Perfect for updating text-based file formats

HOW TO USE:
- Provide the path to the file you want to create or modify
- Specify the operation to perform: one of `create`, `strReplace`, or `insert`
- Use `create` to create a new file. Required parameter is `content`. Parent directories will be created if they are missing.
- Use `strReplace` to replace and update the content of an existing file.
- Use `insert` to insert content at a specific line, or append content to the end of a file.

TIPS:
- To append content to the end of a file, use `insert` with no `insert_line`
";

pub const FS_WRITE_SCHEMA: &'static str = r#"
{
    "type": "object",
    "properties": {
        "command": {
            "type": "string",
            "enum": [
                "create",
                "strReplace",
                "insert"
            ],
            "description": "The commands to run. Allowed options are: `create`, `strReplace`, `insert`"
        },
        "content": {
            "description": "Required parameter of `create` and `insert` commands.",
            "type": "string"
        },
        "insertLine": {
            "description": "Optional parameter of `insert` command. Line is 0-indexed. `content` will be inserted at the provided line. If not provided, content will be inserted at the end of the file on a new line, inserting a newline at the end of the file if it is missing.",
            "type": "integer"
        },
        "newStr": {
            "description": "Required parameter of `strReplace` command containing the new string.",
            "type": "string"
        },
        "oldStr": {
            "description": "Required parameter of `strReplace` command containing the string in `path` to replace.",
            "type": "string"
        },
        "replaceAll": {
            "description": "Optional parameter of `strReplace` command. Default is false. When true, all instances of `oldStr` will be replaced with `newStr`.",
            "type": "boolean"
        },
        "path": {
            "description": "Path to the file",
            "type": "string"
        }
    },
    "required": [
        "command",
        "path"
    ]
}
"#;

/// Whether `p` occurs in `s` at position `i`.
pub open spec fn occurs_at(s: Seq<char>, p: Seq<char>, i: int) -> bool {
    0 <= i && i + p.len() <= s.len() && s.subrange(i, i + p.len()) == p
}

/// How many times `p` occurs in `s`, counting left to right without
/// overlap. The empty pattern occurs before each character and at the end.
pub open spec fn count_occurrences(s: Seq<char>, p: Seq<char>) -> nat
    decreases s.len(),
{
    if p.len() == 0 {
        s.len() + 1
    } else if s.len() < p.len() {
        0
    } else if occurs_at(s, p, 0) {
        1 + count_occurrences(s.subrange(p.len() as int, s.len() as int), p)
    } else {
        count_occurrences(s.subrange(1, s.len() as int), p)
    }
}

/// `s` with its first occurrence of `p` replaced by `r`.
pub open spec fn replace_first(s: Seq<char>, p: Seq<char>, r: Seq<char>) -> Seq<char>
    decreases s.len(),
{
    if p.len() == 0 {
        r + s
    } else if s.len() < p.len() {
        s
    } else if occurs_at(s, p, 0) {
        r + s.subrange(p.len() as int, s.len() as int)
    } else {
        seq![s[0]] + replace_first(s.subrange(1, s.len() as int), p, r)
    }
}

/// `s` with every occurrence of `p`, left to right without overlap,
/// replaced by `r`. The empty pattern puts `r` around every character.
pub open spec fn replace_all(s: Seq<char>, p: Seq<char>, r: Seq<char>) -> Seq<char>
    decreases s.len(),
{
    if p.len() == 0 {
        if s.len() == 0 {
            r
        } else {
            r + seq![s[0]] + replace_all(s.subrange(1, s.len() as int), p, r)
        }
    } else if s.len() < p.len() {
        s
    } else if occurs_at(s, p, 0) {
        r + replace_all(s.subrange(p.len() as int, s.len() as int), p, r)
    } else {
        seq![s[0]] + replace_all(s.subrange(1, s.len() as int), p, r)
    }
}

/// A file edit, one command per call.
#[derive(Debug, Clone)]
pub enum FsWrite {
    Create(FileCreate),
    StrReplace(StrReplace),
    Insert(Insert),
}

/// Writes `content` as the whole file, creating missing parent directories.
#[derive(Debug, Clone)]
pub struct FileCreate {
    pub path: String,
    pub content: String,
}

/// Replaces the exact occurrence of `old_str` with `new_str`; every
/// occurrence when `replace_all` is set.
#[derive(Debug, Clone)]
pub struct StrReplace {
    pub path: String,
    pub old_str: String,
    pub new_str: String,
    pub replace_all: bool,
}

/// Inserts `content` after `insert_line` complete lines, or appends it on
/// a line of its own when no line is given.
#[derive(Debug, Clone)]
pub struct Insert {
    pub path: String,
    pub content: String,
    pub insert_line: Option<u32>,
}

/// What a file edit shows before it runs: the file it targets.
#[derive(Debug, Clone)]
pub struct FsWriteContext {
    pub path: String,
}

/// Per-session write statistics.
#[derive(Debug, Clone)]
pub struct FsWriteState {
    pub line_tracker: FileLineTracker,
}

impl Default for FsWriteState {
    fn default() -> (r: Self)
        ensures
            r.line_tracker.is_first_write,
            r.line_tracker.prev_fswrite_lines == 0,
            r.line_tracker.before_fswrite_lines == 0,
            r.line_tracker.after_fswrite_lines == 0,
            r.line_tracker.lines_added_by_agent == 0,
            r.line_tracker.lines_removed_by_agent == 0,
    {
        FsWriteState { line_tracker: FileLineTracker::default() }
    }
}

/// Line counts of one file around the agent's writes to it.
#[derive(Debug, Clone)]
pub struct FileLineTracker {
    /// Line count at the end of the last write
    pub prev_fswrite_lines: usize,
    /// Line count before the current write
    pub before_fswrite_lines: usize,
    /// Line count after the current write
    pub after_fswrite_lines: usize,
    /// Lines added by the agent in the current write
    pub lines_added_by_agent: usize,
    /// Lines removed by the agent in the current write
    pub lines_removed_by_agent: usize,
    /// Whether no write has happened yet
    pub is_first_write: bool,
}

impl Default for FileLineTracker {
    fn default() -> (r: Self)
        ensures
            r.is_first_write,
            r.prev_fswrite_lines == 0,
            r.before_fswrite_lines == 0,
            r.after_fswrite_lines == 0,
            r.lines_added_by_agent == 0,
            r.lines_removed_by_agent == 0,
    {
        Self {
            prev_fswrite_lines: 0,
            before_fswrite_lines: 0,
            after_fswrite_lines: 0,
            lines_added_by_agent: 0,
            lines_removed_by_agent: 0,
            is_first_write: true,
        }
    }
}

impl FileLineTracker {
    /// Lines changed by the user since the agent's last write.
    pub fn lines_by_user(&self) -> (r: isize)
        requires
            self.before_fswrite_lines <= isize::MAX,
            self.prev_fswrite_lines <= isize::MAX,
        ensures
            r == self.before_fswrite_lines - self.prev_fswrite_lines,
    {
        (self.before_fswrite_lines as isize) - (self.prev_fswrite_lines as isize)
    }

    /// Lines changed by the agent in the current write.
    pub fn lines_by_agent(&self) -> (r: isize)
        requires
            self.lines_added_by_agent + self.lines_removed_by_agent <= isize::MAX,
        ensures
            r == self.lines_added_by_agent + self.lines_removed_by_agent,
    {
        (self.lines_added_by_agent + self.lines_removed_by_agent) as isize
    }
}

/// Where a text holds its pattern just once, replacing it changes that
/// occurrence and leaves the text before and after it as it was.
pub proof fn lemma_replace_single(s: Seq<char>, p: Seq<char>, r: Seq<char>)
    requires
        p.len() > 0,
        count_occurrences(s, p) >= 1,
    ensures
        exists|i: int|
            #[trigger] occurs_at(s, p, i) && replace_first(s, p, r) == s.subrange(0, i) + r
                + s.subrange(i + p.len(), s.len() as int),
    decreases s.len(),
{
    if occurs_at(s, p, 0) {
        assert(s.subrange(0, 0) + r + s.subrange(p.len() as int, s.len() as int) =~= replace_first(s, p, r));
        assert(occurs_at(s, p, 0) && replace_first(s, p, r) == s.subrange(0, 0) + r
            + s.subrange(0int + p.len(), s.len() as int));
    } else {
        let t = s.subrange(1, s.len() as int);
        assert(count_occurrences(s, p) == count_occurrences(t, p));
        lemma_replace_single(t, p, r);
        let i = choose|i: int|
            #[trigger] occurs_at(t, p, i) && replace_first(t, p, r) == t.subrange(0, i) + r
                + t.subrange(i + p.len(), t.len() as int);
        assert(s.subrange(i + 1, i + 1 + p.len()) =~= t.subrange(i, i + p.len()));
        assert(replace_first(s, p, r) =~= s.subrange(0, i + 1) + r + s.subrange(i + 1 + p.len(), s.len() as int));
        assert(occurs_at(s, p, i + 1) && replace_first(s, p, r) == s.subrange(0, i + 1) + r
            + s.subrange(i + 1 + p.len(), s.len() as int));
    }
}

/// Replacing every occurrence replaces all of them: the text grows by the
/// length difference once per occurrence.
pub proof fn lemma_replace_all_len(s: Seq<char>, p: Seq<char>, r: Seq<char>)
    requires
        p.len() > 0,
    ensures
        replace_all(s, p, r).len() == s.len() + count_occurrences(s, p) * (r.len() - p.len()),
    decreases s.len(),
{
    let d = r.len() - p.len();
    if s.len() < p.len() {
        assert(count_occurrences(s, p) == 0);
        assert(0 * d == 0);
    } else {
        if occurs_at(s, p, 0) {
            let rest = s.subrange(p.len() as int, s.len() as int);
            lemma_replace_all_len(rest, p, r);
            assert(replace_all(s, p, r) == r + replace_all(rest, p, r));
            assert(count_occurrences(s, p) * (r.len() - p.len()) == (r.len() - p.len())
                + count_occurrences(s.subrange(p.len() as int, s.len() as int), p) * (r.len() - p.len()))
                by (nonlinear_arith)
                requires
                    count_occurrences(s, p) == 1 + count_occurrences(s.subrange(p.len() as int, s.len() as int), p),
            ;
        } else {
            let rest = s.subrange(1, s.len() as int);
            lemma_replace_all_len(rest, p, r);
            assert(replace_all(s, p, r) == seq![s[0]] + replace_all(rest, p, r));
            assert(count_occurrences(s, p) == count_occurrences(rest, p));
        }
    }
}

proof fn lemma_line_end_newline(s: Seq<char>)
    requires
        0 < line_end(s) < s.len(),
    ensures
        s[line_end(s) - 1] == '\n',
    decreases s.len(),
{
    if s[0] != '\n' {
        let t = s.subrange(1, s.len() as int);
        lemma_line_end(t);
        if line_end(t) == 0 {
            assert(t.len() == 0);
        } else {
            lemma_line_end_newline(t);
            assert(s[line_end(s) - 1] == t[line_end(t) - 1]);
        }
    }
}

/// Every line but the last is non-empty and ends with a newline.
proof fn lemma_lines_end_with_newline(s: Seq<char>)
    ensures
        forall|i: int| 0 <= i < lines_of(s).len() ==> (#[trigger] lines_of(s)[i]).len() > 0,
        forall|i: int|
            0 <= i < lines_of(s).len() - 1 ==> (#[trigger] lines_of(s)[i]).last() == '\n',
    decreases s.len(),
{
    lemma_line_end(s);
    if s.len() > 0 {
        let k = line_end(s);
        let rest = s.subrange(k, s.len() as int);
        lemma_lines_end_with_newline(rest);
        let ls = lines_of(s);
        assert(ls == seq![s.subrange(0, k)] + lines_of(rest));
        if k < s.len() {
            lemma_line_end_newline(s);
        }
        assert forall|i: int| 0 <= i < ls.len() - 1 implies (#[trigger] ls[i]).last() == '\n' by {
            if i == 0 {
                if k == s.len() {
                    assert(rest.len() == 0);
                    assert(lines_of(rest).len() == 0);
                }
            } else {
                assert(ls[i] == lines_of(rest)[i - 1]);
            }
        }
        assert forall|i: int| 0 <= i < ls.len() implies (#[trigger] ls[i]).len() > 0 by {
            if i > 0 {
                assert(ls[i] == lines_of(rest)[i - 1]);
            }
        }
    }
}

/// An insertion at a line splits the file after that many complete lines
/// (after all of them when there are fewer): the text before the content
/// and the text after it give back the file, and the split follows a
/// newline unless it is at the start or the end. Without a line, the
/// content goes after a newline that ends the file.
pub proof fn lemma_insert_splits_after_lines(file: Seq<char>, content: Seq<char>, line: u32)
    ensures
        ({
            let ls = lines_of(file);
            let k = if line <= ls.len() { line as int } else { ls.len() as int };
            let before = concat_lines(ls.take(k));
            let after = concat_lines(ls.skip(k));
            &&& before + after == file
            &&& inserted(file, content, Some(line)) == before + with_newline(content) + after
            &&& 0 < k < ls.len() ==> before.last() == '\n'
            &&& k == ls.len() ==> after.len() == 0
        }),
        inserted(file, content, None) == with_newline(file) + content,
{
    let ls = lines_of(file);
    let k = if line <= ls.len() { line as int } else { ls.len() as int };
    lemma_concat_lines_of(file);
    lemma_concat_split(ls, k);
    lemma_lines_end_with_newline(file);
    if 0 < k < ls.len() {
        lemma_take_step(ls, k - 1);
        assert(ls.take(k - 1 + 1) == ls.take(k));
        assert(concat_lines(ls.take(k)) == concat_lines(ls.take(k - 1)) + ls[k - 1]);
        assert(ls[k - 1].len() > 0);
    }
    if k == ls.len() {
        assert(ls.skip(k).len() == 0);
    }
}

/// Appends `s[lo..hi]` to `out`.
fn extend_range(out: &mut Vec<char>, s: &Vec<char>, lo: usize, hi: usize)
    requires
        lo <= hi <= s@.len(),
    ensures
        final(out)@ == old(out)@ + s@.subrange(lo as int, hi as int),
{
    let mut i = lo;
    while i < hi
        invariant
            lo <= i <= hi <= s@.len(),
            out@ == old(out)@ + s@.subrange(lo as int, i as int),
        decreases hi - i,
    {
        out.push(s[i]);
        proof {
            assert(s@.subrange(lo as int, i + 1) == s@.subrange(lo as int, i as int) + seq![s@[i as int]]);
        }
        i = i + 1;
    }
}

/// Whether `p` occurs in `s` at position `i`.
pub(crate) fn matches_at(s: &Vec<char>, p: &Vec<char>, i: usize) -> (b: bool)
    requires
        i + p@.len() <= s@.len(),
    ensures
        b == occurs_at(s@, p@, i as int),
{
    let n = s.len();
    let mut j: usize = 0;
    while j < p.len()
        invariant
            n == s@.len(),
            i + p@.len() <= s@.len(),
            0 <= j <= p@.len(),
            s@.subrange(i as int, i + j) == p@.subrange(0, j as int),
        decreases p@.len() - j,
    {
        if s[i + j] != p[j] {
            proof {
                assert(s@.subrange(i as int, i + p@.len())[j as int] != p@[j as int]);
            }
            return false;
        }
        proof {
            assert(s@.subrange(i as int, i + j + 1) == s@.subrange(i as int, i + j) + seq![s@[i + j]]);
            assert(p@.subrange(0, j + 1) == p@.subrange(0, j as int) + seq![p@[j as int]]);
        }
        j = j + 1;
    }
    proof {
        assert(p@.subrange(0, p@.len() as int) == p@);
    }
    true
}

proof fn lemma_suffix_step(s: Seq<char>, i: int, k: int)
    requires
        0 <= i <= s.len(),
        0 <= k <= s.len() - i,
    ensures
        s.subrange(i, s.len() as int).subrange(k, s.len() - i) == s.subrange(i + k, s.len() as int),
        s.subrange(i, s.len() as int).len() == s.len() - i,
{
    assert(s.subrange(i, s.len() as int).subrange(k, s.len() - i) =~= s.subrange(i + k, s.len() as int));
}

proof fn lemma_occurs_suffix(s: Seq<char>, p: Seq<char>, i: int)
    requires
        0 <= i <= s.len(),
    ensures
        occurs_at(s.subrange(i, s.len() as int), p, 0) == occurs_at(s, p, i),
{
    if i + p.len() <= s.len() {
        assert(s.subrange(i, s.len() as int).subrange(0, p.len() as int) =~= s.subrange(i, i + p.len()));
    }
}

/// Counts the occurrences of `p` in `s`.
fn count_matches(s: &Vec<char>, p: &Vec<char>) -> (n: u128)
    ensures
        n == count_occurrences(s@, p@),
{
    if p.len() == 0 {
        return s.len() as u128 + 1;
    }
    let mut i: usize = 0;
    let mut n: u128 = 0;
    proof {
        assert(s@.subrange(0, s@.len() as int) == s@);
    }
    while p.len() <= s.len() - i
        invariant
            p@.len() > 0,
            0 <= i <= s@.len(),
            n <= i,
            count_occurrences(s@, p@) == n + count_occurrences(s@.subrange(i as int, s@.len() as int), p@),
        decreases s@.len() - i,
    {
        proof {
            lemma_occurs_suffix(s@, p@, i as int);
        }
        if matches_at(s, p, i) {
            proof {
                lemma_suffix_step(s@, i as int, p@.len() as int);
            }
            n = n + 1;
            i = i + p.len();
        } else {
            proof {
                lemma_suffix_step(s@, i as int, 1);
            }
            i = i + 1;
        }
    }
    n
}

/// `s` with its first occurrence of `p` replaced by `r`.
fn replace_first_chars(s: &Vec<char>, p: &Vec<char>, r: &Vec<char>) -> (out: Vec<char>)
    ensures
        out@ == replace_first(s@, p@, r@),
{
    let mut out: Vec<char> = Vec::new();
    if p.len() == 0 {
        extend_range(&mut out, r, 0, r.len());
        extend_range(&mut out, s, 0, s.len());
        proof {
            assert(r@.subrange(0, r@.len() as int) == r@);
            assert(s@.subrange(0, s@.len() as int) == s@);
        }
        return out;
    }
    let mut i: usize = 0;
    proof {
        assert(s@.subrange(0, s@.len() as int) == s@);
        assert(s@.subrange(0, 0) + s@ == s@);
    }
    while p.len() <= s.len() - i
        invariant
            p@.len() > 0,
            0 <= i <= s@.len(),
            out@.len() == 0,
            replace_first(s@, p@, r@) == s@.subrange(0, i as int) + replace_first(
                s@.subrange(i as int, s@.len() as int),
                p@,
                r@,
            ),
        decreases s@.len() - i,
    {
        proof {
            lemma_occurs_suffix(s@, p@, i as int);
        }
        if matches_at(s, p, i) {
            extend_range(&mut out, s, 0, i);
            extend_range(&mut out, r, 0, r.len());
            extend_range(&mut out, s, i + p.len(), s.len());
            proof {
                lemma_suffix_step(s@, i as int, p@.len() as int);
                let t = s@.subrange(i as int, s@.len() as int);
                let a = s@.subrange(0, i as int);
                let b = s@.subrange(i + p@.len(), s@.len() as int);
                assert(r@.subrange(0, r@.len() as int) == r@);
                assert(replace_first(t, p@, r@) == r@ + t.subrange(p@.len() as int, t.len() as int));
                assert(out@ =~= a + (r@ + b));
            }
            return out;
        }
        proof {
            lemma_suffix_step(s@, i as int, 1);
            let t = s@.subrange(i as int, s@.len() as int);
            assert(seq![t[0]] + replace_first(t.subrange(1, t.len() as int), p@, r@) == replace_first(t, p@, r@));
            assert(s@.subrange(0, i + 1) == s@.subrange(0, i as int) + seq![t[0]]);
        }
        i = i + 1;
    }
    extend_range(&mut out, s, 0, s.len());
    proof {
        let t = s@.subrange(i as int, s@.len() as int);
        assert(replace_first(t, p@, r@) == t);
        assert(s@.subrange(0, s@.len() as int) == s@);
        assert(s@.subrange(0, i as int) + t =~= s@);
        assert(out@ =~= s@);
    }
    out
}

/// `s` with every occurrence of `p` replaced by `r`.
pub(crate) fn replace_all_chars(s: &Vec<char>, p: &Vec<char>, r: &Vec<char>) -> (out: Vec<char>)
    ensures
        out@ == replace_all(s@, p@, r@),
{
    let mut out: Vec<char> = Vec::new();
    let mut i: usize = 0;
    proof {
        assert(s@.subrange(0, s@.len() as int) == s@);
        assert(r@.subrange(0, r@.len() as int) == r@);
    }
    if p.len() == 0 {
        while i < s.len()
            invariant
                p@.len() == 0,
                0 <= i <= s@.len(),
                r@.subrange(0, r@.len() as int) == r@,
                replace_all(s@, p@, r@) == out@ + replace_all(s@.subrange(i as int, s@.len() as int), p@, r@),
            decreases s@.len() - i,
        {
            let ghost before = out@;
            extend_range(&mut out, r, 0, r.len());
            out.push(s[i]);
            proof {
                lemma_suffix_step(s@, i as int, 1);
                let t = s@.subrange(i as int, s@.len() as int);
                assert(out@ == before + r@ + seq![t[0]]);
            }
            i = i + 1;
        }
        extend_range(&mut out, r, 0, r.len());
        return out;
    }
    while p.len() <= s.len() - i
        invariant
            p@.len() > 0,
            0 <= i <= s@.len(),
            r@.subrange(0, r@.len() as int) == r@,
            replace_all(s@, p@, r@) == out@ + replace_all(s@.subrange(i as int, s@.len() as int), p@, r@),
        decreases s@.len() - i,
    {
        proof {
            lemma_occurs_suffix(s@, p@, i as int);
        }
        let ghost before = out@;
        if matches_at(s, p, i) {
            extend_range(&mut out, r, 0, r.len());
            proof {
                lemma_suffix_step(s@, i as int, p@.len() as int);
            }
            i = i + p.len();
        } else {
            out.push(s[i]);
            proof {
                lemma_suffix_step(s@, i as int, 1);
                assert(out@ == before + seq![s@[i as int]]);
            }
            i = i + 1;
        }
    }
    extend_range(&mut out, s, i, s.len());
    out
}

/// Where the text of a line ends: just after its first newline, or at the
/// end of `s`.
pub open spec fn line_end(s: Seq<char>) -> int
    decreases s.len(),
{
    if s.len() == 0 {
        0
    } else if s[0] == '\n' {
        1
    } else {
        1 + line_end(s.subrange(1, s.len() as int))
    }
}

/// `s` cut after each newline; the last line may lack one.
pub open spec fn lines_of(s: Seq<char>) -> Seq<Seq<char>>
    decreases s.len(),
{
    if s.len() == 0 {
        Seq::empty()
    } else {
        let k = line_end(s);
        if 0 < k <= s.len() {
            seq![s.subrange(0, k)] + lines_of(s.subrange(k, s.len() as int))
        } else {
            Seq::empty()
        }
    }
}

/// The lines put back together.
pub open spec fn concat_lines(ls: Seq<Seq<char>>) -> Seq<char>
    decreases ls.len(),
{
    if ls.len() == 0 {
        Seq::empty()
    } else {
        ls[0] + concat_lines(ls.drop_first())
    }
}

proof fn lemma_line_end(s: Seq<char>)
    ensures
        s.len() > 0 ==> 0 < line_end(s) <= s.len(),
    decreases s.len(),
{
    if s.len() > 0 && s[0] != '\n' {
        let rest = s.subrange(1, s.len() as int);
        lemma_line_end(rest);
        assert(line_end(s) == 1 + line_end(rest));
        if rest.len() == 0 {
            assert(line_end(rest) == 0);
        }
    }
}

/// The lines of a text put back together give the text.
proof fn lemma_concat_lines_of(s: Seq<char>)
    ensures
        concat_lines(lines_of(s)) == s,
    decreases s.len(),
{
    lemma_line_end(s);
    if s.len() > 0 {
        let k = line_end(s);
        let rest = s.subrange(k, s.len() as int);
        lemma_concat_lines_of(rest);
        let ls = lines_of(s);
        assert(ls.drop_first() == lines_of(rest));
        assert(s.subrange(0, k) + rest == s);
    }
}

/// One more line adds its text at the end.
proof fn lemma_take_step(ls: Seq<Seq<char>>, j: int)
    requires
        0 <= j < ls.len(),
    ensures
        concat_lines(ls.take(j + 1)) == concat_lines(ls.take(j)) + ls[j],
    decreases j,
{
    if j == 0 {
        assert(ls.take(1).drop_first() == Seq::<Seq<char>>::empty());
        assert(ls.take(0) == Seq::<Seq<char>>::empty());
        assert(ls.take(1)[0] == ls[0]);
        assert(concat_lines(Seq::<Seq<char>>::empty()) == Seq::<char>::empty());
        assert(concat_lines(ls.take(1)) == ls.take(1)[0] + concat_lines(ls.take(1).drop_first()));
        assert(concat_lines(ls.take(1)) == ls[0] + Seq::<char>::empty());
        assert(ls[0] + Seq::<char>::empty() == Seq::<char>::empty() + ls[0]);
    } else {
        lemma_take_step(ls.drop_first(), j - 1);
        assert(ls.take(j + 1).drop_first() == ls.drop_first().take(j));
        assert(ls.take(j).drop_first() == ls.drop_first().take(j - 1));
        assert(concat_lines(ls.take(j + 1)) =~= concat_lines(ls.take(j)) + ls[j]);
    }
}

/// Splitting a list of lines splits their concatenation.
proof fn lemma_concat_split(ls: Seq<Seq<char>>, j: int)
    requires
        0 <= j <= ls.len(),
    ensures
        concat_lines(ls.take(j)) + concat_lines(ls.skip(j)) == concat_lines(ls),
    decreases j,
{
    if j == 0 {
        assert(ls.take(0) == Seq::<Seq<char>>::empty());
        assert(ls.skip(0) == ls);
        assert(Seq::<char>::empty() + concat_lines(ls) == concat_lines(ls));
    } else {
        lemma_concat_split(ls.drop_first(), j - 1);
        assert(ls.take(j).drop_first() == ls.drop_first().take(j - 1));
        assert(ls.skip(j) == ls.drop_first().skip(j - 1));
    }
}

/// Relies on syntect's `LinesWithEndings`: it cuts the text after each
/// newline and yields the pieces in order, the last without a newline when
/// the text does not end with one.
#[verifier::external_body]
fn lines_with_endings(s: &str) -> (r: Vec<String>)
    ensures
        r@.len() == lines_of(s@).len(),
        forall|i: int| 0 <= i < r@.len() ==> (#[trigger] r@[i])@ == lines_of(s@)[i],
{
    syntect::util::LinesWithEndings::from(s).map(|l| l.to_owned()).collect()
}

/// `c` ended by a newline.
pub open spec fn with_newline(c: Seq<char>) -> Seq<char> {
    if c.len() > 0 && c.last() == '\n' {
        c
    } else {
        c + seq!['\n']
    }
}

/// The text after an insertion: `content`, ended by a newline, placed
/// after `line` complete lines (after all of them when there are fewer);
/// without a line, `content` appended after a newline that ends the file.
pub open spec fn inserted(file: Seq<char>, content: Seq<char>, line: Option<u32>) -> Seq<char> {
    match line {
        Some(l) => {
            let ls = lines_of(file);
            let k = if l <= ls.len() { l as int } else { ls.len() as int };
            concat_lines(ls.take(k)) + with_newline(content) + concat_lines(ls.skip(k))
        },
        None => with_newline(file) + content,
    }
}

/// The messages of a failed validation, in the order they are checked.
pub open spec fn write_problems(w: FsWrite, target_exists: bool) -> Seq<Seq<char>> {
    let p: Seq<Seq<char>> = if w.spec_path().len() == 0 {
        seq!["Path must not be empty"@]
    } else {
        Seq::empty()
    };
    match w {
        FsWrite::Create(_) => p,
        FsWrite::StrReplace(_) => if target_exists {
            p
        } else {
            p.push("The provided path must exist in order to replace or insert contents into it"@)
        },
        FsWrite::Insert(v) => if v.content@.len() == 0 {
            p.push("Content to insert must not be empty"@)
        } else {
            p
        },
    }
}

impl FsWrite {
    pub open spec fn spec_path(&self) -> Seq<char> {
        match self {
            FsWrite::Create(v) => v.path@,
            FsWrite::StrReplace(v) => v.path@,
            FsWrite::Insert(v) => v.path@,
        }
    }

    pub fn path(&self) -> (r: &str)
        ensures
            r@ == self.spec_path(),
    {
        match self {
            FsWrite::Create(v) => v.path.as_str(),
            FsWrite::StrReplace(v) => v.path.as_str(),
            FsWrite::Insert(v) => v.path.as_str(),
        }
    }

    pub fn make_context(&self) -> (r: FsWriteContext)
        ensures
            r.path@ == self.spec_path(),
    {
        FsWriteContext { path: self.path().to_owned() }
    }

    /// The file's content after the edit, given its content `current`
    /// before (ignored when the file is created), or why nothing is written.
    pub fn new_content(&self, current: &str) -> (r: Result<String, ToolExecutionError>)
        ensures
            self matches FsWrite::Create(c) ==> (r matches Ok(t) && t@ == c.content@),
            self matches FsWrite::StrReplace(s) ==> replace_outcome(*s, current@, r),
            self matches FsWrite::Insert(i) ==> (r matches Ok(t) && t@ == inserted(
                current@,
                i.content@,
                i.insert_line,
            )),
    {
        match self {
            FsWrite::Create(c) => Ok(c.content.clone()),
            FsWrite::StrReplace(s) => s.apply(current),
            FsWrite::Insert(i) => Ok(i.apply(current)),
        }
    }

    /// Checks the edit before it runs; `target_exists` says whether its
    /// resolved path exists. Every problem found is reported, one per line.
    pub fn validate(&self, target_exists: bool) -> (r: Result<(), String>)
        ensures
            write_problems(*self, target_exists).len() == 0 <==> r is Ok,
            r matches Err(m) ==> m@ == joined(write_problems(*self, target_exists), "\n"@),
    {
        let mut errors: Vec<String> = Vec::new();
        if self.path().is_empty() {
            errors.push("Path must not be empty".to_owned());
        }
        let ghost first = errors@;
        proof {
            assert(crate::text::views(first) =~= (if self.spec_path().len() == 0 {
                seq!["Path must not be empty"@]
            } else {
                Seq::<Seq<char>>::empty()
            }));
        }
        match self {
            FsWrite::Create(_) => {},
            FsWrite::StrReplace(_) => {
                if !target_exists {
                    errors.push(
                        "The provided path must exist in order to replace or insert contents into it".to_owned(),
                    );
                }
            },
            FsWrite::Insert(v) => {
                if v.content.as_str().is_empty() {
                    errors.push("Content to insert must not be empty".to_owned());
                }
            },
        }
        proof {
            let ps = write_problems(*self, target_exists);
            if errors@.len() > first.len() {
                assert(errors@ == first.push(errors@.last()));
                assert(crate::text::views(errors@) =~= crate::text::views(first).push(errors@.last()@));
            }
            assert(crate::text::views(errors@) =~= ps);
        }
        if errors.len() > 0 {
            Err(join(&errors, "\n"))
        } else {
            Ok(())
        }
    }
}

/// The outcome of a replacement on a file holding `file`.
pub open spec fn replace_outcome(r: StrReplace, file: Seq<char>, res: Result<String, ToolExecutionError>) -> bool {
    let n = count_occurrences(file, r.old_str@);
    if n == 0 {
        res matches Err(ToolExecutionError::Custom(m)) && m@ == "no occurrences of \""@ + r.old_str@
            + "\" were found"@
    } else if n == 1 {
        res matches Ok(t) && t@ == replace_first(file, r.old_str@, r.new_str@)
    } else if r.replace_all {
        res matches Ok(t) && t@ == replace_all(file, r.old_str@, r.new_str@)
    } else {
        res matches Err(ToolExecutionError::Custom(m)) && m@ == decimal(n)
            + " occurrences of old_str were found when only 1 is expected"@
    }
}

impl StrReplace {
    /// The new content of a file holding `file`, or why nothing is written.
    pub fn apply(&self, file: &str) -> (r: Result<String, ToolExecutionError>)
        ensures
            replace_outcome(*self, file@, r),
    {
        let s = chars_of(file);
        let p = chars_of(self.old_str.as_str());
        let n = count_matches(&s, &p);
        if n == 0 {
            let m = concat("no occurrences of \"", self.old_str.as_str());
            return Err(ToolExecutionError::Custom(concat(m.as_str(), "\" were found")));
        }
        let r = chars_of(self.new_str.as_str());
        if n == 1 {
            let out = replace_first_chars(&s, &p, &r);
            return Ok(string_from_chars(out.as_slice()));
        }
        if !self.replace_all {
            let count = decimal_string(n);
            return Err(
                ToolExecutionError::Custom(
                    concat(count.as_str(), " occurrences of old_str were found when only 1 is expected"),
                ),
            );
        }
        let out = replace_all_chars(&s, &p, &r);
        Ok(string_from_chars(out.as_slice()))
    }
}

impl Insert {
    /// The new content of a file holding `file`.
    pub fn apply(&self, file: &str) -> (r: String)
        ensures
            r@ == inserted(file@, self.content@, self.insert_line),
    {
        let f = chars_of(file);
        let c = chars_of(self.content.as_str());
        let mut out: Vec<char> = Vec::new();
        match self.insert_line {
            Some(line) => {
                let lines = lines_with_endings(file);
                let k: usize = if (line as usize) <= lines.len() { line as usize } else { lines.len() };
                let ghost ls = lines_of(file@);
                let fl = f.len();
                let mut off: usize = 0;
                let mut j: usize = 0;
                proof {
                    lemma_concat_lines_of(file@);
                    lemma_concat_split(ls, k as int);
                    assert(ls.take(0) == Seq::<Seq<char>>::empty());
                }
                while j < k
                    invariant
                        0 <= j <= k <= ls.len(),
                        fl == f@.len(),
                        lines@.len() == ls.len(),
                        forall|i: int| 0 <= i < lines@.len() ==> (#[trigger] lines@[i])@ == ls[i],
                        concat_lines(ls.take(k as int)).len() <= f@.len(),
                        off == concat_lines(ls.take(j as int)).len(),
                    decreases k - j,
                {
                    proof {
                        lemma_take_step(ls, j as int);
                        lemma_concat_split(ls.take(k as int), j + 1);
                        assert(ls.take(k as int).take(j + 1) == ls.take(j + 1));
                    }
                    let n = chars_of(lines[j].as_str()).len();
                    off = off + n;
                    j = j + 1;
                }
                proof {
                    assert(f@ == concat_lines(ls.take(k as int)) + concat_lines(ls.skip(k as int)));
                    assert(f@.subrange(0, off as int) == concat_lines(ls.take(k as int)));
                    assert(f@.subrange(off as int, f@.len() as int) == concat_lines(ls.skip(k as int)));
                }
                extend_range(&mut out, &f, 0, off);
                extend_range(&mut out, &c, 0, c.len());
                if c.len() == 0 || c[c.len() - 1] != '\n' {
                    out.push('\n');
                }
                extend_range(&mut out, &f, off, f.len());
                proof {
                    assert(c@.subrange(0, c@.len() as int) == c@);
                    assert(Seq::<char>::empty() + f@.subrange(0, off as int) == f@.subrange(0, off as int));
                }
            },
            None => {
                extend_range(&mut out, &f, 0, f.len());
                if f.len() == 0 || f[f.len() - 1] != '\n' {
                    out.push('\n');
                }
                extend_range(&mut out, &c, 0, c.len());
                proof {
                    assert(c@.subrange(0, c@.len() as int) == c@);
                    assert(f@.subrange(0, f@.len() as int) == f@);
                    assert(Seq::<char>::empty() + f@ == f@);
                }
            },
        }
        string_from_chars(out.as_slice())
    }
}

} // verus!
