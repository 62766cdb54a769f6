//! Comment lines in structured input.
use vstd::prelude::*;

verus! {

/// The byte that marks a comment line: `#`.
pub const MARKER: u8 = 0x23;

/// The byte that ends a line.
pub const NEWLINE: u8 = 0x0A;

/// Whether `b` is whitespace within a line: a space, a tab, a vertical tab,
/// a form feed or a carriage return.
pub open spec fn is_blank(b: u8) -> bool {
    b == 0x20 || b == 0x09 || b == 0x0B || b == 0x0C || b == 0x0D
}

/// Whether the first byte at or after `from` that is not blank is the
/// comment marker.
pub open spec fn marks_comment(s: Seq<u8>, from: int) -> bool
    decreases s.len() - from,
{
    if 0 <= from < s.len() {
        s[from] == MARKER || (is_blank(s[from]) && marks_comment(s, from + 1))
    } else {
        false
    }
}

/// Where the line begins that holds position `i`.
pub open spec fn line_start(s: Seq<u8>, i: int) -> int
    decreases i,
{
    if i <= 0 {
        0
    } else if s[i - 1] == NEWLINE {
        i
    } else {
        line_start(s, i - 1)
    }
}

/// Whether position `i` lies in a comment line: a line whose first byte
/// that is not blank is the marker.
pub open spec fn in_comment(s: Seq<u8>, i: int) -> bool {
    marks_comment(s, line_start(s, i))
}

/// The first `n` bytes of `s` without those that lie in comment lines.
pub open spec fn kept(s: Seq<u8>, n: int) -> Seq<u8>
    decreases n,
{
    if n <= 0 {
        Seq::empty()
    } else if in_comment(s, n - 1) {
        kept(s, n - 1)
    } else {
        kept(s, n - 1).push(s[n - 1])
    }
}

/// `s` without its comment lines, each dropped with the newline that ends
/// it. All other bytes stay, in order.
pub open spec fn without_comments(s: Seq<u8>) -> Seq<u8> {
    kept(s, s.len() as int)
}

/// Tests a byte for whitespace within a line.
pub fn is_blank_byte(b: u8) -> (out: bool)
    ensures
        out == is_blank(b),
{
    b == 0x20 || b == 0x09 || b == 0x0B || b == 0x0C || b == 0x0D
}

/// Tests whether the line that begins at `from` is a comment line. There is
/// none where `from` lies behind the end.
pub fn starts_comment(content: &[u8], from: usize) -> (out: bool)
    ensures
        out == marks_comment(content@, from as int),
{
    let mut j: usize = from;
    while j < content.len() && is_blank_byte(content[j])
        invariant
            marks_comment(content@, from as int) == marks_comment(content@, j as int),
        decreases content@.len() - j,
    {
        j += 1;
    }
    j < content.len() && content[j] == MARKER
}

/// Copies `content` without its comment lines.
pub fn strip_comments(content: &[u8]) -> (out: Vec<u8>)
    ensures
        out@ == without_comments(content@),
{
    let mut out: Vec<u8> = Vec::new();
    let mut skipping = false;
    let mut i: usize = 0;
    while i < content.len()
        invariant
            i <= content@.len(),
            out@ == kept(content@, i as int),
            i > 0 ==> skipping == in_comment(content@, i - 1),
        decreases content@.len() - i,
    {
        if i == 0 || content[i - 1] == NEWLINE {
            skipping = starts_comment(content, i);
        }
        assert(skipping == in_comment(content@, i as int));
        if !skipping {
            out.push(content[i]);
        }
        i += 1;
    }
    out
}

/// A line begins at or before each of its positions.
proof fn lemma_line_start_bounds(s: Seq<u8>, i: int)
    requires
        0 <= i,
    ensures
        0 <= line_start(s, i) <= i,
    decreases i,
{
    if i > 0 && s[i - 1] != NEWLINE {
        lemma_line_start_bounds(s, i - 1);
    }
}

/// Where a line begins depends only on what stands before the position.
proof fn lemma_line_start_prefix(x: Seq<u8>, y: Seq<u8>, i: int)
    requires
        0 <= i <= x.len(),
    ensures
        line_start(x + y, i) == line_start(x, i),
    decreases i,
{
    if i > 0 {
        assert((x + y)[i - 1] == x[i - 1]);
        if x[i - 1] != NEWLINE {
            lemma_line_start_prefix(x, y, i - 1);
        }
    }
}

/// Behind whole lines, lines begin where they begin in the rest alone.
proof fn lemma_line_start_suffix(x: Seq<u8>, y: Seq<u8>, k: int)
    requires
        x.len() == 0 || x.last() == NEWLINE,
        0 <= k <= y.len(),
    ensures
        line_start(x + y, x.len() + k) == x.len() + line_start(y, k),
    decreases k,
{
    if k > 0 {
        assert((x + y)[x.len() + k - 1] == y[k - 1]);
        if y[k - 1] != NEWLINE {
            lemma_line_start_suffix(x, y, k - 1);
        }
    } else if x.len() > 0 {
        assert((x + y)[x.len() - 1] == x.last());
    }
}

/// Whether a line of whole lines is a comment does not depend on what
/// follows them.
proof fn lemma_marks_prefix(x: Seq<u8>, y: Seq<u8>, j: int)
    requires
        x.len() > 0,
        x.last() == NEWLINE,
        0 <= j < x.len(),
    ensures
        marks_comment(x + y, j) == marks_comment(x, j),
    decreases x.len() - j,
{
    assert((x + y)[j] == x[j]);
    if j + 1 < x.len() {
        lemma_marks_prefix(x, y, j + 1);
    } else {
        assert(x[j] == NEWLINE);
    }
}

/// Whether a line is a comment does not depend on what stands before it.
proof fn lemma_marks_suffix(x: Seq<u8>, y: Seq<u8>, j: int)
    requires
        0 <= j,
    ensures
        marks_comment(x + y, x.len() + j) == marks_comment(y, j),
    decreases y.len() - j,
{
    if j < y.len() {
        assert((x + y)[x.len() + j] == y[j]);
        lemma_marks_suffix(x, y, j + 1);
    }
}

/// What is kept of whole lines does not depend on what follows them.
proof fn lemma_kept_prefix(x: Seq<u8>, y: Seq<u8>, n: int)
    requires
        x.len() == 0 || x.last() == NEWLINE,
        0 <= n <= x.len(),
    ensures
        kept(x + y, n) == kept(x, n),
    decreases n,
{
    if n > 0 {
        lemma_kept_prefix(x, y, n - 1);
        lemma_line_start_prefix(x, y, n - 1);
        lemma_line_start_bounds(x, n - 1);
        lemma_marks_prefix(x, y, line_start(x, n - 1));
        assert((x + y)[n - 1] == x[n - 1]);
    }
}

/// Removing comments from whole lines followed by more text is removing
/// them from each part.
pub proof fn lemma_kept_concat(x: Seq<u8>, y: Seq<u8>, k: int)
    requires
        x.len() == 0 || x.last() == NEWLINE,
        0 <= k <= y.len(),
    ensures
        kept(x + y, x.len() + k) == kept(x, x.len() as int) + kept(y, k),
    decreases k,
{
    if k > 0 {
        lemma_kept_concat(x, y, k - 1);
        lemma_line_start_suffix(x, y, k - 1);
        lemma_line_start_bounds(y, k - 1);
        lemma_marks_suffix(x, y, line_start(y, k - 1));
        assert((x + y)[x.len() + k - 1] == y[k - 1]);
        assert(kept(x + y, x.len() + k) =~= kept(x, x.len() as int) + kept(y, k));
    } else {
        lemma_kept_prefix(x, y, x.len() as int);
        assert(kept(x, x.len() as int) + kept(y, 0) =~= kept(x, x.len() as int));
    }
}

/// Nothing is kept of a single comment line.
proof fn lemma_comment_line_dropped(line: Seq<u8>, n: int)
    requires
        marks_comment(line, 0),
        forall|j: int| 0 <= j < line.len() - 1 ==> line[j] != NEWLINE,
        0 <= n <= line.len(),
    ensures
        kept(line, n) == Seq::<u8>::empty(),
        n < line.len() ==> line_start(line, n) == 0,
    decreases n,
{
    if n > 0 {
        lemma_comment_line_dropped(line, n - 1);
        assert(line_start(line, n - 1) == 0);
    }
}

/// A comment line gives nothing and leaves the lines around it as they are:
/// with the line between whole lines and any text after it, what remains
/// after removing comments is what remains of the text without the line.
pub proof fn lemma_comment_line_vanishes(before: Seq<u8>, line: Seq<u8>, after: Seq<u8>)
    requires
        before.len() == 0 || before.last() == NEWLINE,
        marks_comment(line, 0),
        forall|j: int| 0 <= j < line.len() - 1 ==> line[j] != NEWLINE,
        after.len() == 0 || line.last() == NEWLINE,
    ensures
        without_comments(line) == Seq::<u8>::empty(),
        without_comments(before + line + after) == without_comments(before + after),
{
    lemma_comment_line_dropped(line, line.len() as int);
    lemma_kept_concat(before, after, after.len() as int);
    if after.len() == 0 {
        assert(before + line + after =~= before + line);
        assert(before + after =~= before);
        lemma_kept_concat(before, line, line.len() as int);
        assert(kept(before, before.len() as int) + Seq::<u8>::empty() =~= kept(
            before,
            before.len() as int,
        ));
    } else {
        assert(before + line + after =~= before + (line + after));
        lemma_kept_concat(before, line + after, (line + after).len() as int);
        lemma_kept_concat(line, after, after.len() as int);
        assert(Seq::<u8>::empty() + kept(after, after.len() as int) =~= kept(
            after,
            after.len() as int,
        ));
    }
}

} // verus!
