//! Specification-level scans over the input sequence.
//!
//! Each recognizer's behaviour is defined through a handful of scans: the
//! next line boundary, the run of `#` characters, the closing delimiter of an
//! inline code span, the closing fence of a code block, the blank line that
//! ends a blockquote, and the bracket- or paren-balanced close of a link
//! label or href.  The lemmas here characterize each scan as the first
//! position with the stated property, in both directions.

use vstd::prelude::*;

verus! {

/// The index of the first `'\n'` at or after `i`, or the input's length when
/// no newline follows.
pub open spec fn line_end(s: Seq<char>, i: int) -> int
    decreases s.len() - i,
{
    if i >= s.len() {
        s.len() as int
    } else if s[i] == '\n' {
        i
    } else {
        line_end(s, i + 1)
    }
}

pub proof fn lemma_line_end(s: Seq<char>, i: int)
    requires
        0 <= i <= s.len(),
    ensures
        i <= line_end(s, i) <= s.len(),
        forall|k: int| i <= k < line_end(s, i) ==> s[k] != '\n',
        line_end(s, i) < s.len() ==> s[line_end(s, i)] == '\n',
    decreases s.len() - i,
{
    if i < s.len() && s[i] != '\n' {
        lemma_line_end(s, i + 1);
    }
}

pub proof fn lemma_line_end_at(s: Seq<char>, i: int, j: int)
    requires
        0 <= i <= j <= s.len(),
        forall|k: int| i <= k < j ==> s[k] != '\n',
        j < s.len() ==> s[j] == '\n',
    ensures
        line_end(s, i) == j,
    decreases j - i,
{
    if i < j {
        assert(s[i] != '\n');
        lemma_line_end_at(s, i + 1, j);
    }
}

/// The index just past the run of `'#'` characters starting at `i`.
pub open spec fn sharp_run(s: Seq<char>, i: int) -> int
    decreases s.len() - i,
{
    if i >= s.len() {
        s.len() as int
    } else if s[i] == '#' {
        sharp_run(s, i + 1)
    } else {
        i
    }
}

pub proof fn lemma_sharp_run(s: Seq<char>, i: int)
    requires
        0 <= i <= s.len(),
    ensures
        i <= sharp_run(s, i) <= s.len(),
        forall|k: int| i <= k < sharp_run(s, i) ==> s[k] == '#',
        sharp_run(s, i) < s.len() ==> s[sharp_run(s, i)] != '#',
    decreases s.len() - i,
{
    if i < s.len() && s[i] == '#' {
        lemma_sharp_run(s, i + 1);
    }
}

pub proof fn lemma_sharp_run_at(s: Seq<char>, i: int, j: int)
    requires
        0 <= i <= j <= s.len(),
        forall|k: int| i <= k < j ==> s[k] == '#',
        j < s.len() ==> s[j] != '#',
    ensures
        sharp_run(s, i) == j,
    decreases j - i,
{
    if i < j {
        assert(s[i] == '#');
        lemma_sharp_run_at(s, i + 1, j);
    }
}

/// The index of the first closing backtick or newline at or after `i`, or
/// the input's length: where an inline code span's body ends.
pub open spec fn inline_end(s: Seq<char>, i: int) -> int
    decreases s.len() - i,
{
    if i >= s.len() {
        s.len() as int
    } else if s[i] == '`' || s[i] == '\n' {
        i
    } else {
        inline_end(s, i + 1)
    }
}

pub proof fn lemma_inline_end(s: Seq<char>, i: int)
    requires
        0 <= i <= s.len(),
    ensures
        i <= inline_end(s, i) <= s.len(),
        forall|k: int| i <= k < inline_end(s, i) ==> s[k] != '`' && s[k] != '\n',
        inline_end(s, i) < s.len() ==> (s[inline_end(s, i)] == '`' || s[inline_end(s, i)]
            == '\n'),
    decreases s.len() - i,
{
    if i < s.len() && s[i] != '`' && s[i] != '\n' {
        lemma_inline_end(s, i + 1);
    }
}

pub proof fn lemma_inline_end_at(s: Seq<char>, i: int, j: int)
    requires
        0 <= i <= j <= s.len(),
        forall|k: int| i <= k < j ==> s[k] != '`' && s[k] != '\n',
        j < s.len() ==> (s[j] == '`' || s[j] == '\n'),
    ensures
        inline_end(s, i) == j,
    decreases j - i,
{
    if i < j {
        assert(s[i] != '`' && s[i] != '\n');
        lemma_inline_end_at(s, i + 1, j);
    }
}

/// True when the text consumed since `start` ends, at position `e`, with a
/// newline followed by a closing triple-backtick fence.
pub open spec fn fence_close_at(s: Seq<char>, start: int, e: int) -> bool {
    &&& e - start >= 4
    &&& s[e - 4] == '\n'
    &&& s[e - 3] == '`'
    &&& s[e - 2] == '`'
    &&& s[e - 1] == '`'
}

/// The first position `e > k` where the text consumed since `start` ends
/// with a closing fence, or `None` when the input runs out first.
pub open spec fn fence_end(s: Seq<char>, start: int, k: int) -> Option<int>
    decreases s.len() - k,
{
    if k >= s.len() {
        None
    } else if fence_close_at(s, start, k + 1) {
        Some(k + 1)
    } else {
        fence_end(s, start, k + 1)
    }
}

pub proof fn lemma_fence_end(s: Seq<char>, start: int, k: int)
    requires
        0 <= k <= s.len(),
    ensures
        match fence_end(s, start, k) {
            Some(e) => k < e <= s.len() && fence_close_at(s, start, e) && forall|e2: int|
                k < e2 < e ==> !fence_close_at(s, start, e2),
            None => forall|e2: int| k < e2 <= s.len() ==> !fence_close_at(s, start, e2),
        },
    decreases s.len() - k,
{
    if k < s.len() && !fence_close_at(s, start, k + 1) {
        lemma_fence_end(s, start, k + 1);
    }
}

pub proof fn lemma_fence_end_at(s: Seq<char>, start: int, k: int, e: int)
    requires
        0 <= k < e <= s.len(),
        fence_close_at(s, start, e),
        forall|e2: int| k < e2 < e ==> !fence_close_at(s, start, e2),
    ensures
        fence_end(s, start, k) == Some(e),
    decreases e - k,
{
    if k + 1 < e {
        assert(!fence_close_at(s, start, k + 1));
        lemma_fence_end_at(s, start, k + 1, e);
    }
}

pub proof fn lemma_fence_end_none(s: Seq<char>, start: int, k: int)
    requires
        0 <= k <= s.len(),
        forall|e2: int| k < e2 <= s.len() ==> !fence_close_at(s, start, e2),
    ensures
        fence_end(s, start, k) is None,
    decreases s.len() - k,
{
    if k < s.len() {
        assert(!fence_close_at(s, start, k + 1));
        lemma_fence_end_none(s, start, k + 1);
    }
}

/// True when the text consumed since `start` ends, at position `e`, with a
/// blank line: two consecutive newlines.
pub open spec fn blank_close_at(s: Seq<char>, start: int, e: int) -> bool {
    &&& e - start >= 2
    &&& s[e - 2] == '\n'
    &&& s[e - 1] == '\n'
}

/// The first position `e > k` where the text consumed since `start` ends
/// with a blank line, or `None` when the input runs out first.
pub open spec fn blank_end(s: Seq<char>, start: int, k: int) -> Option<int>
    decreases s.len() - k,
{
    if k >= s.len() {
        None
    } else if blank_close_at(s, start, k + 1) {
        Some(k + 1)
    } else {
        blank_end(s, start, k + 1)
    }
}

pub proof fn lemma_blank_end(s: Seq<char>, start: int, k: int)
    requires
        0 <= k <= s.len(),
    ensures
        match blank_end(s, start, k) {
            Some(e) => k < e <= s.len() && blank_close_at(s, start, e) && forall|e2: int|
                k < e2 < e ==> !blank_close_at(s, start, e2),
            None => forall|e2: int| k < e2 <= s.len() ==> !blank_close_at(s, start, e2),
        },
    decreases s.len() - k,
{
    if k < s.len() && !blank_close_at(s, start, k + 1) {
        lemma_blank_end(s, start, k + 1);
    }
}

pub proof fn lemma_blank_end_at(s: Seq<char>, start: int, k: int, e: int)
    requires
        0 <= k < e <= s.len(),
        blank_close_at(s, start, e),
        forall|e2: int| k < e2 < e ==> !blank_close_at(s, start, e2),
    ensures
        blank_end(s, start, k) == Some(e),
    decreases e - k,
{
    if k + 1 < e {
        assert(!blank_close_at(s, start, k + 1));
        lemma_blank_end_at(s, start, k + 1, e);
    }
}

pub proof fn lemma_blank_end_none(s: Seq<char>, start: int, k: int)
    requires
        0 <= k <= s.len(),
        forall|e2: int| k < e2 <= s.len() ==> !blank_close_at(s, start, e2),
    ensures
        blank_end(s, start, k) is None,
    decreases s.len() - k,
{
    if k < s.len() {
        assert(!blank_close_at(s, start, k + 1));
        lemma_blank_end_none(s, start, k + 1);
    }
}

/// The position of the `]` that closes a bracket-balanced label scanned from
/// `k` at nesting depth `d`, or `None` when a newline or the end of input
/// comes first.  The closing bracket itself is not part of the label.
pub open spec fn label_close(s: Seq<char>, k: int, d: int) -> Option<int>
    decreases s.len() - k,
{
    if k >= s.len() {
        None
    } else if s[k] == '\n' {
        None
    } else if s[k] == ']' && d == 0 {
        Some(k)
    } else if s[k] == '[' {
        label_close(s, k + 1, d + 1)
    } else if s[k] == ']' {
        label_close(s, k + 1, d - 1)
    } else {
        label_close(s, k + 1, d)
    }
}

pub proof fn lemma_label_close(s: Seq<char>, k: int, d: int)
    requires
        0 <= k <= s.len(),
    ensures
        match label_close(s, k, d) {
            Some(e) => k <= e < s.len() && s[e] == ']',
            None => true,
        },
    decreases s.len() - k,
{
    if k < s.len() && s[k] != '\n' && !(s[k] == ']' && d == 0) {
        if s[k] == '[' {
            lemma_label_close(s, k + 1, d + 1);
        } else if s[k] == ']' {
            lemma_label_close(s, k + 1, d - 1);
        } else {
            lemma_label_close(s, k + 1, d);
        }
    }
}

/// With no brackets or newlines between `k` and a `]` at `e`, the balanced
/// scan closes exactly at `e`.
pub proof fn lemma_label_close_flat(s: Seq<char>, k: int, e: int)
    requires
        0 <= k <= e < s.len(),
        s[e] == ']',
        forall|j: int| k <= j < e ==> s[j] != '[' && s[j] != ']' && s[j] != '\n',
    ensures
        label_close(s, k, 0) == Some(e),
    decreases e - k,
{
    if k < e {
        assert(s[k] != '[' && s[k] != ']' && s[k] != '\n');
        lemma_label_close_flat(s, k + 1, e);
    }
}

/// The position of the `)` that closes a paren-balanced href scanned from
/// `k` at nesting depth `d`, or `None` when a newline or the end of input
/// comes first.
pub open spec fn href_close(s: Seq<char>, k: int, d: int) -> Option<int>
    decreases s.len() - k,
{
    if k >= s.len() {
        None
    } else if s[k] == '\n' {
        None
    } else if s[k] == ')' && d == 0 {
        Some(k)
    } else if s[k] == '(' {
        href_close(s, k + 1, d + 1)
    } else if s[k] == ')' {
        href_close(s, k + 1, d - 1)
    } else {
        href_close(s, k + 1, d)
    }
}

pub proof fn lemma_href_close(s: Seq<char>, k: int, d: int)
    requires
        0 <= k <= s.len(),
    ensures
        match href_close(s, k, d) {
            Some(e) => k <= e < s.len() && s[e] == ')',
            None => true,
        },
    decreases s.len() - k,
{
    if k < s.len() && s[k] != '\n' && !(s[k] == ')' && d == 0) {
        if s[k] == '(' {
            lemma_href_close(s, k + 1, d + 1);
        } else if s[k] == ')' {
            lemma_href_close(s, k + 1, d - 1);
        } else {
            lemma_href_close(s, k + 1, d);
        }
    }
}

/// With no parens or newlines between `k` and a `)` at `e`, the balanced
/// scan closes exactly at `e`.
pub proof fn lemma_href_close_flat(s: Seq<char>, k: int, e: int)
    requires
        0 <= k <= e < s.len(),
        s[e] == ')',
        forall|j: int| k <= j < e ==> s[j] != '(' && s[j] != ')' && s[j] != '\n',
    ensures
        href_close(s, k, 0) == Some(e),
    decreases e - k,
{
    if k < e {
        assert(s[k] != '(' && s[k] != ')' && s[k] != '\n');
        lemma_href_close_flat(s, k + 1, e);
    }
}

} // verus!
