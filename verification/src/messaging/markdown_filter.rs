//! Line-oriented Markdown cleanup for outbound text, aware of CJK content.
//!
//! Rules, applied line by line (lines as produced by `str::lines`):
//! - a line whose trimmed start is "```" toggles the code-fence state and is kept;
//! - lines inside a fence are kept verbatim;
//! - image lines (trimmed start "![") are dropped;
//! - H5/H6 headings (trimmed start "#####") lose their `#` marks;
//! - inline code spans (between two backticks) are kept as written;
//! - elsewhere, first `**x**` spans (leftmost, shortest content) whose content
//!   holds a CJK character are replaced by their content, other bold spans
//!   being kept as written; then, between the kept bold spans, `*x*` spans
//!   with CJK content are replaced by their content in the same way.
//! Every kept line is followed by a newline.

use vstd::prelude::*;
use crate::text::{
    chars_of, is_whitespace, push_char, push_chars, skip_whitespace, skip_whitespace_from, starts_with,
    trim_start,
};

verus! {

// ---------------------------------------------------------------------------
// Specification
// ---------------------------------------------------------------------------

/// CJK ideographs, CJK punctuation, kana and Hangul syllables.
pub open spec fn is_cjk_char(c: char) -> bool {
    let u = c as u32;
    ||| 0x4E00 <= u <= 0x9FFF
    ||| 0x3400 <= u <= 0x4DBF
    ||| 0x3000 <= u <= 0x303F
    ||| 0x3040 <= u <= 0x309F
    ||| 0x30A0 <= u <= 0x30FF
    ||| 0xAC00 <= u <= 0xD7AF
}

pub open spec fn has_cjk(s: Seq<char>) -> bool {
    exists|k: int| 0 <= k < s.len() && is_cjk_char(#[trigger] s[k])
}

/// `d` asterisks start at position `p`.
pub open spec fn delim_at(s: Seq<char>, p: int, d: nat) -> bool {
    &&& 0 <= p
    &&& p + d <= s.len()
    &&& forall|k: int| p <= k < p + d ==> s[k] == '*'
}

/// First position at or after `p` where a delimiter of width `d` starts, or -1.
pub open spec fn closing_delim(s: Seq<char>, p: int, d: nat) -> int
    decreases s.len() - p,
{
    if p < 0 || p + d > s.len() {
        -1
    } else if delim_at(s, p, d) {
        p
    } else {
        closing_delim(s, p + 1, d)
    }
}

pub proof fn lemma_closing_delim_bounds(s: Seq<char>, p: int, d: nat)
    ensures
        closing_delim(s, p, d) == -1 || (p <= closing_delim(s, p, d) && closing_delim(s, p, d)
            + d <= s.len() && delim_at(s, closing_delim(s, p, d), d)),
    decreases s.len() - p,
{
    if p < 0 || p + d > s.len() {
    } else if delim_at(s, p, d) {
    } else {
        lemma_closing_delim_bounds(s, p + 1, d);
    }
}

/// Replacement of the span `s[i..c+d]` whose content is `s[i+d..c]`.
pub open spec fn span_replacement(s: Seq<char>, i: int, c: int, d: nat) -> Seq<char> {
    let inner = s.subrange(i + d, c);
    if has_cjk(inner) {
        inner
    } else {
        s.subrange(i, c + d)
    }
}

/// Regex `\*{d}(.+?)\*{d}` replaced all over `s[i..]` (leftmost-first,
/// shortest content, non-overlapping), a span becoming its content when the
/// content holds a CJK character.
pub open spec fn emphasis_from(s: Seq<char>, i: int, d: nat) -> Seq<char>
    decreases s.len() - i,
{
    if i < 0 || i >= s.len() {
        seq![]
    } else if d >= 1 && delim_at(s, i, d) && closing_delim(s, i + d + 1, d) >= 0 {
        let c = closing_delim(s, i + d + 1, d);
        proof {
            lemma_closing_delim_bounds(s, i + d + 1, d);
        }
        span_replacement(s, i, c, d) + emphasis_from(s, c + d, d)
    } else {
        seq![s[i]] + emphasis_from(s, i + 1, d)
    }
}

/// First index at or after `p` holding `c`, or -1.
pub open spec fn find_char(s: Seq<char>, c: char, p: int) -> int
    decreases s.len() - p,
{
    if p < 0 || p >= s.len() {
        -1
    } else if s[p] == c {
        p
    } else {
        find_char(s, c, p + 1)
    }
}

pub proof fn lemma_find_char_bounds(s: Seq<char>, c: char, p: int)
    requires
        0 <= p,
    ensures
        find_char(s, c, p) == -1 || (p <= find_char(s, c, p) < s.len() && s[find_char(s, c, p)]
            == c),
        find_char(s, c, p) == -1 ==> forall|k: int| p <= k < s.len() ==> s[k] != c,
        find_char(s, c, p) >= 0 ==> forall|k: int| p <= k < find_char(s, c, p) ==> s[k] != c,
    decreases s.len() - p,
{
    if 0 <= p < s.len() && s[p] != c {
        lemma_find_char_bounds(s, c, p + 1);
    }
}

/// Start of the next inline code span at or after `p` (a backtick with a
/// later backtick), or the end of the line.
pub open spec fn code_start(s: Seq<char>, p: int) -> int {
    let t = find_char(s, '`', p);
    if t >= 0 && find_char(s, '`', t + 1) >= 0 {
        t
    } else {
        s.len() as int
    }
}

/// Inline markup of `p[i..]`, a stretch of a line outside code spans, where
/// `run` is the text produced since the last kept bold span. First the bold
/// rule (regex `\*\*(.+?)\*\*`, leftmost, shortest content): a span whose
/// content holds a CJK character becomes its content, which joins the run;
/// any other bold span is kept as written. Then the italic rule
/// (`emphasis_from` with width 1) applies to each run between kept bold spans.
pub open spec fn bold_from(p: Seq<char>, i: int, run: Seq<char>) -> Seq<char>
    decreases p.len() - i,
{
    if i < 0 || i >= p.len() {
        emphasis_from(run, 0, 1)
    } else if delim_at(p, i, 2) && closing_delim(p, i + 3, 2) >= 0 {
        let c = closing_delim(p, i + 3, 2);
        proof {
            lemma_closing_delim_bounds(p, i + 3, 2);
        }
        let inner = p.subrange(i + 2, c);
        if has_cjk(inner) {
            bold_from(p, c + 2, run + inner)
        } else {
            emphasis_from(run, 0, 1) + p.subrange(i, c + 2) + bold_from(p, c + 2, seq![])
        }
    } else {
        bold_from(p, i + 1, run.push(p[i]))
    }
}

/// Markup of `s[i..]`, left to right: an inline code span (a '`' with a later
/// '`') is copied as written; the stretch up to the next code span goes
/// through `bold_from`.
pub open spec fn markup_from(s: Seq<char>, i: int) -> Seq<char>
    decreases s.len() - i,
{
    if i < 0 || i >= s.len() {
        seq![]
    } else if s[i] == '`' && find_char(s, '`', i + 1) >= 0 {
        let c = find_char(s, '`', i + 1);
        proof {
            lemma_find_char_bounds(s, '`', i + 1);
        }
        s.subrange(i, c + 1) + markup_from(s, c + 1)
    } else {
        let t = code_start(s, i);
        proof {
            lemma_find_char_bounds(s, '`', i);
        }
        bold_from(s.subrange(i, t), 0, seq![]) + markup_from(s, t)
    }
}

/// Inline markup of an ordinary line.
pub open spec fn emphasis(line: Seq<char>) -> Seq<char> {
    markup_from(line, 0)
}

/// Index of the first '\n' at or after `i`, or `s.len()`.
pub open spec fn line_end(s: Seq<char>, i: int) -> int
    decreases s.len() - i,
{
    if i < 0 || i >= s.len() {
        s.len() as int
    } else if s[i] == '\n' {
        i
    } else {
        line_end(s, i + 1)
    }
}

pub proof fn lemma_line_end_bounds(s: Seq<char>, i: int)
    requires
        0 <= i <= s.len(),
    ensures
        i <= line_end(s, i) <= s.len(),
        line_end(s, i) < s.len() ==> s[line_end(s, i)] == '\n',
    decreases s.len() - i,
{
    if i < s.len() && s[i] != '\n' {
        lemma_line_end_bounds(s, i + 1);
    }
}

pub open spec fn strip_cr(l: Seq<char>) -> Seq<char> {
    if l.len() > 0 && l.last() == '\r' {
        l.drop_last()
    } else {
        l
    }
}

/// The line starting at `i`: up to the next '\n', without a '\r' just before it.
pub open spec fn line_at(s: Seq<char>, i: int) -> Seq<char> {
    let e = line_end(s, i);
    if e < s.len() {
        strip_cr(s.subrange(i, e))
    } else {
        s.subrange(i, e)
    }
}

pub open spec fn lines_from(s: Seq<char>, i: int) -> Seq<Seq<char>>
    decreases s.len() - i,
{
    if i < 0 || i >= s.len() {
        seq![]
    } else {
        proof {
            lemma_line_end_bounds(s, i);
        }
        if line_end(s, i) >= s.len() {
            seq![line_at(s, i)]
        } else {
            seq![line_at(s, i)] + lines_from(s, line_end(s, i) + 1)
        }
    }
}

/// `str::lines`: split at "\n" or "\r\n"; a final line ending adds no line.
pub open spec fn split_lines(s: Seq<char>) -> Seq<Seq<char>> {
    lines_from(s, 0)
}

/// The trimmed line starts with `n` copies of `c`.
pub open spec fn trimmed_starts_with_run(line: Seq<char>, c: char, n: nat) -> bool {
    starts_with(trim_start(line), Seq::new(n, |k: int| c))
}

pub open spec fn is_fence_line(line: Seq<char>) -> bool {
    trimmed_starts_with_run(line, '`', 3)
}

pub open spec fn is_image_line(line: Seq<char>) -> bool {
    starts_with(trim_start(line), seq!['!', '['])
}

pub open spec fn is_minor_heading(line: Seq<char>) -> bool {
    trimmed_starts_with_run(line, '#', 5)
}

/// First index at or after `i` whose character is not `c` (or `s.len()`).
pub open spec fn skip_char(s: Seq<char>, i: int, c: char) -> int
    decreases s.len() - i,
{
    if 0 <= i < s.len() && s[i] == c {
        skip_char(s, i + 1, c)
    } else {
        i
    }
}

/// Heading text: trimmed, leading `#`s removed, trimmed again.
pub open spec fn heading_text(line: Seq<char>) -> Seq<char> {
    let t = trim_start(line);
    trim_start(t.subrange(skip_char(t, 0, '#'), t.len() as int))
}

/// Output of one line and the fence state after it.
pub open spec fn filter_line(line: Seq<char>, in_fence: bool) -> (Seq<char>, bool) {
    if is_fence_line(line) {
        (line.push('\n'), !in_fence)
    } else if in_fence {
        (line.push('\n'), true)
    } else if is_image_line(line) {
        (seq![], false)
    } else if is_minor_heading(line) {
        (heading_text(line).push('\n'), false)
    } else {
        (emphasis(line).push('\n'), false)
    }
}

pub open spec fn filter_lines(lines: Seq<Seq<char>>, in_fence: bool) -> (Seq<char>, bool)
    decreases lines.len(),
{
    if lines.len() == 0 {
        (seq![], in_fence)
    } else {
        let (out, fence) = filter_line(lines[0], in_fence);
        let (rest, last_fence) = filter_lines(lines.drop_first(), fence);
        (out + rest, last_fence)
    }
}

/// Output for `text` and the fence state after it, starting in `in_fence`.
pub open spec fn filtered(text: Seq<char>, in_fence: bool) -> (Seq<char>, bool) {
    filter_lines(split_lines(text), in_fence)
}

pub proof fn lemma_filter_lines_cons(x: Seq<char>, rest: Seq<Seq<char>>, in_fence: bool)
    ensures
        filter_lines(seq![x] + rest, in_fence) == ({
            let (out, fence) = filter_line(x, in_fence);
            let (more, last_fence) = filter_lines(rest, fence);
            (out + more, last_fence)
        }),
{
    let l = seq![x] + rest;
    assert(l[0] == x);
    assert(l.drop_first() =~= rest);
}

// ---------------------------------------------------------------------------
// Laws
// ---------------------------------------------------------------------------

proof fn lemma_line_end_shift(a: Seq<char>, b: Seq<char>, j: int)
    requires
        0 <= j <= b.len(),
    ensures
        line_end(a + b, a.len() + j) == a.len() + line_end(b, j),
    decreases b.len() - j,
{
    let s = a + b;
    if j < b.len() {
        assert(s[a.len() + j] == b[j]);
        if b[j] != '\n' {
            lemma_line_end_shift(a, b, j + 1);
        }
    }
}

proof fn lemma_lines_from_shift(a: Seq<char>, b: Seq<char>, j: int)
    requires
        0 <= j <= b.len(),
    ensures
        lines_from(a + b, a.len() + j) == lines_from(b, j),
    decreases b.len() - j,
{
    let s = a + b;
    if j < b.len() {
        lemma_line_end_shift(a, b, j);
        lemma_line_end_bounds(b, j);
        let e = line_end(b, j);
        assert(s.subrange(a.len() + j, a.len() + e) =~= b.subrange(j, e));
        assert(line_at(s, a.len() + j) == line_at(b, j));
        if e < b.len() {
            lemma_lines_from_shift(a, b, e + 1);
        }
    }
}

proof fn lemma_line_end_prefix(a: Seq<char>, b: Seq<char>, i: int)
    requires
        a.len() > 0,
        a.last() == '\n',
        0 <= i < a.len(),
    ensures
        line_end(a + b, i) == line_end(a, i),
        line_end(a, i) < a.len(),
    decreases a.len() - i,
{
    let s = a + b;
    assert(s[i] == a[i]);
    if a[i] != '\n' {
        lemma_line_end_prefix(a, b, i + 1);
    }
}

proof fn lemma_lines_from_prefix(a: Seq<char>, b: Seq<char>, i: int)
    requires
        a.len() == 0 || a.last() == '\n',
        0 <= i <= a.len(),
    ensures
        lines_from(a + b, i) == lines_from(a, i) + lines_from(b, 0),
    decreases a.len() - i,
{
    let s = a + b;
    if i == a.len() {
        lemma_lines_from_shift(a, b, 0);
        assert(lines_from(a, i) + lines_from(b, 0) =~= lines_from(b, 0));
    } else {
        lemma_line_end_prefix(a, b, i);
        lemma_line_end_bounds(a, i);
        let e = line_end(a, i);
        assert(s.subrange(i, e) =~= a.subrange(i, e));
        assert(line_at(s, i) == line_at(a, i));
        lemma_lines_from_prefix(a, b, e + 1);
        if e + 1 == a.len() {
            assert(lines_from(a, e + 1) =~= Seq::<Seq<char>>::empty());
        }
        assert(lines_from(s, i) =~= lines_from(a, i) + lines_from(b, 0));
    }
}

proof fn lemma_filter_lines_append(l1: Seq<Seq<char>>, l2: Seq<Seq<char>>, in_fence: bool)
    ensures
        filter_lines(l1 + l2, in_fence) == ({
            let (first, mid) = filter_lines(l1, in_fence);
            let (second, last) = filter_lines(l2, mid);
            (first + second, last)
        }),
    decreases l1.len(),
{
    if l1.len() == 0 {
        assert(l1 + l2 =~= l2);
        assert(filter_lines(l1, in_fence).0 + filter_lines(l2, in_fence).0 =~= filter_lines(
            l2,
            in_fence,
        ).0);
    } else {
        let l = l1 + l2;
        assert(l[0] == l1[0]);
        assert(l.drop_first() =~= l1.drop_first() + l2);
        let (out, fence) = filter_line(l1[0], in_fence);
        lemma_filter_lines_append(l1.drop_first(), l2, fence);
        let (r1, m) = filter_lines(l1.drop_first(), fence);
        let (r2, last) = filter_lines(l2, m);
        assert(out + (r1 + r2) =~= (out + r1) + r2);
    }
}

/// Line-aligned split: when the first part of a text is empty or ends with a
/// line break, the text's output is the first part's output followed by the
/// rest's, the rest starting in the fence state the first part leaves.
pub proof fn lemma_line_aligned_chunks(a: Seq<char>, b: Seq<char>, in_fence: bool)
    requires
        a.len() == 0 || a.last() == '\n',
    ensures
        filtered(a + b, in_fence) == ({
            let (first, mid) = filtered(a, in_fence);
            let (second, last) = filtered(b, mid);
            (first + second, last)
        }),
{
    lemma_lines_from_prefix(a, b, 0);
    lemma_filter_lines_append(split_lines(a), split_lines(b), in_fence);
}

proof fn lemma_subrange_cjk_free(s: Seq<char>, a: int, b: int)
    requires
        !has_cjk(s),
        0 <= a <= b <= s.len(),
    ensures
        !has_cjk(s.subrange(a, b)),
{
    if has_cjk(s.subrange(a, b)) {
        let t = s.subrange(a, b);
        let k = choose|k: int| 0 <= k < t.len() && is_cjk_char(#[trigger] t[k]);
        assert(s[a + k] == t[k]);
    }
}

proof fn lemma_emphasis_from_cjk_free(s: Seq<char>, i: int, d: nat)
    requires
        !has_cjk(s),
        0 <= i <= s.len(),
    ensures
        emphasis_from(s, i, d) == s.subrange(i, s.len() as int),
    decreases s.len() - i,
{
    if i < s.len() {
        if d >= 1 && delim_at(s, i, d) && closing_delim(s, i + d + 1, d) >= 0 {
            let c = closing_delim(s, i + d + 1, d);
            lemma_closing_delim_bounds(s, i + d + 1, d);
            lemma_subrange_cjk_free(s, i + d, c);
            lemma_emphasis_from_cjk_free(s, c + d, d);
            assert(s.subrange(i, c + d) + s.subrange(c + d, s.len() as int) =~= s.subrange(
                i,
                s.len() as int,
            ));
        } else {
            lemma_emphasis_from_cjk_free(s, i + 1, d);
            assert(seq![s[i]] + s.subrange(i + 1, s.len() as int) =~= s.subrange(
                i,
                s.len() as int,
            ));
        }
    }
}

proof fn lemma_bold_from_cjk_free(p: Seq<char>, i: int, run: Seq<char>)
    requires
        !has_cjk(p),
        !has_cjk(run),
        0 <= i <= p.len(),
    ensures
        bold_from(p, i, run) == run + p.subrange(i, p.len() as int),
    decreases p.len() - i,
{
    lemma_emphasis_from_cjk_free(run, 0, 1);
    assert(run.subrange(0, run.len() as int) =~= run);
    if i == p.len() {
        assert(run + p.subrange(i, p.len() as int) =~= run);
    } else if delim_at(p, i, 2) && closing_delim(p, i + 3, 2) >= 0 {
        let c = closing_delim(p, i + 3, 2);
        lemma_closing_delim_bounds(p, i + 3, 2);
        lemma_subrange_cjk_free(p, i + 2, c);
        lemma_bold_from_cjk_free(p, c + 2, seq![]);
        assert(run + p.subrange(i, c + 2) + (seq![] + p.subrange(c + 2, p.len() as int)) =~= run
            + p.subrange(i, p.len() as int));
    } else {
        let run2 = run.push(p[i]);
        assert(!has_cjk(run2)) by {
            if has_cjk(run2) {
                let k = choose|k: int| 0 <= k < run2.len() && is_cjk_char(#[trigger] run2[k]);
                if k < run.len() {
                    assert(run2[k] == run[k]);
                }
            }
        }
        lemma_bold_from_cjk_free(p, i + 1, run2);
        assert(run2 + p.subrange(i + 1, p.len() as int) =~= run + p.subrange(i, p.len() as int));
    }
}

proof fn lemma_markup_from_cjk_free(s: Seq<char>, i: int)
    requires
        !has_cjk(s),
        0 <= i <= s.len(),
    ensures
        markup_from(s, i) == s.subrange(i, s.len() as int),
    decreases s.len() - i,
{
    if i < s.len() {
        lemma_find_char_bounds(s, '`', i);
        if s[i] == '`' && find_char(s, '`', i + 1) >= 0 {
            let c = find_char(s, '`', i + 1);
            lemma_find_char_bounds(s, '`', i + 1);
            lemma_markup_from_cjk_free(s, c + 1);
            assert(s.subrange(i, c + 1) + s.subrange(c + 1, s.len() as int) =~= s.subrange(
                i,
                s.len() as int,
            ));
        } else {
            let t = code_start(s, i);
            lemma_subrange_cjk_free(s, i, t);
            assert(!has_cjk(Seq::<char>::empty()));
            lemma_bold_from_cjk_free(s.subrange(i, t), 0, seq![]);
            assert(seq![] + s.subrange(i, t).subrange(0, t - i) =~= s.subrange(i, t));
            lemma_markup_from_cjk_free(s, t);
            assert(s.subrange(i, t) + s.subrange(t, s.len() as int) =~= s.subrange(
                i,
                s.len() as int,
            ));
        }
    }
}

/// Emphasis markers are only removed around CJK content: a line without any
/// CJK character passes the inline rules unchanged.
pub proof fn lemma_emphasis_keeps_cjk_free_line(line: Seq<char>)
    requires
        !has_cjk(line),
    ensures
        emphasis(line) == line,
{
    lemma_markup_from_cjk_free(line, 0);
    assert(line.subrange(0, line.len() as int) =~= line);
}

proof fn lemma_find_char_first(s: Seq<char>, c: char, p: int, k: int)
    requires
        0 <= p <= k < s.len(),
        s[k] == c,
        forall|j: int| p <= j < k ==> s[j] != c,
    ensures
        find_char(s, c, p) == k,
    decreases k - p,
{
    if p < k {
        lemma_find_char_first(s, c, p + 1, k);
    }
}

proof fn lemma_find_char_shift(x: Seq<char>, b: Seq<char>, c: char, j: int)
    requires
        0 <= j <= b.len(),
    ensures
        find_char(x + b, c, x.len() + j) == (if find_char(b, c, j) >= 0 {
            x.len() + find_char(b, c, j)
        } else {
            -1
        }),
    decreases b.len() - j,
{
    if j < b.len() {
        assert((x + b)[x.len() + j] == b[j]);
        if b[j] != c {
            lemma_find_char_shift(x, b, c, j + 1);
        }
    }
}

proof fn lemma_markup_from_shift(x: Seq<char>, b: Seq<char>, j: int)
    requires
        0 <= j <= b.len(),
    ensures
        markup_from(x + b, x.len() + j) == markup_from(b, j),
    decreases b.len() - j,
{
    let s = x + b;
    let i = x.len() + j;
    if j < b.len() {
        assert(s[i] == b[j]);
        lemma_find_char_shift(x, b, '`', j + 1);
        lemma_find_char_shift(x, b, '`', j);
        lemma_find_char_bounds(b, '`', j);
        lemma_find_char_bounds(b, '`', j + 1);
        if b[j] == '`' && find_char(b, '`', j + 1) >= 0 {
            let c = find_char(b, '`', j + 1);
            assert(s.subrange(i, x.len() + c + 1) =~= b.subrange(j, c + 1));
            lemma_markup_from_shift(x, b, c + 1);
        } else {
            let t = code_start(b, j);
            let k = find_char(b, '`', j);
            if k >= 0 {
                lemma_find_char_shift(x, b, '`', k + 1);
                lemma_find_char_bounds(b, '`', k + 1);
            }
            assert(code_start(s, i) == x.len() + t);
            assert(s.subrange(i, x.len() + t) =~= b.subrange(j, t));
            lemma_markup_from_shift(x, b, t);
        }
    }
}

proof fn lemma_markup_from_tick_free(a: Seq<char>)
    requires
        forall|k: int| 0 <= k < a.len() ==> a[k] != '`',
    ensures
        markup_from(a, 0) == bold_from(a, 0, seq![]),
{
    if a.len() > 0 {
        lemma_find_char_bounds(a, '`', 0);
        assert(code_start(a, 0) == a.len());
        assert(a.subrange(0, a.len() as int) =~= a);
        assert(markup_from(a, a.len() as int) =~= Seq::<char>::empty());
        assert(markup_from(a, 0) =~= bold_from(a, 0, seq![]));
    } else {
        assert(bold_from(a, 0, seq![]) =~= Seq::<char>::empty());
    }
}

/// Inline code is kept: in a line made of `a`, a code span and `b`, with no
/// backtick in `a` or inside the span, the span comes out as written, between
/// the markup of `a` and that of `b`.
pub proof fn lemma_code_span_kept(a: Seq<char>, code: Seq<char>, b: Seq<char>)
    requires
        forall|k: int| 0 <= k < a.len() ==> a[k] != '`',
        forall|k: int| 0 <= k < code.len() ==> code[k] != '`',
    ensures
        emphasis(a + (seq!['`'] + code + seq!['`']) + b) == emphasis(a) + (seq!['`'] + code
            + seq!['`']) + emphasis(b),
{
    let span = seq!['`'] + code + seq!['`'];
    let s = a + span + b;
    let n = a.len() as int;
    let e = n + code.len() + 1;
    assert(s[n] == '`');
    assert(s[e] == '`');
    assert forall|j: int| 0 <= j < n implies s[j] != '`' by {
        assert(s[j] == a[j]);
    }
    assert forall|j: int| n < j < e implies s[j] != '`' by {
        assert(s[j] == code[j - n - 1]);
    }
    lemma_find_char_first(s, '`', n + 1, e);
    lemma_markup_from_tick_free(a);
    assert(s =~= (a + span) + b);
    lemma_markup_from_shift(a + span, b, 0);
    assert(s.subrange(n, e + 1) =~= span);
    if n == 0 {
        assert(emphasis(a) =~= Seq::<char>::empty()) by {
            assert(bold_from(a, 0, seq![]) == emphasis_from(Seq::<char>::empty(), 0, 1));
        }
        assert(markup_from(s, 0) == span + markup_from(s, e + 1));
        assert(emphasis(s) =~= emphasis(a) + span + emphasis(b));
    } else {
        lemma_find_char_first(s, '`', 0, n);
        assert(code_start(s, 0) == n);
        assert(s.subrange(0, n) =~= a);
        assert(markup_from(s, n) == span + markup_from(s, e + 1));
        assert(emphasis(s) =~= emphasis(a) + span + emphasis(b));
    }
}

/// The CJK characters for the filter are exactly those of CJK unified
/// ideographs (U+4E00..U+9FFF) and extension A (U+3400..U+4DBF), CJK symbols
/// and punctuation (U+3000..U+303F), hiragana (U+3040..U+309F), katakana
/// (U+30A0..U+30FF) and Hangul syllables (U+AC00..U+D7AF).
pub proof fn lemma_cjk_ranges(c: char)
    ensures
        has_cjk(seq![c]) <==> (0x4E00 <= c as u32 <= 0x9FFF || 0x3400 <= c as u32 <= 0x4DBF
            || 0x3000 <= c as u32 <= 0x303F || 0x3040 <= c as u32 <= 0x309F || 0x30A0 <= c as u32
            <= 0x30FF || 0xAC00 <= c as u32 <= 0xD7AF),
{
    assert(seq![c][0] == c);
}

proof fn lemma_line_end_none(s: Seq<char>, i: int)
    requires
        0 <= i <= s.len(),
        forall|k: int| 0 <= k < s.len() ==> s[k] != '\n',
    ensures
        line_end(s, i) == s.len(),
    decreases s.len() - i,
{
    if i < s.len() {
        lemma_line_end_none(s, i + 1);
    }
}

/// A text of one line, without a line break, starting with an asterisk, is
/// filtered by the inline rules alone.
proof fn lemma_filtered_star_line(l: Seq<char>)
    requires
        l.len() > 0,
        l[0] == '*',
        forall|k: int| 0 <= k < l.len() ==> l[k] != '\n',
    ensures
        filtered(l, false).0 == emphasis(l).push('\n'),
{
    lemma_line_end_none(l, 0);
    assert(l.subrange(0, l.len() as int) =~= l);
    assert(line_at(l, 0) == l);
    assert(split_lines(l) =~= seq![l]);
    assert(!is_whitespace(l[0]));
    assert(skip_whitespace(l, 0) == 0);
    assert(trim_start(l) =~= l);
    if starts_with(l, Seq::new(3, |k: int| '`')) {
        assert(l.subrange(0, 3)[0] == '`');
    }
    if starts_with(l, seq!['!', '[']) {
        assert(l.subrange(0, 2)[0] == '!');
    }
    if starts_with(l, Seq::new(5, |k: int| '#')) {
        assert(l.subrange(0, 5)[0] == '#');
    }
    lemma_filter_lines_cons(l, Seq::<Seq<char>>::empty(), false);
    assert(seq![l] + Seq::<Seq<char>>::empty() =~= seq![l]);
    assert(emphasis(l).push('\n') + Seq::<char>::empty() =~= emphasis(l).push('\n'));
}

proof fn lemma_emphasis_from_star_free(s: Seq<char>, i: int, d: nat)
    requires
        d >= 1,
        0 <= i <= s.len(),
        forall|k: int| 0 <= k < s.len() ==> s[k] != '*',
    ensures
        emphasis_from(s, i, d) == s.subrange(i, s.len() as int),
    decreases s.len() - i,
{
    if i < s.len() {
        assert(!delim_at(s, i, d)) by {
            if delim_at(s, i, d) {
                assert(s[i] == '*');
            }
        }
        lemma_emphasis_from_star_free(s, i + 1, d);
        assert(seq![s[i]] + s.subrange(i + 1, s.len() as int) =~= s.subrange(i, s.len() as int));
    }
}

proof fn lemma_closing_delim_first(s: Seq<char>, p: int, k: int, d: nat)
    requires
        0 <= p <= k,
        k + d <= s.len(),
        delim_at(s, k, d),
        forall|j: int| p <= j < k ==> !delim_at(s, j, d),
    ensures
        closing_delim(s, p, d) == k,
    decreases k - p,
{
    if p < k {
        lemma_closing_delim_first(s, p + 1, k, d);
    }
}

/// With no two adjacent asterisks from `i` on, the bold rule finds nothing:
/// the rest goes to the italic rule with the run.
proof fn lemma_bold_from_no_double(p: Seq<char>, i: int, run: Seq<char>)
    requires
        0 <= i <= p.len(),
        forall|k: int| i <= k < p.len() ==> !#[trigger] delim_at(p, k, 2),
    ensures
        bold_from(p, i, run) == emphasis_from(run + p.subrange(i, p.len() as int), 0, 1),
    decreases p.len() - i,
{
    if i == p.len() {
        assert(run + p.subrange(i, p.len() as int) =~= run);
    } else {
        lemma_bold_from_no_double(p, i + 1, run.push(p[i]));
        assert(run.push(p[i]) + p.subrange(i + 1, p.len() as int) =~= run + p.subrange(
            i,
            p.len() as int,
        ));
    }
}

proof fn lemma_italic_cjk_unwrapped(x: Seq<char>)
    requires
        x.len() > 0,
        has_cjk(x),
        forall|k: int| 0 <= k < x.len() ==> x[k] != '*' && x[k] != '`' && x[k] != '\n',
    ensures
        emphasis(seq!['*'] + x + seq!['*']) == x,
{
    let n = x.len() as int;
    let s = seq!['*'] + x + seq!['*'];
    assert forall|k: int| 0 <= k < s.len() implies s[k] != '`' by {
        if 1 <= k <= n {
            assert(s[k] == x[k - 1]);
        }
    }
    lemma_find_char_bounds(s, '`', 0);
    assert(code_start(s, 0) == s.len());
    assert(s.subrange(0, s.len() as int) =~= s);
    assert(markup_from(s, s.len() as int) =~= Seq::<char>::empty());
    assert(markup_from(s, 0) == bold_from(s, 0, seq![]) + Seq::<char>::empty());
    assert forall|k: int| 0 <= k < s.len() implies !#[trigger] delim_at(s, k, 2) by {
        if delim_at(s, k, 2) {
            if k == 0 {
                assert(s[1] == x[0]);
            } else {
                assert(s[k] == x[k - 1]);
            }
        }
    }
    lemma_bold_from_no_double(s, 0, seq![]);
    assert(Seq::<char>::empty() + s.subrange(0, s.len() as int) =~= s);
    assert forall|j: int| 2 <= j < n + 1 implies !delim_at(s, j, 1) by {
        assert(s[j] == x[j - 1]);
    }
    lemma_closing_delim_first(s, 2, n + 1, 1);
    assert(s.subrange(1, n + 1) =~= x);
    assert(span_replacement(s, 0, n + 1, 1) == x);
    assert(emphasis_from(s, n + 2, 1) =~= Seq::<char>::empty());
    assert(emphasis_from(s, 0, 1) == x + emphasis_from(s, n + 2, 1));
    assert(emphasis(s) =~= x);
}

proof fn lemma_bold_cjk_unwrapped(x: Seq<char>)
    requires
        x.len() > 0,
        has_cjk(x),
        forall|k: int| 0 <= k < x.len() ==> x[k] != '*' && x[k] != '`' && x[k] != '\n',
    ensures
        emphasis(seq!['*', '*'] + x + seq!['*', '*']) == x,
{
    let n = x.len() as int;
    let b = seq!['*', '*'] + x + seq!['*', '*'];
    assert forall|k: int| 0 <= k < b.len() implies b[k] != '`' by {
        if 2 <= k < n + 2 {
            assert(b[k] == x[k - 2]);
        }
    }
    lemma_find_char_bounds(b, '`', 0);
    assert(code_start(b, 0) == b.len());
    assert(b.subrange(0, b.len() as int) =~= b);
    assert(markup_from(b, b.len() as int) =~= Seq::<char>::empty());
    assert(markup_from(b, 0) == bold_from(b, 0, seq![]) + Seq::<char>::empty());
    assert forall|j: int| 3 <= j < n + 2 implies !delim_at(b, j, 2) by {
        assert(b[j] == x[j - 2]);
    }
    lemma_closing_delim_first(b, 3, n + 2, 2);
    assert(b.subrange(2, n + 2) =~= x);
    assert(Seq::<char>::empty() + x =~= x);
    assert(bold_from(b, 0, seq![]) == bold_from(b, n + 4, x));
    lemma_emphasis_from_star_free(x, 0, 1);
    assert(x.subrange(0, n) =~= x);
    assert(bold_from(b, n + 4, x) == emphasis_from(x, 0, 1));
    assert(emphasis(b) =~= x);
}

/// CJK emphasis loses its markers: a text `*x*` or `**x**`, where `x` is not
/// empty, holds a CJK character and no asterisk, backtick or line break, is
/// filtered to `x` and a line break.
pub proof fn lemma_cjk_spans_unwrapped(x: Seq<char>)
    requires
        x.len() > 0,
        has_cjk(x),
        forall|k: int| 0 <= k < x.len() ==> x[k] != '*' && x[k] != '`' && x[k] != '\n',
    ensures
        filtered(seq!['*'] + x + seq!['*'], false).0 == x.push('\n'),
        filtered(seq!['*', '*'] + x + seq!['*', '*'], false).0 == x.push('\n'),
{
    let n = x.len() as int;
    let s = seq!['*'] + x + seq!['*'];
    assert forall|k: int| 0 <= k < s.len() implies s[k] != '\n' by {
        if 1 <= k <= n {
            assert(s[k] == x[k - 1]);
        }
    }
    lemma_filtered_star_line(s);
    lemma_italic_cjk_unwrapped(x);
    let b = seq!['*', '*'] + x + seq!['*', '*'];
    assert forall|k: int| 0 <= k < b.len() implies b[k] != '\n' by {
        if 2 <= k < n + 2 {
            assert(b[k] == x[k - 2]);
        }
    }
    lemma_filtered_star_line(b);
    lemma_bold_cjk_unwrapped(x);
}

// ---------------------------------------------------------------------------
// Implementation
// ---------------------------------------------------------------------------

/// Whether `c` is a CJK character.
fn is_cjk(c: char) -> (r: bool)
    ensures
        r == is_cjk_char(c),
{
    let u = c as u32;
    (0x4E00 <= u && u <= 0x9FFF) || (0x3400 <= u && u <= 0x4DBF) || (0x3000 <= u && u <= 0x303F)
        || (0x3040 <= u && u <= 0x309F) || (0x30A0 <= u && u <= 0x30FF) || (0xAC00 <= u && u
        <= 0xD7AF)
}

fn range_has_cjk(s: &Vec<char>, a: usize, b: usize) -> (r: bool)
    requires
        a <= b <= s@.len(),
    ensures
        r == has_cjk(s@.subrange(a as int, b as int)),
{
    let ghost t = s@.subrange(a as int, b as int);
    let mut k = a;
    while k < b
        invariant
            a <= k <= b <= s@.len(),
            t == s@.subrange(a as int, b as int),
            forall|j: int| 0 <= j < k - a ==> !is_cjk_char(#[trigger] t[j]),
        decreases b - k,
    {
        if is_cjk(s[k]) {
            assert(t[k - a] == s@[k as int]);
            return true;
        }
        k = k + 1;
    }
    false
}

fn delim_here(s: &Vec<char>, p: usize, d: usize) -> (r: bool)
    requires
        d <= 2,
    ensures
        r == delim_at(s@, p as int, d as nat),
{
    if p > s.len() || d > s.len() - p {
        return false;
    }
    let mut k: usize = 0;
    while k < d
        invariant
            k <= d <= 2,
            p + d <= s.len(),
            forall|j: int| p <= j < p + k ==> s@[j] == '*',
        decreases d - k,
    {
        if s[p + k] != '*' {
            return false;
        }
        k = k + 1;
    }
    true
}

fn find_closing(s: &Vec<char>, p: usize, d: usize) -> (r: Option<usize>)
    requires
        1 <= d <= 2,
    ensures
        match r {
            Some(c) => c as int == closing_delim(s@, p as int, d as nat),
            None => closing_delim(s@, p as int, d as nat) == -1,
        },
{
    if s.len() < d {
        return None;
    }
    let last = s.len() - d;
    let mut q = p;
    while q <= last
        invariant
            1 <= d <= 2,
            last + d == s.len(),
            p <= q,
            closing_delim(s@, q as int, d as nat) == closing_delim(s@, p as int, d as nat),
        decreases last + 1 - q,
    {
        if delim_here(s, q, d) {
            return Some(q);
        }
        q = q + 1;
    }
    None
}

fn extend_range(out: &mut Vec<char>, s: &Vec<char>, a: usize, b: usize)
    requires
        a <= b <= s@.len(),
    ensures
        final(out)@ == old(out)@ + s@.subrange(a as int, b as int),
{
    let mut k = a;
    while k < b
        invariant
            a <= k <= b <= s@.len(),
            out@ == old(out)@ + s@.subrange(a as int, k as int),
        decreases b - k,
    {
        out.push(s[k]);
        k = k + 1;
        assert(out@ =~= old(out)@ + s@.subrange(a as int, k as int));
    }
}

fn copy_range(s: &Vec<char>, a: usize, b: usize) -> (r: Vec<char>)
    requires
        a <= b <= s@.len(),
    ensures
        r@ == s@.subrange(a as int, b as int),
{
    let mut r: Vec<char> = Vec::new();
    extend_range(&mut r, s, a, b);
    assert(r@ =~= s@.subrange(a as int, b as int));
    r
}

/// One replacement pass for delimiters of width `d`.
fn emphasis_pass(s: &Vec<char>, d: usize) -> (r: Vec<char>)
    requires
        1 <= d <= 2,
    ensures
        r@ == emphasis_from(s@, 0, d as nat),
{
    let mut out: Vec<char> = Vec::new();
    let mut i: usize = 0;
    while i < s.len()
        invariant
            1 <= d <= 2,
            i <= s@.len(),
            out@ + emphasis_from(s@, i as int, d as nat) == emphasis_from(s@, 0, d as nat),
        decreases s@.len() - i,
    {
        let ghost before = out@;
        if delim_here(s, i, d) && i + d < s.len() {
            if let Some(c) = find_closing(s, i + d + 1, d) {
                proof {
                    lemma_closing_delim_bounds(s@, (i + d + 1) as int, d as nat);
                }
                if range_has_cjk(s, i + d, c) {
                    extend_range(&mut out, s, i + d, c);
                } else {
                    extend_range(&mut out, s, i, c + d);
                }
                assert(out@ == before + span_replacement(s@, i as int, c as int, d as nat));
                assert(out@ + emphasis_from(s@, (c + d) as int, d as nat) =~= before
                    + emphasis_from(s@, i as int, d as nat));
                i = c + d;
                continue;
            }
        }
        proof {
            if delim_at(s@, i as int, d as nat) && i + d >= s.len() {
                assert(closing_delim(s@, i + d + 1, d as nat) == -1);
            }
        }
        out.push(s[i]);
        assert(out@ + emphasis_from(s@, i + 1, d as nat) =~= before + emphasis_from(
            s@,
            i as int,
            d as nat,
        ));
        i = i + 1;
    }
    out
}

fn find_char_from(s: &Vec<char>, c: char, p: usize) -> (r: Option<usize>)
    requires
        p <= s@.len(),
    ensures
        match r {
            Some(k) => k as int == find_char(s@, c, p as int) && p <= k < s@.len(),
            None => find_char(s@, c, p as int) == -1,
        },
{
    let mut k = p;
    while k < s.len()
        invariant
            p <= k <= s@.len(),
            find_char(s@, c, k as int) == find_char(s@, c, p as int),
        decreases s@.len() - k,
    {
        if s[k] == c {
            return Some(k);
        }
        k = k + 1;
    }
    None
}

fn code_start_at(s: &Vec<char>, p: usize) -> (r: usize)
    requires
        p < s@.len(),
        !(s@[p as int] == '`' && find_char(s@, '`', p + 1) >= 0),
    ensures
        r as int == code_start(s@, p as int),
        p < r <= s@.len(),
{
    proof {
        lemma_find_char_bounds(s@, '`', p as int);
    }
    let n = s.len();
    match find_char_from(s, '`', p) {
        Some(k) => {
            assert(k < n);
            match find_char_from(s, '`', k + 1) {
                Some(_) => k,
                None => n,
            }
        },
        None => n,
    }
}

/// Inline markup of a stretch of a line outside code spans.
fn piece_pass(p: &Vec<char>) -> (r: Vec<char>)
    ensures
        r@ == bold_from(p@, 0, seq![]),
{
    let mut out: Vec<char> = Vec::new();
    let mut run: Vec<char> = Vec::new();
    let mut i: usize = 0;
    while i < p.len()
        invariant
            i <= p@.len(),
            out@ + bold_from(p@, i as int, run@) == bold_from(p@, 0, seq![]),
        decreases p@.len() - i,
    {
        let ghost before = out@;
        let ghost run0 = run@;
        if p.len() - i >= 3 && delim_here(p, i, 2) {
            if let Some(c) = find_closing(p, i + 3, 2) {
                proof {
                    lemma_closing_delim_bounds(p@, i + 3, 2);
                }
                if range_has_cjk(p, i + 2, c) {
                    extend_range(&mut run, p, i + 2, c);
                } else {
                    let e = emphasis_pass(&run, 1);
                    extend_range(&mut out, &e, 0, e.len());
                    extend_range(&mut out, p, i, c + 2);
                    run = Vec::new();
                    assert(e@.subrange(0, e@.len() as int) =~= e@);
                    assert(out@ + bold_from(p@, c + 2, run@) =~= before + bold_from(
                        p@,
                        i as int,
                        run0,
                    ));
                }
                i = c + 2;
                continue;
            }
        }
        proof {
            if delim_at(p@, i as int, 2) && p.len() - i < 3 {
                assert(closing_delim(p@, i + 3, 2) == -1);
            }
        }
        run.push(p[i]);
        i = i + 1;
    }
    let e = emphasis_pass(&run, 1);
    extend_range(&mut out, &e, 0, e.len());
    assert(e@.subrange(0, e@.len() as int) =~= e@);
    out
}

/// Inline markup of a line.
fn markup_pass(s: &Vec<char>) -> (r: Vec<char>)
    ensures
        r@ == markup_from(s@, 0),
{
    let mut out: Vec<char> = Vec::new();
    let mut i: usize = 0;
    while i < s.len()
        invariant
            i <= s@.len(),
            out@ + markup_from(s@, i as int) == markup_from(s@, 0),
        decreases s@.len() - i,
    {
        let ghost before = out@;
        if s[i] == '`' {
            if let Some(c) = find_char_from(s, '`', i + 1) {
                extend_range(&mut out, s, i, c + 1);
                assert(out@ + markup_from(s@, c + 1) =~= before + markup_from(s@, i as int));
                i = c + 1;
                continue;
            }
        }
        let t = code_start_at(s, i);
        let piece = copy_range(s, i, t);
        let m = piece_pass(&piece);
        extend_range(&mut out, &m, 0, m.len());
        assert(m@.subrange(0, m@.len() as int) =~= m@);
        assert(out@ + markup_from(s@, t as int) =~= before + markup_from(s@, i as int));
        i = t;
    }
    out
}

/// Exclusive end index of `k` repetitions of `c` starting at `start`, if present.
fn run_at(v: &Vec<char>, start: usize, c: char, n: usize) -> (r: bool)
    requires
        start <= v@.len(),
    ensures
        r == starts_with(v@.subrange(start as int, v@.len() as int), Seq::new(n as nat, |k: int| c)),
{
    let ghost t = v@.subrange(start as int, v@.len() as int);
    let ghost run = Seq::new(n as nat, |k: int| c);
    if n > v.len() - start {
        return false;
    }
    let mut k: usize = 0;
    while k < n
        invariant
            start + n <= v.len(),
            k <= n,
            t == v@.subrange(start as int, v@.len() as int),
            run == Seq::new(n as nat, |j: int| c),
            forall|j: int| 0 <= j < k ==> t[j] == c,
        decreases n - k,
    {
        if v[start + k] != c {
            assert(t.subrange(0, n as int)[k as int] != run[k as int]);
            return false;
        }
        k = k + 1;
    }
    assert(t.subrange(0, n as int) =~= run);
    true
}

fn skip_char_from(v: &Vec<char>, i: usize, c: char) -> (k: usize)
    requires
        i <= v@.len(),
    ensures
        k as int == skip_char(v@, i as int, c),
        i <= k <= v@.len(),
{
    let mut k = i;
    while k < v.len() && v[k] == c
        invariant
            i <= k <= v@.len(),
            skip_char(v@, k as int, c) == skip_char(v@, i as int, c),
        decreases v@.len() - k,
    {
        k = k + 1;
    }
    k
}

/// Processes one line into `out`; returns the fence state after it.
fn filter_one_line(line: &Vec<char>, in_fence: bool, out: &mut String) -> (fence: bool)
    ensures
        final(out)@ == old(out)@ + filter_line(line@, in_fence).0,
        fence == filter_line(line@, in_fence).1,
{
    let t0 = skip_whitespace_from(line, 0);
    let ghost trimmed = trim_start(line@);
    assert(trimmed == line@.subrange(t0 as int, line@.len() as int));
    if run_at(line, t0, '`', 3) {
        push_chars(out, line, 0, line.len());
        push_char(out, '\n');
        assert(line@.subrange(0, line@.len() as int) =~= line@);
        return !in_fence;
    }
    if in_fence {
        push_chars(out, line, 0, line.len());
        push_char(out, '\n');
        assert(line@.subrange(0, line@.len() as int) =~= line@);
        return true;
    }
    let is_image = line.len() - t0 >= 2 && line[t0] == '!' && line[t0 + 1] == '[';
    proof {
        if is_image {
            assert(trimmed.subrange(0, 2) =~= seq!['!', '[']);
        }
        if starts_with(trimmed, seq!['!', '[']) {
            assert(trimmed.subrange(0, 2)[0] == '!');
            assert(trimmed.subrange(0, 2)[1] == '[');
        }
    }
    if is_image {
        assert(out@ =~= old(out)@ + filter_line(line@, in_fence).0);
        return false;
    }
    if run_at(line, t0, '#', 5) {
        let t = copy_range(line, t0, line.len());
        let h = skip_char_from(&t, 0, '#');
        let u = copy_range(&t, h, t.len());
        let k = skip_whitespace_from(&u, 0);
        push_chars(out, &u, k, u.len());
        push_char(out, '\n');
        return false;
    }
    let marked = markup_pass(line);
    push_chars(out, &marked, 0, marked.len());
    push_char(out, '\n');
    assert(marked@.subrange(0, marked@.len() as int) =~= marked@);
    false
}

/// Index of the first '\n' at or after `i` (or the length).
fn find_line_end(v: &Vec<char>, i: usize) -> (e: usize)
    requires
        i <= v@.len(),
    ensures
        e as int == line_end(v@, i as int),
        i <= e <= v@.len(),
{
    let mut e = i;
    while e < v.len() && v[e] != '\n'
        invariant
            i <= e <= v@.len(),
            line_end(v@, e as int) == line_end(v@, i as int),
        decreases v@.len() - e,
    {
        e = e + 1;
    }
    e
}

/// Appends the output for `cs`, starting with the fence state `in_fence`;
/// returns the fence state after it.
fn render(cs: &Vec<char>, in_fence: bool, out: &mut String) -> (fence: bool)
    ensures
        final(out)@ == old(out)@ + filtered(cs@, in_fence).0,
        fence == filtered(cs@, in_fence).1,
{
    let n = cs.len();
    let mut fence = in_fence;
    let mut i: usize = 0;
    while i < n
        invariant
            n == cs@.len(),
            i <= n,
            out@ + filter_lines(lines_from(cs@, i as int), fence).0 == old(out)@ + filtered(
                cs@,
                in_fence,
            ).0,
            filter_lines(lines_from(cs@, i as int), fence).1 == filtered(cs@, in_fence).1,
        decreases n - i,
    {
        let ghost i0 = i;
        let e = find_line_end(cs, i);
        let mut line = copy_range(cs, i, e);
        if e < n && line.len() > 0 && line[line.len() - 1] == '\r' {
            line.pop();
            assert(line@ =~= strip_cr(cs@.subrange(i as int, e as int)));
        }
        assert(line@ == line_at(cs@, i as int));
        let ghost prev_out = out@;
        let ghost prev_fence = fence;
        let ghost rest = if e >= n {
            Seq::<Seq<char>>::empty()
        } else {
            lines_from(cs@, e + 1)
        };
        proof {
            assert(lines_from(cs@, i as int) =~= seq![line_at(cs@, i as int)] + rest);
            lemma_filter_lines_cons(line@, rest, prev_fence);
        }
        fence = filter_one_line(&line, fence, out);
        if e >= n {
            assert(lines_from(cs@, n as int) =~= Seq::<Seq<char>>::empty());
            i = n;
        } else {
            i = e + 1;
        }
        assert(out@ + filter_lines(lines_from(cs@, i as int), fence).0 =~= prev_out
            + filter_lines(lines_from(cs@, i0 as int), prev_fence).0);
    }
    fence
}

fn last_newline(v: &Vec<char>) -> (r: Option<usize>)
    ensures
        match r {
            Some(k) => k < v@.len() && v@[k as int] == '\n' && forall|j: int|
                k < j < v@.len() ==> v@[j] != '\n',
            None => forall|j: int| 0 <= j < v@.len() ==> v@[j] != '\n',
        },
{
    let mut e = v.len();
    while e > 0
        invariant
            e <= v@.len(),
            forall|j: int| e <= j < v@.len() ==> v@[j] != '\n',
        decreases e,
    {
        if v[e - 1] == '\n' {
            return Some(e - 1);
        }
        e = e - 1;
    }
    None
}

/// Streaming filter. Complete lines are filtered as they arrive; the last,
/// unfinished line of the text fed so far waits for its end or for `finish`.
pub struct StreamingMarkdownFilter {
    output: String,
    in_fence: bool,
    pending: Vec<char>,
    fed: Ghost<Seq<char>>,
}

impl View for StreamingMarkdownFilter {
    /// The text fed so far.
    type V = Seq<char>;

    closed spec fn view(&self) -> Seq<char> {
        self.fed@
    }
}

impl StreamingMarkdownFilter {
    /// The fed text is the finished part (empty or ending with a line break,
    /// whose output and fence state are held) followed by the pending part.
    #[verifier::type_invariant]
    spec fn well_formed(&self) -> bool {
        let d = self.fed@.len() - self.pending@.len();
        let done = self.fed@.subrange(0, d);
        &&& d >= 0
        &&& self.fed@.subrange(d, self.fed@.len() as int) == self.pending@
        &&& (d == 0 || self.fed@[d - 1] == '\n')
        &&& self.output@ == filtered(done, false).0
        &&& self.in_fence == filtered(done, false).1
    }

    /// Create a new filter: nothing fed yet.
    pub fn new() -> (r: Self)
        ensures
            r@ == Seq::<char>::empty(),
    {
        proof {
            let e = Seq::<char>::empty();
            assert(lines_from(e, 0) =~= Seq::<Seq<char>>::empty());
            assert(e.subrange(0, 0) =~= e);
        }
        StreamingMarkdownFilter {
            output: String::new(),
            in_fence: false,
            pending: Vec::new(),
            fed: Ghost(Seq::<char>::empty()),
        }
    }

    /// Feed a chunk of text. Chunk boundaries may fall anywhere, also inside
    /// a line.
    pub fn feed(&mut self, chunk: &str)
        ensures
            final(self)@ == old(self)@ + chunk@,
    {
        proof {
            use_type_invariant(&*self);
        }
        let mut state = Self::new();
        std::mem::swap(&mut state, self);
        proof {
            use_type_invariant(&state);
        }
        let StreamingMarkdownFilter { mut output, in_fence, pending, fed } = state;
        let ghost fed0 = fed@;
        let ghost d0 = fed0.len() - pending@.len();
        let ghost done0 = fed0.subrange(0, d0);
        let cs = chars_of(chunk);
        let mut all: Vec<char> = pending;
        let ghost pending0 = all@;
        extend_range(&mut all, &cs, 0, cs.len());
        assert(cs@.subrange(0, cs@.len() as int) =~= cs@);
        assert(fed0 =~= done0 + pending0);
        let ghost fed1 = fed0 + chunk@;
        assert(fed1 =~= done0 + all@);
        match last_newline(&all) {
            None => {
                assert(fed1.subrange(0, d0) =~= done0);
                assert(fed1.subrange(d0, fed1.len() as int) =~= all@);
                *self = StreamingMarkdownFilter { output, in_fence, pending: all, fed: Ghost(fed1) };
            },
            Some(k) => {
                assert(k < all.len());
                let complete = copy_range(&all, 0, k + 1);
                let rest = copy_range(&all, k + 1, all.len());
                proof {
                    lemma_line_aligned_chunks(done0, complete@, false);
                }
                let fence = render(&complete, in_fence, &mut output);
                let ghost d1 = d0 + k + 1;
                assert(fed1.subrange(0, d1) =~= done0 + complete@);
                assert(fed1.subrange(d1, fed1.len() as int) =~= rest@);
                assert(fed1[d1 - 1] == all@[k as int]);
                *self = StreamingMarkdownFilter {
                    output,
                    in_fence: fence,
                    pending: rest,
                    fed: Ghost(fed1),
                };
            },
        }
    }

    /// Finish and obtain the filtered text, the unfinished last line included.
    pub fn finish(self) -> (r: String)
        ensures
            r@ == filtered(self@, false).0,
    {
        proof {
            use_type_invariant(&self);
        }
        let ghost fed = self.fed@;
        let ghost d = fed.len() - self.pending@.len();
        let ghost done = fed.subrange(0, d);
        proof {
            lemma_line_aligned_chunks(done, self.pending@, false);
            assert(fed =~= done + self.pending@);
        }
        let StreamingMarkdownFilter { mut output, in_fence, pending, fed: _ } = self;
        let _ = render(&pending, in_fence, &mut output);
        output
    }

    /// Filter a whole text at once.
    pub fn filter(text: &str) -> (r: String)
        ensures
            r@ == filtered(text@, false).0,
    {
        let mut f = Self::new();
        f.feed(text);
        assert(Seq::<char>::empty() + text@ =~= text@);
        f.finish()
    }
}

} // verus!
