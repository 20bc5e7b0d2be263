use vstd::prelude::*;
use vstd::string::StringExecFns;

use crate::error::CliError;
use crate::error::ParseIntErrorKind;
use crate::flag::Flags;
use crate::matcher::line_matches;
use crate::matcher::line_views;
use crate::matcher::match_segments;
use crate::matcher::rewritten;
use crate::matcher::Matcher;
use crate::utils::color_wrapped;
use crate::utils::dec_str;
use crate::utils::parse_usize;
use crate::utils::usize_to_string;
use crate::utils::Colors;

verus! {

/// The sequence of `usize` indices as mathematical integers.
pub open spec fn ints_of(indices: Seq<usize>) -> Seq<int> {
    indices.map_values(|u: usize| u as int)
}

/// The indices of the lines where the pattern matches, in increasing order.
pub open spec fn matched_indices(p: Seq<char>, ci: bool, lines: Seq<Seq<char>>) -> Seq<int>
    decreases lines.len(),
{
    if lines.len() == 0 {
        Seq::empty()
    } else {
        let pre = matched_indices(p, ci, lines.drop_last());
        if line_matches(p, ci, lines.last()) {
            pre.push(lines.len() - 1)
        } else {
            pre
        }
    }
}

/// The per-line sum of the classification: one for every line the pattern
/// matches, zero for every line it does not.
pub open spec fn match_count(p: Seq<char>, ci: bool, lines: Seq<Seq<char>>) -> nat
    decreases lines.len(),
{
    if lines.len() == 0 {
        0
    } else {
        match_count(p, ci, lines.drop_last()) + if line_matches(p, ci, lines.last()) {
            1nat
        } else {
            0nat
        }
    }
}

/// The count law: the number of matched indices is the per-line sum of the
/// classification, so the match counter reports exactly the number of line
/// indices whose classification is non-empty.
pub proof fn lemma_count_is_per_line_sum(p: Seq<char>, ci: bool, lines: Seq<Seq<char>>)
    ensures
        matched_indices(p, ci, lines).len() == match_count(p, ci, lines),
    decreases lines.len(),
{
    if lines.len() > 0 {
        lemma_count_is_per_line_sum(p, ci, lines.drop_last());
    }
}

/// The indices of the lines where the pattern does not match, in increasing
/// order.
pub open spec fn unmatched_indices(p: Seq<char>, ci: bool, lines: Seq<Seq<char>>) -> Seq<int>
    decreases lines.len(),
{
    if lines.len() == 0 {
        Seq::empty()
    } else {
        let pre = unmatched_indices(p, ci, lines.drop_last());
        if !line_matches(p, ci, lines.last()) {
            pre.push(lines.len() - 1)
        } else {
            pre
        }
    }
}

/// Anchor-line highlighting, one substitution step per matched substring in
/// discovery order: each step replaces every occurrence the pattern finds in
/// the working copy with the red-wrapped form of that step's substring.
/// Substitution is by content, not by original offset, so equal-text
/// occurrences are highlighted together the first time their text comes up.
pub open spec fn highlight_steps(
    p: Seq<char>,
    ci: bool,
    text: Seq<char>,
    segs: Seq<Seq<char>>,
) -> Seq<char>
    decreases segs.len(),
{
    if segs.len() == 0 {
        text
    } else {
        highlight_steps(
            p,
            ci,
            rewritten(p, ci, text, color_wrapped(Colors::Red, segs[0])),
            segs.drop_first(),
        )
    }
}

/// A matching line with every matched substring highlighted in red.
pub open spec fn highlighted_line(p: Seq<char>, ci: bool, text: Seq<char>) -> Seq<char> {
    highlight_steps(p, ci, text, match_segments(p, ci, text))
}

/// An output row for the 0-based line `idx` with display text `text`: with
/// line numbering on, the green 1-based number, a colon and a space precede
/// the text.
pub open spec fn numbered_row(line_number: bool, idx: int, text: Seq<char>) -> Seq<char> {
    if line_number {
        color_wrapped(Colors::Green, dec_str((idx + 1) as nat)) + seq![':', ' '] + text
    } else {
        text
    }
}

/// The output row of plain mode for a matching line: highlighted when
/// colorize is on, numbered when line numbering is on.
pub open spec fn plain_row(p: Seq<char>, ci: bool, flags: Flags, idx: int, text: Seq<char>) -> Seq<
    char,
> {
    numbered_row(
        flags.line_number,
        idx,
        if flags.colorize {
            highlighted_line(p, ci, text)
        } else {
            text
        },
    )
}

/// Plain-mode output: one row per matching line, in stream order.
pub open spec fn plain_output(p: Seq<char>, ci: bool, flags: Flags, lines: Seq<Seq<char>>) -> Seq<
    Seq<char>,
>
    decreases lines.len(),
{
    if lines.len() == 0 {
        Seq::empty()
    } else {
        let pre = plain_output(p, ci, flags, lines.drop_last());
        if line_matches(p, ci, lines.last()) {
            pre.push(plain_row(p, ci, flags, lines.len() - 1, lines.last()))
        } else {
            pre
        }
    }
}

/// Invert-mode output: one row per non-matching line, in stream order, never
/// highlighted (there is no match span to highlight).
pub open spec fn invert_output(p: Seq<char>, ci: bool, flags: Flags, lines: Seq<Seq<char>>) -> Seq<
    Seq<char>,
>
    decreases lines.len(),
{
    if lines.len() == 0 {
        Seq::empty()
    } else {
        let pre = invert_output(p, ci, flags, lines.drop_last());
        if !line_matches(p, ci, lines.last()) {
            pre.push(numbered_row(flags.line_number, lines.len() - 1, lines.last()))
        } else {
            pre
        }
    }
}

/// Which neighbors of an anchor a context window takes: the lines after it,
/// the lines before it, or both.
#[derive(Clone, Copy, Debug, PartialEq, Eq, Structural)]
pub enum ContextMode {
    After,
    Before,
    Both,
}

/// The first line index of the window around `anchor`, saturating at the
/// start of the stream.
pub open spec fn window_lo(mode: ContextMode, k: nat, anchor: int) -> int {
    match mode {
        ContextMode::After => anchor,
        _ => if anchor - k >= 0 {
            anchor - k
        } else {
            0
        },
    }
}

/// The last line index of the window around `anchor`, clamped to the end of
/// a stream of `n` lines: indices past the stream end are silently omitted.
pub open spec fn window_hi(mode: ContextMode, k: nat, anchor: int, n: int) -> int {
    match mode {
        ContextMode::Before => anchor,
        _ => if anchor + k <= n - 1 {
            anchor + k
        } else {
            n - 1
        },
    }
}

/// The rows of one group: every stream line of the anchor's window in
/// order; the anchor line itself is highlighted when colorize is on.
pub open spec fn group_rows(
    p: Seq<char>,
    ci: bool,
    flags: Flags,
    lines: Seq<Seq<char>>,
    mode: ContextMode,
    k: nat,
    anchor: int,
) -> Seq<Seq<char>> {
    let lo = window_lo(mode, k, anchor);
    let hi = window_hi(mode, k, anchor, lines.len() as int);
    Seq::new(
        (hi + 1 - lo) as nat,
        |j: int|
            numbered_row(
                flags.line_number,
                lo + j,
                if lo + j == anchor && flags.colorize {
                    highlighted_line(p, ci, lines[lo + j])
                } else {
                    lines[lo + j]
                },
            ),
    )
}

/// The separator row: the group separator wrapped in blue.
pub open spec fn separator_row(sep: Seq<char>) -> Seq<char> {
    color_wrapped(Colors::Blue, sep)
}

/// The context-mode output of the first `j` groups: each anchor's group in
/// order, with a separator row before every group except the first.
pub open spec fn context_output_upto(
    p: Seq<char>,
    ci: bool,
    flags: Flags,
    lines: Seq<Seq<char>>,
    mode: ContextMode,
    k: nat,
    sep: Seq<char>,
    anchors: Seq<int>,
    j: int,
) -> Seq<Seq<char>>
    decreases j,
{
    if j <= 0 {
        Seq::empty()
    } else if j == 1 {
        group_rows(p, ci, flags, lines, mode, k, anchors[0])
    } else {
        context_output_upto(p, ci, flags, lines, mode, k, sep, anchors, j - 1) + seq![
            separator_row(sep),
        ] + group_rows(p, ci, flags, lines, mode, k, anchors[j - 1])
    }
}

/// The whole context-mode output: one group per matching line, in stream
/// order. Windows are computed afresh per anchor and never merged, so
/// adjacent or overlapping windows repeat their shared lines.
pub open spec fn context_output(
    p: Seq<char>,
    ci: bool,
    flags: Flags,
    lines: Seq<Seq<char>>,
    mode: ContextMode,
    k: nat,
    sep: Seq<char>,
) -> Seq<Seq<char>> {
    let anchors = matched_indices(p, ci, lines);
    context_output_upto(p, ci, flags, lines, mode, k, sep, anchors, anchors.len() as int)
}

/// Every matched index lies within the stream.
pub proof fn lemma_matched_indices_bounds(p: Seq<char>, ci: bool, lines: Seq<Seq<char>>)
    ensures
        forall|j: int|
            0 <= j < matched_indices(p, ci, lines).len() ==> 0 <= #[trigger] matched_indices(
                p,
                ci,
                lines,
            )[j] < lines.len(),
    decreases lines.len(),
{
    if lines.len() > 0 {
        lemma_matched_indices_bounds(p, ci, lines.drop_last());
        let pre = matched_indices(p, ci, lines.drop_last());
        let cur = matched_indices(p, ci, lines);
        assert forall|j: int| 0 <= j < cur.len() implies 0 <= #[trigger] cur[j] < lines.len() by {
            if line_matches(p, ci, lines.last()) {
                assert(cur == pre.push(lines.len() - 1));
                if j < pre.len() {
                    assert(cur[j] == pre[j]);
                } else {
                    assert(cur[j] == lines.len() - 1);
                }
            } else {
                assert(cur == pre);
            }
        }
    }
}

/// The line with every matched substring highlighted, by content-based
/// substitution in discovery order.
pub fn highlight_matches(m: &Matcher, line: &str) -> (r: String)
    ensures
        r@ == highlighted_line(m.pattern(), m.is_ci(), line@),
{
    let ghost p = m.pattern();
    let ghost ci = m.is_ci();
    let segs = m.match_texts(line);
    let ghost sv = line_views(segs@);
    let mut cur = String::from_str(line);
    proof {
        assert(sv.skip(0) =~= sv);
    }
    let n = segs.len();
    let mut idx: usize = 0;
    while idx < n
        invariant
            idx <= n,
            n == segs@.len(),
            p == m.pattern(),
            ci == m.is_ci(),
            sv == line_views(segs@),
            sv == match_segments(p, ci, line@),
            highlight_steps(p, ci, cur@, sv.skip(idx as int)) == highlighted_line(p, ci, line@),
        decreases n - idx,
    {
        let rep = crate::utils::colorize_pattern(segs[idx].as_str());
        let nxt = m.replace_all(cur.as_str(), rep.as_str());
        proof {
            assert(sv.skip(idx as int)[0] == sv[idx as int]);
            assert(sv.skip(idx as int).drop_first() =~= sv.skip(idx + 1));
        }
        cur = nxt;
        idx = idx + 1;
    }
    proof {
        assert(sv.skip(idx as int) =~= Seq::<Seq<char>>::empty());
    }
    cur
}

/// Calculates the number of matching lines.
pub fn count_matches(m: &Matcher, lines: &Vec<String>) -> (r: u32)
    requires
        lines@.len() <= u32::MAX,
    ensures
        r as nat == matched_indices(m.pattern(), m.is_ci(), line_views(lines@)).len(),
        r as nat == match_count(m.pattern(), m.is_ci(), line_views(lines@)),
{
    let ghost p = m.pattern();
    let ghost ci = m.is_ci();
    let ghost l = line_views(lines@);
    let mut total: u32 = 0;
    let n = lines.len();
    let mut i: usize = 0;
    while i < n
        invariant
            i <= n,
            n == lines@.len(),
            lines@.len() <= u32::MAX,
            p == m.pattern(),
            ci == m.is_ci(),
            l == line_views(lines@),
            total <= i,
            total as nat == matched_indices(p, ci, l.take(i as int)).len(),
        decreases n - i,
    {
        proof {
            assert(l.take(i + 1).drop_last() =~= l.take(i as int));
            assert(l.take(i + 1).last() == l[i as int]);
            assert(l[i as int] == lines@[i as int]@);
        }
        if m.is_match(lines[i].as_str()) {
            total = total + 1;
        }
        i = i + 1;
    }
    proof {
        assert(l.take(n as int) =~= l);
        lemma_count_is_per_line_sum(p, ci, l);
    }
    total
}

/// Returns the 0-based indices of the matching lines, in increasing order.
fn collect_matched_indices(m: &Matcher, lines: &Vec<String>) -> (r: Vec<usize>)
    ensures
        ints_of(r@) == matched_indices(
            m.pattern(),
            m.is_ci(),
            line_views(lines@),
        ),
{
    let ghost p = m.pattern();
    let ghost ci = m.is_ci();
    let ghost l = line_views(lines@);
    let mut found: Vec<usize> = Vec::new();
    let n = lines.len();
    let mut i: usize = 0;
    while i < n
        invariant
            i <= n,
            n == lines@.len(),
            p == m.pattern(),
            ci == m.is_ci(),
            l == line_views(lines@),
            ints_of(found@) == matched_indices(p, ci, l.take(i as int)),
        decreases n - i,
    {
        proof {
            assert(l.take(i + 1).drop_last() =~= l.take(i as int));
            assert(l.take(i + 1).last() == l[i as int]);
            assert(l[i as int] == lines@[i as int]@);
        }
        if m.is_match(lines[i].as_str()) {
            found.push(i);
            proof {
                assert(ints_of(found@) =~= matched_indices(
                    p,
                    ci,
                    l.take(i as int),
                ).push(i as int));
            }
        }
        i = i + 1;
    }
    proof {
        assert(l.take(n as int) =~= l);
    }
    found
}

/// Renders one output row for the line at `idx`, numbering it when asked.
fn render_row(line_number: bool, idx: usize, text: String) -> (r: String)
    requires
        idx < usize::MAX,
    ensures
        r@ == numbered_row(line_number, idx as int, text@),
{
    if line_number {
        let num = usize_to_string(idx + 1);
        let mut row = Colors::colorize_pattern(Colors::Green, num.as_str());
        row.append(": ");
        row.append(text.as_str());
        proof {
            reveal_strlit(": ");
            assert(": "@ =~= seq![':', ' ']);
            assert(row@ =~= numbered_row(true, idx as int, text@));
        }
        row
    } else {
        text
    }
}

/// Returns the plain-mode output rows: the lines containing matches, each
/// optionally highlighted and optionally prefixed with its 1-based line
/// number.
pub fn print_matches(m: &Matcher, lines: &Vec<String>, flags: &Flags) -> (r: Vec<String>)
    ensures
        line_views(r@) == plain_output(m.pattern(), m.is_ci(), *flags, line_views(lines@)),
{
    let ghost p = m.pattern();
    let ghost ci = m.is_ci();
    let ghost l = line_views(lines@);
    let mut out: Vec<String> = Vec::new();
    let n = lines.len();
    let mut i: usize = 0;
    while i < n
        invariant
            i <= n,
            n == lines@.len(),
            p == m.pattern(),
            ci == m.is_ci(),
            l == line_views(lines@),
            line_views(out@) == plain_output(p, ci, *flags, l.take(i as int)),
        decreases n - i,
    {
        proof {
            assert(l.take(i + 1).drop_last() =~= l.take(i as int));
            assert(l.take(i + 1).last() == l[i as int]);
            assert(l[i as int] == lines@[i as int]@);
        }
        if m.is_match(lines[i].as_str()) {
            let text = if flags.colorize {
                highlight_matches(m, lines[i].as_str())
            } else {
                lines[i].clone()
            };
            let row = render_row(flags.line_number, i, text);
            out.push(row);
            proof {
                assert(line_views(out@) =~= plain_output(p, ci, *flags, l.take(i as int)).push(
                    plain_row(p, ci, *flags, i as int, l[i as int]),
                ));
            }
        }
        i = i + 1;
    }
    proof {
        assert(l.take(n as int) =~= l);
    }
    out
}

/// Returns the invert-mode output rows: the lines that do not contain the
/// pattern, each optionally prefixed with its 1-based line number.
pub fn print_invert_matches(m: &Matcher, lines: &Vec<String>, flags: &Flags) -> (r: Vec<String>)
    ensures
        line_views(r@) == invert_output(m.pattern(), m.is_ci(), *flags, line_views(lines@)),
{
    let ghost p = m.pattern();
    let ghost ci = m.is_ci();
    let ghost l = line_views(lines@);
    let mut out: Vec<String> = Vec::new();
    let n = lines.len();
    let mut i: usize = 0;
    while i < n
        invariant
            i <= n,
            n == lines@.len(),
            p == m.pattern(),
            ci == m.is_ci(),
            l == line_views(lines@),
            line_views(out@) == invert_output(p, ci, *flags, l.take(i as int)),
        decreases n - i,
    {
        proof {
            assert(l.take(i + 1).drop_last() =~= l.take(i as int));
            assert(l.take(i + 1).last() == l[i as int]);
            assert(l[i as int] == lines@[i as int]@);
        }
        if !m.is_match(lines[i].as_str()) {
            let row = render_row(flags.line_number, i, lines[i].clone());
            out.push(row);
            proof {
                assert(line_views(out@) =~= invert_output(p, ci, *flags, l.take(i as int)).push(
                    numbered_row(flags.line_number, i as int, l[i as int]),
                ));
            }
        }
        i = i + 1;
    }
    proof {
        assert(l.take(n as int) =~= l);
    }
    out
}

/// Assembles the context-mode output: one group of window rows per matching
/// line, with a blue separator row before every group except the first.
fn assemble_context(
    m: &Matcher,
    lines: &Vec<String>,
    flags: &Flags,
    context_number: usize,
    group_separator: &str,
    mode: ContextMode,
) -> (r: Vec<String>)
    ensures
        line_views(r@) == context_output(
            m.pattern(),
            m.is_ci(),
            *flags,
            line_views(lines@),
            mode,
            context_number as nat,
            group_separator@,
        ),
{
    let ghost p = m.pattern();
    let ghost ci = m.is_ci();
    let ghost l = line_views(lines@);
    let k = context_number;
    let anchors = collect_matched_indices(m, lines);
    let ghost a = ints_of(anchors@);
    proof {
        lemma_matched_indices_bounds(p, ci, l);
    }
    let mut out: Vec<String> = Vec::new();
    let g = anchors.len();
    let mut j: usize = 0;
    while j < g
        invariant
            j <= g,
            g == anchors@.len(),
            p == m.pattern(),
            ci == m.is_ci(),
            l == line_views(lines@),
            k == context_number,
            a == ints_of(anchors@),
            a == matched_indices(p, ci, l),
            forall|t: int| 0 <= t < a.len() ==> 0 <= #[trigger] a[t] < lines@.len(),
            line_views(out@) == context_output_upto(
                p,
                ci,
                *flags,
                l,
                mode,
                k as nat,
                group_separator@,
                a,
                j as int,
            ),
        decreases g - j,
    {
        let ghost upto_here = context_output_upto(
            p,
            ci,
            *flags,
            l,
            mode,
            k as nat,
            group_separator@,
            a,
            j as int,
        );
        if j > 0 {
            let sep_row = Colors::colorize_pattern(Colors::Blue, group_separator);
            out.push(sep_row);
        }
        let ghost base = line_views(out@);
        proof {
            if j > 0 {
                assert(base =~= upto_here + seq![separator_row(group_separator@)]);
            } else {
                assert(base =~= upto_here);
            }
        }
        let anchor = anchors[j];
        proof {
            assert(a[j as int] == anchors@[j as int] as int);
            assert(0 <= a[j as int] < lines@.len());
        }
        let lo: usize = match mode {
            ContextMode::After => anchor,
            _ => if anchor >= k {
                anchor - k
            } else {
                0
            },
        };
        let last = lines.len() - 1;
        let hi: usize = match mode {
            ContextMode::Before => anchor,
            _ => if k <= last - anchor {
                anchor + k
            } else {
                last
            },
        };
        proof {
            assert(lo as int == window_lo(mode, k as nat, a[j as int]));
            assert(hi as int == window_hi(mode, k as nat, a[j as int], l.len() as int));
            assert(lo <= anchor <= hi);
        }
        let ghost grows = group_rows(p, ci, *flags, l, mode, k as nat, a[j as int]);
        proof {
            assert(grows.len() == hi + 1 - lo);
            assert(grows.take(0) =~= Seq::<Seq<char>>::empty());
            assert(base + grows.take(0) =~= base);
            assert(hi <= last);
        }
        let mut i: usize = lo;
        while i <= hi
            invariant
                lo <= i <= hi + 1,
                hi < lines@.len(),
                hi < usize::MAX,
                (j as int) < a.len(),
                p == m.pattern(),
                ci == m.is_ci(),
                l == line_views(lines@),
                anchor as int == a[j as int],
                lo as int == window_lo(mode, k as nat, a[j as int]),
                hi as int == window_hi(mode, k as nat, a[j as int], l.len() as int),
                grows == group_rows(p, ci, *flags, l, mode, k as nat, a[j as int]),
                grows.len() == hi + 1 - lo,
                line_views(out@) == base + grows.take(i - lo),
            decreases hi + 1 - i,
        {
            let text = if i == anchor && flags.colorize {
                highlight_matches(m, lines[i].as_str())
            } else {
                lines[i].clone()
            };
            proof {
                assert(l[i as int] == lines@[i as int]@);
            }
            let row = render_row(flags.line_number, i, text);
            proof {
                assert(grows[i - lo] == numbered_row(
                    flags.line_number,
                    i as int,
                    if i as int == a[j as int] && flags.colorize {
                        highlighted_line(p, ci, l[i as int])
                    } else {
                        l[i as int]
                    },
                ));
                assert(grows[i - lo] == row@);
            }
            let ghost out_before = out@;
            out.push(row);
            proof {
                assert(grows.take(i + 1 - lo) =~= grows.take(i - lo).push(grows[i - lo]));
                assert(line_views(out@) =~= line_views(out_before).push(row@));
                assert((base + grows.take(i - lo)).push(grows[i - lo]) =~= base + grows.take(
                    i - lo,
                ).push(grows[i - lo]));
                assert(line_views(out@) == base + grows.take(i + 1 - lo));
            }
            i = i + 1;
        }
        proof {
            assert(grows.take(i - lo) =~= grows);
            assert(line_views(out@) =~= context_output_upto(
                p,
                ci,
                *flags,
                l,
                mode,
                k as nat,
                group_separator@,
                a,
                j + 1,
            ));
        }
        j = j + 1;
    }
    out
}

/// Returns the trailing-context output rows: for every matching line, the
/// window from the match through the `context_number` following lines, as
/// far as the stream reaches. Groups appear in match order, separated by
/// the blue-wrapped `group_separator`, and are never merged.
pub fn print_with_after_context(
    m: &Matcher,
    lines: &Vec<String>,
    flags: &Flags,
    context_number: usize,
    group_separator: &str,
) -> (r: Vec<String>)
    ensures
        line_views(r@) == context_output(
            m.pattern(),
            m.is_ci(),
            *flags,
            line_views(lines@),
            ContextMode::After,
            context_number as nat,
            group_separator@,
        ),
{
    assemble_context(m, lines, flags, context_number, group_separator, ContextMode::After)
}

/// Returns the leading-context output rows: for every matching line, the
/// window from `context_number` lines before the match (saturating at the
/// first line) through the match. Groups appear in match order, separated
/// by the blue-wrapped `group_separator`, and are never merged.
pub fn print_with_before_context(
    m: &Matcher,
    lines: &Vec<String>,
    flags: &Flags,
    context_number: usize,
    group_separator: &str,
) -> (r: Vec<String>)
    ensures
        line_views(r@) == context_output(
            m.pattern(),
            m.is_ci(),
            *flags,
            line_views(lines@),
            ContextMode::Before,
            context_number as nat,
            group_separator@,
        ),
{
    assemble_context(m, lines, flags, context_number, group_separator, ContextMode::Before)
}

/// Returns the symmetric-context output rows: for every matching line, the
/// window from `context_number` lines before the match through
/// `context_number` lines after it, clipped to the stream. Groups appear in
/// match order, separated by the blue-wrapped `group_separator`, and are
/// never merged.
pub fn print_with_context(
    m: &Matcher,
    lines: &Vec<String>,
    flags: &Flags,
    context_number: usize,
    group_separator: &str,
) -> (r: Vec<String>)
    ensures
        line_views(r@) == context_output(
            m.pattern(),
            m.is_ci(),
            *flags,
            line_views(lines@),
            ContextMode::Both,
            context_number as nat,
            group_separator@,
        ),
{
    assemble_context(m, lines, flags, context_number, group_separator, ContextMode::Both)
}

/// The view of an optional borrowed string.
pub open spec fn opt_view(o: Option<&str>) -> Option<Seq<char>> {
    match o {
        Some(s) => Some(s@),
        None => None,
    }
}

/// What a context-number argument parses to: a missing argument counts as
/// an empty one.
pub open spec fn context_arg_value(arg: Option<Seq<char>>) -> Result<nat, ParseIntErrorKind> {
    match arg {
        Some(s) => parse_usize(s),
        None => Err(ParseIntErrorKind::Empty),
    }
}

/// Parses an optional context-number argument.
fn parse_context_arg(arg: Option<&str>) -> (r: Result<usize, CliError>)
    ensures
        r matches Ok(n) ==> context_arg_value(opt_view(arg)) == Ok::<nat, ParseIntErrorKind>(
            n as nat,
        ),
        r matches Err(e) ==> e matches CliError::Parse(k) && context_arg_value(opt_view(arg))
            == Err::<nat, ParseIntErrorKind>(k),
{
    match arg {
        Some(s) => crate::utils::parse_context_number(s),
        None => Err(CliError::Parse(ParseIntErrorKind::Empty)),
    }
}

/// Checks the flags and runs the appropriate mode, in the precedence order
/// count, invert, trailing context, leading context, symmetric context,
/// plain listing. A context mode parses its numeric argument first and
/// reports the parse failure when the argument is missing or malformed.
pub fn choose_process(
    m: &Matcher,
    lines: &Vec<String>,
    flags: &Flags,
    after_context_number: Option<&str>,
    before_context_number: Option<&str>,
    context: Option<&str>,
    group_separator: &str,
) -> (r: Result<Vec<String>, CliError>)
    requires
        flags.count ==> lines@.len() <= u32::MAX,
    ensures
        flags.count ==> (r matches Ok(out) && line_views(out@) == seq![
            dec_str(matched_indices(m.pattern(), m.is_ci(), line_views(lines@)).len()),
        ]),
        !flags.count && flags.invert_match ==> (r matches Ok(out) && line_views(out@)
            == invert_output(m.pattern(), m.is_ci(), *flags, line_views(lines@))),
        !flags.count && !flags.invert_match && flags.after_context ==> (match context_arg_value(
            opt_view(after_context_number),
        ) {
            Ok(k) => r matches Ok(out) && line_views(out@) == context_output(
                m.pattern(),
                m.is_ci(),
                *flags,
                line_views(lines@),
                ContextMode::After,
                k,
                group_separator@,
            ),
            Err(kind) => r matches Err(e) && e == CliError::Parse(kind),
        }),
        !flags.count && !flags.invert_match && !flags.after_context && flags.before_context ==> (
        match context_arg_value(opt_view(before_context_number)) {
            Ok(k) => r matches Ok(out) && line_views(out@) == context_output(
                m.pattern(),
                m.is_ci(),
                *flags,
                line_views(lines@),
                ContextMode::Before,
                k,
                group_separator@,
            ),
            Err(kind) => r matches Err(e) && e == CliError::Parse(kind),
        }),
        !flags.count && !flags.invert_match && !flags.after_context && !flags.before_context
            && flags.context ==> (match context_arg_value(opt_view(context)) {
            Ok(k) => r matches Ok(out) && line_views(out@) == context_output(
                m.pattern(),
                m.is_ci(),
                *flags,
                line_views(lines@),
                ContextMode::Both,
                k,
                group_separator@,
            ),
            Err(kind) => r matches Err(e) && e == CliError::Parse(kind),
        }),
        !flags.count && !flags.invert_match && !flags.after_context && !flags.before_context
            && !flags.context ==> (r matches Ok(out) && line_views(out@) == plain_output(
            m.pattern(),
            m.is_ci(),
            *flags,
            line_views(lines@),
        )),
{
    if flags.count {
        let total = count_matches(m, lines);
        let row = usize_to_string(total as usize);
        let mut out: Vec<String> = Vec::new();
        out.push(row);
        proof {
            assert(line_views(out@) =~= seq![
                dec_str(matched_indices(m.pattern(), m.is_ci(), line_views(lines@)).len()),
            ]);
        }
        Ok(out)
    } else if flags.invert_match {
        Ok(print_invert_matches(m, lines, flags))
    } else if flags.after_context {
        match parse_context_arg(after_context_number) {
            Ok(k) => Ok(print_with_after_context(m, lines, flags, k, group_separator)),
            Err(e) => Err(e),
        }
    } else if flags.before_context {
        match parse_context_arg(before_context_number) {
            Ok(k) => Ok(print_with_before_context(m, lines, flags, k, group_separator)),
            Err(e) => Err(e),
        }
    } else if flags.context {
        match parse_context_arg(context) {
            Ok(k) => Ok(print_with_context(m, lines, flags, k, group_separator)),
            Err(e) => Err(e),
        }
    } else {
        Ok(print_matches(m, lines, flags))
    }
}

/// A line index stands in the matched sequence exactly when the pattern
/// matches its line.
pub proof fn lemma_matched_indices_membership(p: Seq<char>, ci: bool, lines: Seq<Seq<char>>)
    ensures
        forall|i: int|
            #[trigger] matched_indices(p, ci, lines).contains(i) <==> (0 <= i < lines.len()
                && line_matches(p, ci, lines[i])),
    decreases lines.len(),
{
    if lines.len() > 0 {
        lemma_matched_indices_membership(p, ci, lines.drop_last());
        let pre = matched_indices(p, ci, lines.drop_last());
        let cur = matched_indices(p, ci, lines);
        let n = lines.len() as int;
        assert forall|i: int| #[trigger] cur.contains(i) implies (0 <= i < n && line_matches(
            p,
            ci,
            lines[i],
        )) by {
            let idx = choose|idx: int| 0 <= idx < cur.len() && cur[idx] == i;
            if line_matches(p, ci, lines.last()) {
                assert(cur == pre.push(n - 1));
                if idx < pre.len() {
                    assert(pre[idx] == i);
                    assert(pre.contains(i));
                    assert(lines.drop_last()[i] == lines[i]);
                } else {
                    assert(i == n - 1);
                    assert(lines.last() == lines[n - 1]);
                }
            } else {
                assert(cur == pre);
                assert(pre.contains(i));
                assert(lines.drop_last()[i] == lines[i]);
            }
        }
        assert forall|i: int| (0 <= i < n && line_matches(p, ci, lines[i]))
            implies #[trigger] cur.contains(i) by {
            if i < n - 1 {
                assert(lines.drop_last()[i] == lines[i]);
                assert(pre.contains(i));
                let idx = choose|idx: int| 0 <= idx < pre.len() && pre[idx] == i;
                if line_matches(p, ci, lines.last()) {
                    assert(cur == pre.push(n - 1));
                    assert(cur[idx] == i);
                } else {
                    assert(cur[idx] == i);
                }
            } else {
                assert(lines.last() == lines[n - 1]);
                assert(cur == pre.push(n - 1));
                assert(cur[pre.len() as int] == i);
            }
        }
    }
}

/// A line index stands in the unmatched sequence exactly when the pattern
/// does not match its line.
pub proof fn lemma_unmatched_indices_membership(p: Seq<char>, ci: bool, lines: Seq<Seq<char>>)
    ensures
        forall|i: int|
            #[trigger] unmatched_indices(p, ci, lines).contains(i) <==> (0 <= i < lines.len()
                && !line_matches(p, ci, lines[i])),
    decreases lines.len(),
{
    if lines.len() > 0 {
        lemma_unmatched_indices_membership(p, ci, lines.drop_last());
        let pre = unmatched_indices(p, ci, lines.drop_last());
        let cur = unmatched_indices(p, ci, lines);
        let n = lines.len() as int;
        assert forall|i: int| #[trigger] cur.contains(i) implies (0 <= i < n && !line_matches(
            p,
            ci,
            lines[i],
        )) by {
            let idx = choose|idx: int| 0 <= idx < cur.len() && cur[idx] == i;
            if !line_matches(p, ci, lines.last()) {
                assert(cur == pre.push(n - 1));
                if idx < pre.len() {
                    assert(pre[idx] == i);
                    assert(pre.contains(i));
                    assert(lines.drop_last()[i] == lines[i]);
                } else {
                    assert(i == n - 1);
                    assert(lines.last() == lines[n - 1]);
                }
            } else {
                assert(cur == pre);
                assert(pre.contains(i));
                assert(lines.drop_last()[i] == lines[i]);
            }
        }
        assert forall|i: int| (0 <= i < n && !line_matches(p, ci, lines[i]))
            implies #[trigger] cur.contains(i) by {
            if i < n - 1 {
                assert(lines.drop_last()[i] == lines[i]);
                assert(pre.contains(i));
                let idx = choose|idx: int| 0 <= idx < pre.len() && pre[idx] == i;
                if !line_matches(p, ci, lines.last()) {
                    assert(cur == pre.push(n - 1));
                    assert(cur[idx] == i);
                } else {
                    assert(cur[idx] == i);
                }
            } else {
                assert(lines.last() == lines[n - 1]);
                assert(cur == pre.push(n - 1));
                assert(cur[pre.len() as int] == i);
            }
        }
    }
}

/// The matched indices are strictly increasing, so no index is counted
/// twice: together with the membership law, the sequence's length is the
/// number of line indices whose classification is non-empty.
pub proof fn lemma_matched_indices_increasing(p: Seq<char>, ci: bool, lines: Seq<Seq<char>>)
    ensures
        forall|x: int, y: int|
            0 <= x < y < matched_indices(p, ci, lines).len() ==> #[trigger] matched_indices(
                p,
                ci,
                lines,
            )[x] < #[trigger] matched_indices(p, ci, lines)[y],
    decreases lines.len(),
{
    if lines.len() > 0 {
        lemma_matched_indices_increasing(p, ci, lines.drop_last());
        lemma_matched_indices_bounds(p, ci, lines.drop_last());
        let pre = matched_indices(p, ci, lines.drop_last());
        let cur = matched_indices(p, ci, lines);
        let n = lines.len() as int;
        assert forall|x: int, y: int| 0 <= x < y < cur.len() implies #[trigger] cur[x]
            < #[trigger] cur[y] by {
            if line_matches(p, ci, lines.last()) {
                assert(cur == pre.push(n - 1));
                if y < pre.len() {
                    assert(cur[x] == pre[x]);
                    assert(cur[y] == pre[y]);
                } else {
                    assert(cur[y] == n - 1);
                    assert(cur[x] == pre[x]);
                    assert(pre[x] < lines.drop_last().len());
                }
            } else {
                assert(cur == pre);
            }
        }
    }
}

/// Every line index belongs to exactly one of the matched and unmatched
/// sequences: the lines that invert mode selects are exactly those that
/// plain mode leaves out.
pub proof fn lemma_invert_complement(p: Seq<char>, ci: bool, lines: Seq<Seq<char>>)
    ensures
        forall|i: int|
            0 <= i < lines.len() ==> (#[trigger] matched_indices(p, ci, lines).contains(i)
                <==> !unmatched_indices(p, ci, lines).contains(i)),
{
    lemma_matched_indices_membership(p, ci, lines);
    lemma_unmatched_indices_membership(p, ci, lines);
}

/// Rendering is a pure function of its inputs: two plain-mode renderings of
/// the same immutable lines with the same pattern and flags are identical.
pub proof fn lemma_plain_output_repeatable(
    p: Seq<char>,
    ci: bool,
    flags: Flags,
    lines: Seq<Seq<char>>,
    first: Seq<Seq<char>>,
    second: Seq<Seq<char>>,
)
    requires
        first == plain_output(p, ci, flags, lines),
        second == plain_output(p, ci, flags, lines),
    ensures
        first == second,
{
}

/// Row `t` of plain-mode output renders the line at the `t`-th matched
/// index: the output's rows correspond one to one, in order, with the
/// matched indices.
pub proof fn lemma_plain_output_rows(p: Seq<char>, ci: bool, flags: Flags, lines: Seq<Seq<char>>)
    ensures
        plain_output(p, ci, flags, lines).len() == matched_indices(p, ci, lines).len(),
        forall|t: int|
            0 <= t < matched_indices(p, ci, lines).len() ==> #[trigger] plain_output(
                p,
                ci,
                flags,
                lines,
            )[t] == plain_row(
                p,
                ci,
                flags,
                matched_indices(p, ci, lines)[t],
                lines[matched_indices(p, ci, lines)[t]],
            ),
    decreases lines.len(),
{
    if lines.len() > 0 {
        lemma_plain_output_rows(p, ci, flags, lines.drop_last());
        lemma_matched_indices_bounds(p, ci, lines.drop_last());
        let pre_out = plain_output(p, ci, flags, lines.drop_last());
        let pre_idx = matched_indices(p, ci, lines.drop_last());
        let cur_out = plain_output(p, ci, flags, lines);
        let cur_idx = matched_indices(p, ci, lines);
        let n = lines.len() as int;
        assert forall|t: int| 0 <= t < cur_idx.len() implies #[trigger] cur_out[t] == plain_row(
            p,
            ci,
            flags,
            cur_idx[t],
            lines[cur_idx[t]],
        ) by {
            if line_matches(p, ci, lines.last()) {
                assert(cur_idx == pre_idx.push(n - 1));
                assert(cur_out == pre_out.push(plain_row(p, ci, flags, n - 1, lines.last())));
                if t < pre_idx.len() {
                    assert(cur_idx[t] == pre_idx[t]);
                    assert(cur_out[t] == pre_out[t]);
                    assert(lines.drop_last()[pre_idx[t]] == lines[pre_idx[t]]);
                } else {
                    assert(cur_idx[t] == n - 1);
                    assert(lines.last() == lines[n - 1]);
                }
            } else {
                assert(cur_idx == pre_idx);
                assert(cur_out == pre_out);
                assert(lines.drop_last()[pre_idx[t]] == lines[pre_idx[t]]);
            }
        }
    }
}

/// Row `t` of invert-mode output renders the line at the `t`-th unmatched
/// index: the output's rows correspond one to one, in order, with the
/// unmatched indices.
pub proof fn lemma_invert_output_rows(p: Seq<char>, ci: bool, flags: Flags, lines: Seq<Seq<char>>)
    ensures
        invert_output(p, ci, flags, lines).len() == unmatched_indices(p, ci, lines).len(),
        forall|t: int|
            0 <= t < unmatched_indices(p, ci, lines).len() ==> #[trigger] invert_output(
                p,
                ci,
                flags,
                lines,
            )[t] == numbered_row(
                flags.line_number,
                unmatched_indices(p, ci, lines)[t],
                lines[unmatched_indices(p, ci, lines)[t]],
            ),
    decreases lines.len(),
{
    if lines.len() > 0 {
        lemma_invert_output_rows(p, ci, flags, lines.drop_last());
        lemma_unmatched_indices_bounds(p, ci, lines.drop_last());
        let pre_out = invert_output(p, ci, flags, lines.drop_last());
        let pre_idx = unmatched_indices(p, ci, lines.drop_last());
        let cur_out = invert_output(p, ci, flags, lines);
        let cur_idx = unmatched_indices(p, ci, lines);
        let n = lines.len() as int;
        assert forall|t: int| 0 <= t < cur_idx.len() implies #[trigger] cur_out[t] == numbered_row(
            flags.line_number,
            cur_idx[t],
            lines[cur_idx[t]],
        ) by {
            if !line_matches(p, ci, lines.last()) {
                assert(cur_idx == pre_idx.push(n - 1));
                assert(cur_out == pre_out.push(
                    numbered_row(flags.line_number, n - 1, lines.last()),
                ));
                if t < pre_idx.len() {
                    assert(cur_idx[t] == pre_idx[t]);
                    assert(cur_out[t] == pre_out[t]);
                    assert(lines.drop_last()[pre_idx[t]] == lines[pre_idx[t]]);
                } else {
                    assert(cur_idx[t] == n - 1);
                    assert(lines.last() == lines[n - 1]);
                }
            } else {
                assert(cur_idx == pre_idx);
                assert(cur_out == pre_out);
                assert(lines.drop_last()[pre_idx[t]] == lines[pre_idx[t]]);
            }
        }
    }
}

/// Every unmatched index lies within the stream.
pub proof fn lemma_unmatched_indices_bounds(p: Seq<char>, ci: bool, lines: Seq<Seq<char>>)
    ensures
        forall|j: int|
            0 <= j < unmatched_indices(p, ci, lines).len() ==> 0 <= #[trigger] unmatched_indices(
                p,
                ci,
                lines,
            )[j] < lines.len(),
    decreases lines.len(),
{
    if lines.len() > 0 {
        lemma_unmatched_indices_bounds(p, ci, lines.drop_last());
        let pre = unmatched_indices(p, ci, lines.drop_last());
        let cur = unmatched_indices(p, ci, lines);
        assert forall|j: int| 0 <= j < cur.len() implies 0 <= #[trigger] cur[j] < lines.len() by {
            if !line_matches(p, ci, lines.last()) {
                assert(cur == pre.push(lines.len() - 1));
                if j < pre.len() {
                    assert(cur[j] == pre[j]);
                } else {
                    assert(cur[j] == lines.len() - 1);
                }
            } else {
                assert(cur == pre);
            }
        }
    }
}

/// In a leading-context window of size `k` the smallest included index is
/// `max(0, anchor - k)`: the window saturates at the stream start and is
/// never negative.
pub proof fn lemma_before_window_bounds(k: nat, anchor: int, n: int)
    requires
        0 <= anchor < n,
    ensures
        window_lo(ContextMode::Before, k, anchor) == if anchor - k >= 0 {
            anchor - k
        } else {
            0
        },
        window_lo(ContextMode::Before, k, anchor) >= 0,
        window_hi(ContextMode::Before, k, anchor, n) == anchor,
{
}

/// In a trailing-context window of size `k` the largest included index is
/// `min(n - 1, anchor + k)`: indices past the stream end are never part of
/// a group.
pub proof fn lemma_after_window_bounds(k: nat, anchor: int, n: int)
    requires
        0 <= anchor < n,
    ensures
        window_hi(ContextMode::After, k, anchor, n) == if anchor + k <= n - 1 {
            anchor + k
        } else {
            n - 1
        },
        window_hi(ContextMode::After, k, anchor, n) <= n - 1,
        window_lo(ContextMode::After, k, anchor) == anchor,
{
}

/// Row `t` of a group shows stream line `window_lo + t`: a group covers
/// exactly the line indices of its window, from `window_lo` up to
/// `window_hi`, and the anchor always lies inside its own window.
pub proof fn lemma_group_rows_cover_window(
    p: Seq<char>,
    ci: bool,
    flags: Flags,
    lines: Seq<Seq<char>>,
    mode: ContextMode,
    k: nat,
    anchor: int,
)
    requires
        0 <= anchor < lines.len(),
    ensures
        ({
            let lo = window_lo(mode, k, anchor);
            let hi = window_hi(mode, k, anchor, lines.len() as int);
            &&& 0 <= lo <= anchor <= hi < lines.len()
            &&& group_rows(p, ci, flags, lines, mode, k, anchor).len() == hi + 1 - lo
            &&& forall|t: int|
                0 <= t <= hi - lo ==> #[trigger] group_rows(p, ci, flags, lines, mode, k, anchor)[t]
                    == numbered_row(
                    flags.line_number,
                    lo + t,
                    if lo + t == anchor && flags.colorize {
                        highlighted_line(p, ci, lines[lo + t])
                    } else {
                        lines[lo + t]
                    },
                )
        }),
{
}

/// The total number of rows in the first `j` groups, separators aside.
pub open spec fn groups_rows_len(
    p: Seq<char>,
    ci: bool,
    flags: Flags,
    lines: Seq<Seq<char>>,
    mode: ContextMode,
    k: nat,
    anchors: Seq<int>,
    j: int,
) -> int
    decreases j,
{
    if j <= 0 {
        0
    } else {
        groups_rows_len(p, ci, flags, lines, mode, k, anchors, j - 1) + group_rows(
            p,
            ci,
            flags,
            lines,
            mode,
            k,
            anchors[j - 1],
        ).len()
    }
}

/// With `j` groups the context output holds exactly `j - 1` separator rows:
/// its length is the groups' total row count plus `j - 1`.
pub proof fn lemma_separator_count(
    p: Seq<char>,
    ci: bool,
    flags: Flags,
    lines: Seq<Seq<char>>,
    mode: ContextMode,
    k: nat,
    sep: Seq<char>,
    anchors: Seq<int>,
    j: int,
)
    ensures
        context_output_upto(p, ci, flags, lines, mode, k, sep, anchors, j).len()
            == groups_rows_len(p, ci, flags, lines, mode, k, anchors, j) + if j > 0 {
            j - 1
        } else {
            0
        },
    decreases j,
{
    if j > 0 {
        lemma_separator_count(p, ci, flags, lines, mode, k, sep, anchors, j - 1);
    }
}

/// A later prefix of groups never holds fewer rows than an earlier one.
proof fn lemma_groups_rows_len_monotone(
    p: Seq<char>,
    ci: bool,
    flags: Flags,
    lines: Seq<Seq<char>>,
    mode: ContextMode,
    k: nat,
    anchors: Seq<int>,
    t: int,
    j: int,
)
    requires
        t <= j,
    ensures
        groups_rows_len(p, ci, flags, lines, mode, k, anchors, t) <= groups_rows_len(
            p,
            ci,
            flags,
            lines,
            mode,
            k,
            anchors,
            j,
        ),
    decreases j - t,
{
    if t < j {
        lemma_groups_rows_len_monotone(p, ci, flags, lines, mode, k, anchors, t, j - 1);
    }
}

/// The separator before group `t` (counting groups from zero) stands
/// immediately after the rows of the first `t` groups and the `t - 1`
/// separators between them: separators stand only between two groups and
/// never before the first one.
pub proof fn lemma_separator_position(
    p: Seq<char>,
    ci: bool,
    flags: Flags,
    lines: Seq<Seq<char>>,
    mode: ContextMode,
    k: nat,
    sep: Seq<char>,
    anchors: Seq<int>,
    j: int,
    t: int,
)
    requires
        1 <= t < j,
    ensures
        context_output_upto(p, ci, flags, lines, mode, k, sep, anchors, j)[groups_rows_len(
            p,
            ci,
            flags,
            lines,
            mode,
            k,
            anchors,
            t,
        ) + t - 1] == separator_row(sep),
    decreases j,
{
    lemma_separator_count(p, ci, flags, lines, mode, k, sep, anchors, t);
    let pos = groups_rows_len(p, ci, flags, lines, mode, k, anchors, t) + t - 1;
    let prev = context_output_upto(p, ci, flags, lines, mode, k, sep, anchors, j - 1);
    if t == j - 1 {
        lemma_separator_count(p, ci, flags, lines, mode, k, sep, anchors, j - 1);
        assert(pos == prev.len());
        assert(context_output_upto(p, ci, flags, lines, mode, k, sep, anchors, j)[pos]
            == separator_row(sep));
    } else {
        lemma_separator_position(p, ci, flags, lines, mode, k, sep, anchors, j - 1, t);
        lemma_separator_count(p, ci, flags, lines, mode, k, sep, anchors, j - 1);
        lemma_groups_rows_len_monotone(p, ci, flags, lines, mode, k, anchors, t, j - 1);
        assert(pos < prev.len());
        assert(context_output_upto(p, ci, flags, lines, mode, k, sep, anchors, j)[pos] == prev[pos]);
    }
}

} // verus!
