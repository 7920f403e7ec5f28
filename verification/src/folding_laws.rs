//! What holds of every set of folding ranges that the library reports.
use vstd::prelude::*;

use crate::folding::{
    close_at_end, close_block, close_table, fold_ranges, front_matter_end, heading_folds,
    initial_state, last_non_blank, marker_from, scan_start, scan_to,
    section_end, section_end_from, step, lemma_section_end_range, headings_ordered, Fold, FoldKind,
    ScanState,
};
use crate::text::{
    leading_hashes, heading_level_of, is_blank, is_fence, is_front_matter_marker, is_indented,
    lemma_trim_empty_iff_blank, starts_with_char, trim,
};

verus! {

/// Line `s` is the kind of line that a fold of `kind` starts on.
pub open spec fn opens_fold(lines: Seq<Seq<char>>, kind: FoldKind, s: nat) -> bool {
    match kind {
        FoldKind::FrontMatter => s == 0 && is_front_matter_marker(trim(lines[0])),
        FoldKind::CodeBlock => is_fence(trim(lines[s as int])),
        FoldKind::Blockquote => starts_with_char(trim(lines[s as int]), '>'),
        FoldKind::Table => starts_with_char(trim(lines[s as int]), '|'),
        FoldKind::IndentedCode => is_indented(lines[s as int]),
        FoldKind::Heading => heading_level_of(trim(lines[s as int])) is Some,
    }
}

/// Front matter and fenced code close on the first matching line after
/// their start.
pub open spec fn closes_fold(lines: Seq<Seq<char>>, f: Fold) -> bool {
    match f.kind {
        FoldKind::FrontMatter => {
            &&& is_front_matter_marker(trim(lines[f.end as int]))
            &&& forall|k: int|
                f.start < k < f.end ==> !is_front_matter_marker(#[trigger] trim(lines[k]))
        },
        FoldKind::CodeBlock => {
            &&& is_fence(trim(lines[f.end as int]))
            &&& forall|k: int| f.start < k < f.end ==> !is_fence(#[trigger] trim(lines[k]))
        },
        _ => true,
    }
}

/// A fold spans at least two lines of the document, ends on a non-blank
/// line, starts on a line of its kind and, for front matter and fenced code,
/// ends on the first closing line.
pub open spec fn fold_ok(lines: Seq<Seq<char>>, f: Fold) -> bool {
    &&& f.start < f.end < lines.len()
    &&& !is_blank(lines[f.end as int])
    &&& opens_fold(lines, f.kind, f.start)
    &&& closes_fold(lines, f)
}

/// What holds of the scan state before line `i`.
pub open spec fn scan_inv(lines: Seq<Seq<char>>, i: nat, st: ScanState) -> bool {
    let n = lines.len();
    let hs = st.headings;
    &&& i <= n
    &&& forall|k: int| 0 <= k < st.folds.len() ==> fold_ok(lines, #[trigger] st.folds[k])
    &&& forall|k: int| 0 <= k < st.folds.len() ==> #[trigger] st.folds[k].end < i
    &&& forall|k: int| 0 <= k < st.folds.len() ==> #[trigger] st.folds[k].kind != FoldKind::Heading
    &&& forall|k: int|
        0 <= k < st.folds.len() && #[trigger] st.folds[k].kind == FoldKind::FrontMatter ==> k == 0
    &&& st.in_code ==> {
        &&& st.code_start < i
        &&& is_fence(trim(lines[st.code_start as int]))
        &&& forall|k: int| st.code_start < k < i ==> !is_fence(#[trigger] trim(lines[k]))
        &&& forall|a: int| 0 <= a < hs.len() ==> #[trigger] hs[a].0 < st.code_start
    }
    &&& st.quote matches Some(s) ==> s < i && starts_with_char(trim(lines[s as int]), '>')
    &&& st.table matches Some(s) ==> s < i && starts_with_char(trim(lines[s as int]), '|')
    &&& st.indent matches Some(s) ==> s < i && is_indented(lines[s as int])
    &&& (st.table is Some && !st.in_code) ==> i >= 1 && !is_blank(lines[i - 1])
    &&& forall|a: int, b: int| 0 <= a < b < hs.len() ==> #[trigger] hs[a].0 < #[trigger] hs[b].0
    &&& forall|a: int| 0 <= a < hs.len() ==> #[trigger] hs[a].0 < i
    &&& forall|a: int|
        0 <= a < hs.len() ==> heading_level_of(trim(lines[#[trigger] hs[a].0 as int])) == Some(
            hs[a].1,
        )
    &&& forall|k: int, a: int|
        0 <= k < st.folds.len() && 0 <= a < hs.len() && #[trigger] st.folds[k].kind
            == FoldKind::CodeBlock ==> !(st.folds[k].start < #[trigger] hs[a].0
            < st.folds[k].end)
}

proof fn lemma_not_blank(s: Seq<char>)
    requires
        trim(s).len() > 0,
    ensures
        !is_blank(s),
{
    lemma_trim_empty_iff_blank(s);
}

/// What `last_non_blank` gives back.
pub proof fn lemma_last_non_blank(lines: Seq<Seq<char>>, start: nat, end: nat)
    requires
        1 <= start <= end <= lines.len(),
    ensures
        last_non_blank(lines, start, end) + 1 >= start,
        last_non_blank(lines, start, end) < end || last_non_blank(lines, start, end) + 1 == start,
        last_non_blank(lines, start, end) >= start ==> !is_blank(
            lines[last_non_blank(lines, start, end) as int],
        ),
        forall|x: int|
            start <= x < end && !is_blank(#[trigger] lines[x]) ==> x <= last_non_blank(
                lines,
                start,
                end,
            ),
    decreases end,
{
    if end > start && is_blank(lines[end - 1]) {
        lemma_last_non_blank(lines, start, (end - 1) as nat);
    }
}

proof fn lemma_close_block(
    lines: Seq<Seq<char>>,
    open: Option<nat>,
    i: nat,
    kind: FoldKind,
    folds: Seq<Fold>,
)
    requires
        i <= lines.len(),
        kind != FoldKind::CodeBlock && kind != FoldKind::FrontMatter,
        open matches Some(s) ==> s < i && opens_fold(lines, kind, s),
        forall|k: int| 0 <= k < folds.len() ==> fold_ok(lines, #[trigger] folds[k]),
        forall|k: int| 0 <= k < folds.len() ==> #[trigger] folds[k].end < i,
    ensures
        ({
            let r = close_block(lines, open, i, kind, folds);
            &&& forall|k: int| 0 <= k < r.len() ==> fold_ok(lines, #[trigger] r[k])
            &&& forall|k: int| 0 <= k < r.len() ==> #[trigger] r[k].end < i
            &&& forall|k: int| 0 <= k < folds.len() ==> r[k] == folds[k]
            &&& r.len() >= folds.len()
            &&& forall|k: int| folds.len() <= k < r.len() ==> #[trigger] r[k].kind == kind
        }),
{
    if let Some(s) = open {
        lemma_last_non_blank(lines, s + 1, i);
    }
    let r = close_block(lines, open, i, kind, folds);
    assert forall|k: int| 0 <= k < r.len() implies fold_ok(lines, #[trigger] r[k]) by {
        if k < folds.len() {
            assert(r[k] == folds[k]);
        }
    }
}

proof fn lemma_close_table(lines: Seq<Seq<char>>, st: ScanState, i: nat)
    requires
        scan_inv(lines, i, st),
        !st.in_code,
    ensures
        ({
            let r = close_table(lines, st.table, i, st.folds);
            &&& forall|k: int| 0 <= k < r.len() ==> fold_ok(lines, #[trigger] r[k])
            &&& forall|k: int| 0 <= k < r.len() ==> #[trigger] r[k].end < i
            &&& forall|k: int| 0 <= k < st.folds.len() ==> r[k] == st.folds[k]
            &&& r.len() >= st.folds.len()
            &&& forall|k: int| st.folds.len() <= k < r.len() ==> #[trigger] r[k].kind
                == FoldKind::Table
        }),
{
    let r = close_table(lines, st.table, i, st.folds);
    if let Some(s) = st.table {
        if i >= s + 2 {
            lemma_last_non_blank(lines, s + 1, i);
            assert(i - 1 >= s + 1);
            assert(!is_blank(lines[i - 1]));
        }
    }
    assert forall|k: int| 0 <= k < r.len() implies fold_ok(lines, #[trigger] r[k]) by {
        if k < st.folds.len() {
            assert(r[k] == st.folds[k]);
        }
    }
}


proof fn lemma_step_inv(lines: Seq<Seq<char>>, i: nat, st: ScanState)
    requires
        i < lines.len(),
        scan_inv(lines, i, st),
    ensures
        scan_inv(lines, i + 1, step(lines, i, st)),
{
    let line = lines[i as int];
    let t = trim(line);
    let r = step(lines, i, st);
    let hs = st.headings;
    if is_fence(t) {
        lemma_not_blank(line);
        if st.in_code {
            assert forall|k: int| 0 <= k < r.folds.len() implies fold_ok(lines, #[trigger] r.folds[k])
                by {
                if k < st.folds.len() {
                    assert(r.folds[k] == st.folds[k]);
                }
            }
            assert forall|k: int, a: int|
                0 <= k < r.folds.len() && 0 <= a < hs.len() && #[trigger] r.folds[k].kind
                    == FoldKind::CodeBlock implies !(r.folds[k].start < #[trigger] hs[a].0
                < r.folds[k].end) by {
                if k < st.folds.len() {
                    assert(r.folds[k] == st.folds[k]);
                }
            }
        }
    } else if st.in_code {
    } else if heading_level_of(t) is Some {
        lemma_close_block(lines, st.quote, i, FoldKind::Blockquote, st.folds);
        let f1 = close_block(lines, st.quote, i, FoldKind::Blockquote, st.folds);
        let st1 = ScanState { folds: f1, quote: None, ..st };
        lemma_close_table(lines, st1, i);
        let f2 = close_table(lines, st.table, i, f1);
        lemma_close_block(lines, st.indent, i, FoldKind::IndentedCode, f2);
        let f3 = close_block(lines, st.indent, i, FoldKind::IndentedCode, f2);
        assert(r.folds == f3);
        assert forall|k: int, a: int|
            0 <= k < r.folds.len() && 0 <= a < r.headings.len() && #[trigger] r.folds[k].kind
                == FoldKind::CodeBlock implies !(r.folds[k].start < #[trigger] r.headings[a].0
            < r.folds[k].end) by {
            if k < st.folds.len() {
                assert(r.folds[k] == st.folds[k]);
                if a < hs.len() {
                    assert(r.headings[a] == hs[a]);
                }
            }
        }
        assert forall|a: int|
            0 <= a < r.headings.len() implies heading_level_of(
            trim(lines[#[trigger] r.headings[a].0 as int]),
        ) == Some(r.headings[a].1) by {
            if a < hs.len() {
                assert(r.headings[a] == hs[a]);
            }
        }
    } else if starts_with_char(t, '|') {
        lemma_not_blank(line);
    } else {
        lemma_close_table(lines, st, i);
        let f1 = close_table(lines, st.table, i, st.folds);
        let quote_closes = !starts_with_char(t, '>');
        let f2 = if quote_closes {
            close_block(lines, st.quote, i, FoldKind::Blockquote, f1)
        } else {
            f1
        };
        if quote_closes {
            lemma_close_block(lines, st.quote, i, FoldKind::Blockquote, f1);
        }
        let indent_closes = !is_indented(line) && t.len() > 0;
        let f3 = if indent_closes {
            close_block(lines, st.indent, i, FoldKind::IndentedCode, f2)
        } else {
            f2
        };
        if indent_closes {
            lemma_close_block(lines, st.indent, i, FoldKind::IndentedCode, f2);
        }
        assert(r.folds == f3);
        assert forall|k: int, a: int|
            0 <= k < r.folds.len() && 0 <= a < hs.len() && #[trigger] r.folds[k].kind
                == FoldKind::CodeBlock implies !(r.folds[k].start < #[trigger] hs[a].0
            < r.folds[k].end) by {
            if k < st.folds.len() {
                assert(r.folds[k] == st.folds[k]);
            }
        }
    }
}


proof fn lemma_marker_from(lines: Seq<Seq<char>>, from: nat)
    ensures
        marker_from(lines, from) matches Some(j) ==> {
            &&& from <= j < lines.len()
            &&& is_front_matter_marker(trim(lines[j as int]))
            &&& forall|k: int| from <= k < j ==> !is_front_matter_marker(#[trigger] trim(lines[k]))
        },
        marker_from(lines, from) is None ==> forall|k: int|
            from <= k < lines.len() ==> !is_front_matter_marker(#[trigger] trim(lines[k])),
    decreases lines.len() - from,
{
    if from < lines.len() && !is_front_matter_marker(trim(lines[from as int])) {
        lemma_marker_from(lines, from + 1);
    }
}

proof fn lemma_initial_inv(lines: Seq<Seq<char>>)
    ensures
        scan_start(lines) <= lines.len(),
        scan_inv(lines, scan_start(lines), initial_state(lines)),
{
    lemma_marker_from(lines, 1);
    if let Some(j) = front_matter_end(lines) {
        lemma_not_blank(lines[j as int]);
        let f = Fold { kind: FoldKind::FrontMatter, start: 0, end: j };
        assert(initial_state(lines).folds[0] == f);
        assert(fold_ok(lines, f));
    }
}

proof fn lemma_scan_inv(lines: Seq<Seq<char>>, i: nat)
    requires
        scan_start(lines) <= i <= lines.len(),
    ensures
        scan_inv(lines, i, scan_to(lines, i)),
    decreases i,
{
    if i <= scan_start(lines) {
        lemma_initial_inv(lines);
    } else {
        lemma_scan_inv(lines, (i - 1) as nat);
        lemma_step_inv(lines, (i - 1) as nat, scan_to(lines, (i - 1) as nat));
    }
}

/// The scan that a document's folds come from, with what holds of it.
proof fn lemma_final_scan(lines: Seq<Seq<char>>)
    ensures
        scan_inv(lines, lines.len(), scan_to(lines, lines.len())),
{
    lemma_initial_inv(lines);
    lemma_scan_inv(lines, lines.len());
}

proof fn lemma_close_at_end(lines: Seq<Seq<char>>, st: ScanState)
    requires
        scan_inv(lines, lines.len(), st),
    ensures
        forall|k: int|
            0 <= k < close_at_end(lines, st).len() ==> fold_ok(
                lines,
                #[trigger] close_at_end(lines, st)[k],
            ),
        forall|k: int|
            0 <= k < close_at_end(lines, st).len() && (#[trigger] close_at_end(lines, st)[k]).kind
                == FoldKind::CodeBlock ==> k < st.folds.len() && close_at_end(lines, st)[k]
                == st.folds[k],
        forall|k: int|
            0 <= k < close_at_end(lines, st).len() ==> (#[trigger] close_at_end(lines, st)[k]).kind
                != FoldKind::Heading,
        forall|k: int|
            0 <= k < close_at_end(lines, st).len() && (#[trigger] close_at_end(lines, st)[k]).kind
                == FoldKind::FrontMatter ==> k == 0,
{
    let n = lines.len();
    lemma_close_block(lines, st.quote, n, FoldKind::Blockquote, st.folds);
    let f1 = close_block(lines, st.quote, n, FoldKind::Blockquote, st.folds);
    let f2 = match st.table {
        Some(s) => {
            let e = last_non_blank(lines, s + 1, n);
            if e > s && e >= s + 2 {
                f1.push(Fold { kind: FoldKind::Table, start: s, end: e })
            } else {
                f1
            }
        },
        None => f1,
    };
    if let Some(s) = st.table {
        lemma_last_non_blank(lines, s + 1, n);
    }
    assert forall|k: int| 0 <= k < f2.len() implies fold_ok(lines, #[trigger] f2[k]) && f2[k].end
        < n by {
        if k < f1.len() {
            assert(f2[k] == f1[k]);
        }
    }
    lemma_close_block(lines, st.indent, n, FoldKind::IndentedCode, f2);
    let f3 = close_block(lines, st.indent, n, FoldKind::IndentedCode, f2);
    assert(close_at_end(lines, st) == f3);
    assert forall|k: int|
        0 <= k < f3.len() && (#[trigger] f3[k]).kind == FoldKind::CodeBlock implies k
        < st.folds.len() && f3[k] == st.folds[k] by {
        if k < f2.len() {
            assert(f3[k] == f2[k]);
            if k < f1.len() {
                assert(f2[k] == f1[k]);
            }
        }
    }
    assert forall|k: int|
        0 <= k < f3.len() && (#[trigger] f3[k]).kind == FoldKind::FrontMatter implies k == 0 by {
        if k < f2.len() {
            assert(f3[k] == f2[k]);
            if k < f1.len() {
                assert(f2[k] == f1[k]);
            }
        }
    }
    assert forall|k: int| 0 <= k < f3.len() implies (#[trigger] f3[k]).kind != FoldKind::Heading by {
        if k < f2.len() {
            assert(f3[k] == f2[k]);
            if k < f1.len() {
                assert(f2[k] == f1[k]);
            }
        }
    }
}

/// The fold of heading `idx`, if it has one.
pub open spec fn heading_fold(lines: Seq<Seq<char>>, hs: Seq<(nat, nat)>, idx: int) -> Fold {
    Fold {
        kind: FoldKind::Heading,
        start: hs[idx].0,
        end: last_non_blank(lines, hs[idx].0 + 1, section_end(lines, hs, idx)),
    }
}

proof fn lemma_heading_folds_from(lines: Seq<Seq<char>>, hs: Seq<(nat, nat)>, m: int)
    requires
        0 <= m <= hs.len(),
    ensures
        forall|k: int|
            0 <= k < heading_folds(lines, hs, m).len() ==> exists|idx: int|
                0 <= idx < m && #[trigger] heading_folds(lines, hs, m)[k] == heading_fold(
                    lines,
                    hs,
                    idx,
                ) && heading_fold(lines, hs, idx).end > hs[idx].0,
    decreases m,
{
    if m > 0 {
        lemma_heading_folds_from(lines, hs, m - 1);
        let prev = heading_folds(lines, hs, m - 1);
        let cur = heading_folds(lines, hs, m);
        assert forall|k: int| 0 <= k < cur.len() implies exists|idx: int|
            0 <= idx < m && #[trigger] cur[k] == heading_fold(lines, hs, idx) && heading_fold(
                lines,
                hs,
                idx,
            ).end > hs[idx].0 by {
            if k < prev.len() {
                assert(cur[k] == prev[k]);
                let idx = choose|idx: int|
                    0 <= idx < m - 1 && #[trigger] prev[k] == heading_fold(lines, hs, idx)
                        && heading_fold(lines, hs, idx).end > hs[idx].0;
                assert(cur[k] == heading_fold(lines, hs, idx));
            } else {
                assert(cur[k] == heading_fold(lines, hs, m - 1));
            }
        }
    }
}

proof fn lemma_heading_fold_ok(lines: Seq<Seq<char>>, st: ScanState, idx: int)
    requires
        scan_inv(lines, lines.len(), st),
        0 <= idx < st.headings.len(),
        heading_fold(lines, st.headings, idx).end > st.headings[idx].0,
    ensures
        fold_ok(lines, heading_fold(lines, st.headings, idx)),
{
    let hs = st.headings;
    let s = hs[idx].0;
    lemma_section_end_range(lines, hs, hs[idx].1, idx + 1);
    if idx + 1 < hs.len() {
        assert(hs[idx].0 < hs[idx + 1].0);
    }
    let se = section_end(lines, hs, idx);
    assert(s + 1 <= se);
    lemma_last_non_blank(lines, s + 1, se);
}

/// Every folding range spans at least two lines of the document and ends
/// on a non-blank line; it starts on a line of its kind (a heading, an
/// opening fence, a `>` line, a `|` line, an indented line, or the `---` of
/// line 0), and fenced code and front matter end on the first closing line.
pub proof fn law_folds_well_formed(lines: Seq<Seq<char>>)
    ensures
        forall|k: int|
            0 <= k < fold_ranges(lines).len() ==> fold_ok(lines, #[trigger] fold_ranges(lines)[k]),
{
    lemma_final_scan(lines);
    let st = scan_to(lines, lines.len());
    let hs = st.headings;
    lemma_close_at_end(lines, st);
    let base = close_at_end(lines, st);
    let hf = heading_folds(lines, hs, hs.len() as int);
    lemma_heading_folds_from(lines, hs, hs.len() as int);
    assert forall|k: int| 0 <= k < fold_ranges(lines).len() implies fold_ok(
        lines,
        #[trigger] fold_ranges(lines)[k],
    ) by {
        if k < base.len() {
            assert(fold_ranges(lines)[k] == base[k]);
        } else {
            assert(fold_ranges(lines)[k] == hf[k - base.len()]);
            let idx = choose|idx: int|
                0 <= idx < hs.len() && #[trigger] hf[k - base.len()] == heading_fold(lines, hs, idx)
                    && heading_fold(lines, hs, idx).end > hs[idx].0;
            lemma_heading_fold_ok(lines, st, idx);
        }
    }
}


/// The headings of a document, outside fenced code: line and level.
pub open spec fn heading_lines(lines: Seq<Seq<char>>) -> Seq<(nat, nat)> {
    scan_to(lines, lines.len()).headings
}

/// The level of the heading on line `s`.
pub open spec fn level_at(lines: Seq<Seq<char>>, s: nat) -> nat {
    heading_level_of(trim(lines[s as int]))->0
}

/// Each heading fold of the document is the fold of one of its headings.
proof fn lemma_heading_fold_index(lines: Seq<Seq<char>>, k: int) -> (idx: int)
    requires
        0 <= k < fold_ranges(lines).len(),
        fold_ranges(lines)[k].kind == FoldKind::Heading,
    ensures
        0 <= idx < heading_lines(lines).len(),
        fold_ranges(lines)[k] == heading_fold(lines, heading_lines(lines), idx),
        heading_fold(lines, heading_lines(lines), idx).end > heading_lines(lines)[idx].0,
{
    lemma_final_scan(lines);
    let st = scan_to(lines, lines.len());
    let hs = st.headings;
    lemma_close_at_end(lines, st);
    let base = close_at_end(lines, st);
    let hf = heading_folds(lines, hs, hs.len() as int);
    lemma_heading_folds_from(lines, hs, hs.len() as int);
    if k < base.len() {
        assert(fold_ranges(lines)[k] == base[k]);
        assert(false);
    }
    assert(fold_ranges(lines)[k] == hf[k - base.len()]);
    choose|idx: int|
        0 <= idx < hs.len() && #[trigger] hf[k - base.len()] == heading_fold(lines, hs, idx)
            && heading_fold(lines, hs, idx).end > hs[idx].0
}

/// The section of heading `idx` ends before any later heading of the same
/// or a higher level, and takes in every non-blank line before the first
/// of them (or before the end of the file).
proof fn lemma_heading_section(lines: Seq<Seq<char>>, idx: int)
    requires
        0 <= idx < heading_lines(lines).len(),
        heading_fold(lines, heading_lines(lines), idx).end > heading_lines(lines)[idx].0,
    ensures
        ({
            let hs = heading_lines(lines);
            let f = heading_fold(lines, hs, idx);
            &&& forall|a: int|
                0 <= a < hs.len() && hs[a].0 > f.start && #[trigger] hs[a].1 <= hs[idx].1
                    ==> f.end < hs[a].0
            &&& forall|x: int|
                f.start < x < lines.len() && !is_blank(#[trigger] lines[x]) && (forall|a: int|
                    0 <= a < hs.len() && hs[a].0 > f.start && #[trigger] hs[a].1 <= hs[idx].1
                        ==> x < hs[a].0) ==> x <= f.end
            &&& f.end < section_end(lines, hs, idx)
            &&& section_end(lines, hs, idx) <= lines.len()
        }),
{
    lemma_final_scan(lines);
    let hs = heading_lines(lines);
    let s = hs[idx].0;
    let l = hs[idx].1;
    lemma_section_end_range(lines, hs, l, idx + 1);
    if idx + 1 < hs.len() {
        assert(hs[idx].0 < hs[idx + 1].0);
    }
    let se = section_end(lines, hs, idx);
    lemma_last_non_blank(lines, s + 1, se);
    let f = heading_fold(lines, hs, idx);
    assert forall|a: int|
        0 <= a < hs.len() && hs[a].0 > f.start && #[trigger] hs[a].1 <= l implies f.end
        < hs[a].0 by {
        if a <= idx {
            if a < idx {
                assert(hs[a].0 < hs[idx].0);
            }
        }
    }
    assert forall|x: int|
        f.start < x < lines.len() && !is_blank(#[trigger] lines[x]) && (forall|a: int|
            0 <= a < hs.len() && hs[a].0 > f.start && #[trigger] hs[a].1 <= l ==> x
                < hs[a].0) implies x <= f.end by {
        if se < lines.len() {
            let c = choose|c: int|
                idx + 1 <= c < hs.len() && #[trigger] hs[c].1 <= l && se == hs[c].0;
            assert(hs[idx].0 < hs[c].0);
            assert(x < hs[c].0);
        }
    }
}

/// A heading folds everything up to the next heading of the same or a
/// higher level, or up to the end of the file: its fold ends before every
/// later heading whose level is at most its own, and takes in every
/// non-blank line that comes before all of them.
pub proof fn law_heading_sections(lines: Seq<Seq<char>>)
    ensures
        forall|k: int|
            0 <= k < fold_ranges(lines).len() && (#[trigger] fold_ranges(lines)[k]).kind
                == FoldKind::Heading ==> {
                let f = fold_ranges(lines)[k];
                let hs = heading_lines(lines);
                &&& exists|i: int| 0 <= i < hs.len() && #[trigger] hs[i].0 == f.start
                &&& forall|a: int|
                    0 <= a < hs.len() && hs[a].0 > f.start && #[trigger] hs[a].1 <= level_at(
                        lines,
                        f.start,
                    ) ==> f.end < hs[a].0
                &&& forall|x: int|
                    f.start < x < lines.len() && !is_blank(#[trigger] lines[x]) && (forall|a: int|
                        0 <= a < hs.len() && hs[a].0 > f.start && #[trigger] hs[a].1 <= level_at(
                            lines,
                            f.start,
                        ) ==> x < hs[a].0) ==> x <= f.end
            },
{
    lemma_final_scan(lines);
    assert forall|k: int|
        0 <= k < fold_ranges(lines).len() && (#[trigger] fold_ranges(lines)[k]).kind
            == FoldKind::Heading implies {
        let f = fold_ranges(lines)[k];
        let hs = heading_lines(lines);
        &&& exists|i: int| 0 <= i < hs.len() && #[trigger] hs[i].0 == f.start
        &&& forall|a: int|
            0 <= a < hs.len() && hs[a].0 > f.start && #[trigger] hs[a].1 <= level_at(lines, f.start)
                ==> f.end < hs[a].0
        &&& forall|x: int|
            f.start < x < lines.len() && !is_blank(#[trigger] lines[x]) && (forall|a: int|
                0 <= a < hs.len() && hs[a].0 > f.start && #[trigger] hs[a].1 <= level_at(
                    lines,
                    f.start,
                ) ==> x < hs[a].0) ==> x <= f.end
    } by {
        let idx = lemma_heading_fold_index(lines, k);
        lemma_heading_section(lines, idx);
        let hs = heading_lines(lines);
        assert(level_at(lines, hs[idx].0) == hs[idx].1);
        assert(hs[idx].0 == fold_ranges(lines)[k].start);
    }
}

/// Sub-headings fold within their parent: when a heading fold starts inside
/// another heading fold, it also ends inside it.
pub proof fn law_heading_nesting(lines: Seq<Seq<char>>)
    ensures
        forall|j: int, k: int|
            0 <= j < fold_ranges(lines).len() && 0 <= k < fold_ranges(lines).len() && (
            #[trigger] fold_ranges(lines)[j]).kind == FoldKind::Heading && (
            #[trigger] fold_ranges(lines)[k]).kind == FoldKind::Heading && fold_ranges(
                lines,
            )[j].start < fold_ranges(lines)[k].start <= fold_ranges(lines)[j].end
                ==> fold_ranges(lines)[k].end <= fold_ranges(lines)[j].end,
{
    lemma_final_scan(lines);
    let hs = heading_lines(lines);
    assert forall|j: int, k: int|
        0 <= j < fold_ranges(lines).len() && 0 <= k < fold_ranges(lines).len() && (
        #[trigger] fold_ranges(lines)[j]).kind == FoldKind::Heading && (
        #[trigger] fold_ranges(lines)[k]).kind == FoldKind::Heading && fold_ranges(
            lines,
        )[j].start < fold_ranges(lines)[k].start <= fold_ranges(lines)[j].end implies fold_ranges(
        lines,
    )[k].end <= fold_ranges(lines)[j].end by {
        let a = lemma_heading_fold_index(lines, j);
        let b = lemma_heading_fold_index(lines, k);
        lemma_heading_section(lines, a);
        lemma_heading_section(lines, b);
        let fa = heading_fold(lines, hs, a);
        let fb = heading_fold(lines, hs, b);
        // b's level is deeper than a's, and b comes after a
        assert(hs[b].1 > hs[a].1);
        if b <= a {
            if b < a {
                assert(hs[b].0 < hs[a].0);
            }
            assert(false);
        }
        let la = hs[a].1;
        let lb = hs[b].1;
        lemma_section_end_range(lines, hs, la, a + 1);
        lemma_section_end_range(lines, hs, lb, b + 1);
        let sea = section_end(lines, hs, a);
        let seb = section_end(lines, hs, b);
        if sea < lines.len() {
            let c = choose|c: int| a + 1 <= c < hs.len() && #[trigger] hs[c].1 <= la && sea == hs[c].0;
            if c <= b {
                if c < b {
                    assert(hs[c].0 < hs[b].0);
                }
                assert(false);
            }
            assert(seb <= hs[c].0);
        }
        assert(seb <= sea);
        lemma_last_non_blank(lines, hs[b].0 + 1, seb);
        lemma_last_non_blank(lines, hs[a].0 + 1, sea);
        if fb.end > fb.start {
            assert(!is_blank(lines[fb.end as int]));
        }
    }
}

/// No heading fold starts inside a fenced code block: a `#` line between
/// an opening and a closing fence is code, not a heading.
pub proof fn law_no_heading_in_code(lines: Seq<Seq<char>>)
    ensures
        forall|j: int, k: int|
            0 <= j < fold_ranges(lines).len() && 0 <= k < fold_ranges(lines).len() && (
            #[trigger] fold_ranges(lines)[j]).kind == FoldKind::CodeBlock && (
            #[trigger] fold_ranges(lines)[k]).kind == FoldKind::Heading ==> !(fold_ranges(
                lines,
            )[j].start < fold_ranges(lines)[k].start < fold_ranges(lines)[j].end),
{
    lemma_final_scan(lines);
    let st = scan_to(lines, lines.len());
    lemma_close_at_end(lines, st);
    let base = close_at_end(lines, st);
    assert forall|j: int, k: int|
        0 <= j < fold_ranges(lines).len() && 0 <= k < fold_ranges(lines).len() && (
        #[trigger] fold_ranges(lines)[j]).kind == FoldKind::CodeBlock && (
        #[trigger] fold_ranges(lines)[k]).kind == FoldKind::Heading implies !(fold_ranges(
        lines,
    )[j].start < fold_ranges(lines)[k].start < fold_ranges(lines)[j].end) by {
        let b = lemma_heading_fold_index(lines, k);
        if j >= base.len() {
            let hf = heading_folds(lines, st.headings, st.headings.len() as int);
            lemma_heading_folds_from(lines, st.headings, st.headings.len() as int);
            assert(fold_ranges(lines)[j] == hf[j - base.len()]);
            assert(false);
        }
        assert(fold_ranges(lines)[j] == base[j]);
        assert(base[j] == st.folds[j]);
        assert(st.folds[j].kind == FoldKind::CodeBlock);
    }
}


/// Front matter is folded at most once, and its fold is the first one
/// reported.
pub proof fn law_front_matter_first(lines: Seq<Seq<char>>)
    ensures
        forall|k: int|
            0 <= k < fold_ranges(lines).len() && (#[trigger] fold_ranges(lines)[k]).kind
                == FoldKind::FrontMatter ==> k == 0,
{
    lemma_final_scan(lines);
    let st = scan_to(lines, lines.len());
    let hs = st.headings;
    lemma_close_at_end(lines, st);
    let base = close_at_end(lines, st);
    let hf = heading_folds(lines, hs, hs.len() as int);
    lemma_heading_folds_from(lines, hs, hs.len() as int);
    assert forall|k: int|
        0 <= k < fold_ranges(lines).len() && (#[trigger] fold_ranges(lines)[k]).kind
            == FoldKind::FrontMatter implies k == 0 by {
        if k < base.len() {
            assert(fold_ranges(lines)[k] == base[k]);
        } else {
            assert(fold_ranges(lines)[k] == hf[k - base.len()]);
        }
    }
}


/// Whether line `x` lies inside a fenced code block: the scan that
/// reaches it is in code.
pub open spec fn in_code_at(lines: Seq<Seq<char>>, x: nat) -> bool {
    scan_to(lines, x).in_code
}

/// No blank line outside fenced code lies within the blockquote folds of a
/// scan state, or after the start of the open blockquote.
pub open spec fn quote_gap_free(lines: Seq<Seq<char>>, i: nat, st: ScanState) -> bool {
    &&& st.quote matches Some(s) ==> forall|x: int|
        s < x < i && is_blank(#[trigger] lines[x]) ==> in_code_at(lines, x as nat)
    &&& forall|k: int, x: int|
        0 <= k < st.folds.len() && (#[trigger] st.folds[k]).kind == FoldKind::Blockquote
            && st.folds[k].start < x <= st.folds[k].end && is_blank(#[trigger] lines[x])
            ==> in_code_at(lines, x as nat)
}

proof fn lemma_scan_step(lines: Seq<Seq<char>>, i: nat)
    requires
        scan_start(lines) <= i,
    ensures
        scan_to(lines, i + 1) == step(lines, i, scan_to(lines, i)),
{
}

proof fn lemma_quote_gap_free(lines: Seq<Seq<char>>, i: nat)
    requires
        scan_start(lines) <= i <= lines.len(),
    ensures
        quote_gap_free(lines, i, scan_to(lines, i)),
    decreases i,
{
    if i <= scan_start(lines) {
        lemma_marker_from(lines, 1);
        return;
    }
    let j = (i - 1) as nat;
    lemma_quote_gap_free(lines, j);
    lemma_scan_inv(lines, j);
    lemma_scan_step(lines, j);
    let st = scan_to(lines, j);
    let r = scan_to(lines, i);
    let line = lines[j as int];
    let t = trim(line);
    if is_fence(t) || starts_with_char(t, '|') || starts_with_char(t, '>') {
        lemma_not_blank(line);
    }
    if let Some(s) = st.quote {
        lemma_last_non_blank(lines, s + 1, j);
    }
    assert forall|k: int, x: int|
        0 <= k < r.folds.len() && (#[trigger] r.folds[k]).kind == FoldKind::Blockquote
            && r.folds[k].start < x <= r.folds[k].end && is_blank(#[trigger] lines[x])
            implies in_code_at(lines, x as nat) by {
        if is_fence(t) {
            if k < st.folds.len() {
                assert(r.folds[k] == st.folds[k]);
            }
        } else if st.in_code {
        } else if heading_level_of(t) is Some {
            let f1 = close_block(lines, st.quote, j, FoldKind::Blockquote, st.folds);
            let st1 = ScanState { folds: f1, quote: None, ..st };
            lemma_close_block(lines, st.quote, j, FoldKind::Blockquote, st.folds);
            lemma_close_table(lines, st1, j);
            let f2 = close_table(lines, st.table, j, f1);
            lemma_close_block(lines, st.indent, j, FoldKind::IndentedCode, f2);
            if k < f2.len() {
                assert(r.folds[k] == f2[k]);
                if k < f1.len() {
                    assert(f2[k] == f1[k]);
                    if k < st.folds.len() {
                        assert(f1[k] == st.folds[k]);
                    }
                }
            }
        } else if starts_with_char(t, '|') {
        } else {
            lemma_close_table(lines, st, j);
            let f1 = close_table(lines, st.table, j, st.folds);
            if !starts_with_char(t, '>') {
                lemma_close_block(lines, st.quote, j, FoldKind::Blockquote, f1);
            }
            let f2 = if !starts_with_char(t, '>') {
                close_block(lines, st.quote, j, FoldKind::Blockquote, f1)
            } else {
                f1
            };
            if !is_indented(line) && t.len() > 0 {
                lemma_close_block(lines, st.indent, j, FoldKind::IndentedCode, f2);
            }
            if k < f2.len() {
                assert(r.folds[k] == f2[k]);
                if k < f1.len() {
                    assert(f2[k] == f1[k]);
                    if k < st.folds.len() {
                        assert(f1[k] == st.folds[k]);
                    }
                }
            }
        }
    }
    if let Some(s) = r.quote {
        assert forall|x: int| s < x < i && is_blank(#[trigger] lines[x]) implies in_code_at(
            lines,
            x as nat,
        ) by {
            if x == j {
                assert(in_code_at(lines, j) == st.in_code);
            }
        }
    }
}

/// The folds of a step extend those of the state before it.
proof fn lemma_step_extends(lines: Seq<Seq<char>>, i: nat, st: ScanState)
    requires
        i < lines.len(),
        scan_inv(lines, i, st),
    ensures
        step(lines, i, st).folds.len() >= st.folds.len(),
        forall|k: int| 0 <= k < st.folds.len() ==> #[trigger] step(lines, i, st).folds[k] == st.folds[k],
        st.quote is Some && step(lines, i, st).quote is Some ==> step(lines, i, st).quote == st.quote,
        st.quote is Some && step(lines, i, st).quote is None && last_non_blank(
            lines,
            st.quote->0 + 1,
            i,
        ) > st.quote->0 ==> exists|k: int|
            0 <= k < step(lines, i, st).folds.len() && #[trigger] step(lines, i, st).folds[k] == (Fold {
                kind: FoldKind::Blockquote,
                start: st.quote->0,
                end: last_non_blank(lines, st.quote->0 + 1, i),
            }),
{
    let line = lines[i as int];
    let t = trim(line);
    let r = step(lines, i, st);
    if is_fence(t) {
    } else if st.in_code {
    } else if heading_level_of(t) is Some {
        let f1 = close_block(lines, st.quote, i, FoldKind::Blockquote, st.folds);
        let st1 = ScanState { folds: f1, quote: None, ..st };
        lemma_close_block(lines, st.quote, i, FoldKind::Blockquote, st.folds);
        lemma_close_table(lines, st1, i);
        let f2 = close_table(lines, st.table, i, f1);
        lemma_close_block(lines, st.indent, i, FoldKind::IndentedCode, f2);
        if f1.len() > st.folds.len() {
            let k = st.folds.len() as int;
            assert(r.folds[k] == f2[k]);
            assert(f2[k] == f1[k]);
        }
        if st.quote is Some {
            let s = st.quote->0;
            if last_non_blank(lines, s + 1, i) > s {
                let k = st.folds.len() as int;
                assert(r.folds[k] == f2[k]);
                assert(f2[k] == f1[k]);
            }
        }
    } else if starts_with_char(t, '|') {
    } else {
        lemma_close_table(lines, st, i);
        let f1 = close_table(lines, st.table, i, st.folds);
        if !starts_with_char(t, '>') {
            lemma_close_block(lines, st.quote, i, FoldKind::Blockquote, f1);
        }
        let f2 = if !starts_with_char(t, '>') {
            close_block(lines, st.quote, i, FoldKind::Blockquote, f1)
        } else {
            f1
        };
        if !is_indented(line) && t.len() > 0 {
            lemma_close_block(lines, st.indent, i, FoldKind::IndentedCode, f2);
        }
        if st.quote is Some && !starts_with_char(t, '>') {
            let s = st.quote->0;
            if last_non_blank(lines, s + 1, i) > s {
                let k = f1.len() as int;
                assert(f2[k] == Fold { kind: FoldKind::Blockquote, start: s, end: last_non_blank(lines, s + 1, i) });
                assert(r.folds[k] == f2[k]);
            }
        }
    }
}


/// Once a blockquote is open at line `s` and line `x` after it is a
/// non-blank line it holds, the quote stays open or has folded to at least
/// line `x`.
proof fn lemma_quote_reaches(lines: Seq<Seq<char>>, s: nat, x: nat, j: nat)
    requires
        scan_start(lines) <= x,
        s < x < j <= lines.len(),
        !is_blank(lines[x as int]),
        scan_to(lines, x + 1).quote == Some(s),
    ensures
        scan_to(lines, j).quote == Some(s) || exists|k: int|
            0 <= k < scan_to(lines, j).folds.len() && (#[trigger] scan_to(lines, j).folds[k]).kind
                == FoldKind::Blockquote && scan_to(lines, j).folds[k].start == s && scan_to(
                lines,
                j,
            ).folds[k].end >= x,
    decreases j,
{
    if j > x + 1 {
        let p = (j - 1) as nat;
        lemma_quote_reaches(lines, s, x, p);
        lemma_scan_inv(lines, p);
        lemma_scan_step(lines, p);
        let st = scan_to(lines, p);
        lemma_step_extends(lines, p, st);
        let r = scan_to(lines, j);
        if st.quote == Some(s) {
            lemma_last_non_blank(lines, s + 1, p);
            if r.quote is None {
                assert(s + 1 <= x < p);
                assert(last_non_blank(lines, s + 1, p) >= x);
            }
        } else {
            let k = choose|k: int|
                0 <= k < st.folds.len() && (#[trigger] st.folds[k]).kind == FoldKind::Blockquote
                    && st.folds[k].start == s && st.folds[k].end >= x;
            assert(r.folds[k] == st.folds[k]);
        }
    }
}

proof fn lemma_close_block_prefix(
    lines: Seq<Seq<char>>,
    open: Option<nat>,
    i: nat,
    kind: FoldKind,
    folds: Seq<Fold>,
)
    ensures
        close_block(lines, open, i, kind, folds).len() >= folds.len(),
        forall|k: int|
            0 <= k < folds.len() ==> #[trigger] close_block(lines, open, i, kind, folds)[k]
                == folds[k],
{
}

/// Consecutive `>` lines fold as a single block: two `>` lines in a row,
/// outside fenced code, lie in one blockquote fold.
pub proof fn law_quote_lines_fold_together(lines: Seq<Seq<char>>, i: nat)
    requires
        scan_start(lines) <= i,
        i + 1 < lines.len(),
        starts_with_char(trim(lines[i as int]), '>'),
        starts_with_char(trim(lines[i + 1int]), '>'),
        !in_code_at(lines, i),
    ensures
        exists|k: int|
            0 <= k < fold_ranges(lines).len() && (#[trigger] fold_ranges(lines)[k]).kind
                == FoldKind::Blockquote && fold_ranges(lines)[k].start <= i && i + 1
                <= fold_ranges(lines)[k].end,
{
    let n = lines.len();
    let t0 = trim(lines[i as int]);
    let t1 = trim(lines[i + 1int]);
    lemma_not_blank(lines[i as int]);
    lemma_not_blank(lines[i + 1int]);
    assert(leading_hashes(t0) == 0);
    assert(leading_hashes(t1) == 0);
    lemma_scan_inv(lines, i);
    lemma_scan_step(lines, i);
    lemma_scan_inv(lines, i + 1);
    lemma_scan_step(lines, i + 1);
    let s0 = scan_to(lines, i);
    let s1 = scan_to(lines, i + 1);
    let s = s1.quote->0;
    assert(s1.quote is Some && s <= i);
    assert(!s1.in_code);
    assert(scan_to(lines, i + 2).quote == Some(s));
    lemma_quote_reaches(lines, s, i + 1, n);
    lemma_final_scan(lines);
    let st = scan_to(lines, n);
    let base = close_at_end(lines, st);
    let f1 = close_block(lines, st.quote, n, FoldKind::Blockquote, st.folds);
    let f2 = match st.table {
        Some(ts) => {
            let e = last_non_blank(lines, ts + 1, n);
            if e > ts && e >= ts + 2 {
                f1.push(Fold { kind: FoldKind::Table, start: ts, end: e })
            } else {
                f1
            }
        },
        None => f1,
    };
    lemma_close_block(lines, st.quote, n, FoldKind::Blockquote, st.folds);
    lemma_close_block_prefix(lines, st.indent, n, FoldKind::IndentedCode, f2);
    assert(base == close_block(lines, st.indent, n, FoldKind::IndentedCode, f2));
    let k: int = if st.quote == Some(s) {
        lemma_last_non_blank(lines, s + 1, n);
        assert(last_non_blank(lines, s + 1, n) >= i + 1);
        st.folds.len() as int
    } else {
        choose|k: int|
            0 <= k < st.folds.len() && (#[trigger] st.folds[k]).kind == FoldKind::Blockquote
                && st.folds[k].start == s && st.folds[k].end >= i + 1
    };
    assert(f2[k] == f1[k]);
    assert(base[k] == f2[k]);
    assert(fold_ranges(lines)[k] == base[k]);
}

/// A blank line ends a blockquote: no blockquote fold takes in a blank
/// line, except one inside fenced code.
pub proof fn law_blank_line_ends_quote(lines: Seq<Seq<char>>)
    ensures
        forall|k: int, x: int|
            0 <= k < fold_ranges(lines).len() && (#[trigger] fold_ranges(lines)[k]).kind
                == FoldKind::Blockquote && fold_ranges(lines)[k].start < x <= fold_ranges(
                lines,
            )[k].end && is_blank(#[trigger] lines[x]) ==> in_code_at(lines, x as nat),
{
    let n = lines.len();
    lemma_final_scan(lines);
    lemma_initial_inv(lines);
    lemma_quote_gap_free(lines, n);
    let st = scan_to(lines, n);
    let hs = st.headings;
    let base = close_at_end(lines, st);
    let hf = heading_folds(lines, hs, hs.len() as int);
    lemma_heading_folds_from(lines, hs, hs.len() as int);
    let f1 = close_block(lines, st.quote, n, FoldKind::Blockquote, st.folds);
    let f2 = match st.table {
        Some(ts) => {
            let e = last_non_blank(lines, ts + 1, n);
            if e > ts && e >= ts + 2 {
                f1.push(Fold { kind: FoldKind::Table, start: ts, end: e })
            } else {
                f1
            }
        },
        None => f1,
    };
    lemma_close_block(lines, st.quote, n, FoldKind::Blockquote, st.folds);
    lemma_close_block_prefix(lines, st.indent, n, FoldKind::IndentedCode, f2);
    assert(base == close_block(lines, st.indent, n, FoldKind::IndentedCode, f2));
    if let Some(s) = st.quote {
        lemma_last_non_blank(lines, s + 1, n);
    }
    assert forall|k: int, x: int|
        0 <= k < fold_ranges(lines).len() && (#[trigger] fold_ranges(lines)[k]).kind
            == FoldKind::Blockquote && fold_ranges(lines)[k].start < x <= fold_ranges(lines)[k].end
            && is_blank(#[trigger] lines[x]) implies in_code_at(lines, x as nat) by {
        if k >= base.len() {
            assert(fold_ranges(lines)[k] == hf[k - base.len()]);
        } else {
            assert(fold_ranges(lines)[k] == base[k]);
            if k < f2.len() {
                assert(base[k] == f2[k]);
                if k < f1.len() {
                    assert(f2[k] == f1[k]);
                    if k < st.folds.len() {
                        assert(f1[k] == st.folds[k]);
                    }
                }
            }
        }
    }
}


/// Line `j` closes front matter: line 0 and line `j` both trim to `---`,
/// and no line between them does.
pub open spec fn closes_front_matter(lines: Seq<Seq<char>>, j: nat) -> bool {
    &&& 1 <= j < lines.len()
    &&& is_front_matter_marker(trim(lines[0]))
    &&& is_front_matter_marker(trim(lines[j as int]))
    &&& forall|k: int| 1 <= k < j ==> !is_front_matter_marker(#[trigger] trim(lines[k]))
}

/// The first line of the Markdown body: the line after the front matter,
/// or line 0 when there is none.
pub open spec fn body_start(lines: Seq<Seq<char>>) -> nat {
    if exists|j: nat| closes_front_matter(lines, j) {
        (choose|j: nat| closes_front_matter(lines, j)) + 1
    } else {
        0
    }
}

/// The number of fence lines among lines `a..x`.
pub open spec fn fences_between(lines: Seq<Seq<char>>, a: nat, x: nat) -> nat
    decreases x,
{
    if x <= a {
        0
    } else {
        fences_between(lines, a, (x - 1) as nat) + (if is_fence(trim(lines[x - 1])) {
            1nat
        } else {
            0nat
        })
    }
}

/// Line `x` lies in the body outside fenced code: an even number of fence
/// lines of the body come before it.
pub open spec fn outside_code(lines: Seq<Seq<char>>, x: nat) -> bool {
    body_start(lines) <= x && fences_between(lines, body_start(lines), x) % 2 == 0
}

proof fn lemma_body_start(lines: Seq<Seq<char>>)
    ensures
        body_start(lines) == scan_start(lines),
{
    lemma_marker_from(lines, 1);
    if let Some(j) = front_matter_end(lines) {
        assert(closes_front_matter(lines, j));
        let c = choose|c: nat| closes_front_matter(lines, c);
        if c < j {
            assert(!is_front_matter_marker(trim(lines[c as int])));
        }
        if j < c {
            assert(!is_front_matter_marker(trim(lines[j as int])));
        }
    } else {
        if exists|c: nat| closes_front_matter(lines, c) {
            let c = choose|c: nat| closes_front_matter(lines, c);
            assert(is_front_matter_marker(trim(lines[c as int])));
        }
    }
}

/// A fence line toggles the scan in and out of code; no other line does.
proof fn lemma_step_in_code(lines: Seq<Seq<char>>, i: nat, st: ScanState)
    requires
        i < lines.len(),
    ensures
        step(lines, i, st).in_code == (st.in_code != is_fence(trim(lines[i as int]))),
        step(lines, i, st).headings.len() >= st.headings.len(),
        forall|a: int|
            0 <= a < st.headings.len() ==> #[trigger] step(lines, i, st).headings[a]
                == st.headings[a],
        !st.in_code && !is_fence(trim(lines[i as int])) && heading_level_of(
            trim(lines[i as int]),
        ) is Some ==> step(lines, i, st).headings == st.headings.push(
            (i, heading_level_of(trim(lines[i as int]))->0),
        ),
        !(!st.in_code && !is_fence(trim(lines[i as int])) && heading_level_of(
            trim(lines[i as int]),
        ) is Some) ==> step(lines, i, st).headings == st.headings,
{
}

proof fn lemma_in_code_counts_fences(lines: Seq<Seq<char>>, x: nat)
    requires
        scan_start(lines) <= x <= lines.len(),
    ensures
        scan_to(lines, x).in_code == (fences_between(lines, scan_start(lines), x) % 2 == 1),
    decreases x,
{
    if x > scan_start(lines) {
        let p = (x - 1) as nat;
        lemma_in_code_counts_fences(lines, p);
        lemma_scan_step(lines, p);
        lemma_step_in_code(lines, p, scan_to(lines, p));
    }
}

/// Line `x` of the body is outside code exactly when the scan reaching it
/// is not in code.
proof fn lemma_outside_code(lines: Seq<Seq<char>>, x: nat)
    requires
        body_start(lines) <= x <= lines.len(),
    ensures
        outside_code(lines, x) == !scan_to(lines, x).in_code,
{
    lemma_body_start(lines);
    lemma_in_code_counts_fences(lines, x);
}

/// The folds of the scan only grow: an earlier fold stays where it was.
proof fn lemma_folds_persist(lines: Seq<Seq<char>>, j: nat, m: nat)
    requires
        scan_start(lines) <= j <= m <= lines.len(),
    ensures
        scan_to(lines, m).folds.len() >= scan_to(lines, j).folds.len(),
        forall|k: int|
            0 <= k < scan_to(lines, j).folds.len() ==> #[trigger] scan_to(lines, m).folds[k]
                == scan_to(lines, j).folds[k],
        scan_to(lines, m).headings.len() >= scan_to(lines, j).headings.len(),
        forall|a: int|
            0 <= a < scan_to(lines, j).headings.len() ==> #[trigger] scan_to(lines, m).headings[a]
                == scan_to(lines, j).headings[a],
    decreases m,
{
    if m > j {
        let p = (m - 1) as nat;
        lemma_folds_persist(lines, j, p);
        lemma_scan_inv(lines, p);
        lemma_scan_step(lines, p);
        lemma_step_extends(lines, p, scan_to(lines, p));
        lemma_step_in_code(lines, p, scan_to(lines, p));
    }
}

/// A fold of the scan at any line is a fold of the document, at the same
/// place.
proof fn lemma_fold_in_result(lines: Seq<Seq<char>>, j: nat, k: int)
    requires
        scan_start(lines) <= j <= lines.len(),
        0 <= k < scan_to(lines, j).folds.len(),
    ensures
        k < fold_ranges(lines).len(),
        fold_ranges(lines)[k] == scan_to(lines, j).folds[k],
{
    let n = lines.len();
    lemma_folds_persist(lines, j, n);
    let st = scan_to(lines, n);
    let f1 = close_block(lines, st.quote, n, FoldKind::Blockquote, st.folds);
    let f2 = match st.table {
        Some(ts) => {
            let e = last_non_blank(lines, ts + 1, n);
            if e > ts && e >= ts + 2 {
                f1.push(Fold { kind: FoldKind::Table, start: ts, end: e })
            } else {
                f1
            }
        },
        None => f1,
    };
    lemma_close_block_prefix(lines, st.quote, n, FoldKind::Blockquote, st.folds);
    lemma_close_block_prefix(lines, st.indent, n, FoldKind::IndentedCode, f2);
    let base = close_at_end(lines, st);
    assert(base == close_block(lines, st.indent, n, FoldKind::IndentedCode, f2));
    assert(f2[k] == f1[k]);
    assert(fold_ranges(lines)[k] == base[k]);
}


proof fn lemma_line_shapes(t: Seq<char>)
    ensures
        heading_level_of(t) is Some ==> t.len() > 0 && t[0] == '#' && !is_fence(t)
            && !starts_with_char(t, '|') && !starts_with_char(t, '>'),
        starts_with_char(t, '|') ==> !is_fence(t) && heading_level_of(t) is None,
        t.len() == 0 ==> !is_fence(t) && heading_level_of(t) is None && !starts_with_char(t, '|')
            && !starts_with_char(t, '>'),
{
    if t.len() > 0 && t[0] != '#' {
        assert(leading_hashes(t) == 0);
    }
    if t.len() == 0 {
        assert(leading_hashes(t) == 0);
    }
}

/// If line 0 trims to `---` and a later line does too, the document's first
/// fold is the front matter, from line 0 to the first such later line.
pub proof fn law_front_matter_folded(lines: Seq<Seq<char>>, j: nat)
    requires
        closes_front_matter(lines, j),
    ensures
        fold_ranges(lines).len() > 0,
        fold_ranges(lines)[0] == (Fold { kind: FoldKind::FrontMatter, start: 0, end: j }),
{
    lemma_marker_from(lines, 1);
    match front_matter_end(lines) {
        Some(c) => {
            if c < j {
                assert(!is_front_matter_marker(trim(lines[c as int])));
            }
            if j < c {
                assert(!is_front_matter_marker(trim(lines[j as int])));
            }
        },
        None => {
            assert(!is_front_matter_marker(trim(lines[j as int])));
        },
    }
    assert(front_matter_end(lines) == Some(j));
    lemma_initial_inv(lines);
    assert(scan_to(lines, scan_start(lines)) == initial_state(lines));
    lemma_fold_in_result(lines, scan_start(lines), 0);
}

proof fn lemma_code_stays_open(lines: Seq<Seq<char>>, s: nat, y: nat)
    requires
        scan_start(lines) <= s < y <= lines.len(),
        scan_to(lines, s + 1).in_code,
        scan_to(lines, s + 1).code_start == s,
        forall|k: int| s < k < y ==> !is_fence(#[trigger] trim(lines[k])),
    ensures
        scan_to(lines, y).in_code,
        scan_to(lines, y).code_start == s,
    decreases y,
{
    if y > s + 1 {
        let p = (y - 1) as nat;
        lemma_code_stays_open(lines, s, p);
        lemma_scan_step(lines, p);
    }
}

/// A fenced code block folds from its opening fence to the first later
/// fence line, however the fences are indented.
pub proof fn law_code_blocks_folded(lines: Seq<Seq<char>>, s: nat, e: nat)
    requires
        s < e < lines.len(),
        outside_code(lines, s),
        is_fence(trim(lines[s as int])),
        is_fence(trim(lines[e as int])),
        forall|k: int| s < k < e ==> !is_fence(#[trigger] trim(lines[k])),
    ensures
        exists|k: int|
            0 <= k < fold_ranges(lines).len() && #[trigger] fold_ranges(lines)[k] == (Fold {
                kind: FoldKind::CodeBlock,
                start: s,
                end: e,
            }),
{
    lemma_body_start(lines);
    lemma_outside_code(lines, s);
    lemma_scan_step(lines, s);
    lemma_code_stays_open(lines, s, e);
    lemma_scan_step(lines, e);
    let st = scan_to(lines, e);
    let k = st.folds.len() as int;
    assert(scan_to(lines, e + 1).folds[k] == Fold { kind: FoldKind::CodeBlock, start: s, end: e });
    lemma_fold_in_result(lines, e + 1, k);
}

proof fn lemma_table_stays_open(lines: Seq<Seq<char>>, s: nat, y: nat)
    requires
        scan_start(lines) <= s < y <= lines.len(),
        scan_to(lines, s + 1).table == Some(s),
        !scan_to(lines, s + 1).in_code,
        forall|k: int| s <= k < y ==> starts_with_char(#[trigger] trim(lines[k]), '|'),
    ensures
        scan_to(lines, y).table == Some(s),
        !scan_to(lines, y).in_code,
    decreases y,
{
    if y > s + 1 {
        let p = (y - 1) as nat;
        lemma_table_stays_open(lines, s, p);
        lemma_scan_step(lines, p);
        lemma_line_shapes(trim(lines[p as int]));
    }
}

/// A run of two or more `|` lines in the body, outside code, that begins
/// the body or follows a line that neither is a fence nor starts with `|`,
/// and that is followed by a line that is neither a fence nor a `|` line (a
/// heading, a blank line, or any other text), folds from its first to its
/// last line.
pub proof fn law_tables_folded(lines: Seq<Seq<char>>, s: nat, e: nat)
    requires
        s < e,
        e + 1 < lines.len(),
        outside_code(lines, s),
        forall|y: int| s <= y <= e ==> starts_with_char(#[trigger] trim(lines[y]), '|'),
        !is_fence(trim(lines[e + 1int])),
        !starts_with_char(trim(lines[e + 1int]), '|'),
        s == body_start(lines) || (outside_code(lines, (s - 1) as nat) && !is_fence(
            trim(lines[s - 1]),
        ) && !starts_with_char(trim(lines[s - 1]), '|')),
    ensures
        exists|k: int|
            0 <= k < fold_ranges(lines).len() && #[trigger] fold_ranges(lines)[k] == (Fold {
                kind: FoldKind::Table,
                start: s,
                end: e,
            }),
{
    lemma_body_start(lines);
    lemma_outside_code(lines, s);
    if s > body_start(lines) {
        let p = (s - 1) as nat;
        lemma_outside_code(lines, p);
        lemma_scan_step(lines, p);
        lemma_line_shapes(trim(lines[p as int]));
    } else {
        lemma_initial_inv(lines);
    }
    assert(scan_to(lines, s).table is None);
    lemma_line_shapes(trim(lines[s as int]));
    lemma_scan_step(lines, s);
    lemma_table_stays_open(lines, s, e + 1);
    let c = e + 1;
    let st = scan_to(lines, c);
    lemma_scan_inv(lines, c);
    lemma_scan_step(lines, c);
    lemma_not_blank(lines[e as int]);
    lemma_last_non_blank(lines, s + 1, c);
    assert(last_non_blank(lines, s + 1, c) == e);
    let t = trim(lines[c as int]);
    let f = Fold { kind: FoldKind::Table, start: s, end: e };
    let r = scan_to(lines, c + 1);
    let k: int = if heading_level_of(t) is Some {
        let f1 = close_block(lines, st.quote, c, FoldKind::Blockquote, st.folds);
        lemma_close_block_prefix(lines, st.quote, c, FoldKind::Blockquote, st.folds);
        let f2 = close_table(lines, st.table, c, f1);
        lemma_close_block_prefix(lines, st.indent, c, FoldKind::IndentedCode, f2);
        assert(f2[f1.len() as int] == f);
        assert(r.folds[f1.len() as int] == f2[f1.len() as int]);
        f1.len() as int
    } else {
        let f1 = close_table(lines, st.table, c, st.folds);
        assert(f1[st.folds.len() as int] == f);
        let f2 = if !starts_with_char(t, '>') {
            close_block(lines, st.quote, c, FoldKind::Blockquote, f1)
        } else {
            f1
        };
        lemma_close_block_prefix(lines, st.quote, c, FoldKind::Blockquote, f1);
        lemma_close_block_prefix(lines, st.indent, c, FoldKind::IndentedCode, f2);
        assert(f2[st.folds.len() as int] == f);
        assert(r.folds[st.folds.len() as int] == f);
        st.folds.len() as int
    };
    lemma_fold_in_result(lines, c + 1, k);
}


/// An indented line that carries code: indented, not blank, and neither a
/// fence, a heading nor a `|` line.
pub open spec fn is_code_line(line: Seq<char>) -> bool {
    &&& is_indented(line)
    &&& !is_blank(line)
    &&& !is_fence(trim(line))
    &&& heading_level_of(trim(line)) is None
    &&& !starts_with_char(trim(line), '|')
}

/// A line that ends an indented code block: not blank, neither a fence nor
/// a `|` line, and either a heading or not indented.
pub open spec fn ends_code_lines(line: Seq<char>) -> bool {
    &&& !is_blank(line)
    &&& !is_fence(trim(line))
    &&& !starts_with_char(trim(line), '|')
    &&& (heading_level_of(trim(line)) is Some || !is_indented(line))
}

proof fn lemma_indent_stays_open(lines: Seq<Seq<char>>, s: nat, y: nat)
    requires
        scan_start(lines) <= s < y <= lines.len(),
        scan_to(lines, s + 1).indent == Some(s),
        !scan_to(lines, s + 1).in_code,
        forall|k: int| s < k < y ==> is_blank(#[trigger] lines[k]) || is_code_line(lines[k]),
    ensures
        scan_to(lines, y).indent == Some(s),
        !scan_to(lines, y).in_code,
    decreases y,
{
    if y > s + 1 {
        let p = (y - 1) as nat;
        lemma_indent_stays_open(lines, s, p);
        lemma_scan_step(lines, p);
        lemma_line_shapes(trim(lines[p as int]));
        lemma_trim_empty_iff_blank(lines[p as int]);
    }
}

/// A run of indented lines in the body, outside code, that begins the body
/// or follows a line that ends indented code, and that runs through blank
/// lines up to a line that ends indented code (a heading included) or to
/// the end of the file, folds from its first line to its last non-blank
/// line, when that lies below the first.
pub proof fn law_indented_code_folded(lines: Seq<Seq<char>>, s: nat, c: nat, x: nat)
    requires
        s < x < c <= lines.len(),
        outside_code(lines, s),
        is_code_line(lines[s as int]),
        forall|y: int| s < y < c ==> is_blank(#[trigger] lines[y]) || is_code_line(lines[y]),
        c == lines.len() || ends_code_lines(lines[c as int]),
        s == body_start(lines) || (outside_code(lines, (s - 1) as nat) && ends_code_lines(
            lines[s - 1],
        )),
        !is_blank(lines[x as int]),
    ensures
        exists|k: int|
            0 <= k < fold_ranges(lines).len() && (#[trigger] fold_ranges(lines)[k]).kind
                == FoldKind::IndentedCode && fold_ranges(lines)[k].start == s && fold_ranges(
                lines,
            )[k].end == last_non_blank(lines, s + 1, c) && x <= fold_ranges(lines)[k].end
                < c,
{
    lemma_body_start(lines);
    lemma_outside_code(lines, s);
    if s > body_start(lines) {
        let p = (s - 1) as nat;
        lemma_outside_code(lines, p);
        lemma_scan_step(lines, p);
        lemma_line_shapes(trim(lines[p as int]));
        lemma_trim_empty_iff_blank(lines[p as int]);
    } else {
        lemma_initial_inv(lines);
    }
    assert(scan_to(lines, s).indent is None);
    lemma_line_shapes(trim(lines[s as int]));
    lemma_trim_empty_iff_blank(lines[s as int]);
    lemma_scan_step(lines, s);
    lemma_indent_stays_open(lines, s, c);
    lemma_last_non_blank(lines, s + 1, c);
    let e = last_non_blank(lines, s + 1, c);
    assert(x <= e < c);
    let f = Fold { kind: FoldKind::IndentedCode, start: s, end: e };
    let st = scan_to(lines, c);
    if c == lines.len() {
        let n = lines.len();
        lemma_final_scan(lines);
        let f1 = close_block(lines, st.quote, n, FoldKind::Blockquote, st.folds);
        let f2 = match st.table {
            Some(ts) => {
                let e2 = last_non_blank(lines, ts + 1, n);
                if e2 > ts && e2 >= ts + 2 {
                    f1.push(Fold { kind: FoldKind::Table, start: ts, end: e2 })
                } else {
                    f1
                }
            },
            None => f1,
        };
        let base = close_at_end(lines, st);
        assert(base == close_block(lines, st.indent, n, FoldKind::IndentedCode, f2));
        assert(base[f2.len() as int] == f);
        assert(fold_ranges(lines)[f2.len() as int] == base[f2.len() as int]);
    } else {
        let t = trim(lines[c as int]);
        lemma_scan_inv(lines, c);
        lemma_scan_step(lines, c);
        lemma_line_shapes(t);
        lemma_trim_empty_iff_blank(lines[c as int]);
        let r = scan_to(lines, c + 1);
        let k: int = if heading_level_of(t) is Some {
            let f1 = close_block(lines, st.quote, c, FoldKind::Blockquote, st.folds);
            let f2 = close_table(lines, st.table, c, f1);
            assert(r.folds[f2.len() as int] == f);
            f2.len() as int
        } else {
            let f1 = close_table(lines, st.table, c, st.folds);
            let f2 = if !starts_with_char(t, '>') {
                close_block(lines, st.quote, c, FoldKind::Blockquote, f1)
            } else {
                f1
            };
            assert(r.folds[f2.len() as int] == f);
            f2.len() as int
        };
        lemma_fold_in_result(lines, c + 1, k);
    }
}


proof fn lemma_headings_outside_code(lines: Seq<Seq<char>>, i: nat)
    requires
        scan_start(lines) <= i <= lines.len(),
    ensures
        forall|a: int|
            0 <= a < scan_to(lines, i).headings.len() ==> scan_start(lines) <= (
            #[trigger] scan_to(lines, i).headings[a]).0 < i && !scan_to(
                lines,
                scan_to(lines, i).headings[a].0,
            ).in_code,
    decreases i,
{
    if i > scan_start(lines) {
        let p = (i - 1) as nat;
        lemma_headings_outside_code(lines, p);
        lemma_scan_step(lines, p);
        lemma_step_in_code(lines, p, scan_to(lines, p));
        let hs0 = scan_to(lines, p).headings;
        let hs1 = scan_to(lines, i).headings;
        assert forall|a: int| 0 <= a < hs1.len() implies scan_start(lines) <= (
        #[trigger] hs1[a]).0 < i && !scan_to(lines, hs1[a].0).in_code by {
            if a < hs0.len() {
                assert(hs1[a] == hs0[a]);
            }
        }
    } else {
        lemma_initial_inv(lines);
    }
}

proof fn lemma_heading_folds_contains(lines: Seq<Seq<char>>, hs: Seq<(nat, nat)>, m: int, idx: int)
    requires
        0 <= idx < m <= hs.len(),
        heading_fold(lines, hs, idx).end > hs[idx].0,
    ensures
        exists|k: int|
            0 <= k < heading_folds(lines, hs, m).len() && #[trigger] heading_folds(lines, hs, m)[k]
                == heading_fold(lines, hs, idx),
    decreases m,
{
    let cur = heading_folds(lines, hs, m);
    let prev = heading_folds(lines, hs, m - 1);
    if idx < m - 1 {
        lemma_heading_folds_contains(lines, hs, m - 1, idx);
        let k = choose|k: int|
            0 <= k < prev.len() && #[trigger] prev[k] == heading_fold(lines, hs, idx);
        assert(cur[k] == prev[k]);
    } else {
        assert(cur[prev.len() as int] == heading_fold(lines, hs, idx));
    }
}

/// Every heading of the body (levels 1 to 6), outside code, folds: when a
/// non-blank line `x` follows it with no heading of the same or a higher
/// level in between (outside code), the heading's fold reaches at least to
/// line `x`.
pub proof fn law_headings_folded(lines: Seq<Seq<char>>, h: nat, x: nat)
    requires
        h < x < lines.len(),
        outside_code(lines, h),
        heading_level_of(trim(lines[h as int])) is Some,
        !is_blank(lines[x as int]),
        forall|y: int|
            h < y <= x && outside_code(lines, y as nat) && heading_level_of(
                #[trigger] trim(lines[y]),
            ) is Some ==> heading_level_of(trim(lines[y]))->0 > heading_level_of(
                trim(lines[h as int]),
            )->0,
    ensures
        exists|k: int|
            0 <= k < fold_ranges(lines).len() && (#[trigger] fold_ranges(lines)[k]).kind
                == FoldKind::Heading && fold_ranges(lines)[k].start == h && fold_ranges(
                lines,
            )[k].end >= x,
{
    let n = lines.len();
    let l = heading_level_of(trim(lines[h as int]))->0;
    lemma_body_start(lines);
    lemma_outside_code(lines, h);
    lemma_line_shapes(trim(lines[h as int]));
    lemma_scan_step(lines, h);
    lemma_step_in_code(lines, h, scan_to(lines, h));
    let idx = scan_to(lines, h).headings.len() as int;
    assert(scan_to(lines, h + 1).headings[idx] == (h, l));
    lemma_folds_persist(lines, h + 1, n);
    lemma_final_scan(lines);
    lemma_headings_outside_code(lines, n);
    let st = scan_to(lines, n);
    let hs = st.headings;
    assert(hs[idx] == (h, l));
    assert(headings_ordered(hs, n));
    lemma_section_end_range(lines, hs, l, idx + 1);
    let se = section_end(lines, hs, idx);
    if se < n {
        let c = choose|c: int| idx + 1 <= c < hs.len() && #[trigger] hs[c].1 <= l && se == hs[c].0;
        assert(hs[idx].0 < hs[c].0);
        let y = hs[c].0;
        lemma_outside_code(lines, y);
        if y <= x {
            assert(heading_level_of(trim(lines[y as int])) == Some(hs[c].1));
            assert(heading_level_of(trim(lines[y as int]))->0 > l);
            assert(false);
        }
    }
    assert(x < se);
    lemma_last_non_blank(lines, h + 1, se);
    assert(heading_fold(lines, hs, idx).end >= x);
    lemma_heading_folds_contains(lines, hs, hs.len() as int, idx);
    let hf = heading_folds(lines, hs, hs.len() as int);
    let k = choose|k: int| 0 <= k < hf.len() && #[trigger] hf[k] == heading_fold(lines, hs, idx);
    let base = close_at_end(lines, st);
    assert(fold_ranges(lines)[base.len() + k] == hf[k]);
}

} // verus!
