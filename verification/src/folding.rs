//! The folding ranges of a Markdown document: front matter, fenced and
//! indented code blocks, blockquotes, tables and heading sections.
use vstd::prelude::*;

use crate::text::{
    chars_of, heading_level_chars, is_blank_chars, is_fence_chars, is_front_matter_marker_chars,
    is_indented_chars, lemma_lines_view, split_lines, starts_with_char_chars, trim_chars,
    heading_level_of, is_blank, is_fence, is_front_matter_marker, is_indented, starts_with_char, text_lines, trim,
};

verus! {

/// What a folding range folds.
#[derive(PartialEq, Eq, Structural, Clone, Copy, Debug)]
pub enum FoldKind {
    /// YAML front matter between two `---` lines at the top of the file.
    FrontMatter,
    /// A fenced code block, from its opening fence to its closing fence.
    CodeBlock,
    /// A run of consecutive `>` lines; a blank line or any other text ends it.
    Blockquote,
    /// A run of `|` lines.
    Table,
    /// A run of lines indented by four spaces or a tab.
    IndentedCode,
    /// A heading and its section.
    Heading,
}

/// A folding range: the lines `start_line..=end_line` fold into the first.
#[derive(PartialEq, Eq, Structural, Clone, Copy, Debug)]
pub struct FoldRange {
    pub start_line: u32,
    pub end_line: u32,
    pub kind: FoldKind,
}

/// A folding range in the mathematical model.
pub struct Fold {
    pub kind: FoldKind,
    pub start: nat,
    pub end: nat,
}

impl View for FoldRange {
    type V = Fold;

    open spec fn view(&self) -> Fold {
        Fold { kind: self.kind, start: self.start_line as nat, end: self.end_line as nat }
    }
}

/// The folds that a sequence of ranges stands for.
pub open spec fn folds_view(v: Seq<FoldRange>) -> Seq<Fold> {
    v.map_values(|r: FoldRange| r@)
}

/// The last non-blank line among `start..end`, or `start - 1` (saturating at
/// zero) when all of them are blank.
pub open spec fn last_non_blank(lines: Seq<Seq<char>>, start: nat, end: nat) -> nat
    decreases end,
{
    if end <= start {
        if start == 0 {
            0
        } else {
            (start - 1) as nat
        }
    } else if !is_blank(lines[end - 1]) {
        (end - 1) as nat
    } else {
        last_non_blank(lines, start, (end - 1) as nat)
    }
}

/// The first line at or after `from` that trims to `---`.
pub open spec fn marker_from(lines: Seq<Seq<char>>, from: nat) -> Option<nat>
    decreases lines.len() - from,
{
    if from >= lines.len() {
        None
    } else if is_front_matter_marker(trim(lines[from as int])) {
        Some(from)
    } else {
        marker_from(lines, from + 1)
    }
}

/// The closing `---` line of front matter that opens on line 0.
pub open spec fn front_matter_end(lines: Seq<Seq<char>>) -> Option<nat> {
    if lines.len() > 0 && is_front_matter_marker(trim(lines[0])) {
        marker_from(lines, 1)
    } else {
        None
    }
}

/// The first line that the block scan looks at: the one after front matter.
pub open spec fn scan_start(lines: Seq<Seq<char>>) -> nat {
    match front_matter_end(lines) {
        Some(j) => j + 1,
        None => 0,
    }
}

/// The state of the block scan between two lines.
pub struct ScanState {
    /// Inside a fenced code block.
    pub in_code: bool,
    /// The line of the last opening fence.
    pub code_start: nat,
    /// The first line of an open blockquote.
    pub quote: Option<nat>,
    /// The first line of an open table.
    pub table: Option<nat>,
    /// The first line of an open indented code block.
    pub indent: Option<nat>,
    /// The folds found so far.
    pub folds: Seq<Fold>,
    /// The headings found so far: line and level.
    pub headings: Seq<(nat, nat)>,
}

/// The state before the first scanned line.
pub open spec fn initial_state(lines: Seq<Seq<char>>) -> ScanState {
    ScanState {
        in_code: false,
        code_start: 0,
        quote: None,
        table: None,
        indent: None,
        folds: match front_matter_end(lines) {
            Some(j) => seq![Fold { kind: FoldKind::FrontMatter, start: 0, end: j }],
            None => seq![],
        },
        headings: seq![],
    }
}

/// Closes a block of `kind` opened at `open` when line `i` ends it: it
/// folds to its last non-blank line, if that lies below its first line.
pub open spec fn close_block(
    lines: Seq<Seq<char>>,
    open: Option<nat>,
    i: nat,
    kind: FoldKind,
    folds: Seq<Fold>,
) -> Seq<Fold> {
    match open {
        Some(s) => {
            let e = last_non_blank(lines, s + 1, i);
            if e > s {
                folds.push(Fold { kind, start: s, end: e })
            } else {
                folds
            }
        },
        None => folds,
    }
}

/// Closes a table opened at `open` when line `i` ends it: it folds when
/// it spans at least two lines before line `i`.
pub open spec fn close_table(lines: Seq<Seq<char>>, open: Option<nat>, i: nat, folds: Seq<Fold>) -> Seq<
    Fold,
> {
    match open {
        Some(s) => if i >= s + 2 {
            folds.push(Fold { kind: FoldKind::Table, start: s, end: last_non_blank(lines, s + 1, i) })
        } else {
            folds
        },
        None => folds,
    }
}

/// `open` if a block is open, else `Some(i)`.
pub open spec fn keep_or_open(open: Option<nat>, i: nat) -> Option<nat> {
    if open is None {
        Some(i)
    } else {
        open
    }
}

/// The scan of line `i`.
pub open spec fn step(lines: Seq<Seq<char>>, i: nat, st: ScanState) -> ScanState {
    let line = lines[i as int];
    let t = trim(line);
    if is_fence(t) {
        if st.in_code {
            ScanState {
                in_code: false,
                folds: if i > st.code_start {
                    st.folds.push(Fold { kind: FoldKind::CodeBlock, start: st.code_start, end: i })
                } else {
                    st.folds
                },
                ..st
            }
        } else {
            ScanState { in_code: true, code_start: i, ..st }
        }
    } else if st.in_code {
        st
    } else if heading_level_of(t) is Some {
        let f1 = close_block(lines, st.quote, i, FoldKind::Blockquote, st.folds);
        let f2 = close_table(lines, st.table, i, f1);
        let f3 = close_block(lines, st.indent, i, FoldKind::IndentedCode, f2);
        ScanState {
            quote: None,
            table: None,
            indent: None,
            folds: f3,
            headings: st.headings.push((i, heading_level_of(t)->0)),
            ..st
        }
    } else if starts_with_char(t, '|') {
        ScanState { table: keep_or_open(st.table, i), ..st }
    } else {
        let f1 = close_table(lines, st.table, i, st.folds);
        let quote = if starts_with_char(t, '>') {
            keep_or_open(st.quote, i)
        } else {
            None
        };
        let f2 = if !starts_with_char(t, '>') {
            close_block(lines, st.quote, i, FoldKind::Blockquote, f1)
        } else {
            f1
        };
        let indent = if is_indented(line) {
            keep_or_open(st.indent, i)
        } else if t.len() > 0 {
            None
        } else {
            st.indent
        };
        let f3 = if !is_indented(line) && t.len() > 0 {
            close_block(lines, st.indent, i, FoldKind::IndentedCode, f2)
        } else {
            f2
        };
        ScanState { table: None, quote, indent, folds: f3, ..st }
    }
}

/// The state after scanning every line before line `i`.
pub open spec fn scan_to(lines: Seq<Seq<char>>, i: nat) -> ScanState
    decreases i,
{
    if i <= scan_start(lines) {
        initial_state(lines)
    } else {
        step(lines, (i - 1) as nat, scan_to(lines, (i - 1) as nat))
    }
}

/// The blocks still open at the end of the file close there. A table that
/// reaches the end of the file folds only when it spans more than two
/// lines (one that ends before a later line folds from two lines on).
pub open spec fn close_at_end(lines: Seq<Seq<char>>, st: ScanState) -> Seq<Fold> {
    let n = lines.len();
    let f1 = close_block(lines, st.quote, n, FoldKind::Blockquote, st.folds);
    let f2 = match st.table {
        Some(s) => {
            let e = last_non_blank(lines, s + 1, n);
            if e > s && e >= s + 2 {
                f1.push(Fold { kind: FoldKind::Table, start: s, end: e })
            } else {
                f1
            }
        },
        None => f1,
    };
    close_block(lines, st.indent, n, FoldKind::IndentedCode, f2)
}

/// The line of the first heading at or after index `k` whose level is at
/// most `level`, or the number of lines if there is none.
pub open spec fn section_end_from(
    lines: Seq<Seq<char>>,
    hs: Seq<(nat, nat)>,
    level: nat,
    k: int,
) -> nat
    decreases hs.len() - k,
{
    if k >= hs.len() {
        lines.len()
    } else if hs[k].1 <= level {
        hs[k].0
    } else {
        section_end_from(lines, hs, level, k + 1)
    }
}

/// The end of the section of heading `idx`.
pub open spec fn section_end(lines: Seq<Seq<char>>, hs: Seq<(nat, nat)>, idx: int) -> nat {
    section_end_from(lines, hs, hs[idx].1, idx + 1)
}

/// The folds of the first `m` headings: each folds to the last non-blank
/// line of its section, if that lies below the heading.
pub open spec fn heading_folds(lines: Seq<Seq<char>>, hs: Seq<(nat, nat)>, m: int) -> Seq<Fold>
    decreases m,
{
    if m <= 0 {
        seq![]
    } else {
        let prev = heading_folds(lines, hs, m - 1);
        let s = hs[m - 1].0;
        let e = last_non_blank(lines, s + 1, section_end(lines, hs, m - 1));
        if e > s {
            prev.push(Fold { kind: FoldKind::Heading, start: s, end: e })
        } else {
            prev
        }
    }
}

/// The folding ranges of a document given by its lines, in the order in
/// which they are reported.
pub open spec fn fold_ranges(lines: Seq<Seq<char>>) -> Seq<Fold> {
    let st = scan_to(lines, lines.len());
    close_at_end(lines, st) + heading_folds(lines, st.headings, st.headings.len() as int)
}

/// The folding ranges of a document.
pub open spec fn folds_of_text(text: Seq<char>) -> Seq<Fold> {
    fold_ranges(text_lines(text))
}


/// The last non-blank line among `start..end`, or `start - 1` (saturating at
/// zero) when all of them are blank.
fn last_non_blank_line(lines: &Vec<Vec<char>>, start: usize, end: usize) -> (res: u32)
    requires
        end <= lines@.len(),
        lines@.len() <= u32::MAX,
        start <= u32::MAX + 1,
    ensures
        res as nat == last_non_blank(lines.deep_view(), start as nat, end as nat),
        start <= end ==> res as nat <= end,
{
    proof {
        lemma_lines_view(lines);
    }
    let ghost ls = lines.deep_view();
    if end <= start {
        return if start == 0 {
            0
        } else {
            (start - 1) as u32
        };
    }
    let mut k = end;
    while k > start
        invariant
            start <= k <= end <= lines@.len(),
            lines@.len() <= u32::MAX,
            ls == lines.deep_view(),
            forall|i: int| 0 <= i < lines@.len() ==> ls[i] == #[trigger] lines@[i]@,
            last_non_blank(ls, start as nat, end as nat) == last_non_blank(
                ls,
                start as nat,
                k as nat,
            ),
        decreases k,
    {
        if !is_blank_chars(lines[k - 1].as_slice()) {
            return (k - 1) as u32;
        }
        k = k - 1;
    }
    if start == 0 {
        0
    } else {
        (start - 1) as u32
    }
}

/// The view of an optional line number.
pub open spec fn opt_line(o: Option<u32>) -> Option<nat> {
    match o {
        Some(s) => Some(s as nat),
        None => None,
    }
}

/// The headings that a vector of (line, level) pairs stands for.
pub open spec fn headings_view(v: Seq<(u32, usize)>) -> Seq<(nat, nat)> {
    v.map_values(|h: (u32, usize)| (h.0 as nat, h.1 as nat))
}

/// The heading lines strictly increase and lie before line `n`.
pub open spec fn headings_ordered(hs: Seq<(nat, nat)>, n: nat) -> bool {
    &&& forall|a: int, b: int| 0 <= a < b < hs.len() ==> #[trigger] hs[a].0 < #[trigger] hs[b].0
    &&& forall|a: int| 0 <= a < hs.len() ==> #[trigger] hs[a].0 < n
}

/// The running state of the block scan.
struct Scanner {
    in_code: bool,
    code_start: u32,
    quote: Option<u32>,
    table: Option<u32>,
    indent: Option<u32>,
    ranges: Vec<FoldRange>,
    headings: Vec<(u32, usize)>,
}

impl Scanner {
    spec fn state(&self) -> ScanState {
        ScanState {
            in_code: self.in_code,
            code_start: self.code_start as nat,
            quote: opt_line(self.quote),
            table: opt_line(self.table),
            indent: opt_line(self.indent),
            folds: folds_view(self.ranges@),
            headings: headings_view(self.headings@),
        }
    }

    /// Every open block started on an earlier line than `i`.
    spec fn opened_before(&self, i: nat) -> bool {
        &&& (self.quote matches Some(s) ==> s < i)
        &&& (self.table matches Some(s) ==> s < i)
        &&& (self.indent matches Some(s) ==> s < i)
        &&& headings_ordered(headings_view(self.headings@), i)
    }
}

proof fn lemma_folds_push(v: Seq<FoldRange>, r: FoldRange)
    ensures
        folds_view(v.push(r)) == folds_view(v).push(r@),
{
    assert(folds_view(v.push(r)) =~= folds_view(v).push(r@));
}

proof fn lemma_headings_push(v: Seq<(u32, usize)>, h: (u32, usize))
    ensures
        headings_view(v.push(h)) == headings_view(v).push((h.0 as nat, h.1 as nat)),
{
    assert(headings_view(v.push(h)) =~= headings_view(v).push((h.0 as nat, h.1 as nat)));
}

/// Closes a block of `kind` opened at `open` before line `i`.
fn close_block_at(
    lines: &Vec<Vec<char>>,
    open: Option<u32>,
    i: usize,
    kind: FoldKind,
    ranges: &mut Vec<FoldRange>,
)
    requires
        i <= lines@.len() <= u32::MAX,
        open matches Some(s) ==> s < i,
    ensures
        folds_view(final(ranges)@) == close_block(
            lines.deep_view(),
            opt_line(open),
            i as nat,
            kind,
            folds_view(old(ranges)@),
        ),
{
    if let Some(s) = open {
        let e = last_non_blank_line(lines, s as usize + 1, i);
        if e > s {
            let r = FoldRange { start_line: s, end_line: e, kind };
            proof {
                lemma_folds_push(ranges@, r);
            }
            ranges.push(r);
        }
    }
}

/// Closes a table opened at `open` before line `i`.
fn close_table_at(lines: &Vec<Vec<char>>, open: Option<u32>, i: usize, ranges: &mut Vec<FoldRange>)
    requires
        i <= lines@.len() <= u32::MAX,
        open matches Some(s) ==> s < i,
    ensures
        folds_view(final(ranges)@) == close_table(
            lines.deep_view(),
            opt_line(open),
            i as nat,
            folds_view(old(ranges)@),
        ),
{
    if let Some(s) = open {
        if i - s as usize >= 2 {
            let e = last_non_blank_line(lines, s as usize + 1, i);
            let r = FoldRange { start_line: s, end_line: e, kind: FoldKind::Table };
            proof {
                lemma_folds_push(ranges@, r);
            }
            ranges.push(r);
        }
    }
}

/// Scans line `i`.
fn scan_line(lines: &Vec<Vec<char>>, i: usize, sc: &mut Scanner)
    requires
        i < lines@.len() <= u32::MAX,
        old(sc).opened_before(i as nat),
    ensures
        final(sc).state() == step(lines.deep_view(), i as nat, old(sc).state()),
        final(sc).opened_before(i as nat + 1),
{
    proof {
        lemma_lines_view(lines);
    }
    let ghost ls = lines.deep_view();
    let ghost st = sc.state();
    let line = lines[i].as_slice();
    let t = trim_chars(line);
    let ln = i as u32;
    if is_fence_chars(t.as_slice()) {
        if sc.in_code {
            if ln > sc.code_start {
                let r = FoldRange { start_line: sc.code_start, end_line: ln, kind: FoldKind::CodeBlock };
                proof {
                    lemma_folds_push(sc.ranges@, r);
                }
                sc.ranges.push(r);
            }
            sc.in_code = false;
        } else {
            sc.in_code = true;
            sc.code_start = ln;
        }
        assert(sc.state() =~= step(ls, i as nat, st));
        return;
    }
    if sc.in_code {
        return;
    }
    let level = heading_level_chars(t.as_slice());
    if let Some(lv) = level {
        let q = sc.quote;
        let tb = sc.table;
        let ic = sc.indent;
        sc.quote = None;
        sc.table = None;
        sc.indent = None;
        close_block_at(lines, q, i, FoldKind::Blockquote, &mut sc.ranges);
        close_table_at(lines, tb, i, &mut sc.ranges);
        close_block_at(lines, ic, i, FoldKind::IndentedCode, &mut sc.ranges);
        proof {
            lemma_headings_push(sc.headings@, (ln, lv));
        }
        sc.headings.push((ln, lv));
        assert(sc.state() =~= step(ls, i as nat, st));
        return;
    }
    if starts_with_char_chars(t.as_slice(), '|') {
        if sc.table.is_none() {
            sc.table = Some(ln);
        }
        assert(sc.state() =~= step(ls, i as nat, st));
        return;
    }
    let tb = sc.table;
    sc.table = None;
    close_table_at(lines, tb, i, &mut sc.ranges);
    if starts_with_char_chars(t.as_slice(), '>') {
        if sc.quote.is_none() {
            sc.quote = Some(ln);
        }
    } else {
        let q = sc.quote;
        sc.quote = None;
        close_block_at(lines, q, i, FoldKind::Blockquote, &mut sc.ranges);
    }
    if is_indented_chars(line) {
        if sc.indent.is_none() {
            sc.indent = Some(ln);
        }
    } else if t.len() > 0 {
        let ic = sc.indent;
        sc.indent = None;
        close_block_at(lines, ic, i, FoldKind::IndentedCode, &mut sc.ranges);
    }
    assert(sc.state() =~= step(ls, i as nat, st));
}


/// Where the section that starts its search at heading `k` can end.
pub proof fn lemma_section_end_range(lines: Seq<Seq<char>>, hs: Seq<(nat, nat)>, level: nat, k: int)
    requires
        0 <= k,
        headings_ordered(hs, lines.len()),
    ensures
        section_end_from(lines, hs, level, k) <= lines.len(),
        k < hs.len() ==> section_end_from(lines, hs, level, k) >= hs[k].0,
        forall|j: int|
            k <= j < hs.len() && #[trigger] hs[j].1 <= level ==> section_end_from(
                lines,
                hs,
                level,
                k,
            ) <= hs[j].0,
        section_end_from(lines, hs, level, k) == lines.len() || exists|c: int|
            k <= c < hs.len() && #[trigger] hs[c].1 <= level && section_end_from(lines, hs, level, k)
                == hs[c].0,
    decreases hs.len() - k,
{
    if k < hs.len() && hs[k].1 > level {
        lemma_section_end_range(lines, hs, level, k + 1);
    }
    if k < hs.len() && hs[k].1 <= level {
        assert forall|j: int| k <= j < hs.len() && #[trigger] hs[j].1 <= level implies hs[k].0
            <= hs[j].0 by {
            if j > k {
                assert(hs[k].0 < hs[j].0);
            }
        }
    }
}

/// The folding ranges of a document given by its lines.
fn fold_lines(lines: &Vec<Vec<char>>) -> (res: Vec<FoldRange>)
    requires
        lines@.len() <= u32::MAX,
    ensures
        folds_view(res@) == fold_ranges(lines.deep_view()),
{
    proof {
        lemma_lines_view(lines);
    }
    let ghost ls = lines.deep_view();
    let n = lines.len();
    let mut ranges: Vec<FoldRange> = Vec::new();
    let mut start: usize = 0;
    if n > 0 && is_front_matter_marker_chars(trim_chars(lines[0].as_slice()).as_slice()) {
        let mut j: usize = 1;
        while j < n && !is_front_matter_marker_chars(trim_chars(lines[j].as_slice()).as_slice())
            invariant
                1 <= j <= n,
                n == lines@.len(),
                ls == lines.deep_view(),
                forall|i: int| 0 <= i < lines@.len() ==> ls[i] == #[trigger] lines@[i]@,
                marker_from(ls, 1) == marker_from(ls, j as nat),
            decreases n - j,
        {
            j = j + 1;
        }
        if j < n {
            let r = FoldRange { start_line: 0, end_line: j as u32, kind: FoldKind::FrontMatter };
            proof {
                lemma_folds_push(ranges@, r);
            }
            ranges.push(r);
            start = j + 1;
            assert(front_matter_end(ls) == Some(j as nat));
        } else {
            assert(front_matter_end(ls) is None);
        }
    } else {
        assert(front_matter_end(ls) is None);
    }
    assert(folds_view(ranges@) =~= initial_state(ls).folds);

    let mut sc = Scanner {
        in_code: false,
        code_start: 0,
        quote: None,
        table: None,
        indent: None,
        ranges,
        headings: Vec::new(),
    };
    assert(headings_view(sc.headings@) =~= Seq::<(nat, nat)>::empty());
    assert(sc.state() =~= initial_state(ls));
    assert(start as nat == scan_start(ls));
    let mut i: usize = start;
    while i < n
        invariant
            start <= i <= n,
            n == lines@.len() <= u32::MAX,
            ls == lines.deep_view(),
            start as nat == scan_start(ls),
            sc.state() == scan_to(ls, i as nat),
            sc.opened_before(i as nat),
        decreases n - i,
    {
        scan_line(lines, i, &mut sc);
        i = i + 1;
    }
    let ghost st = sc.state();
    let q = sc.quote;
    let tb = sc.table;
    let ic = sc.indent;
    let mut ranges = sc.ranges;
    let headings = sc.headings;
    close_block_at(lines, q, n, FoldKind::Blockquote, &mut ranges);
    if let Some(s) = tb {
        let e = last_non_blank_line(lines, s as usize + 1, n);
        if e > s && e - s >= 2 {
            let r = FoldRange { start_line: s, end_line: e, kind: FoldKind::Table };
            proof {
                lemma_folds_push(ranges@, r);
            }
            ranges.push(r);
        }
    }
    close_block_at(lines, ic, n, FoldKind::IndentedCode, &mut ranges);
    let ghost hs = headings_view(headings@);
    let ghost base = close_at_end(ls, st);
    assert(folds_view(ranges@) == base);
    assert(base + heading_folds(ls, hs, 0) =~= base);
    let h = headings.len();
    let mut idx: usize = 0;
    while idx < h
        invariant
            idx <= h == headings@.len(),
            n == lines@.len() <= u32::MAX,
            ls == lines.deep_view(),
            hs == headings_view(headings@),
            headings_ordered(hs, n as nat),
            folds_view(ranges@) == base + heading_folds(ls, hs, idx as int),
        decreases h - idx,
    {
        let (s, level) = headings[idx];
        let mut k: usize = idx + 1;
        while k < h && headings[k].1 > level
            invariant
                idx < k <= h == headings@.len(),
                hs == headings_view(headings@),
                level as nat == hs[idx as int].1,
                section_end(ls, hs, idx as int) == section_end_from(ls, hs, level as nat, k as int),
            decreases h - k,
        {
            k = k + 1;
        }
        let section_end_line: usize = if k < h {
            headings[k].0 as usize
        } else {
            n
        };
        proof {
            lemma_section_end_range(ls, hs, level as nat, k as int);
            lemma_section_end_range(ls, hs, level as nat, idx + 1);
            if idx + 1 < h {
                assert(hs[idx as int].0 < hs[idx + 1].0);
            }
        }
        let e = last_non_blank_line(lines, s as usize + 1, section_end_line);
        let ghost prev = folds_view(ranges@);
        if e > s {
            let r = FoldRange { start_line: s, end_line: e, kind: FoldKind::Heading };
            proof {
                lemma_folds_push(ranges@, r);
            }
            ranges.push(r);
            assert(folds_view(ranges@) =~= base + heading_folds(ls, hs, idx + 1));
        } else {
            assert(folds_view(ranges@) =~= base + heading_folds(ls, hs, idx + 1));
        }
        idx = idx + 1;
    }
    assert(scan_to(ls, n as nat) == st);
    ranges
}

/// The folding ranges of a Markdown document, in the order in which they
/// are reported: front matter, then code blocks, blockquotes, tables and
/// indented code blocks as the scan closes them, then heading sections.
pub fn compute_folding_ranges(text: &str) -> (res: Vec<FoldRange>)
    requires
        text_lines(text@).len() <= u32::MAX,
    ensures
        folds_view(res@) == folds_of_text(text@),
{
    let chars = chars_of(text);
    let lines = split_lines(chars.as_slice());
    proof {
        lemma_lines_view(&lines);
    }
    fold_lines(&lines)
}


/// The folding ranges of a Markdown document, or `None` when the document
/// has more lines than a `u32` line number can address.
pub fn try_compute_folding_ranges(text: &str) -> (res: Option<Vec<FoldRange>>)
    ensures
        match res {
            Some(v) => text_lines(text@).len() <= u32::MAX && folds_view(v@) == folds_of_text(
                text@,
            ),
            None => text_lines(text@).len() > u32::MAX,
        },
{
    let chars = chars_of(text);
    let lines = split_lines(chars.as_slice());
    proof {
        lemma_lines_view(&lines);
    }
    if lines.len() > 4294967295usize {
        return None;
    }
    Some(fold_lines(&lines))
}

/// The placeholder an editor shows for a folded range of `kind`; a heading
/// has none, so that the heading text itself stays visible.
pub open spec fn collapsed_text_of(kind: FoldKind) -> Option<Seq<char>> {
    match kind {
        FoldKind::FrontMatter => Some("---"@),
        FoldKind::CodeBlock => Some("..."@),
        FoldKind::Blockquote => Some("> ..."@),
        FoldKind::Table => Some("| ..."@),
        FoldKind::IndentedCode => Some("    ..."@),
        FoldKind::Heading => None,
    }
}

impl FoldKind {
    /// The placeholder an editor shows for a folded range of this kind.
    pub fn collapsed_text(&self) -> (res: Option<String>)
        ensures
            match res {
                Some(s) => collapsed_text_of(*self) == Some(s@),
                None => collapsed_text_of(*self) is None,
            },
    {
        match self {
            FoldKind::FrontMatter => Some(String::from_str("---")),
            FoldKind::CodeBlock => Some(String::from_str("...")),
            FoldKind::Blockquote => Some(String::from_str("> ...")),
            FoldKind::Table => Some(String::from_str("| ...")),
            FoldKind::IndentedCode => Some(String::from_str("    ...")),
            FoldKind::Heading => None,
        }
    }
}

impl FoldRange {
    /// The placeholder an editor shows when this range is folded.
    pub fn collapsed_text(&self) -> (res: Option<String>)
        ensures
            match res {
                Some(s) => collapsed_text_of(self.kind) == Some(s@),
                None => collapsed_text_of(self.kind) is None,
            },
    {
        self.kind.collapsed_text()
    }
}

} // verus!
