//! Characters, lines and the small predicates on them that the folding
//! rules are built from.
use vstd::prelude::*;

verus! {

/// Unicode `White_Space`: the characters for which `char::is_whitespace`
/// holds, and which `str::trim` strips.
pub open spec fn is_whitespace(c: char) -> bool {
    ||| ('\u{9}' <= c && c <= '\u{d}')
    ||| c == ' '
    ||| c == '\u{85}'
    ||| c == '\u{a0}'
    ||| c == '\u{1680}'
    ||| ('\u{2000}' <= c && c <= '\u{200a}')
    ||| c == '\u{2028}'
    ||| c == '\u{2029}'
    ||| c == '\u{202f}'
    ||| c == '\u{205f}'
    ||| c == '\u{3000}'
}

/// `s` without its leading whitespace.
pub open spec fn trim_start(s: Seq<char>) -> Seq<char>
    decreases s.len(),
{
    if s.len() > 0 && is_whitespace(s[0]) {
        trim_start(s.drop_first())
    } else {
        s
    }
}

/// `s` without its trailing whitespace.
pub open spec fn trim_end(s: Seq<char>) -> Seq<char>
    decreases s.len(),
{
    if s.len() > 0 && is_whitespace(s.last()) {
        trim_end(s.drop_last())
    } else {
        s
    }
}

/// `s` without leading and trailing whitespace.
pub open spec fn trim(s: Seq<char>) -> Seq<char> {
    trim_end(trim_start(s))
}

/// A line is blank when it holds nothing but whitespace.
pub open spec fn is_blank(s: Seq<char>) -> bool {
    forall|k: int| 0 <= k < s.len() ==> is_whitespace(#[trigger] s[k])
}

/// `line` with one carriage return removed from its end, if it has one.
pub open spec fn strip_cr(line: Seq<char>) -> Seq<char> {
    if line.len() > 0 && line.last() == '\r' {
        line.drop_last()
    } else {
        line
    }
}

/// The lines of `rest`, given that `cur` holds the part of the current line
/// that came before `rest`.
pub open spec fn lines_from(rest: Seq<char>, cur: Seq<char>) -> Seq<Seq<char>>
    decreases rest.len(),
{
    if rest.len() == 0 {
        if cur.len() == 0 {
            seq![]
        } else {
            seq![cur]
        }
    } else if rest[0] == '\n' {
        seq![strip_cr(cur)] + lines_from(rest.drop_first(), seq![])
    } else {
        lines_from(rest.drop_first(), cur.push(rest[0]))
    }
}

/// The lines of a text, as `str::lines` gives them: the text is split at
/// each `\n`, a `\r` just before a `\n` belongs to the line ending, and a
/// final line ending is optional (it does not open an empty last line).
pub open spec fn text_lines(s: Seq<char>) -> Seq<Seq<char>> {
    lines_from(s, seq![])
}

/// The number of `#` characters that `s` starts with.
pub open spec fn leading_hashes(s: Seq<char>) -> nat
    decreases s.len(),
{
    if s.len() > 0 && s[0] == '#' {
        1 + leading_hashes(s.drop_first())
    } else {
        0
    }
}

/// The level of an ATX heading: `line` starts with one to six `#`, followed
/// by a space or by nothing at all.
pub open spec fn heading_level_of(line: Seq<char>) -> Option<nat> {
    let n = leading_hashes(line);
    if 1 <= n && n <= 6 && (line.len() == n || line[n as int] == ' ') {
        Some(n)
    } else {
        None
    }
}

/// `t` starts with three backticks or three tildes.
pub open spec fn is_fence(t: Seq<char>) -> bool {
    t.len() >= 3 && ((t[0] == '`' && t[1] == '`' && t[2] == '`') || (t[0] == '~' && t[1] == '~'
        && t[2] == '~'))
}

/// `t` is exactly `---`.
pub open spec fn is_front_matter_marker(t: Seq<char>) -> bool {
    t =~= seq!['-', '-', '-']
}

/// `s` starts with the character `c`.
pub open spec fn starts_with_char(s: Seq<char>, c: char) -> bool {
    s.len() > 0 && s[0] == c
}

/// `line` starts with four spaces or with a tab.
pub open spec fn is_indented(line: Seq<char>) -> bool {
    ||| (line.len() >= 4 && line[0] == ' ' && line[1] == ' ' && line[2] == ' ' && line[3] == ' ')
    ||| starts_with_char(line, '\t')
}

/// Whether `c` is whitespace.
pub fn is_whitespace_char(c: char) -> (res: bool)
    ensures
        res == is_whitespace(c),
{
    ('\u{9}' <= c && c <= '\u{d}') || c == ' ' || c == '\u{85}' || c == '\u{a0}' || c
        == '\u{1680}' || ('\u{2000}' <= c && c <= '\u{200a}') || c == '\u{2028}' || c == '\u{2029}'
        || c == '\u{202f}' || c == '\u{205f}' || c == '\u{3000}'
}

/// The characters of `s`, in order.
pub fn chars_of(s: &str) -> (res: Vec<char>)
    ensures
        res@ == s@,
{
    broadcast use vstd::string::group_string_axioms;

    let mut out: Vec<char> = Vec::new();
    for c in it: s.chars()
        invariant
            it.seq() == s@,
            out@ == it.seq().take(it.index() as int),
    {
        out.push(c);
    }
    out
}

/// Whether two strings hold the same characters.
pub fn str_eq(a: &str, b: &str) -> (res: bool)
    ensures
        res == (a@ == b@),
{
    let x = chars_of(a);
    let y = chars_of(b);
    if x.len() != y.len() {
        return false;
    }
    let mut k: usize = 0;
    while k < x.len()
        invariant
            x@ == a@,
            y@ == b@,
            x.len() == y.len(),
            k <= x.len(),
            forall|j: int| 0 <= j < k ==> x@[j] == y@[j],
        decreases x.len() - k,
    {
        if x[k] != y[k] {
            return false;
        }
        k = k + 1;
    }
    assert(x@ =~= y@);
    true
}

proof fn lemma_trim_start_skip(s: Seq<char>, lo: int)
    requires
        0 <= lo <= s.len(),
        forall|k: int| 0 <= k < lo ==> is_whitespace(#[trigger] s[k]),
        lo == s.len() || !is_whitespace(s[lo]),
    ensures
        trim_start(s) == s.skip(lo),
    decreases lo,
{
    if lo == 0 {
        assert(s.skip(0) =~= s);
    } else {
        lemma_trim_start_skip(s.drop_first(), lo - 1);
        assert(s.drop_first().skip(lo - 1) =~= s.skip(lo));
    }
}

proof fn lemma_trim_end_take(s: Seq<char>, hi: int)
    requires
        0 <= hi <= s.len(),
        forall|k: int| hi <= k < s.len() ==> is_whitespace(#[trigger] s[k]),
        hi == 0 || !is_whitespace(s[hi - 1]),
    ensures
        trim_end(s) == s.take(hi),
    decreases s.len() - hi,
{
    if hi == s.len() {
        assert(s.take(hi) =~= s);
    } else {
        lemma_trim_end_take(s.drop_last(), hi);
        assert(s.drop_last().take(hi) =~= s.take(hi));
    }
}

/// `line` without leading and trailing whitespace.
pub fn trim_chars(line: &[char]) -> (res: Vec<char>)
    ensures
        res@ == trim(line@),
{
    let n = line.len();
    let mut lo: usize = 0;
    while lo < n && is_whitespace_char(line[lo])
        invariant
            n == line@.len(),
            lo <= n,
            forall|k: int| 0 <= k < lo ==> is_whitespace(#[trigger] line@[k]),
        decreases n - lo,
    {
        lo = lo + 1;
    }
    let mut hi: usize = n;
    while hi > lo && is_whitespace_char(line[hi - 1])
        invariant
            n == line@.len(),
            lo <= hi <= n,
            forall|k: int| hi <= k < n ==> is_whitespace(#[trigger] line@[k]),
        decreases hi,
    {
        hi = hi - 1;
    }
    let mut out: Vec<char> = Vec::new();
    let mut k: usize = lo;
    while k < hi
        invariant
            n == line@.len(),
            lo <= k <= hi <= n,
            out@ == line@.subrange(lo as int, k as int),
        decreases hi - k,
    {
        out.push(line[k]);
        k = k + 1;
    }
    proof {
        lemma_trim_start_skip(line@, lo as int);
        let t = line@.skip(lo as int);
        lemma_trim_end_take(t, hi - lo);
        assert(t.take(hi - lo) =~= line@.subrange(lo as int, hi as int));
    }
    out
}

/// A sequence trims to nothing exactly when it is blank.
pub proof fn lemma_trim_empty_iff_blank(s: Seq<char>)
    ensures
        (trim(s).len() == 0) <==> is_blank(s),
    decreases s.len(),
{
    if s.len() > 0 && is_whitespace(s[0]) {
        lemma_trim_empty_iff_blank(s.drop_first());
        assert(trim(s) == trim(s.drop_first()));
        if is_blank(s.drop_first()) {
            assert forall|k: int| 0 <= k < s.len() implies is_whitespace(#[trigger] s[k]) by {
                if k > 0 {
                    assert(s[k] == s.drop_first()[k - 1]);
                }
            }
        }
        if is_blank(s) {
            assert forall|k: int| 0 <= k < s.drop_first().len() implies is_whitespace(
                #[trigger] s.drop_first()[k],
            ) by {
                assert(s.drop_first()[k] == s[k + 1]);
            }
        }
    } else if s.len() > 0 {
        lemma_trim_end_keeps_nonempty(s);
    } else {
    }
}

/// Trimming the end of a sequence that starts with a non-whitespace
/// character leaves that character in place.
proof fn lemma_trim_end_keeps_nonempty(s: Seq<char>)
    requires
        s.len() > 0,
        !is_whitespace(s[0]),
    ensures
        trim_end(s).len() > 0,
    decreases s.len(),
{
    if is_whitespace(s.last()) {
        assert(s.len() > 1);
        assert(s.drop_last()[0] == s[0]);
        lemma_trim_end_keeps_nonempty(s.drop_last());
    }
}


/// Whether `line` holds nothing but whitespace.
pub fn is_blank_chars(line: &[char]) -> (res: bool)
    ensures
        res == is_blank(line@),
{
    let mut k: usize = 0;
    while k < line.len()
        invariant
            k <= line@.len(),
            forall|j: int| 0 <= j < k ==> is_whitespace(#[trigger] line@[j]),
        decreases line.len() - k,
    {
        if !is_whitespace_char(line[k]) {
            return false;
        }
        k = k + 1;
    }
    true
}

proof fn lemma_leading_hashes(s: Seq<char>, n: int)
    requires
        0 <= n <= s.len(),
        forall|k: int| 0 <= k < n ==> #[trigger] s[k] == '#',
        n == s.len() || s[n] != '#',
    ensures
        leading_hashes(s) == n,
    decreases n,
{
    if n > 0 {
        lemma_leading_hashes(s.drop_first(), n - 1);
    }
}

/// The level (1 to 6) of `line` as an ATX heading, or `None` where it is
/// not one.
pub fn heading_level_chars(line: &[char]) -> (res: Option<usize>)
    ensures
        match heading_level_of(line@) {
            Some(n) => res == Some(n as usize),
            None => res is None,
        },
{
    let mut n: usize = 0;
    while n < line.len() && line[n] == '#'
        invariant
            n <= line@.len(),
            forall|k: int| 0 <= k < n ==> #[trigger] line@[k] == '#',
        decreases line.len() - n,
    {
        n = n + 1;
    }
    proof {
        lemma_leading_hashes(line@, n as int);
    }
    if n == 0 || n > 6 {
        return None;
    }
    if n == line.len() || line[n] == ' ' {
        Some(n)
    } else {
        None
    }
}

/// The level (1 to 6) of `line` as an ATX heading: one to six `#` followed
/// by a space or by the end of the line. `None` for anything else.
pub fn heading_level(line: &str) -> (res: Option<usize>)
    ensures
        match heading_level_of(line@) {
            Some(n) => res == Some(n as usize),
            None => res is None,
        },
{
    let chars = chars_of(line);
    heading_level_chars(chars.as_slice())
}

proof fn lemma_chars_deep_view(v: &Vec<char>)
    ensures
        v.deep_view() == v@,
{
    assert(v.deep_view() =~= v@);
}

proof fn lemma_lines_from_step(rest: Seq<char>, cur: Seq<char>)
    requires
        rest.len() > 0,
    ensures
        lines_from(rest, cur) == (if rest[0] == '\n' {
            seq![strip_cr(cur)] + lines_from(rest.drop_first(), seq![])
        } else {
            lines_from(rest.drop_first(), cur.push(rest[0]))
        }),
{
}

/// The lines of `text`, split as `str::lines` splits them.
pub fn split_lines(text: &[char]) -> (res: Vec<Vec<char>>)
    ensures
        res.deep_view() == text_lines(text@),
{
    let mut lines: Vec<Vec<char>> = Vec::new();
    let mut cur: Vec<char> = Vec::new();
    let mut k: usize = 0;
    assert(text@.skip(0) =~= text@);
    while k < text.len()
        invariant
            k <= text@.len(),
            text_lines(text@) == lines.deep_view() + lines_from(text@.skip(k as int), cur@),
        decreases text.len() - k,
    {
        let c = text[k];
        let ghost rest = text@.skip(k as int);
        proof {
            lemma_lines_from_step(rest, cur@);
            assert(rest.drop_first() =~= text@.skip(k + 1));
        }
        if c == '\n' {
            let ghost before = lines.deep_view();
            let ghost line = strip_cr(cur@);
            if cur.len() > 0 && cur[cur.len() - 1] == '\r' {
                cur.pop();
            }
            assert(cur@ == line);
            proof {
                lemma_chars_deep_view(&cur);
            }
            lines.push(cur);
            cur = Vec::new();
            assert(lines.deep_view() =~= before.push(line));
            assert(before + (seq![line] + lines_from(text@.skip(k + 1), seq![])) =~= before.push(
                line,
            ) + lines_from(text@.skip(k + 1), seq![]));
        } else {
            cur.push(c);
        }
        k = k + 1;
    }
    let ghost before = lines.deep_view();
    assert(text@.skip(k as int) =~= Seq::<char>::empty());
    if cur.len() > 0 {
        proof {
            lemma_chars_deep_view(&cur);
        }
        lines.push(cur);
        assert(lines.deep_view() =~= before + seq![cur@]);
    } else {
        assert(before + Seq::<Seq<char>>::empty() =~= before);
    }
    lines
}


/// Whether `t` starts with three backticks or three tildes.
pub fn is_fence_chars(t: &[char]) -> (res: bool)
    ensures
        res == is_fence(t@),
{
    t.len() >= 3 && ((t[0] == '`' && t[1] == '`' && t[2] == '`') || (t[0] == '~' && t[1] == '~'
        && t[2] == '~'))
}

/// Whether `t` is exactly `---`.
pub fn is_front_matter_marker_chars(t: &[char]) -> (res: bool)
    ensures
        res == is_front_matter_marker(t@),
{
    let r = t.len() == 3 && t[0] == '-' && t[1] == '-' && t[2] == '-';
    proof {
        if r {
            assert(t@ =~= seq!['-', '-', '-']);
        }
        if is_front_matter_marker(t@) {
            assert(t@.len() == 3);
            assert(t@[0] == seq!['-', '-', '-'][0]);
            assert(t@[1] == seq!['-', '-', '-'][1]);
            assert(t@[2] == seq!['-', '-', '-'][2]);
        }
    }
    r
}

/// Whether `s` starts with `c`.
pub fn starts_with_char_chars(s: &[char], c: char) -> (res: bool)
    ensures
        res == starts_with_char(s@, c),
{
    s.len() > 0 && s[0] == c
}

/// Whether `line` starts with four spaces or a tab.
pub fn is_indented_chars(line: &[char]) -> (res: bool)
    ensures
        res == is_indented(line@),
{
    (line.len() >= 4 && line[0] == ' ' && line[1] == ' ' && line[2] == ' ' && line[3] == ' ')
        || (line.len() > 0 && line[0] == '\t')
}

/// The view of each line of a vector of lines is its characters.
pub proof fn lemma_lines_view(lines: &Vec<Vec<char>>)
    ensures
        lines.deep_view().len() == lines@.len(),
        forall|i: int| 0 <= i < lines@.len() ==> lines.deep_view()[i] == #[trigger] lines@[i]@,
{
    assert forall|i: int| 0 <= i < lines@.len() implies lines.deep_view()[i] == #[trigger] lines@[i]@ by {
        lemma_chars_deep_view(&lines@[i]);
    }
}

} // verus!
