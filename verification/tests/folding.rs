use zed_markdown_fold::folding::compute_folding_ranges;
use zed_markdown_fold::text::heading_level;

#[test]
fn test_heading_level() {
    assert_eq!(heading_level("# H1"), Some(1));
    assert_eq!(heading_level("## H2"), Some(2));
    assert_eq!(heading_level("### H3"), Some(3));
    assert_eq!(heading_level("#### H4"), Some(4));
    assert_eq!(heading_level("#Not a heading"), None);
    assert_eq!(heading_level("####### Too many"), None);
    assert_eq!(heading_level("Regular text"), None);
    assert_eq!(heading_level(""), None);
    assert_eq!(heading_level("#"), Some(1));
}

#[test]
fn test_heading_folding() {
    let text = "\
# Title

Some intro text

## Section A

Content A

## Section B

Content B

### Subsection B1

Sub content

# Another Top Level

Final content";

    let ranges = compute_folding_ranges(text);
    let heading_ranges: Vec<_> = ranges
        .iter()
        .filter(|r| r.collapsed_text().is_none())
        .map(|r| (r.start_line, r.end_line))
        .collect();

    assert!(heading_ranges.contains(&(0, 14)));
    assert!(heading_ranges.contains(&(4, 6)));
    assert!(heading_ranges.contains(&(8, 14)));
    assert!(heading_ranges.contains(&(12, 14)));
    assert!(heading_ranges.contains(&(16, 18)));
}

#[test]
fn test_code_block_folding() {
    let text = "\
# Heading

```python
def hello():
    print('hi')
```

More text";

    let ranges = compute_folding_ranges(text);
    let code_ranges: Vec<_> = ranges
        .iter()
        .filter(|r| r.collapsed_text().as_deref() == Some("..."))
        .map(|r| (r.start_line, r.end_line))
        .collect();

    assert!(code_ranges.contains(&(2, 5)));
}

#[test]
fn test_blockquote_folding() {
    let text = "\
# Heading

> This is a blockquote
> that spans multiple
> lines

Regular text";

    let ranges = compute_folding_ranges(text);
    let bq_ranges: Vec<_> = ranges
        .iter()
        .filter(|r| r.collapsed_text().as_deref() == Some("> ..."))
        .map(|r| (r.start_line, r.end_line))
        .collect();

    assert!(bq_ranges.contains(&(2, 4)));
}

#[test]
fn test_tilde_code_block() {
    let text = "\
~~~
some code
~~~";

    let ranges = compute_folding_ranges(text);
    let code_ranges: Vec<_> = ranges
        .iter()
        .filter(|r| r.collapsed_text().as_deref() == Some("..."))
        .map(|r| (r.start_line, r.end_line))
        .collect();

    assert!(code_ranges.contains(&(0, 2)));
}

#[test]
fn test_front_matter_folding() {
    let text = "\
---
title: My Doc
date: 2024-01-01
---

# Heading

Some content";

    let ranges = compute_folding_ranges(text);
    let fm_ranges: Vec<_> = ranges
        .iter()
        .filter(|r| r.collapsed_text().as_deref() == Some("---"))
        .map(|r| (r.start_line, r.end_line))
        .collect();

    assert_eq!(fm_ranges, vec![(0, 3)]);

    let heading_ranges: Vec<_> = ranges
        .iter()
        .filter(|r| r.collapsed_text().is_none())
        .map(|r| (r.start_line, r.end_line))
        .collect();
    assert!(heading_ranges.contains(&(5, 7)));

    let text_no_fm = "\
# Heading

---

Some content";

    let ranges_no_fm = compute_folding_ranges(text_no_fm);
    let fm_ranges_no_fm: Vec<_> = ranges_no_fm
        .iter()
        .filter(|r| r.collapsed_text().as_deref() == Some("---"))
        .collect();
    assert!(fm_ranges_no_fm.is_empty());
}

#[test]
fn test_table_folding() {
    let text = "\
# Heading

| Column A | Column B |
|----------|----------|
| a1       | b1       |
| a2       | b2       |
| a3       | b3       |

Some text after";

    let ranges = compute_folding_ranges(text);
    let table_ranges: Vec<_> = ranges
        .iter()
        .filter(|r| r.collapsed_text().as_deref() == Some("| ..."))
        .map(|r| (r.start_line, r.end_line))
        .collect();

    assert_eq!(table_ranges, vec![(2, 6)]);

    let text_single = "\
# Heading

| just one line

More text";

    let ranges_single = compute_folding_ranges(text_single);
    let table_ranges_single: Vec<_> = ranges_single
        .iter()
        .filter(|r| r.collapsed_text().as_deref() == Some("| ..."))
        .collect();
    assert!(table_ranges_single.is_empty());
}

#[test]
fn test_indented_code_block_folding() {
    let text = "# Heading\n\n    first line of code\n    second line of code\n    third line of code\n\nSome text after";

    let ranges = compute_folding_ranges(text);
    let ic_ranges: Vec<_> = ranges
        .iter()
        .filter(|r| r.collapsed_text().as_deref() == Some("    ..."))
        .map(|r| (r.start_line, r.end_line))
        .collect();

    assert_eq!(ic_ranges, vec![(2, 4)]);

    let text_with_blanks = "    line one\n\n    line three\n    line four";

    let ranges_blanks = compute_folding_ranges(text_with_blanks);
    let ic_ranges_blanks: Vec<_> = ranges_blanks
        .iter()
        .filter(|r| r.collapsed_text().as_deref() == Some("    ..."))
        .map(|r| (r.start_line, r.end_line))
        .collect();

    assert_eq!(ic_ranges_blanks, vec![(0, 3)]);

    let text_tabs = "\tfirst line\n\tsecond line\n\tthird line";

    let ranges_tabs = compute_folding_ranges(text_tabs);
    let ic_ranges_tabs: Vec<_> = ranges_tabs
        .iter()
        .filter(|r| r.collapsed_text().as_deref() == Some("    ..."))
        .map(|r| (r.start_line, r.end_line))
        .collect();

    assert_eq!(ic_ranges_tabs, vec![(0, 2)]);

    let text_single = "# Heading\n\n    just one line\n\nMore text";

    let ranges_single = compute_folding_ranges(text_single);
    let ic_ranges_single: Vec<_> = ranges_single
        .iter()
        .filter(|r| r.collapsed_text().as_deref() == Some("    ..."))
        .collect();
    assert!(ic_ranges_single.is_empty());
}
