# zed_markdown_fold

Folding ranges for Markdown, for an editor that asks a language server for
them: heading sections, fenced and indented code blocks, blockquotes,
tables and front matter.

- `src/` is the library, verified with Verus.
  - `text.rs`: characters, whitespace, trimming, line splitting, headings.
  - `folding.rs`: the folding rules as a specification over the lines of a
    document, and `compute_folding_ranges`, proved to compute exactly that.
  - `folding_laws.rs`: what holds of every result (well-formed ranges,
    heading sections, nesting, no headings inside code, front matter first,
    consecutive `>` lines in one fold, a blank line ending a quote).
  - `documents.rs`: the open documents, a map from URI to text.
  - `server.rs`: the server's decisions on notifications and requests.
  - `release.rs`: how the editor extension finds or fetches the binary, and
    the path it remembers between searches.
- `app/` is the program around it: the LSP connection over stdio and the
  editor extension's calls into the host.
- `tests/` runs the library on concrete documents.
