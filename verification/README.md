# ao3_scraper

A verified library that turns a work's page on Archive of Our Own into
Markdown files, and a small command-line program around it.

- `src/dom.rs` — the page as a tree of nodes, built from the walk that
  `scraper` (html5ever) makes of it; CSS selectors are answered by `scraper`.
- `src/query.rs` — the elements a selector picks under a node, and the text of a node.
- `src/markdown.rs` — the conversion of an element into Markdown (emphasis,
  links, headings, quotes, lists, code, images, tables).
- `src/extract.rs` — the metadata and the chapters of a work's page.
- `src/meta.rs`, `src/stats.rs` — the metadata of a work and its Markdown page.
- `src/work.rs` — the work's id and address, its directory name, the chapter files.
- `src/text.rs` — trimming, searching, joining, lines, decimal numbers.
- `app/main.rs` — arguments, the HTTP request, the files on disk.

Run the program as `ao3-scraper <URL> [-o <dir>] [-d <ms>]`: it writes
`metadata.md` and `chapter1.md`, `chapter2.md`, … into a directory named after
the work's title.
