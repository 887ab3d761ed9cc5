# mdbook-timeline, verified

An mdBook preprocessor that turns `{{timeline}}` … `{{/timeline}}` blocks into
theme-aware HTML timelines. The library under `src/` is verified with Verus;
`app/main.rs` is the command that mdBook runs (JSON on stdin and stdout).

Modules of the library:

- `text`: whitespace, trimming, searching, `lines`, `split`, case-insensitive
  comparison, each with a specification over `Seq<char>`.
- `num`: decimal rendering of integers and parsing of `i64`.
- `desc`: joining the lines of a multi-line description into paragraphs.
- `entry`: the `TimelineEntry` type, tags and markdown images of a card line.
- `card`: the timeline grammar: entries of a block and the fields of a card.
- `markdown`: markdown to HTML through pulldown-cmark.
- `render`: HTML of entries, duration labels and whole timelines.
- `config`: the `[preprocessor.timeline]` settings.
- `preprocess`: replacing the blocks of every chapter and adding the
  stylesheet and script.
- `assets`: the stylesheet and the script.
