# jianpu

Processing of jianpu (numbered musical notation) scores, verified with Verus.

The library takes a score through these stages:

- `desugar`: keyed measure groups (`[Key] content` lines, `follow[X]`
  parts, group broadcasts, positional lyric lines, implicit rests for parts a
  measure leaves out) become lines bound one-to-one to each part's
  score-line slots.
- `combiner`: the grouper's per-part measures become multi-part measures with
  their directives, source spans and diagnostics.
- `compiler`: each measure's visible parts become rows of column-positioned
  glyphs (note heads, rests, dashes, underlines, lyrics, bar lines), with
  slur/tie and tuplet spans; runs of all-rest measures collapse into
  multi-measure rests.
- `consolidator`: mixed notes-and-lyrics rows split per verse, and rows with
  identical content within a measure fold into one.
- `check`: every diagnostic of a score, and whether any is an error.
- `output_name`: the file name generated output takes from the input's stem
  and the selected tracks.

`ast` holds the parsed and grouped score vocabulary, `error` the diagnostics,
`text` the string helpers. Every function in `src/` carries a contract; the
`lemma_*` proof functions state the properties kept across calls (lines
bound to slots, bar lines closing rows at the summed duration, collapsed
blocks accounting for every measure, span measure indices naming existing
blocks, one extension dash per later beat of a held note, consolidation
leaving no foldable rows, every part accounted for in every combined measure).

`app/` holds the file input and output around the library, and the path
handling around `output_name`.
