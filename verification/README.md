# duck_diag

Renders compiler-style diagnostics as text, with colors or without. Written in Rust and verified
with Verus.

- `diagnostic`: what a diagnostic says and where it points.
- `formatter`: `DiagnosticFormatter`, which renders one diagnostic over a source text.
- `layout`: the specification of the rendered output, run by run.
- `document`, `style`: runs of text, and how they are painted.
- `source`, `lines`, `labels`, `offsets`, `width`, `text`: the parts that rendering is made of.
- `laws`: what holds of every rendered diagnostic, as proof functions.

`DiagnosticFormatter::lay_out` gives exactly the runs that `layout::layout` states.
`format_plain` gives their text. `format` paints them through the `colored` crate, which decides by
its environment whether it colors at all.

Not proved, but stated where they are called: the eleven color functions of `colored` in `style`,
`UnicodeWidthStr::width` in `width`, and `String::push` in `text`.
