# typepress

The preprocessing core of an HTML/Markdown to PDF renderer, verified with
Verus.

`src/` is the verified library. Each public function states in its
contract what it returns, over spec functions on sequences of characters
and bytes:

- `css_layout`: CSS grid and flexbox containers rewritten as tables,
  gradients degraded to solid colours, inline SVG protected from the
  rewrite and restored after it.
- `math`: the MathML tree of a TeX formula turned into HTML spans, with
  Unicode super- and subscripts; finding `$...$` and `$$...$$` formulas.
- `mermaid`, `highlight`: finding diagram and code blocks and the markup
  that replaces them.
- `document`: the printable HTML document around rendered Markdown,
  running headers and footers.
- `network`, `assets`, `glob`: the remote-asset policy (size cap, plain
  http, host allowlist) and the rewriting of stylesheet and image tags.
- `svg`: ToUnicode CMap parsing and text decoding for PDF text runs.
- `server`, `config`, `cli`, `fonts`, `diagnostics`, `emoji`: routing and
  JSON replies of the HTTP server, option merging, font-face parsing,
  warnings.

Calls into outside crates (`pulldown-cmark`, `regex`, `syntect`,
`serde_json`, the `url` parser) stand behind small trusted wrappers whose
contracts name their results.

`app/` is the program around the library: command line, files, network,
the PDF engine, and the floating-point page measures. `tests/` exercises
the library.
