# cross_section_ui

Road cross-section tooling: reading survey data (CSV, DXF), choosing and
paging the sections of a route, and the text of drawing title blocks.

`src/` is a verified library (Verus). Every real number it reads is kept as
the text it came from, checked to read as an `f64`; `app/` turns those texts
into `f64` values, draws DXF sheets with the `dxf` crate and reads JSON with
`serde_json`.

- `text` – characters of strings: trimming, splitting into lines, integer and
  real-number syntax.
- `dxf_parser` – the DXF text reader (LINE, CIRCLE, ARC, LWPOLYLINE, TEXT and
  header variables).
- `csv_sections` – grouping the rows of a survey CSV into sections.
- `sections`, `routes`, `pages` – route flags and filters, the route list,
  paging, drawing numbers and grid cells.
- `title_block`, `drawing_ir`, `json_text` – title block fields, alignment
  kinds and colors, and the JSON inside a model's reply.
