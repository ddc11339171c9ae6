# bpc — a verified bit-level protocol workbench

A library for describing, reading and displaying binary protocol layouts at
the level of single bits, with every function proved against its contract.

- `bit` — `BitReader` and `BitWriter`: MSB-first reading and writing of
  arbitrary-width values, with a model of the bit stream (`stream`) and the
  laws that a written value reads back.
- `layout` — bit ranges, fields, enumerations and `BitLayout`: building a
  layout validates names, widths, source references and overlaps; resolving
  reads data-dependent widths from data (also inside nested layouts);
  lookups by index, name, bit and dotted path. `laws` states what holds of
  every layout that builds and of every resolution.
- `format` — the `FieldFormatter` trait, the built-in formatters (hex, dec,
  bin, oct, ASCII, raw bits, smart), value extraction and the registry.
- `tui` — the state of the terminal workbench (`App`, `LayoutViewState`),
  how keys change it, and the text it draws (`render`).
- `scripting` — what the Lua DSL computes: hex strings, length units, field
  values and summaries.
- `text`, `shared` — string building and shared pointers.

`app/` is the program around the library: the terminal event loop and
drawing (ratatui) and the Lua script engine (mlua).
