# rtop

The text, layout and parsing logic of a terminal system monitor for Linux,
verified with Verus.

- `src/` is the verified library: duration, byte and rate formatting and
  fitting text to terminal columns; `os-release`, `xrandr`, DRM, input-device
  and package-listing parsing; the system overview and its detail tabs; the
  process tree graph; the title bar, tables, gauges, dashboards and help
  screen, down to the cells a click hits; ASCII and SVG logo rendering from
  pixels to terminal cells. Every public function states its result in its
  contract, except where the terminal layout solver decides: there the
  contract states what holds of any answer of the solver (one piece per
  constraint, each inside the area it splits) and which piece of that
  answer each result is made from. The `lemma_*` proof functions state properties
  that span calls (orderings, round trips, what fits in a panel).
- `tests/` runs the library on concrete values.
- `app/` is the unverified rim: running helper programs, reading files and
  environment variables, the system tables of `sysinfo`, drawing SVG files
  with `resvg`, reading the logo palette with `serde`, and the figures that
  are computed in floating point.
