# geo_tools

Checks and geometry bookkeeping for GeoJSON geodesic tools, verified with Verus.

- `src/ieee.rs` — the exact real value of IEEE-754 binary64 bit patterns, and
  WGS-84 coordinate validation on them.
- `src/text.rs` — Unicode white space and trimming.
- `src/shape.rs` — the plain-value geometry model and its coordinate checks.
- `src/document.rs` — reading GeoJSON text (parsed by the `geojson` crate) into
  that model, with the input caps; polygon rings are closed, and collection
  members keep their order.
- `src/bbox.rs` — bounding rectangles, compared by exact value, with the
  bounds' bits chosen as `geo` chooses them.
- `src/nodes.rs` — what each operation refuses and what it goes on with.
- `src/laws.rs` — properties across operations.
- `app/lib.rs` — the operations themselves: the floating-point geodesy of the
  `geo` crate on checked input, and GeoJSON output.
