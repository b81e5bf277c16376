# orbit_lib

Orbit propagation and onboard component simulation for a web viewer.

- `src/` is the verified library (Verus): reading a two-line element set and
  handing its element lines to `sgp4` (`propagator`, with the calls
  themselves and the provenance kept of their results in `sgp4_calls`), the order in which
  components run within a step, the channels they declare and the telemetry
  sink that collects their values (`components`), the error types and their
  messages (`simulation`), and the text helpers these rest on (`text`).
- `app/` is the WebAssembly crate around it: the floating-point physics
  (`uom` quantities, solar geometry, SGP4 propagation in time), the
  serialisable configuration and results, and the `wasm_bindgen` exports.
- `tests/` exercises the library.
