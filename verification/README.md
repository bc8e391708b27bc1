# sinan_backend

Backend of a study of the pointing accuracy of the Han-dynasty *sinan* (lodestone spoon)
under the geomagnetic field of its time, reconstructed from a CALS10K-style spherical-harmonic
model calibrated with archaeomagnetic measurements.

Layout:

- `src/` — the verified library (Verus):
  - `epochs.rs`: the epoch table of the field model (one coefficient set every 50 years from
    3000 BCE to 2000 CE), the entry a year finds, and which entries the archaeomagnetic sites
    calibrate;
  - `archaeo.rs`: the bundled site measurements in fixed-point units and the rounding of
    their ages;
  - `grid.rs`: the edge length and visiting order of a vector-field grid;
  - `query.rs`: the query parameters of the HTTP interface (last value wins, decimal limits
    with defaults, RFC 3339 instants read through chrono, required parameters).
- `app/` — the HTTP service (axum), the floating-point field synthesis and the micromagnetic
  simulation, which use the library for the decisions above.
- `tests/` — tests of the library.
