# t1xr

A stock-market simulation with a live viewer. The deterministic core is a
Verus-verified library (`src/`); the floating-point price, macro and broker
models, the save file and the egui window are an ordinary Rust program
(`app/`) built on it.

- `src/seed.rs` — the 128-bit seed, its 32-byte stretch, and the SplitMix64
  parameter stream, with proofs that the finaliser is a bijection and that a
  stream repeats no word within its period.
- `src/roster.rs` — stock slots with their names and listing flags; listing,
  delisting and relisting keep listed names distinct and registered.
- `src/names.rs` — the registry of ticker names in use, name drawing with its
  numbered fallback, broker names, random tickers.
- `src/calendar.rs` — ticks, days and the five-day trading week.
- `src/markets.rs` — round-robin exchange membership, broker styles, selection.
- `src/buffers.rs` — bounded price histories and the fill ledger.
- `src/search.rs` — the listing filter.
- `src/regime.rs`, `src/themes.rs` — regime labels and the two colour themes.
- `src/rng.rs` — seeding the ChaCha8 stream from `rand_chacha`.
