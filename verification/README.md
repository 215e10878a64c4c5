# episodic

Observational memory core for agentic automation: memory records and their
invariants, deterministic transforms for observation activation, observer
writes and reflection enqueues, strict/lenient parsing of model output,
prompt construction and prompt-contract checks.

The library under `src/` is written in Verus. Each public function carries a
contract over a mathematical model of its inputs and result, and the laws
that tie functions together (escaping round trips, strict-first parsing,
ordering of selections and snapshots, scope keys that validate, and others)
are stated and proved as `law_*` proof functions.

## Layout

- `src/text.rs`, `src/sorting.rs`, `src/xml.rs`: character-level text
  operations, lexicographic order, XML escaping.
- `src/model.rs`, `src/inference.rs`, `src/config.rs`: data types, record and
  entry invariants, resolved thresholds.
- `src/parse/`: tag tokens, sections, thread blocks, accuracy-first parsing.
- `src/transform/`: activation, observer decisions and synthesis, reflection
  decisions and drafts, scope keys, search-visible snapshots.
- `src/prompt/`: prompt contracts, system and user prompts, formatting, and
  reading a contract's JSON text (through `serde_json`) with its header and
  required-field checks.
- `src/config.rs`: the integer configuration rules (async buffering per
  scope and shared budget, buffer size below the threshold, shared budget).
- `src/time.rs`: the calls into `chrono` that the library makes.
- `app/`: what the verifier cannot hold: serde copies of the data types,
  configuration inputs with floating-point ratios and their resolution,
  serde reading of checked prompt contracts, entry points taking `f32` ratios or
  `chrono` instants, and async adapters for the host traits.
- `tests/`: scenario tests run against the compiled library.
