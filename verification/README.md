# tropel_inputs

k6 scripts and KnockPort collections as inputs of a load runner.

- `src/` is the library, verified with Verus: which bytes are a script, what its
  `options` ask for, what its requests, groups, checks and WebSocket sessions send
  and record, and how a collection is read into a scenario. Functions named `law_…`
  state what holds of several functions together.
- `app/` is the host side: the script engine, the network, files and the clock, and
  the numbers that need floating point.
- `tests/` runs the library against the crates it calls.

Calls into other crates stand behind small functions whose contracts are believed,
not proved: `base64`, `flate2`, `http`, `serde_json`, `yaml_serde` and
`tungstenite`. Each says above it what it claims.
