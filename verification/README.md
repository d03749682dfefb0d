# bots-core

The core of a load rig that sends single payments to `POST /tx/payment` at a planned
rate, verified with Verus.

- `src/` is the library. Every function states what it returns in a contract that Verus
  proves: ramp planning, token bucket, latency percentiles, the launch scheduler, the retry
  policy, the checks of URLs and recipients, the prefund estimate, the merging of results.
- `app/` is the program around it: worker, controller, preflight, prefund and keygen as
  subcommands. It reads files and clocks, sends requests, and prints.
- `tests/` runs the library on concrete values.

Hard rules: no floating point, integer-only math, and no clock in the library. Whoever calls
it says what time it is.

What is not proved is the behaviour of `serde_json`, `url` and `rand`; the contracts in
`src/json.rs`, `src/preflight.rs` and `src/keygen.rs` say what is believed of them, and
`src/text.rs` what is believed of `String::push`.

Only use test keys: `/tx/payment` signs on the server.
