# sim_world

World-side rules of a real-time strategy simulation, written in Verus and
proved against their contracts: map-edge cell finders, hash-schema feature
gates, kept Ground sort keys and the display layers that use them, gap
generator publication, house defeat and base bookkeeping, the object
lifecycle (conceal, limbo, removal, cell marks, pointer expiry, the logic
vector and its pending deletions), infantry deaths, match scores, and the
host decisions around the aircraft and jumpjet locomotors.

Each module states its rules over plain values: what a step reads of the
world comes in as arguments, and what it decides goes out as results or as
an ordered list of the store writes to perform.

- `src/` — the verified library; `src/lib.rs` lists the modules. Laws that
  span several calls are public proof functions named `law_*`.
- `tests/` — tests of the library on concrete values.
- `app/` — the saved (serde) forms of the library's state, and the house
  cost-factor arithmetic, which is `f32` arithmetic and stays outside the
  verified code.
