# moonshine

The session pool of a game streaming server, verified with Verus.

- `src/pool.rs`: the pool (`SessionPool`): seats, GPU slots, launches.
- `src/model.rs`: the pool as a mathematical state, with its invariant and steps.
- `src/laws.rs`: what holds of a pool across its steps.
- `src/history.rs`: what holds of a pool after any number of steps.
- `src/gpu.rs`: GPU slots and how they are found.
- `src/bring_up.rs`: the steps that bring a planned seat up or tear it down.
- `src/seat_home.rs`: the isolated HOME of a seat.
- `src/steam.rs`: seeding shared Steam libraries into a fresh HOME.
- `src/config.rs`, `src/text.rs`: settings and text primitives.
- `app/`: the async server around the library. A binary implements `host::Host` for its
  compositor, encoder and web server, and calls `program::run`.
- `tests/`: tests of the library.
