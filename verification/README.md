# boids

The logic of a GPU flocking simulation, written in Verus and verified: what the command line asks for, how
shader sources are put together, where every field of every GPU structure lies, how buffers are sized,
swapped, cleared, uploaded and read back, how a swarm is sorted into its grid and kept apart while it is
spawned, which passes a frame is made of, and what the window's events amount to.

- `src/` is the library. Every function has a contract; what relates several functions is stated by the
  proof functions whose names start with `law_`.
- `tests/` runs the library on concrete values.
- `app/` is the program around it: the window, the device, the file system, and everything that is
  floating-point arithmetic.

Real numbers do not occur in the library. Where one passes through, it is the bit pattern of a single.

What is trusted rather than proved is small: `String::push` (`text.rs`), `std::path::is_separator`
(`paths.rs`) and the casts between words and bytes of `bytemuck` (`transfer.rs`).
