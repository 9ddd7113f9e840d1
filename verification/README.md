# rust_hft_software

A low-latency trading engine and its feed adapter. `src/` is the core, verified with Verus;
`app/` is the program around it: sockets, threads, files, environment variables and
floating-point arithmetic.

- Every public function of the core has a contract that fixes its result, but for
  `clock::elapsed_ns`, whose result is the time. Laws that relate several functions, or hold
  across many steps, are public proof functions named `law_..`.
- Floating-point numbers cross the core as bit patterns. It compares them
  (`src/ieee.rs`) and decides; sums, products and their texts come in as arguments.
- Counters wrap at the end of their range, and so do sums of numbers that a feed supplies.

| program | started with |
|---------|--------------|
| engine | no name, or `engine` |
| feed adapter | `kraken-feed` |
| standalone exchange | `fake-exchange` |
| market simulator | `market-simulator` |
| benchmarks | `bench-one-threaded`, `bench-multi-threaded` |

`tests/` runs the core on concrete values.
