# hft_stealth

The integer core of a stealth execution system for high-frequency trading,
verified with Verus, and the application around it.

- `src/` is the verified library. Prices, volumes, slippage and
  probabilities are fixed point (see `config::constants`), so every
  computation is exact and stated in its contract:
  - `execution`: the order manager and its lifecycle over a concurrent order
    table, timing jitter, the execution state, fragmentation strategies and
    stealth profiles;
  - `market`: ticks, order books with their best prices and top levels, and
    depth profiles with running volumes;
  - `monitoring`: alerts with cooldown, routing and escalation, the latency
    watchdog with its sliding windows and P99, health and detection levels;
  - `memory` and `io`: arenas, pools, size-class allocation, zero-copy
    buffers, frame rings and I/O metrics;
  - `ml`: batch assembly for inference and model statistics;
  - `system`: latency budgets, the risk gate's flags, the stealth executor's
    gate and fragmentation, the receive ring's buffer bookkeeping and the
    cycle counters.
  Public proof functions named `law_*` state the properties that hold across
  calls.
- `app/` is the program: command line, logging, configuration files,
  async plumbing, threads, the native model bridge, and the floating point
  analytics (risk metrics, spectra, causality tests, signal fusion) that
  feed the library's decisions.
- `tests/` exercises the library on concrete values.
