# solana_nova_sniper

The core of a bot that buys freshly launched tokens on Pump.fun and Raydium LaunchLab and
sells them by fixed rules. The library decides; it does no I/O of its own. Its behaviour is
stated in contracts and proved by Verus.

- `src/` is the library.
  - `config` holds the settings and the rules that a valid configuration keeps.
  - `detector` turns instructions into launches; `listener` picks them out of transactions and
    decides on reconnects.
  - `filters` says which launches are worth buying; `pipeline` puts the checks in order and
    takes a wallet for a launch that passes.
  - `wallet` is the pool of signing keys.
  - `executor` and `transaction` say what is signed and sent, what is tried again and when a
    buy is given up.
  - `strategy` is the state machine of an open position.
  - `binary64`, `rounding` and `decimal` are binary floating-point numbers in integer
    arithmetic, each operation proved to round to nearest. `base58` and `pubkey` are addresses.
  - `bench_api` is a fixed launch to exercise the hot path with.
- `tests/` runs the library, with the outside crates linked.
- `app/` is the program: arguments, files, logging, signals and the network.

What the library takes from outside crates (regular expressions, signatures, JSON, encodings,
randomness, the clock) goes through small wrappers. Each says above it which function it calls
and what is believed of it.
