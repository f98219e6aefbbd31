# gbfr_logs

The core of a damage meter for Granblue Fantasy: Relink, written in Verus.

`src/` is the verified library. It decides and computes everything: which
process is the game, which functions to hook, who dealt a hit, which player
stands behind an actor, what the modifiers of a hit amount to, and what the hits
of a skill add up to. Every function states what it returns, and Verus proves it,
but for five contracts on code outside this library, which are believed: those
of pelite's signature parser, of its scanner and of the bytes that its view of an
image holds (`process`), and those of two conversions of text in the standard
library (`text`).

* `outcome` and `arithmetic` are the language of the contracts. The memory of a
  running game, its functions and floating point arithmetic are reached through
  traits that promise nothing; a contract names the set of outcomes that their
  answers lead to.
* `memory`, `text` and `process` read the game's memory, names and code.
* `hooks` follows hits and players.
* `protocol` holds the messages that travel from the hook to the meter.
* `skill_state` and `grouping` hold the statistics.

Public proof functions whose names start with `law_` state what holds across
calls.

`app/` is ordinary Rust around the library: detours, system calls, the wire
format and the saved forms of the statistics.

`tests/` runs the library on simulated memory, in `f32` and `f64`.
