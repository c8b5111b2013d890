# redscript_dap

A debug adapter for the scripts of Cyberpunk 2077. It runs inside of the game, hooks the calls
that scripts make, and talks the debug adapter protocol to an editor: breakpoints, steps, the
stack, and the variables of each frame.

## Layout

- `src/` is the debugger itself, verified with Verus. It sees the game as plain values: addresses,
  hashes of names, texts.
  - `mapping`, `table`, `source`, `path`, `text`: which function starts at which line of which file
  - `control`, `hooks`, `frame`, `event`: where the game stops, and how it goes on
  - `session`, `state`, `pages`, `protocol`: what each request does and is answered
  - `value`, `variables`: how values are listed and shown
  - `laws`: what holds across requests, stops and steps
- `app/` is the plugin around it: the hooks, the memory of the game, the socket. It is built
  against the SDK of RED4ext.
- `tests/` runs the library on concrete values.

## What is taken on trust

The numbers of scopes come from `slab`, and the game waits and is woken through `parking`; what
the library relies on is stated where they are called, in `state` and `event`. Lower case beyond
ASCII is that of the standard library (`text`).

## Limits

- The debugger stops at calls only: a breakpoint at a line without a call does nothing.
- While a step is under way, breakpoints do not count.
- A path with letters beyond ASCII is found under its lower case only.
- Threads cannot be told apart, and the game cannot be paused by hand.
