mosh
====

A remote terminal that survives roaming, sleep and packet loss. The server runs a terminal
emulator next to the user's shell, the client shows a copy of its screen, and the two keep
their states in step by exchanging diffs inside sealed datagrams. The client also predicts
what the server will echo, so that typing feels local.

Layout
------

`src/` is the library. All of it is verified with Verus: functions state what they return
and change, over mathematical models of their data. Of what is drawn at random, nothing is
stated but what holds of every draw.

- text: `text`, `utf8`, `widths`, `words`, `shell`, `base64`, `big_endian`
- terminal: `parser`, `cell`, `row`, `draw_state`, `framebuffer`, `functions`,
  `dispatcher`, `emulator`
- drawing: `frame`, `display`, and what a frame does to the terminal it is drawn on:
  `typing`, `commands`, `mirror`, `likeness`, `redraw`, `convergence`, `reachable`,
  `unlinked`, `indifference`
- prediction: `predicted`, `overlay`, `prediction`
- states and their diffs: `protobufs`, `user`, `complete`
- network: `crypto`, `packet`, `compressor`, `fragment`, `connection`, `sender`, `transport`,
  `session`
- programs: `server`, `client`, `child`, `login`, `args`, `opts`, `locale`, `terminfo`,
  `launcher`

What a module promises of several calls together is a public proof function whose doc
comment says it in words. Three are what the project is for: `frames_reach_the_screen` in
`convergence`, and `keystrokes_reach_the_server` and `screens_reach_the_client` in
`session`.

Ciphers, compression, random numbers and variable-length integers come from outside crates.
Each call stands in a small function that is marked `external_body` and says what is relied
on.

`app/` is ordinary Rust around the library: sockets, ptys, signals, the terminfo and login
databases, the environment, and the round-trip estimate, which is floating point. What to do
next is for the library to say: `app/` reports what it read and wrote, and what it estimates.

`tests/` runs the library.
