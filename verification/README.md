# Overfry

A bridge between assistants that speak MCP (JSON-RPC over HTTP) and what a user wants to
share with them: a folder, a vault of Markdown notes, or a remote service. All connections
share one port; each has a path of its own, `/connector/<name>` unless the user sets
another.

- `src/` is the library: the tools, their answers and the rules of the bridge, verified
  with Verus. It does no input or output: where a function needs something of the host, it
  returns a step that names it, and another function goes on with the answer.
- `app/` is the program: it performs the steps on the file system and the network, keeps
  the store and the log, and takes commands on its standard input.
- `tests/` runs the library.

What the library promises is stated in the `ensures` clauses of its functions and, where a
promise spans several of them, in the public proof functions at the end of each module.
Among them: no tool touches a path but the root, what was resolved inside it, what was come
across below that, and two files of settings; the tools that
read change nothing; nothing is ever deleted; while the tunnel is active no request gets to
a connection without a token that counts; a code is good once; a patched section of a note
is read back as it was written, and everything around it is as before.

What the library takes on trust from other crates and from `std` is marked by
`external_body`, `assume_specification` or `uninterp`, each with a comment that says what is
claimed.
