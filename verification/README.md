# ruskynet

A small actor runtime in the style of skynet. Services own message queues;
a global queue schedules the services that have messages waiting; worker
threads take a scheduled service with all of its messages and run its Lua
callback on each; a socket thread turns network events into messages.

- `src/` is the verified library: message queues, the global queue, the
  service registry and the shared runtime state with its scheduling
  invariant, session and request numbering, the socket command frames and
  their parser, the socket table, the wake-up signal, and the text helpers
  (decimal numbers, whitespace splitting, UTF-8) these need.
- `app/` is the program around it: threads, locks, the pipe, mio sockets and
  the Lua states (mlua).
- `tests/` runs the library on concrete values.
