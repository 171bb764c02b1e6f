# DNS-AI for Windows

A client that points a Windows machine's DNS at an encrypting resolver: through a resolver of its own
on the loopback address, or through the encryption that Windows has built in.

- `src/` is the library. It holds the rules: which addresses the resolver has and how new ones are
  learned, how DNS messages are read and written, which adapters are configured and what is recorded
  of them first, how everything is put back, in which order the service, the installation and the
  removal take their steps, and what the window lets its user do. All of it is verified with Verus.
- `tests/` runs the library on concrete values.
- `app/` is the program around it: sockets, HTTPS, files, the registry, the service manager and the
  window. It performs the steps and hands back what came of them; nothing in it is verified. What only Windows has is in `sys.rs`, `manager.rs`, `pipe.rs` and `winapi.rs`;
  `sys_none.rs` takes their place elsewhere.

Steps that alternate with work on the machine are written as small machines: a value with a `phase`
that says what is to be done next, and one method for each thing that can come of it.
