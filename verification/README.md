# fullrust

The verified core of a libc-free Rust runtime and standard-library subset
for x86-64 Linux, written in Verus.

`src/` is the library. Every decision the runtime makes stands there with a
contract that Verus proves: decoding raw system-call results, I/O error
kinds and messages, the `Read`/`Write`/`BufRead` traits with their provided
methods, `Cursor`, `BufReader` and `BufWriter`, paths and OS strings,
parsing and printing IP and socket addresses, the DNS wire format and the
resolver's files, `getdents64` records, `create_dir_all` and
`remove_dir_all`, open flags and
file metadata, socket options and the steps of a connect with a timeout,
the allocator's size classes and free lists (and that its blocks never
overlap),
the lock and `Once` state machines, thread spawning decisions, clocks and
durations, the TLS layout, the initial stack, and the `cargo fullrust`
command line and cargo invocation.

`app/` holds what talks to the kernel: the `syscall` instruction, files,
sockets, the standard streams, locks and threads on atomics, clocks, start-up
and the `cargo fullrust` driver. It calls the library for every decision.

`tests/` exercises the library on concrete values.
