# fxcp

Smart filesystem copies: reflinks, server-side copies, small files in one NFS
call, and io_uring for the rest; snapshots, content-addressed archives and a
two-pane browser beside it.

- `src/` is the library `fxcp_core`. It decides and computes: what to do with
  each entry of a tree, how a file is cut, hashed, packed and put together again,
  what goes over the wire and what comes back, which snapshots have to go. It is
  written in Verus, and every function is proved to do what its contract says.
- `app/` is the program. It makes the system calls, opens the connections and
  draws the screen, and asks the library what to do next.
- `tests/` runs the library on given values.

The library does no I/O. Where a decision depends on the outside world, a
function takes what was found there and returns what to do; the program does it
and reports back. Calls into other crates (BLAKE3, zstd, LZ4, gzip, xz, bincode,
hex, glob, chrono, pathdiff, fxhash, crossbeam's queues, DashMap) stand behind
small wrappers whose contracts say what is relied on.

Some contracts bound what a machine can count: sums of sizes fit into 64 bits,
and so on. The program checks these bounds before it calls.
