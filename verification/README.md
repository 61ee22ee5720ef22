# openshmem_rs

A Rust binding for OpenSHMEM whose core is verified with Verus.

`src/` is the verified library. It holds what the binding decides and
computes, with contracts over mathematical models:

- `lib.rs`: the world context (`ShmemCtx`), PEs, teams and the decoding of
  the implementation's name.
- `shmalloc.rs`: symmetric boxes and arrays, index ranges, and the remote
  reads and writes (`RemoteSliceRead`, `RemoteSliceWrite`) that the
  transfers perform.
- `shvec.rs`: `Shvec`, a fixed-capacity vector on the symmetric heap.
- `matrix.rs`: `CrsMatrix`, a sparse matrix whose rows are spread over the
  PEs, with its model as a map from positions to values.
- `graph.rs`: the breadth-first search, as a state machine, and the parsing
  of edge lists.
- `atomics.rs`, `reduce.rs`, `wait.rs`, `traits.rs`: the typed interfaces
  to atomics, reductions and waits.
- `benchmark.rs`, `thread_parallel.rs`: the integer side of the dense
  matrix-multiplication benchmark.
- `shend_derive.rs`: the bounds of a derived `Shend` impl.

`app/` is ordinary Rust around it: the calls into the OpenSHMEM C library,
the collectives, file input and output, the floating-point benchmark, and
the syn/quote shell of the `Shend` derive.
It performs the transfers the library plans and feeds the runtime's
answers back into it.

`tests/` exercises the library on concrete values.
