# basalto

The verified core of the Basalto kernel toolchain, written in Verus.

- `src/` is the library. Every function there carries a `requires`/`ensures`
  contract that Verus proves; the public `law_*` proof functions state the
  properties that hold across calls (cache reads give back what was written,
  checkpoint rotation keeps the newest entries, transposing twice is the
  identity, a cache key ignores job and node but covers the tensor shape,
  and so on). Calls into outside crates (BLAKE3, SHA-256, DashMap) go through small trusted wrappers whose
  contracts name their results.
- `tests/` runs the library on concrete values.
- `app/` is ordinary Rust around the library: environment and file I/O,
  the CUDA/NVRTC/cuBLAS/MPI/NCCL/NVML bindings loaded at run time, LLVM IR
  building with inkwell (the stencil kernels embed floating-point
  coefficients) and PTX emission with LLVM's NVPTX back end, Redis, the Python module, and the floating-point
  profiling and energy correlation. It hands plain values to the library
  and acts on what comes back.
