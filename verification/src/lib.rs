//! Verified core of the Basalto kernel toolchain: strided tensor views,
//! kernel cache keys and their byte layout, local and cluster cache
//! bookkeeping, checkpoint rotation, launch geometry and cuBLAS plans,
//! halo-exchange planning, the textual PTX back end, stencil and SSA
//! checks, the tuning heuristics and the execution history that drives
//! recompilation, and the selection of accelerator and energy source.
pub mod stride_view;
pub mod hexdigits;
pub mod kernel_hash;
pub mod checkpoint;
pub mod kernel_cache;
pub mod backends;
pub mod text;
pub mod launch;
pub mod halo;
pub mod kernel_text;
pub mod tuning;
pub mod permissions;
pub mod cutlass;
pub mod hardware;
pub mod text_map;
pub mod registry;
pub mod stencil_ir;
pub mod comparator;
pub mod interceptor;
pub mod recompile;
pub mod energy;
pub mod ssa;
