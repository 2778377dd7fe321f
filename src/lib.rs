//! Architecture-neutral virtual-memory core: typed addresses, a physical
//! frame allocator, canonical page-table flags, per-architecture entry
//! encodings and a generic multi-level page table over a physical-memory
//! arena.

pub mod addr;
pub mod error;
pub mod frame_allocator;
pub mod flags;
pub mod riscv64;
pub mod loongarch64;
pub mod phys;
pub mod pagetable;
pub mod access;
pub mod cell;
pub mod tlb;
