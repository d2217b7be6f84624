//! Typed nodes: generic devices, CPUs, caches, reserved memory, memory
//! regions, the chosen node and the root.

pub mod cache;
pub mod chosen;
pub mod cpu;
pub mod device;
pub mod memory_region;
pub mod reserved_memory;
pub mod root;
