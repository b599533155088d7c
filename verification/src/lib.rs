//! Retained-mode front end for GPU draw submission: recyclable resource
//! identifiers, a reference-counted resource pool, an immediate-data byte
//! allocator and draw-call batching.

pub mod utils;
pub mod sorted;
pub mod entries;
pub mod storage;
pub mod immediate;
pub mod handle;
pub mod geometry;
pub mod renderpass;
pub mod batch_order;
pub mod bind_cache;
pub mod shader;
pub mod batch_laws;
pub mod ssbo;
pub mod uniform;
pub mod template;
