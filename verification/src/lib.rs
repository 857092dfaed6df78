//! The verified core of a small Monte-Carlo ray tracer: the persistent list
//! that holds the scene, and the integer logic of the tiled renderer — the
//! partition of image rows into per-worker bands, the byte layout of the
//! shared frame buffer, and the clamp that narrows color channels to bytes —
//! each with a proved contract. The floating-point radiance math and the
//! image I/O live in the surrounding application, which drives the workers
//! and hands their finished bands back to this crate for assembly.

pub mod list;
pub mod render;
