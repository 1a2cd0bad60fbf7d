//! n0 — the verified core of a deterministic 2D canvas engine: node identity,
//! the paint vocabulary that display lists carry, text paint ownership, the
//! list painter's traversal, the exact complete-frame damage policy,
//! animation curves, tracks and programs, the scene cache's drawlist reuse
//! decision, and the verdicts of the engine's check harness.

pub mod ident;
pub mod damage;
pub mod paint;
pub mod drawlist;
pub mod keyframes;
pub mod properties;
pub mod curves;
pub mod animation;
pub mod cache;
pub mod program;
pub mod emit;
pub mod rig;
pub mod glyphless;
pub mod track_text;
pub mod compile_checks;
