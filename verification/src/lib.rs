//! A verified model of a physarum ("slime mold") particle-field simulation's
//! frame pass-orchestration engine.
//!
//! A swarm of agents deposits a scalar trail onto a 2D field; the field
//! diffuses and decays each sub-step; agents sense and steer by the field; the
//! result is composited for presentation. A storage image cannot be bound as
//! both read and write target within one dispatch, so every "in place" update
//! goes through explicit copies between the slots of a field pool. This crate
//! holds the load-bearing logic of that discipline: the per-frame dispatch
//! plan, the field pool and its copy ("blit") operations, and the deposit,
//! diffuse/decay, clear and composite kernels over fixed-point cell values,
//! all with proved contracts. The GPU device, the window and the event loop
//! live outside the library and execute the same plan.

pub mod slot;
pub mod fixed;
pub mod plan;
pub mod sums;
pub mod field;
pub mod pool;
pub mod diffuse;
pub mod agent;
pub mod stage;
pub mod engine;
pub mod spawn;
