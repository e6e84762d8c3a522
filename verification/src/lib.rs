//! Graphite: the shared-memory protocol between a game host and native mods.
//! The host writes world snapshots that mods read through `world`, mods write
//! commands into the ring of `commands`, and the runtime's decisions (region
//! checks, tick steps, mod bookkeeping) are in `shared_mem`, `tick` and
//! `loader`.

pub mod bridge;
pub mod commands;
pub mod diagnostic;
pub mod le;
pub mod loader;
pub mod protocol;
pub mod shared_mem;
pub mod text;
pub mod tick;
pub mod world;
