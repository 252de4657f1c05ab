//! Verified core of the SoupRune mod manager: workspace layout, mod
//! dependency ordering, Android build planning, shell rendering of build
//! stages, and the bookkeeping behind the HTTP build server.

pub mod text;
pub mod android;
pub mod cli;
pub mod mods;
pub mod order;
pub mod process;
pub mod server;
pub mod workspace;
