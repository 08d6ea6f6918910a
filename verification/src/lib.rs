//! Session engine for a social-deduction party game run over a group chat
//! platform: role catalogs, the role-assignment protocol, night ordering,
//! voice-room allocation, and the per-community session registry.

pub mod dispatch;
pub mod games;
pub mod loader;
pub mod night;
pub mod order;
pub mod registry;
pub mod rooms;
pub mod session;
pub mod text;
