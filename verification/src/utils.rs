//! Cooldowns and health checks.

pub mod cooldown;
pub mod health;
