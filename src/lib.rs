//! A TLS-terminating reverse proxy's routing core: the backend pool with
//! round-robin selection, health tracking with hysteresis, the per-request
//! proxy lifecycle and the settings the server is started from.

pub mod health;
pub mod pool;
pub mod proxy;
pub mod settings;
