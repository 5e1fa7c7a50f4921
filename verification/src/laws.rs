//! What holds of the library as a whole, proved from what its functions promise.

pub mod batches;
pub mod cooldown;
pub mod endpoints;
pub mod health;
pub mod reload;
pub mod reports;
pub mod requests;
pub mod selection;
pub mod settings;
pub mod shutdown;
pub mod validation;
