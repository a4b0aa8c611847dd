//! What holds of the operations in every run.

pub mod clock;
pub mod footprint;
pub mod hardware;
pub mod initializing;
pub mod receive;
pub mod receiving;
pub mod selection;
pub mod sending;
pub mod setup;
pub mod transmit;
