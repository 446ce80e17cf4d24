//! What the library promises as a whole: statements about results, over all inputs, that hold
//! however the operations do their work.
pub mod broadcasts;
pub mod channels;
pub mod handshakes;
pub mod initializing;
pub mod lookups;
pub mod manager;
pub mod network;
pub mod parts;
pub mod reaching;
pub mod sessions;
pub mod steps;
pub mod traffic;
pub mod upkeep;
pub mod values;
pub mod ways;
