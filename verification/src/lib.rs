pub mod error;
pub mod partition;
pub mod preset;
pub mod progress;
pub mod reassembly;
pub mod resolution;
pub mod retry;
pub mod text;
pub mod worker;
