pub mod amort;
pub mod clock;
pub mod laws;
