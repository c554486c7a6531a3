//! Small helpers shared by the descriptor tables and the drivers.

pub mod bit_manipulation;
