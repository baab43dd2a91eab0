//! Exact rational 3D vector geometry and a one-step gravitational update
//! between point masses, with arbitrary-precision fractions kept in least terms.

pub mod bigint;
pub mod rational;
pub mod vector;
pub mod body;
pub mod laws;

pub use rational::{ArithError, ExactRational};
