//! Algorithm-family recognition: the families, the signatures that describe
//! a function's loops and recursion, and the analyzers that compute them.

pub mod detection;
pub mod families;
pub mod signatures;
