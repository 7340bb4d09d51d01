//! What holds of every text and of every value: the laws of the library,
//! each proved from the definitions that the contracts of its functions
//! use.

pub mod arrays;
pub mod balance;
pub mod bridge;
pub mod elements;
pub mod form;
pub mod members;
pub mod objects;
