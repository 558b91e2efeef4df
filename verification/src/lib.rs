//! A small verified GCD web service: a pure Euclidean kernel, a
//! form-urlencoded request parser, and the HTML response logic, each with a
//! full functional contract.

pub mod buffer;
pub mod digits;
pub mod form;
pub mod kernel;
pub mod service;
