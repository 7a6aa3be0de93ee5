//! The Shannon stream cipher with integrated message authentication.
//!
//! The cipher state is a 16-word nonlinear feedback shift register together
//! with 32 parallel CRC-16 accumulators. Every executable operation on
//! [`Shannon`] is specified against the mathematical model in [`model`].
#![allow(non_snake_case)]

pub mod bytes;
pub mod cipher;
pub mod framed;
pub mod laws;
pub mod model;

pub use cipher::{MacMismatch, Shannon};
pub use framed::Framed;
pub use model::{Mode, State};
