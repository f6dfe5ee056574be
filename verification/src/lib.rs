//! Exact linear-algebra engine: dense matrices over machine rationals, with
//! verified arithmetic, Gauss-Jordan reduction and inversion.

pub mod det;
pub mod elim;
pub mod laws;
pub mod matrix;
pub mod rational;
