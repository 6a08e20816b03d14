//! The verified core of a reverberator built as a feedback delay network.
//!
//! The crate holds what can be stated exactly: the circular memory of the
//! delay lines and of the allpass sections, the choice of pairwise coprime
//! delay lengths, the Hadamard mixing matrix, the queue of parameter changes
//! and their textual form, recordings held in memory, and the bytes of a WAV
//! stream. It holds no floating-point arithmetic: the types that carry
//! samples take the sample type as a parameter, and what is computed on the
//! samples is left to the program that uses them.
pub mod allpass;
pub mod command;
pub mod delay_line;
pub mod filter;
pub mod matrix;
pub mod parameter;
pub mod reverb;
pub mod sample;
pub mod utils;
pub mod wav;
