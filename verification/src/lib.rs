//! Assembles a spoken-word broadcast. A script of clips — spoken text or
//! silence — is planned into an ordered run of text-to-speech requests and
//! silence insertions, the samples coming back are concatenated into one
//! buffer in script order, and the buffer is decimated to a lower sample
//! rate before it is persisted.
//!
//! Text is carried as UTF-8 bytes (`Vec<u8>`); audio samples are carried by
//! their 32-bit representation (`u32`), with `0` standing for a silent
//! sample, so that buffer assembly and decimation are verified while the
//! synthesis engine, the low-pass filter and the container writer stay
//! outside collaborators.

pub mod encode;
pub mod laws;
pub mod post;
pub mod render;
pub mod step;
pub mod voice;
