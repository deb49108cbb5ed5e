//! A windowed, transform-based lowpass filter over a sampled signal, with
//! overlap-add reconstruction, written generically over the sample type.
//!
//! The numerical pieces (the transform itself, scaling, blending weights)
//! are supplied by the caller as closures; this library owns the framing,
//! scheduling, bin masking and reconstruction logic and proves it.

pub mod fizz_buzz;
pub mod framer;
pub mod pipeline;
pub mod reconstruct;
pub mod scheduler;
pub mod spectrum;
pub mod tape_loop;

pub use framer::frame_signal;
pub use pipeline::{single_pass_lowpass, smoothed_lowpass, two_pass_lowpass};
pub use reconstruct::{overlap_add, smooth};
pub use scheduler::schedule_windows;
pub use spectrum::{keeps_bin, lowpass_window, mask_bins, BinMask};
pub use tape_loop::{tape_echo, TapeLoop};
pub use fizz_buzz::{fizz_buzz, FizzBuzz};
