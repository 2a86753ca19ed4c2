//! Personalised HRTF synthesis: the verified core.
//!
//! The numeric signal path (neural network inference, FFTs, minimum-phase
//! reconstruction, fractional delays) works on floating point and lives with
//! the application. This crate holds everything around it that can be stated
//! exactly: the binary model and impulse-response file formats, the containers
//! that hold synthesised responses, the channel layouts and the sample
//! reordering done for export and real-time convolution.

pub mod anthropometry;
pub mod bytes;
pub mod convolver;
pub mod delay;
pub mod hesuvi;
pub mod hrtf_data;
pub mod model;
pub mod speaker_irs;
pub mod spectrum;
