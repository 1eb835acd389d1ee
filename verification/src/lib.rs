//! A real-time audio playback engine: bounded packet queue, PCM sample
//! decoding, linear-interpolation rate conversion, a capacity-bounded
//! playback ring buffer, and the output-callback rendering logic.
//!
//! Samples are carried in Q15 fixed point: an `i16` value `v` stands for the
//! normalized amplitude `v / 32768` in `[-1.0, 1.0)`. The floating-point
//! boundary (the audio backend's `f32` buffers) lives outside this crate.

pub mod arith;
pub mod decode;
pub mod engine;
pub mod format;
pub mod lifecycle;
pub mod packages;
pub mod queue;
pub mod resample;
pub mod ring;
pub mod stats;

pub use decode::{decode_packet, to_s16le_mono};
pub use engine::render;
pub use format::SampleFormat;
pub use lifecycle::{LifecycleController, LifecycleState};
pub use packages::{find_package_name, get_packages, get_ros_msgs_each_package, group_discovered, split_prefix_paths, Package, PackageError};
pub use queue::PacketQueue;
pub use ring::RingBuffer;
pub use stats::{analyze_audio_core, SampleStats};
