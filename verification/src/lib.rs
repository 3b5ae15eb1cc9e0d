//! Verified logic of a PDM microphone streamer for the ESP32-S3.
//!
//! The firmware reads 16-bit PCM from an I2S channel, attenuates it and sends it
//! out over USB serial or over a websocket. Everything that is decided or computed
//! on the way stands here with a contract; drivers, sockets and tasks are left to
//! the program around it.

use vstd::prelude::*;

pub mod audio_queue;
pub mod capture;
pub mod counter;
pub mod dotenv;
pub mod frame_pool;
pub mod handshake;
pub mod http;
pub mod pcm;
pub mod serial;
pub mod server;
pub mod session;
pub mod subscribers;
pub mod text;
pub mod upgrade;
pub mod wifi;

verus! {

/// Samples per second that the microphone delivers.
pub const SAMPLE_RATE: u32 = 16_000;

/// Number of DMA descriptors of the receive channel.
pub const DMA_DESC_NUM: u32 = 24;

/// Number of frames that one DMA descriptor holds.
pub const DMA_FRAME_NUM: u32 = 512;

/// Number of samples that one read of the receive channel asks for.
pub const BUFFER_SAMPLES_PER_READ: usize = 512;

/// Size of one slot of the frame pool: 20 ms of 16 kHz mono s16. One read of the receive
/// channel may bring more, 32 ms and 1024 bytes, and then does not fit a slot.
pub const FRAME_BYTES: usize = 640;

/// Stack of the capture task, in 32-bit words.
pub const TASK_STACK_WORDS: u32 = 8192;

/// Priority of the capture task, above that of the default application tasks.
pub const TASK_PRIORITY: u32 = 12;

/// Core that the capture task is pinned to.
pub const TASK_CORE_ID: i32 = 0;

/// Number of the GPIO that drives the microphone's clock.
pub const MIC_CLK_GPIO: i32 = 42;

/// Number of the GPIO that the microphone's data comes in on.
pub const MIC_DIN_GPIO: i32 = 41;

} // verus!
