//! Verified core of a per-key LED matrix driver for Razer keyboards.
//!
//! The crate covers device discovery over the input-device registry,
//! the LED matrix control protocol and its wire encoding, a pollable
//! bridge over a blocking event source, and the effect-cycling
//! scheduler.  All file and device I/O is left to the surrounding
//! program: the library computes commands, parses text it is handed,
//! and keeps the in-memory state.

pub mod color;
pub mod cycler;
pub mod device;
pub mod effects;
pub mod evdev_device_nonblocking;
pub mod matrix;
pub mod query;
pub mod razer;
pub mod rng;
pub mod strutil;

pub use color::Color;
pub use query::{QueryDevice, QueryError, UnparsedQueryDeviceProperty, parse_query_devices};
pub use razer::{OpenRazerError, RazerDevice, RAZER_DEVICE_VENDOR_ID, query_razer_devices};
pub use matrix::{ControlWrite, DeviceMatrixCustom, DeviceMatrixEffectManager, EffectWaveDirection, MATRIX_HEIGHT, MATRIX_WIDTH};
pub use cycler::EffectCycler;
pub use device::Device;
pub use effects::{Effect, EffectRandom, MatrixInput};
pub use evdev_device_nonblocking::{EvdevDeviceNonblocking, RawKeyEvent, ShutdownAction, ShutdownPhase, ShutdownProtocol};
