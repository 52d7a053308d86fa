//! Framebuffer synchronization engine for a remote-desktop viewer.
//!
//! The library turns a stream of protocol-level update events (pixel blocks
//! in a negotiated numeric format, rectangle-to-rectangle copies, resize
//! notifications) into a coherent local RGB image buffer, and drives the
//! connection lifecycle and update-request pacing. All I/O (the network
//! session, the window toolkit, configuration files) lives outside.

pub mod engine;
pub mod framebuffer;
pub mod input;
pub mod pixel;
pub mod rect;

pub use pixel::PixelFormat;
pub use pixel::Rgb;
pub use rect::Rect;
