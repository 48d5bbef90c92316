//! Userspace side of a kernel data-exchange protocol: frame ring buffers shared
//! with the kernel, scoped buffer lending, a single-buffer and a loss-free
//! dual-buffer frame receiver, and a small composable-wait framework over a
//! cooperative yield primitive.
//!
//! The kernel side of the call interface is [`kernel::Kernel`], an explicit
//! state machine: the radio driver's receive slot and notification, an alarm,
//! and the events it handles while the application yields. Every protocol step
//! is stated against it and proved.
pub mod error;
pub mod frame;
pub mod future;
pub mod kernel;
pub mod lending;
pub mod ring;
pub mod rx;
