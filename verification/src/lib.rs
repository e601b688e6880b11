//! Verified core of a relay between QEMU's VM-IPMI serial framing and the
//! Linux OpenIPMI driver.
//!
//! - [`vm_codec`]: the framing, its decoder and its encoders; what holds of it
//!   as a whole is in [`codec_laws`].
//! - [`relay`]: what becomes of the bytes of one connection.
//! - [`openipmi`]: the dialogue with the driver over one request.
//! - [`config`]: the settings and their bounds.
//! - [`startup`]: the command line, the place of the socket, the wait for the
//!   device.
//! - [`error`]: the errors of the relay.

pub mod codec_laws;
pub mod config;
pub mod error;
pub mod openipmi;
pub mod relay;
pub mod startup;
pub mod vm_codec;
