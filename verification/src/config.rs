//! The configuration of the relay.

use crate::error::{ErrorModel, RelayError};
use std::time::Duration;
use vstd::prelude::*;

verus! {

/// Where the relay listens, which device it drives, and its limits.
#[derive(Debug, Clone)]
pub struct Config {
    /// Path of the Unix socket that QEMU connects to.
    pub socket: String,
    /// Path of the OpenIPMI device.
    pub device: String,
    /// How long the BMC may take to answer, in milliseconds.
    pub request_timeout_ms: u64,
    /// How many bytes a frame may hold.
    pub max_frame_size: usize,
    /// How long to wait at startup until the device can be opened, in
    /// milliseconds.
    pub device_wait_timeout_ms: u64,
}

/// The length of a span of time, in nanoseconds: what `Duration::as_nanos`
/// returns for it.
pub uninterp spec fn duration_nanos(span: Duration) -> nat;

/// `Duration::from_millis`: the span that lasts `millis` milliseconds, each of
/// which is a million nanoseconds.
pub assume_specification[ Duration::from_millis ](millis: u64) -> (span: Duration)
    ensures
        duration_nanos(span) == millis * 1_000_000,
;

/// `Duration::as_nanos`: the length of the span in nanoseconds.
pub assume_specification[ Duration::as_nanos ](span: &Duration) -> (nanos: u128)
    ensures
        nanos == duration_nanos(*span),
;

/// Whether a path starts at the root directory.
pub open spec fn is_absolute(path: Seq<char>) -> bool {
    path.len() > 0 && path[0] == '/'
}

/// Tells whether `path` starts at the root directory.
fn starts_at_root(path: &str) -> (absolute: bool)
    ensures
        absolute == is_absolute(path@),
{
    !path.is_empty() && path.get_char(0) == '/'
}

impl Config {
    /// Both paths are absolute, and the two bounded numbers lie within their
    /// bounds.
    pub open spec fn is_valid(&self) -> bool {
        &&& is_absolute(self.socket@)
        &&& is_absolute(self.device@)
        &&& 1 <= self.request_timeout_ms <= 60_000
        &&& 8 <= self.max_frame_size <= 4096
    }

    /// The complaint about the first setting, in the order of the fields, that
    /// is not acceptable.
    pub open spec fn fault(&self) -> ErrorModel {
        ErrorModel::Config(
            if !is_absolute(self.socket@) {
                "socket must be an absolute path"@
            } else if !is_absolute(self.device@) {
                "device must be an absolute path"@
            } else if !(1 <= self.request_timeout_ms <= 60_000) {
                "request_timeout_ms must be 1..=60000"@
            } else {
                "max_frame_size must be 8..=4096"@
            },
        )
    }

    /// Checks the settings.
    pub fn validate(&self) -> (result: Result<(), RelayError>)
        ensures
            match result {
                Ok(()) => self.is_valid(),
                Err(error) => !self.is_valid() && error@ == self.fault(),
            },
    {
        if !starts_at_root(self.socket.as_str()) {
            return Err(RelayError::Config("socket must be an absolute path".to_owned()));
        }
        if !starts_at_root(self.device.as_str()) {
            return Err(RelayError::Config("device must be an absolute path".to_owned()));
        }
        if self.request_timeout_ms == 0 || self.request_timeout_ms > 60_000 {
            return Err(RelayError::Config("request_timeout_ms must be 1..=60000".to_owned()));
        }
        if self.max_frame_size < 8 || self.max_frame_size > 4096 {
            return Err(RelayError::Config("max_frame_size must be 8..=4096".to_owned()));
        }
        Ok(())
    }

    /// Returns how long the BMC may take to answer.
    pub fn request_timeout(&self) -> (timeout: Duration)
        ensures
            duration_nanos(timeout) == self.request_timeout_ms * 1_000_000,
    {
        Duration::from_millis(self.request_timeout_ms)
    }

    /// Returns how long to wait at startup until the device can be opened.
    pub fn device_wait_timeout(&self) -> (timeout: Duration)
        ensures
            duration_nanos(timeout) == self.device_wait_timeout_ms * 1_000_000,
    {
        Duration::from_millis(self.device_wait_timeout_ms)
    }
}

impl Default for Config {
    /// The settings that hold where nothing else is configured.
    fn default() -> (config: Self)
        ensures
            config.socket@ == "/run/qemu-ipmi-relay/ipmi.sock"@,
            config.device@ == "/dev/ipmi0"@,
            config.request_timeout_ms == 3000,
            config.max_frame_size == 303,
            config.device_wait_timeout_ms == 0,
            config.is_valid(),
    {
        proof {
            reveal_strlit("/run/qemu-ipmi-relay/ipmi.sock");
            reveal_strlit("/dev/ipmi0");
        }
        Self {
            socket: "/run/qemu-ipmi-relay/ipmi.sock".to_owned(),
            device: "/dev/ipmi0".to_owned(),
            request_timeout_ms: 3000,
            max_frame_size: 303,
            device_wait_timeout_ms: 0,
        }
    }
}

/// The settings are valid just when both paths begin with a slash, the timeout
/// lies between one millisecond and a minute and a frame may hold between 8 and
/// 4096 bytes; otherwise the complaint is about the first that is not so.
pub proof fn law_settings_within_bounds(config: Config)
    ensures
        ({
            let socket = config.socket@.len() > 0 && config.socket@[0] == '/';
            let device = config.device@.len() > 0 && config.device@[0] == '/';
            let timeout = 0 < config.request_timeout_ms < 60_001;
            let size = 7 < config.max_frame_size < 4097;
            &&& config.is_valid() <==> socket && device && timeout && size
            &&& !socket ==> config.fault() == ErrorModel::Config(
                "socket must be an absolute path"@,
            )
            &&& socket && !device ==> config.fault() == ErrorModel::Config(
                "device must be an absolute path"@,
            )
            &&& socket && device && !timeout ==> config.fault() == ErrorModel::Config(
                "request_timeout_ms must be 1..=60000"@,
            )
            &&& socket && device && timeout && !size ==> config.fault() == ErrorModel::Config(
                "max_frame_size must be 8..=4096"@,
            )
        }),
{
}

} // verus!
