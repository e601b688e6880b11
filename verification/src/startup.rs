//! Decisions that are taken before the relay serves its first connection.

use crate::config::duration_nanos;
use crate::error::{ErrorModel, RelayError};
use std::time::Duration;
use vstd::prelude::*;

verus! {

/// Reads the command line, without the name of the program: nothing, or
/// `--config` and the path of a configuration file, which is returned.
pub fn parse_args(args: Vec<String>) -> (result: Result<Option<String>, RelayError>)
    ensures
        args@.len() == 0 ==> result == Ok::<Option<String>, RelayError>(None),
        args@.len() == 2 && args@[0]@ == "--config"@ ==> (result matches Ok(Some(path)) && path@
            == args@[1]@),
        args@.len() != 0 && !(args@.len() == 2 && args@[0]@ == "--config"@) ==> (
        result matches Err(error) && error@ == ErrorModel::Config(
            "usage: qemu-ipmi-relay [--config PATH]"@,
        )),
        result matches Ok(None) ==> args@.len() == 0,
        result matches Ok(Some(path)) ==> args@.len() == 2 && args@[0]@ == "--config"@ && path@
            == args@[1]@,
        result is Err ==> args@.len() != 0 && (args@.len() != 2 || args@[0]@ != "--config"@),
{
    if args.len() == 0 {
        return Ok(None);
    }
    if args.len() == 2 && args[0] == "--config".to_owned() {
        return Ok(Some(args[1].clone()));
    }
    Err(RelayError::Config("usage: qemu-ipmi-relay [--config PATH]".to_owned()))
}

/// The first descriptor that a service manager hands to a process.
pub const FIRST_PASSED_DESCRIPTOR: i32 = 3;

/// Tells which descriptor is a listening socket that the service manager
/// passed in: the first, where any were passed and they were meant for this
/// process and not for a parent of it.
pub fn passed_socket(pid: u32, listen_pid: Option<u32>, listen_fds: Option<u32>) -> (socket: Option<
    i32,
>)
    ensures
        socket == if listen_pid == Some(pid) && listen_fds is Some && listen_fds->0 > 0 {
            Some(FIRST_PASSED_DESCRIPTOR)
        } else {
            None
        },
{
    match (listen_pid, listen_fds) {
        (Some(addressee), Some(count)) if addressee == pid && count > 0 => {
            Some(FIRST_PASSED_DESCRIPTOR)
        },
        _ => None,
    }
}

/// What stands where the socket is to be created.
#[derive(Debug, Clone, PartialEq, Eq)]
pub enum Occupant {
    /// Nothing.
    Absent,
    /// A socket, which an earlier run may have left behind.
    Socket,
    /// Something that is no socket.
    Other,
    /// It could not be found out, for this reason.
    Unknown(String),
}

/// Decides what becomes of the `occupant` of `path` before a socket is created
/// there: whether it is to be removed.
pub fn remove_stale_socket(path: &str, occupant: Occupant) -> (result: Result<bool, RelayError>)
    ensures
        match occupant {
            Occupant::Absent => result == Ok::<bool, RelayError>(false),
            Occupant::Socket => result == Ok::<bool, RelayError>(true),
            Occupant::Other => result matches Err(error) && error@ == ErrorModel::Config(
                "refusing to replace non-socket path "@ + path@,
            ),
            Occupant::Unknown(cause) => result matches Err(error) && error@ == ErrorModel::Io(
                cause@,
            ),
        },
        result is Ok <==> occupant is Absent || occupant is Socket,
        result matches Ok(removed) ==> (removed <==> occupant is Socket),
{
    match occupant {
        Occupant::Absent => Ok(false),
        Occupant::Socket => Ok(true),
        Occupant::Other => Err(
            RelayError::Config("refusing to replace non-socket path ".to_owned().concat(path)),
        ),
        Occupant::Unknown(cause) => Err(RelayError::Io(cause)),
    }
}

/// Decides what follows a failed attempt to open the device: another attempt
/// while time to wait for it remains, then the `cause` of the failure.
pub fn wait_for_device(remaining: Duration, cause: String) -> (result: Result<(), RelayError>)
    ensures
        duration_nanos(remaining) > 0 ==> result == Ok::<(), RelayError>(()),
        duration_nanos(remaining) == 0 ==> (result matches Err(error) && error@ == ErrorModel::Io(
            cause@,
        )),
{
    if remaining.as_nanos() > 0 {
        Ok(())
    } else {
        Err(RelayError::Io(cause))
    }
}

/// Returns how long to pause before the next attempt to open the device: a
/// tenth of a second, or what remains in whole milliseconds if that is less.
pub fn retry_pause(remaining: Duration) -> (pause: Duration)
    ensures
        duration_nanos(pause) <= duration_nanos(remaining),
        duration_nanos(pause) <= 100_000_000,
        duration_nanos(pause) == if duration_nanos(remaining) >= 100_000_000 {
            100_000_000
        } else {
            duration_nanos(remaining) / 1_000_000 * 1_000_000
        },
{
    let millis = remaining.as_nanos() / 1_000_000;
    Duration::from_millis(
        if millis < 100 {
            millis as u64
        } else {
            100
        },
    )
}

} // verus!
