//! The dialogue with the Linux OpenIPMI driver: which requests are sent, how
//! long an answer is awaited, and which answer is taken.
//!
//! The system calls themselves are made elsewhere. A [`Transaction`] is told
//! what each of them gave and says what comes next.

use crate::config::duration_nanos;
use crate::error::{ErrorModel, RelayError};
use crate::vm_codec::{IpmiMessage, MessageModel};
use std::time::Duration;
use vstd::prelude::*;

verus! {

/// Address type of the interface between the host and its own BMC.
pub const IPMI_SYSTEM_INTERFACE_ADDR_TYPE: i32 = 0x0c;

/// Channel of the host's own BMC.
pub const IPMI_BMC_CHANNEL: i16 = 0x0f;

/// Receive type of a message that answers a request.
pub const IPMI_RESPONSE_RECV_TYPE: i32 = 1;

/// Something that answers IPMI requests.
pub trait Backend {
    /// Has `request` answered within `timeout`.
    fn transact(&self, request: &IpmiMessage, timeout: Duration) -> Result<IpmiMessage, RelayError>;
}

/// The number of an `ioctl` of the IPMI driver (magic letter `i`, 0x69), from
/// its direction, its own number and the size of its argument.
pub open spec fn ioctl_number(dir: u32, nr: u32, size: usize) -> u32 {
    (dir << 30) | ((size as u32) << 16) | (0x69u32 << 8) | nr
}

/// Returns the number of an `ioctl` of the IPMI driver.
pub fn ioc(dir: u32, nr: u32, size: usize) -> (number: u64)
    ensures
        number == ioctl_number(dir, nr, size),
        dir < 4 && nr < 0x100 && size < 0x4000 ==> number == dir * 0x4000_0000 + size * 0x1_0000
            + 0x6900 + nr,
{
    let narrow = #[verifier::truncate] (size as u32);
    assert(dir < 4 && nr < 0x100 && narrow < 0x4000 ==> (dir << 30) | (narrow << 16) | (0x69u32
        << 8) | nr == dir * 0x4000_0000 + narrow * 0x1_0000 + 0x6900 + nr) by (bit_vector);
    ((dir << 30) | (narrow << 16) | (0x69u32 << 8) | nr) as u64
}

/// Returns the number of the `ioctl` that sends a request, whose argument has
/// `size` bytes.
pub fn ipmictl_send_command(size: usize) -> (number: u64)
    ensures
        number == ioctl_number(2, 13, size),
        size < 0x4000 ==> number == 0x8000_690d + size * 0x1_0000,
{
    ioc(2, 13, size)
}

/// Returns the number of the `ioctl` that fetches a message, whose argument has
/// `size` bytes.
pub fn ipmictl_receive_msg_trunc(size: usize) -> (number: u64)
    ensures
        number == ioctl_number(3, 11, size),
        size < 0x4000 ==> number == 0xc000_690b + size * 0x1_0000,
{
    ioc(3, 11, size)
}

/// Numbers the requests to the driver.
///
/// The sequence number of the serial line has a single byte and is soon used
/// again; these numbers are not, so that a late answer is not mistaken for that
/// of another request.
pub struct MessageIds {
    next: i64,
}

/// The `i64` that is congruent to `number` modulo 2^64.
pub open spec fn wrapped(number: int) -> int {
    (number + 0x8000_0000_0000_0000) % 0x1_0000_0000_0000_0000 - 0x8000_0000_0000_0000
}

impl MessageIds {
    /// The number of the next request.
    pub closed spec fn next(&self) -> i64 {
        self.next
    }

    /// Starts at one.
    pub fn new() -> (ids: Self)
        ensures
            ids.next() == 1,
    {
        MessageIds { next: 1 }
    }

    /// Returns the next number.
    pub fn allocate(&mut self) -> (id: i64)
        ensures
            id == old(self).next(),
            final(self).next() == wrapped(old(self).next() + 1),
    {
        let id = self.next;
        self.next = id.wrapping_add(1);
        id
    }
}

/// What is handed to the driver to send a request.
#[derive(Debug, PartialEq, Eq)]
pub struct SendCommand {
    pub addr_type: i32,
    pub channel: i16,
    pub lun: u8,
    pub msgid: i64,
    pub netfn: u8,
    pub cmd: u8,
    pub data: Vec<u8>,
}

/// What the driver hands over as the next message for this process.
#[derive(Debug, PartialEq, Eq)]
pub struct Received {
    pub recv_type: i32,
    pub msgid: i64,
    pub netfn: u8,
    pub cmd: u8,
    /// The first byte behind the channel in the sender's address.
    pub lun: u8,
    /// How many bytes of `data` the driver says it wrote.
    pub data_len: u16,
    /// The whole buffer that was offered.
    pub data: Vec<u8>,
}

/// What came of the last system call of a transaction.
#[derive(Debug, PartialEq, Eq)]
pub enum Event {
    /// The request was handed to the driver with this result; where it is
    /// negative, for this cause.
    Sent { result: i32, cause: String },
    /// This much time remains until the deadline.
    Remaining(Duration),
    /// The device was polled with this result; where it is negative, for this
    /// cause, which may be an interruption by a signal.
    Polled { result: i32, interrupted: bool, cause: String },
    /// A message was fetched from the driver with this result; where it is
    /// negative, for this cause.
    Fetched { result: i32, cause: String, received: Received },
}

/// What a transaction needs next.
#[derive(Debug, PartialEq, Eq)]
pub enum Action {
    /// Find out how much time remains until the deadline.
    CheckDeadline,
    /// Poll the device for this many milliseconds.
    Poll(i32),
    /// Fetch a message from the driver.
    Fetch,
    /// Nothing: this came of it.
    Finish(Result<IpmiMessage, RelayError>),
}

/// An [`Action`] with its contents as sequences.
#[verifier::ext_equal]
pub enum ActionModel {
    CheckDeadline,
    Poll(int),
    Fetch,
    Finish(Result<MessageModel, ErrorModel>),
}

impl View for Action {
    type V = ActionModel;

    open spec fn view(&self) -> ActionModel {
        match self {
            Action::CheckDeadline => ActionModel::CheckDeadline,
            Action::Poll(millis) => ActionModel::Poll(*millis as int),
            Action::Fetch => ActionModel::Fetch,
            Action::Finish(Ok(message)) => ActionModel::Finish(Ok(message@)),
            Action::Finish(Err(error)) => ActionModel::Finish(Err(error@)),
        }
    }
}

/// How many milliseconds the device is polled when `nanos` nanoseconds remain.
pub open spec fn poll_millis(nanos: nat) -> int {
    if nanos / 1_000_000 <= i32::MAX {
        (nanos / 1_000_000) as int
    } else {
        i32::MAX as int
    }
}

/// The part of a buffer that the driver says it wrote.
pub open spec fn written_part(received: Received) -> Seq<u8> {
    if received.data_len <= received.data@.len() {
        received.data@.take(received.data_len as int)
    } else {
        received.data@
    }
}

/// A request that was handed to the driver and awaits its answer.
#[derive(Debug, Clone, Copy, PartialEq, Eq)]
pub struct Transaction {
    /// The sequence number of the request on the serial line.
    pub sequence: u8,
    /// The number of the request towards the driver.
    pub msgid: i64,
}

impl Transaction {
    /// The message that is made of an answer: it carries the sequence number of
    /// the request, and otherwise what the driver handed over.
    pub open spec fn answer(&self, received: Received) -> MessageModel {
        MessageModel {
            sequence: self.sequence,
            netfn_lun: (received.netfn << 2) | (received.lun & 3),
            command: received.cmd,
            data: written_part(received),
        }
    }

    /// Whether the driver handed over the answer to this very request.
    pub open spec fn is_answered_by(&self, received: Received) -> bool {
        received.recv_type == IPMI_RESPONSE_RECV_TYPE && received.msgid == self.msgid
    }

    /// What comes next after `event`.
    pub open spec fn next_action(&self, event: Event) -> ActionModel {
        match event {
            Event::Sent { result, cause } => if result < 0 {
                ActionModel::Finish(Err(ErrorModel::OpenIpmi(cause@)))
            } else {
                ActionModel::CheckDeadline
            },
            Event::Remaining(time) => if duration_nanos(time) == 0 {
                ActionModel::Finish(Err(ErrorModel::OpenIpmi("request timed out"@)))
            } else {
                ActionModel::Poll(poll_millis(duration_nanos(time)))
            },
            Event::Polled { result, interrupted, cause } => if result < 0 && interrupted {
                ActionModel::CheckDeadline
            } else if result < 0 {
                ActionModel::Finish(Err(ErrorModel::Io(cause@)))
            } else if result == 0 {
                ActionModel::Finish(Err(ErrorModel::OpenIpmi("request timed out"@)))
            } else {
                ActionModel::Fetch
            },
            Event::Fetched { result, cause, received } => if result < 0 {
                ActionModel::Finish(Err(ErrorModel::OpenIpmi(cause@)))
            } else if self.is_answered_by(received) {
                ActionModel::Finish(Ok(self.answer(received)))
            } else {
                ActionModel::CheckDeadline
            },
        }
    }

    /// Numbers `request` and says how it is handed to the driver, unless its
    /// payload is too large for that, in which case no number is used up.
    pub fn begin(ids: &mut MessageIds, request: &IpmiMessage) -> (result: Result<
        (Transaction, SendCommand),
        RelayError,
    >)
        ensures
            match result {
                Ok((transaction, command)) => {
                    &&& request.data@.len() <= u16::MAX
                    &&& transaction.sequence == request.sequence
                    &&& transaction.msgid == old(ids).next()
                    &&& final(ids).next() == wrapped(old(ids).next() + 1)
                    &&& command.addr_type == IPMI_SYSTEM_INTERFACE_ADDR_TYPE
                    &&& command.channel == IPMI_BMC_CHANNEL
                    &&& command.lun == request.netfn_lun & 3
                    &&& command.msgid == old(ids).next()
                    &&& command.netfn == request.netfn_lun >> 2
                    &&& command.cmd == request.command
                    &&& command.data@ == request.data@
                    &&& command.addr_type == 12
                    &&& command.channel == 15
                    &&& command.netfn == request.netfn_lun / 4
                    &&& command.lun == request.netfn_lun % 4
                    &&& command.msgid == transaction.msgid
                },
                Err(error) => {
                    &&& request.data@.len() > u16::MAX
                    &&& error@ == ErrorModel::OpenIpmi("request payload is too large"@)
                    &&& *final(ids) == *old(ids)
                },
            },
    {
        if request.data.len() > 0xffff {
            return Err(RelayError::OpenIpmi("request payload is too large".to_owned()));
        }
        let netfn_lun = request.netfn_lun;
        assert(netfn_lun >> 2 == netfn_lun / 4 && netfn_lun & 3 == netfn_lun % 4) by (bit_vector);
        let msgid = ids.allocate();
        let command = SendCommand {
            addr_type: IPMI_SYSTEM_INTERFACE_ADDR_TYPE,
            channel: IPMI_BMC_CHANNEL,
            lun: netfn_lun & 3,
            msgid,
            netfn: netfn_lun >> 2,
            cmd: request.command,
            data: request.data.clone(),
        };
        Ok((Transaction { sequence: request.sequence, msgid }, command))
    }

    /// Says what comes next after `event`.
    pub fn step(&self, event: Event) -> (action: Action)
        ensures
            action@ == self.next_action(event),
    {
        match event {
            Event::Sent { result, cause } => {
                if result < 0 {
                    return Action::Finish(Err(RelayError::OpenIpmi(cause)));
                }
                Action::CheckDeadline
            },
            Event::Remaining(time) => {
                let nanos = time.as_nanos();
                if nanos == 0 {
                    return Action::Finish(
                        Err(RelayError::OpenIpmi("request timed out".to_owned())),
                    );
                }
                let millis = nanos / 1_000_000;
                Action::Poll(
                    if millis <= 0x7fff_ffff {
                        millis as i32
                    } else {
                        0x7fff_ffff
                    },
                )
            },
            Event::Polled { result, interrupted, cause } => {
                if result < 0 {
                    if interrupted {
                        return Action::CheckDeadline;
                    }
                    return Action::Finish(Err(RelayError::Io(cause)));
                }
                if result == 0 {
                    return Action::Finish(
                        Err(RelayError::OpenIpmi("request timed out".to_owned())),
                    );
                }
                Action::Fetch
            },
            Event::Fetched { result, cause, received } => {
                if result < 0 {
                    return Action::Finish(Err(RelayError::OpenIpmi(cause)));
                }
                if received.recv_type != IPMI_RESPONSE_RECV_TYPE || received.msgid != self.msgid {
                    return Action::CheckDeadline;
                }
                let netfn_lun = (received.netfn << 2) | (received.lun & 3);
                let command = received.cmd;
                let len = received.data_len as usize;
                let mut data = received.data;
                data.truncate(len);
                Action::Finish(
                    Ok(IpmiMessage { sequence: self.sequence, netfn_lun, command, data }),
                )
            },
        }
    }
}

/// Splitting the NetFn/LUN byte of a request for the driver loses nothing:
/// joined as in an answer, the two parts are the byte again.
pub proof fn law_netfn_lun_survives(netfn_lun: u8)
    ensures
        ((netfn_lun >> 2) << 2) | ((netfn_lun & 3) & 3) == netfn_lun,
{
    assert(((netfn_lun >> 2) << 2) | ((netfn_lun & 3) & 3) == netfn_lun) by (bit_vector);
}

/// Two requests have different numbers, unless 2^64 or more lie between them.
pub proof fn law_ids_differ(first: int, second: int)
    requires
        first < second < first + 0x1_0000_0000_0000_0000,
    ensures
        wrapped(first) != wrapped(second),
{
}

/// The numbers count from one: the first position has the number one, and the
/// number behind that of a position is the number of the next position.
pub proof fn law_ids_count(position: int)
    ensures
        wrapped(1) == 1,
        wrapped(wrapped(position) + 1) == wrapped(position + 1),
        i64::MIN <= wrapped(position) <= i64::MAX,
{
}

/// A late answer to an earlier request is passed over, even if both requests
/// have the same sequence number on the serial line.
pub proof fn law_late_answer_is_ignored(
    earlier: int,
    current: int,
    transaction: Transaction,
    result: i32,
    cause: String,
    received: Received,
)
    requires
        earlier < current < earlier + 0x1_0000_0000_0000_0000,
        transaction.msgid == wrapped(current),
        received.msgid == wrapped(earlier),
        result >= 0,
    ensures
        transaction.next_action(Event::Fetched { result, cause, received })
            == ActionModel::CheckDeadline,
{
    law_ids_differ(earlier, current);
}

/// A transaction succeeds only with an answer that carries its own number, and
/// then under the sequence number of its request.
pub proof fn law_success_is_own_answer(transaction: Transaction, event: Event)
    ensures
        transaction.next_action(event) matches ActionModel::Finish(Ok(message)) ==> {
            &&& event matches Event::Fetched { result, cause, received }
            &&& result >= 0
            &&& received.recv_type == IPMI_RESPONSE_RECV_TYPE
            &&& received.msgid == transaction.msgid
            &&& message.sequence == transaction.sequence
        },
{
}

/// The device is polled only while time remains, and then for all of it in
/// whole milliseconds, as far as these can be expressed: neither beyond the
/// deadline nor a millisecond less.
pub proof fn law_poll_ends_by_the_deadline(transaction: Transaction, event: Event)
    ensures
        transaction.next_action(event) matches ActionModel::Poll(millis) ==> {
            &&& event matches Event::Remaining(time)
            &&& duration_nanos(time) > 0
            &&& 0 <= millis <= i32::MAX
            &&& millis * 1_000_000 <= duration_nanos(time)
            &&& duration_nanos(time) < (millis + 1) * 1_000_000 || millis == i32::MAX
        },
{
}

/// While time remains, the device is polled; once none does, the request has
/// timed out. The polled time is what remains in whole milliseconds.
pub proof fn law_remaining_time_is_waited(transaction: Transaction, time: Duration)
    ensures
        duration_nanos(time) == 0 ==> transaction.next_action(Event::Remaining(time))
            == ActionModel::Finish(Err(ErrorModel::OpenIpmi("request timed out"@))),
        duration_nanos(time) > 0 ==> {
            &&& transaction.next_action(Event::Remaining(time)) matches ActionModel::Poll(millis)
            &&& 0 <= millis <= 0x7fff_ffff
            &&& millis * 1_000_000 <= duration_nanos(time)
            &&& duration_nanos(time) < (millis + 1) * 1_000_000 || millis == 0x7fff_ffff
        },
{
}

/// A span that is a whole number of milliseconds is polled for just that many.
pub proof fn law_whole_milliseconds_are_waited(
    transaction: Transaction,
    time: Duration,
    millis: nat,
)
    requires
        duration_nanos(time) == millis * 1_000_000,
        0 < millis <= 0x7fff_ffff,
    ensures
        transaction.next_action(Event::Remaining(time)) == ActionModel::Poll(millis as int),
{
}

/// A request that the driver refuses fails with the driver's cause; one that it
/// takes is awaited.
pub proof fn law_sending_decides(transaction: Transaction, result: i32, cause: String)
    ensures
        result < 0 ==> transaction.next_action(Event::Sent { result, cause })
            == ActionModel::Finish(Err(ErrorModel::OpenIpmi(cause@))),
        result >= 0 ==> transaction.next_action(Event::Sent { result, cause })
            == ActionModel::CheckDeadline,
{
}

/// A device that is ready is read, one that is not has let the request time
/// out, a signal has the deadline looked at again, and any other failure ends
/// the transaction with its cause.
pub proof fn law_polling_decides(
    transaction: Transaction,
    result: i32,
    interrupted: bool,
    cause: String,
)
    ensures
        ({
            let action = transaction.next_action(Event::Polled { result, interrupted, cause });
            &&& result > 0 ==> action == ActionModel::Fetch
            &&& result == 0 ==> action == ActionModel::Finish(
                Err(ErrorModel::OpenIpmi("request timed out"@)),
            )
            &&& result < 0 && interrupted ==> action == ActionModel::CheckDeadline
            &&& result < 0 && !interrupted ==> action == ActionModel::Finish(
                Err(ErrorModel::Io(cause@)),
            )
        }),
{
}

/// Where fetching fails, the transaction fails with the cause. A message that
/// is no response, or not to this request, is passed over. The answer to this
/// request becomes the response: under the request's sequence number, with the
/// answer's NetFn, LUN and command, and with every byte of data that the driver
/// wrote and no other, as far as the buffer goes.
pub proof fn law_fetching_decides(
    transaction: Transaction,
    result: i32,
    cause: String,
    received: Received,
)
    ensures
        ({
            let action = transaction.next_action(Event::Fetched { result, cause, received });
            let own = received.recv_type == 1 && received.msgid == transaction.msgid;
            &&& result < 0 ==> action == ActionModel::Finish(
                Err(ErrorModel::OpenIpmi(cause@)),
            )
            &&& result >= 0 && !own ==> action == ActionModel::CheckDeadline
            &&& result >= 0 && own ==> {
                &&& action matches ActionModel::Finish(Ok(message))
                &&& message.sequence == transaction.sequence
                &&& message.command == received.cmd
                &&& message.netfn_lun / 4 == received.netfn % 64
                &&& message.netfn_lun % 4 == received.lun % 4
                &&& received.data_len <= received.data@.len() ==> message.data.len()
                    == received.data_len
                &&& received.data_len > received.data@.len() ==> message.data.len()
                    == received.data@.len()
                &&& forall|i: int|
                    0 <= i < message.data.len() ==> #[trigger] message.data[i] == received.data@[i]
            }
        }),
{
    let netfn = received.netfn;
    let lun = received.lun;
    assert(((netfn << 2) | (lun & 3)) / 4 == netfn % 64) by (bit_vector);
    assert(((netfn << 2) | (lun & 3)) % 4 == lun % 4) by (bit_vector);
}

/// The model of an action has the contents of the action.
pub proof fn law_model_of_an_action(millis: i32, message: IpmiMessage, error: RelayError)
    ensures
        Action::CheckDeadline@ == ActionModel::CheckDeadline,
        Action::Poll(millis)@ == ActionModel::Poll(millis as int),
        Action::Fetch@ == ActionModel::Fetch,
        Action::Finish(Ok(message))@ == ActionModel::Finish(Ok(message@)),
        Action::Finish(Err(error))@ == ActionModel::Finish(Err(error@)),
{
}

/// A number is wrapped into the range of 64-bit integers by a multiple of 2^64,
/// and one that lies in the range is kept.
pub proof fn law_wrapping_is_congruent(number: int)
    ensures
        -0x8000_0000_0000_0000 <= wrapped(number) < 0x8000_0000_0000_0000,
        (wrapped(number) - number) % 0x1_0000_0000_0000_0000 == 0,
        -0x8000_0000_0000_0000 <= number < 0x8000_0000_0000_0000 ==> wrapped(number) == number,
{
}

/// The number of an `ioctl` is made of its direction in the two highest bits,
/// the size of its argument in the upper half, the letter `i` and its own
/// number.
pub proof fn law_ioctl_number_is_made_of_its_parts(dir: u32, nr: u32, size: usize)
    requires
        dir < 4,
        nr < 256,
        size < 0x4000,
    ensures
        ioctl_number(dir, nr, size) / 0x4000_0000 == dir,
        ioctl_number(dir, nr, size) / 0x1_0000 % 0x4000 == size,
        ioctl_number(dir, nr, size) / 0x100 % 0x100 == 'i' as u32,
        ioctl_number(dir, nr, size) % 0x100 == nr,
{
    let narrow = size as u32;
    assert(dir < 4 && nr < 0x100 && narrow < 0x4000 ==> (dir << 30) | (narrow << 16) | (0x69u32
        << 8) | nr == dir * 0x4000_0000 + narrow * 0x1_0000 + 0x6900 + nr) by (bit_vector);
}

} // verus!
