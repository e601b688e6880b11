//! QEMU's VM-IPMI framing: escaped, checksummed frames on a byte stream.
//!
//! A frame is a run of bytes closed by a terminator, which also tells the kind
//! of the frame: an IPMI message or a control command. Inside the frame the
//! three reserved bytes are escaped, so that a terminator never occurs there.

use crate::codec_laws::law_frames_fit;
use crate::error::{ErrorModel, RelayError};
use vstd::prelude::*;

verus! {

/// Closes a frame that holds an IPMI message.
pub const VM_MSG_CHAR: u8 = 0xa0;

/// Closes a frame that holds a control command.
pub const VM_CMD_CHAR: u8 = 0xa1;

/// Announces that the next byte stands for a reserved one.
pub const VM_ESCAPE_CHAR: u8 = 0xaa;

/// Control command: the protocol version.
pub const VM_CMD_VERSION: u8 = 0xff;

/// Control command: a reset.
pub const VM_CMD_RESET: u8 = 0x04;

/// An IPMI request or response as it travels over the serial line.
#[derive(Debug, Clone, PartialEq, Eq)]
pub struct IpmiMessage {
    pub sequence: u8,
    pub netfn_lun: u8,
    pub command: u8,
    pub data: Vec<u8>,
}

/// What one frame holds.
#[derive(Debug, Clone, PartialEq, Eq)]
pub enum Frame {
    Message(IpmiMessage),
    Command(Vec<u8>),
}

/// An [`IpmiMessage`] with its payload as a sequence.
#[verifier::ext_equal]
pub struct MessageModel {
    pub sequence: u8,
    pub netfn_lun: u8,
    pub command: u8,
    pub data: Seq<u8>,
}

/// A [`Frame`] with its contents as sequences.
#[verifier::ext_equal]
pub enum FrameModel {
    Message(MessageModel),
    Command(Seq<u8>),
}

impl View for IpmiMessage {
    type V = MessageModel;

    open spec fn view(&self) -> MessageModel {
        MessageModel {
            sequence: self.sequence,
            netfn_lun: self.netfn_lun,
            command: self.command,
            data: self.data@,
        }
    }
}

impl View for Frame {
    type V = FrameModel;

    open spec fn view(&self) -> FrameModel {
        match self {
            Frame::Message(message) => FrameModel::Message(message@),
            Frame::Command(command) => FrameModel::Command(command@),
        }
    }
}

/// The model of what the decoder reports for one frame.
pub open spec fn outcome(result: Result<Frame, RelayError>) -> Result<FrameModel, ErrorModel> {
    match result {
        Ok(frame) => Ok(frame@),
        Err(error) => Err(error@),
    }
}

/// The models of what the decoder reports for several frames.
pub open spec fn outcomes(results: Seq<Result<Frame, RelayError>>) -> Seq<
    Result<FrameModel, ErrorModel>,
> {
    results.map_values(|result: Result<Frame, RelayError>| outcome(result))
}

// Escaping
// ========

/// Whether `byte` closes a frame.
pub open spec fn is_terminator(byte: u8) -> bool {
    byte == VM_MSG_CHAR || byte == VM_CMD_CHAR
}

/// Whether `byte` has a meaning of its own on the line and must be escaped.
pub open spec fn is_reserved(byte: u8) -> bool {
    is_terminator(byte) || byte == VM_ESCAPE_CHAR
}

/// How one byte of a frame is written on the line.
pub open spec fn escape_byte(byte: u8) -> Seq<u8> {
    if is_reserved(byte) {
        seq![VM_ESCAPE_CHAR, byte | 0x10]
    } else {
        seq![byte]
    }
}

/// How the contents of a frame are written on the line.
pub open spec fn escape(raw: Seq<u8>) -> Seq<u8>
    decreases raw.len(),
{
    if raw.len() == 0 {
        seq![]
    } else {
        escape(raw.drop_last()) + escape_byte(raw.last())
    }
}

/// Whether the last byte of `body` announces a byte that has not come.
pub open spec fn ends_in_escape(body: Seq<u8>) -> bool {
    body.len() > 0 && body.last() == VM_ESCAPE_CHAR
}

/// What the bytes `body` between two terminators stand for: the escape bytes
/// are dropped, and a byte behind one of them has its fifth bit cleared.
pub open spec fn unescape(body: Seq<u8>) -> Seq<u8>
    decreases body.len(),
{
    if body.len() == 0 {
        seq![]
    } else {
        let before = unescape(body.drop_last());
        if body.last() == VM_ESCAPE_CHAR {
            before
        } else if ends_in_escape(body.drop_last()) {
            before.push(body.last() & !0x10u8)
        } else {
            before.push(body.last())
        }
    }
}

// Checksum and message layout
// ===========================

/// The sum of the bytes.
pub open spec fn byte_sum(bytes: Seq<u8>) -> nat
    decreases bytes.len(),
{
    if bytes.len() == 0 {
        0
    } else {
        byte_sum(bytes.drop_last()) + bytes.last() as nat
    }
}

/// The checksum of the bytes: their sum modulo 256.
pub open spec fn checksum_of(bytes: Seq<u8>) -> u8 {
    (byte_sum(bytes) % 256) as u8
}

/// The byte that makes the sum of `bytes` and itself a multiple of 256.
pub open spec fn check_byte(bytes: Seq<u8>) -> u8 {
    ((256 - byte_sum(bytes) % 256) % 256) as u8
}

/// A message without its check byte.
pub open spec fn message_body(message: MessageModel) -> Seq<u8> {
    seq![message.sequence, message.netfn_lun, message.command] + message.data
}

/// The contents of the frame that holds `message`.
pub open spec fn message_payload(message: MessageModel) -> Seq<u8> {
    message_body(message).push(check_byte(message_body(message)))
}

/// The bytes on the line of a frame with the contents `raw`.
pub open spec fn encoded_frame(raw: Seq<u8>, terminator: u8) -> Seq<u8> {
    escape(raw).push(terminator)
}

/// The bytes on the line of a message.
pub open spec fn encoded_message(message: MessageModel) -> Seq<u8> {
    encoded_frame(message_payload(message), VM_MSG_CHAR)
}

/// The bytes on the line of a control command.
pub open spec fn encoded_command(command: Seq<u8>) -> Seq<u8> {
    encoded_frame(command, VM_CMD_CHAR)
}

// Frames of a stream
// ==================

/// The message that the frame contents `payload` hold: a three-byte header,
/// the data and a check byte, which together sum to a multiple of 256.
pub open spec fn parsed_message(payload: Seq<u8>) -> Result<FrameModel, ErrorModel> {
    if payload.len() < 4 {
        Err(ErrorModel::Protocol("IPMI message is too short"@))
    } else if byte_sum(payload) % 256 != 0 {
        Err(ErrorModel::Protocol("IPMI message checksum mismatch"@))
    } else {
        Ok(
            FrameModel::Message(
                MessageModel {
                    sequence: payload[0],
                    netfn_lun: payload[1],
                    command: payload[2],
                    data: payload.subrange(3, payload.len() - 1),
                },
            ),
        )
    }
}

/// How many bytes a frame holds before it is escaped.
pub open spec fn frame_size(frame: FrameModel) -> nat {
    match frame {
        FrameModel::Message(message) => message.data.len() + 4,
        FrameModel::Command(command) => command.len(),
    }
}

/// What is reported for the bytes `body` closed by `terminator`, if anything,
/// where a frame may hold `limit` bytes. An empty frame is passed over.
pub open spec fn closed_frame(body: Seq<u8>, terminator: u8, limit: nat) -> Seq<
    Result<FrameModel, ErrorModel>,
> {
    let payload = unescape(body);
    if payload.len() > limit {
        seq![Err(ErrorModel::Protocol("frame exceeds max_frame_size"@))]
    } else if ends_in_escape(body) {
        seq![Err(ErrorModel::Protocol("frame ended after escape byte"@))]
    } else if payload.len() == 0 {
        seq![]
    } else if terminator == VM_CMD_CHAR {
        seq![Ok(FrameModel::Command(payload))]
    } else {
        seq![parsed_message(payload)]
    }
}

/// The bytes of `stream` behind its last terminator.
pub open spec fn unfinished(stream: Seq<u8>) -> Seq<u8>
    decreases stream.len(),
{
    if stream.len() == 0 {
        seq![]
    } else if is_terminator(stream.last()) {
        seq![]
    } else {
        unfinished(stream.drop_last()).push(stream.last())
    }
}

/// What is reported for the frames of `stream`, in their order.
pub open spec fn frames(stream: Seq<u8>, limit: nat) -> Seq<Result<FrameModel, ErrorModel>>
    decreases stream.len(),
{
    if stream.len() == 0 {
        seq![]
    } else if is_terminator(stream.last()) {
        frames(stream.drop_last(), limit) + closed_frame(
            unfinished(stream.drop_last()),
            stream.last(),
            limit,
        )
    } else {
        frames(stream.drop_last(), limit)
    }
}

// Decoder
// =======

/// Splits a byte stream, which arrives in pieces, into frames.
pub struct Decoder {
    buf: Vec<u8>,
    escaped: bool,
    too_long: bool,
    max_frame_size: usize,
    /// The bytes since the last terminator, as they came.
    pending: Ghost<Seq<u8>>,
}

impl Decoder {
    /// The bytes since the last terminator, as they came.
    pub closed spec fn pending(&self) -> Seq<u8> {
        self.pending@
    }

    /// How many bytes a frame may hold.
    pub closed spec fn limit(&self) -> nat {
        self.max_frame_size as nat
    }

    /// The decoder holds what the pending bytes stand for, and no more than
    /// the limit of it.
    pub closed spec fn wf(&self) -> bool {
        let payload = unescape(self.pending@);
        &&& unfinished(self.pending@) == self.pending@
        &&& self.too_long == (payload.len() > self.max_frame_size)
        &&& self.escaped == (!self.too_long && ends_in_escape(self.pending@))
        &&& self.buf@ == if self.too_long {
            payload.take(self.max_frame_size as int)
        } else {
            payload
        }
    }

    /// What the decoder keeps of the frame that it is reading.
    pub closed spec fn buffered(&self) -> Seq<u8> {
        self.buf@
    }

    /// Whether the decoder awaits the byte that an escape byte announced.
    pub closed spec fn is_escaped(&self) -> bool {
        self.escaped
    }

    /// Whether the frame that the decoder is reading exceeds the limit.
    pub closed spec fn is_too_long(&self) -> bool {
        self.too_long
    }

    /// However much arrives, the decoder keeps no more than a frame may hold;
    /// where a frame exceeds that, it keeps just that much and awaits no
    /// escaped byte.
    pub proof fn law_buffer_is_bounded(&self)
        requires
            self.wf(),
        ensures
            self.buffered().len() <= self.limit(),
            self.is_too_long() ==> self.buffered().len() == self.limit() && !self.is_escaped(),
    {
    }

    /// The bytes since the last terminator and the limit fix the whole state
    /// of a decoder.
    pub proof fn law_state_is_fixed(&self, other: &Self)
        requires
            self.wf(),
            other.wf(),
            self.pending() == other.pending(),
            self.limit() == other.limit(),
        ensures
            self.buffered() == other.buffered(),
            self.is_escaped() == other.is_escaped(),
            self.is_too_long() == other.is_too_long(),
    {
    }

    /// Creates a decoder that has seen nothing and takes frames of up to
    /// `max_frame_size` bytes.
    pub fn new(max_frame_size: usize) -> (decoder: Self)
        ensures
            decoder.wf(),
            decoder.pending() == Seq::<u8>::empty(),
            decoder.limit() == max_frame_size,
            decoder.buffered() == Seq::<u8>::empty(),
            !decoder.is_escaped(),
            !decoder.is_too_long(),
    {
        Self {
            buf: Vec::new(),
            escaped: false,
            too_long: false,
            max_frame_size,
            pending: Ghost(Seq::empty()),
        }
    }

    /// Takes the next piece of the stream and returns what the frames are that
    /// it completes.
    pub fn push(&mut self, bytes: &[u8]) -> (results: Vec<Result<Frame, RelayError>>)
        requires
            old(self).wf(),
        ensures
            final(self).wf(),
            final(self).limit() == old(self).limit(),
            final(self).pending() == unfinished(old(self).pending() + bytes@),
            final(self).buffered().len() <= final(self).limit(),
            final(self).is_too_long() ==> final(self).buffered().len() == final(self).limit()
                && !final(self).is_escaped(),
            outcomes(results@) == frames(old(self).pending() + bytes@, old(self).limit()),
            forall|i: int|
                0 <= i < results@.len() ==> (#[trigger] results@[i] matches Ok(frame) ==> 0
                    < frame_size(frame@) <= old(self).limit()),
    {
        let mut results: Vec<Result<Frame, RelayError>> = Vec::new();
        let ghost start = self.pending@;
        let ghost limit = self.max_frame_size as nat;
        proof {
            assert(start + bytes@.take(0) == start);
            lemma_unfinished_is_unterminated(start, limit);
            assert(outcomes(results@) == Seq::<Result<FrameModel, ErrorModel>>::empty());
        }
        let mut i: usize = 0;
        while i < bytes.len()
            invariant
                i <= bytes.len(),
                self.wf(),
                self.max_frame_size == limit,
                self.pending@ == unfinished(start + bytes@.take(i as int)),
                outcomes(results@) == frames(start + bytes@.take(i as int), limit),
            decreases bytes.len() - i,
        {
            let byte = bytes[i];
            let ghost before = self.pending@;
            let ghost reported = results@;
            let ghost next = start + bytes@.take(i + 1);
            proof {
                assert(next.drop_last() == start + bytes@.take(i as int));
                assert(next.last() == byte);
                assert(before.push(byte).drop_last() == before);
            }
            if byte == VM_MSG_CHAR || byte == VM_CMD_CHAR {
                if self.escaped {
                    results.push(
                        Err(RelayError::Protocol("frame ended after escape byte".to_owned())),
                    );
                } else if self.too_long {
                    results.push(
                        Err(RelayError::Protocol("frame exceeds max_frame_size".to_owned())),
                    );
                } else if !self.buf.is_empty() {
                    let is_command = byte == VM_CMD_CHAR;
                    results.push(
                        if is_command {
                            self.decode_command()
                        } else {
                            self.decode_message()
                        },
                    );
                }
                self.reset();
                proof {
                    let closed = closed_frame(before, byte, limit);
                    assert(outcomes(results@) == outcomes(reported) + closed);
                }
            } else if byte == VM_ESCAPE_CHAR && !self.too_long {
                self.escaped = true;
                self.pending = Ghost(before.push(byte));
            } else {
                let value = if self.escaped {
                    self.escaped = false;
                    byte & !0x10u8
                } else {
                    byte
                };
                if self.buf.len() >= self.max_frame_size {
                    self.too_long = true;
                } else {
                    self.buf.push(value);
                }
                self.pending = Ghost(before.push(byte));
                proof {
                    let payload = unescape(before);
                    let longer = unescape(before.push(byte));
                    let size = self.max_frame_size as int;
                    if payload.len() > size {
                        assert(longer.take(size) == payload.take(size));
                    } else if payload.len() == size {
                        assert(longer.take(size) == payload);
                    }
                }
            }
            i += 1;
        }
        assert(bytes@.take(bytes.len() as int) == bytes@);
        proof {
            law_frames_fit(start + bytes@, limit);
            assert(forall|i: int|
                0 <= i < results@.len() ==> outcomes(results@)[i] == outcome(#[trigger] results@[i]));
        }
        results
    }

    /// Drops what is unfinished: the decoder is as if it were new.
    pub fn reset(&mut self)
        ensures
            final(self).wf(),
            final(self).pending() == Seq::<u8>::empty(),
            final(self).limit() == old(self).limit(),
            final(self).buffered() == Seq::<u8>::empty(),
            !final(self).is_escaped(),
            !final(self).is_too_long(),
    {
        self.buf.clear();
        self.escaped = false;
        self.too_long = false;
        self.pending = Ghost(Seq::empty());
    }

    /// The control command that the buffer holds.
    fn decode_command(&self) -> (result: Result<Frame, RelayError>)
        ensures
            outcome(result) == Ok::<FrameModel, ErrorModel>(FrameModel::Command(self.buf@)),
    {
        Ok(Frame::Command(self.buf.clone()))
    }

    /// The message that the buffer holds, if it is one.
    fn decode_message(&self) -> (result: Result<Frame, RelayError>)
        ensures
            outcome(result) == parsed_message(self.buf@),
    {
        if self.buf.len() < 4 {
            return Err(RelayError::Protocol("IPMI message is too short".to_owned()));
        }
        if checksum(self.buf.as_slice()) != 0 {
            return Err(RelayError::Protocol("IPMI message checksum mismatch".to_owned()));
        }
        let end = self.buf.len() - 1;
        let mut data: Vec<u8> = Vec::new();
        data.extend_from_slice(&self.buf[3..end]);
        assert(data@ == self.buf@.subrange(3, self.buf@.len() - 1));
        Ok(
            Frame::Message(
                IpmiMessage {
                    sequence: self.buf[0],
                    netfn_lun: self.buf[1],
                    command: self.buf[2],
                    data,
                },
            ),
        )
    }
}

/// What is left behind the last terminator holds no terminator and no frame.
pub proof fn lemma_unfinished_is_unterminated(stream: Seq<u8>, limit: nat)
    ensures
        unfinished(unfinished(stream)) == unfinished(stream),
        frames(unfinished(stream), limit) == Seq::<Result<FrameModel, ErrorModel>>::empty(),
    decreases stream.len(),
{
    if stream.len() > 0 && !is_terminator(stream.last()) {
        let shorter = stream.drop_last();
        lemma_unfinished_is_unterminated(shorter, limit);
        assert(unfinished(stream).drop_last() == unfinished(shorter));
    }
}

// Encoders
// ========

/// Returns the bytes on the line of `message`.
pub fn encode_message(message: &IpmiMessage) -> (line: Vec<u8>)
    ensures
        line@ == encoded_message(message@),
{
    let mut raw: Vec<u8> = Vec::new();
    raw.push(message.sequence);
    raw.push(message.netfn_lun);
    raw.push(message.command);
    raw.extend_from_slice(message.data.as_slice());
    assert(raw@ == message_body(message@));
    let sum = checksum(raw.as_slice());
    raw.push(0u8.wrapping_sub(sum));
    encode_frame(raw.as_slice(), VM_MSG_CHAR)
}

/// Returns the bytes on the line of the control command `command`.
pub fn encode_command(command: &[u8]) -> (line: Vec<u8>)
    ensures
        line@ == encoded_command(command@),
{
    encode_frame(command, VM_CMD_CHAR)
}

/// Escapes `raw` and closes it with `terminator`.
fn encode_frame(raw: &[u8], terminator: u8) -> (line: Vec<u8>)
    ensures
        line@ == encoded_frame(raw@, terminator),
{
    let mut line: Vec<u8> = Vec::new();
    let mut i: usize = 0;
    while i < raw.len()
        invariant
            i <= raw.len(),
            line@ == escape(raw@.take(i as int)),
        decreases raw.len() - i,
    {
        let byte = raw[i];
        if byte == VM_MSG_CHAR || byte == VM_CMD_CHAR || byte == VM_ESCAPE_CHAR {
            line.push(VM_ESCAPE_CHAR);
            line.push(byte | 0x10);
        } else {
            line.push(byte);
        }
        proof {
            let done = raw@.take(i + 1);
            assert(done.drop_last() == raw@.take(i as int));
            assert(line@ == escape(done.drop_last()) + escape_byte(byte));
        }
        i += 1;
    }
    assert(raw@.take(raw.len() as int) == raw@);
    line.push(terminator);
    line
}

/// Returns the checksum of the bytes: their sum modulo 256.
pub fn checksum(bytes: &[u8]) -> (sum: u8)
    ensures
        sum == checksum_of(bytes@),
        sum == byte_sum(bytes@) % 256,
{
    let mut sum: u8 = 0;
    let mut i: usize = 0;
    while i < bytes.len()
        invariant
            i <= bytes.len(),
            sum == byte_sum(bytes@.take(i as int)) % 256,
        decreases bytes.len() - i,
    {
        assert(bytes@.take(i + 1).drop_last() == bytes@.take(i as int));
        sum = sum.wrapping_add(bytes[i]);
        i += 1;
    }
    assert(bytes@.take(bytes.len() as int) == bytes@);
    sum
}

} // verus!
