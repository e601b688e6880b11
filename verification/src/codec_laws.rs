//! What holds of the framing as a whole: splitting, round trips, errors.

use crate::error::{ErrorModel, RelayError};
use crate::vm_codec::{
    byte_sum, check_byte, checksum_of, closed_frame, encoded_command, encoded_frame,
    encoded_message, ends_in_escape, escape, escape_byte, frame_size, frames, is_reserved,
    is_terminator, lemma_unfinished_is_unterminated, message_body, message_payload, outcomes,
    parsed_message, unescape, unfinished, Frame, FrameModel, IpmiMessage, MessageModel, VM_CMD_CHAR,
    VM_ESCAPE_CHAR, VM_MSG_CHAR,
};
use vstd::arithmetic::div_mod::lemma_add_mod_noop;
use vstd::prelude::*;

verus! {

/// The bytes on the line of a frame.
pub open spec fn encoded(frame: FrameModel) -> Seq<u8> {
    match frame {
        FrameModel::Message(message) => encoded_message(message),
        FrameModel::Command(command) => encoded_command(command),
    }
}

/// The bytes on the line of several frames, one behind the other.
pub open spec fn encoded_all(list: Seq<FrameModel>) -> Seq<u8>
    decreases list.len(),
{
    if list.len() == 0 {
        seq![]
    } else {
        encoded_all(list.drop_last()) + encoded(list.last())
    }
}

/// How a stream is cut into pieces makes no difference: the frames of two
/// pieces together are those of the first and those of the second read behind
/// what the first left unfinished.
pub proof fn law_pieces_do_not_matter(first: Seq<u8>, second: Seq<u8>, limit: nat)
    ensures
        frames(first + second, limit) == frames(first, limit) + frames(
            unfinished(first) + second,
            limit,
        ),
        unfinished(first + second) == unfinished(unfinished(first) + second),
    decreases second.len(),
{
    let rest = unfinished(first);
    if second.len() == 0 {
        assert(first + second == first);
        assert(rest + second == rest);
        lemma_unfinished_is_unterminated(first, limit);
    } else {
        let shorter = second.drop_last();
        law_pieces_do_not_matter(first, shorter, limit);
        assert((first + second).drop_last() == first + shorter);
        assert((rest + second).drop_last() == rest + shorter);
        assert((first + second).last() == second.last());
        assert((rest + second).last() == second.last());
        if is_terminator(second.last()) {
            let closed = closed_frame(unfinished(first + shorter), second.last(), limit);
            assert(frames(first, limit) + frames(rest + shorter, limit) + closed == frames(
                first,
                limit,
            ) + (frames(rest + shorter, limit) + closed));
        }
    }
}

/// The bytes of several pieces, one behind the other.
pub open spec fn joined(pieces: Seq<Seq<u8>>) -> Seq<u8>
    decreases pieces.len(),
{
    if pieces.len() == 0 {
        seq![]
    } else {
        joined(pieces.drop_last()) + pieces.last()
    }
}

/// The pieces joined are the first piece and, behind it, the others joined.
pub proof fn lemma_joined_from_the_front(pieces: Seq<Seq<u8>>)
    requires
        pieces.len() > 0,
    ensures
        joined(pieces) == pieces[0] + joined(pieces.drop_first()),
    decreases pieces.len(),
{
    let earlier = pieces.drop_last();
    let others = pieces.drop_first();
    if pieces.len() == 1 {
        assert(joined(earlier) == Seq::<u8>::empty());
        assert(joined(others) == Seq::<u8>::empty());
    } else {
        lemma_joined_from_the_front(earlier);
        assert(earlier.drop_first() == others.drop_last());
    }
}

/// What a new decoder has pending after it was given the pieces one by one.
pub open spec fn pending_after(pieces: Seq<Seq<u8>>) -> Seq<u8>
    decreases pieces.len(),
{
    if pieces.len() == 0 {
        seq![]
    } else {
        unfinished(pending_after(pieces.drop_last()) + pieces.last())
    }
}

/// All that a new decoder reports while it is given the pieces one by one.
pub open spec fn reported(pieces: Seq<Seq<u8>>, limit: nat) -> Seq<Result<FrameModel, ErrorModel>>
    decreases pieces.len(),
{
    if pieces.len() == 0 {
        seq![]
    } else {
        reported(pieces.drop_last(), limit) + frames(
            pending_after(pieces.drop_last()) + pieces.last(),
            limit,
        )
    }
}

/// Given any number of pieces one by one, a new decoder reports the frames of
/// the whole stream, none of which exceeds the limit.
pub proof fn law_any_number_of_pieces(pieces: Seq<Seq<u8>>, limit: nat)
    ensures
        reported(pieces, limit) == frames(joined(pieces), limit),
        pending_after(pieces) == unfinished(joined(pieces)),
        forall|i: int|
            0 <= i < reported(pieces, limit).len() ==> (#[trigger] reported(
                pieces,
                limit,
            )[i] matches Ok(frame) ==> 0 < frame_size(frame) <= limit),
    decreases pieces.len(),
{
    if pieces.len() > 0 {
        let earlier = pieces.drop_last();
        law_any_number_of_pieces(earlier, limit);
        law_pieces_do_not_matter(joined(earlier), pieces.last(), limit);
    }
    law_frames_fit(joined(pieces), limit);
}

/// A terminator always ends what came before it, however broken that was: the
/// frames behind it are read as if they were the first.
pub proof fn law_terminator_resynchronises(
    before: Seq<u8>,
    terminator: u8,
    after: Seq<u8>,
    limit: nat,
)
    requires
        is_terminator(terminator),
    ensures
        frames(before.push(terminator) + after, limit) == frames(before.push(terminator), limit)
            + frames(after, limit),
        unfinished(before.push(terminator) + after) == unfinished(after),
{
    let first = before.push(terminator);
    law_pieces_do_not_matter(first, after, limit);
    assert(unfinished(first) + after == after);
}

/// Escaping is undone by unescaping, hides every terminator and leaves no
/// escape byte dangling.
pub proof fn law_escape_round_trip(raw: Seq<u8>)
    ensures
        unescape(escape(raw)) == raw,
        forall|i: int| 0 <= i < escape(raw).len() ==> !is_terminator(#[trigger] escape(raw)[i]),
        !ends_in_escape(escape(raw)),
    decreases raw.len(),
{
    if raw.len() > 0 {
        let shorter = raw.drop_last();
        let byte = raw.last();
        law_escape_round_trip(shorter);
        let line = escape(shorter);
        if is_reserved(byte) {
            let masked = byte | 0x10;
            lemma_masked_byte(byte);
            let announced = line.push(VM_ESCAPE_CHAR);
            assert(escape(raw) == announced.push(masked));
            assert(announced.drop_last() == line);
            assert(announced.push(masked).drop_last() == announced);
            assert(unescape(announced) == unescape(line));
        } else {
            assert(escape(raw) == line.push(byte));
            assert(line.push(byte).drop_last() == line);
        }
        assert(shorter.push(byte) == raw);
    }
}

/// A reserved byte with its fifth bit set is no longer reserved, and clearing
/// the bit gives the reserved byte back.
proof fn lemma_masked_byte(byte: u8)
    requires
        is_reserved(byte),
    ensures
        !is_reserved(byte | 0x10),
        (byte | 0x10) & !0x10u8 == byte,
{
    assert(0xa0u8 | 0x10 == 0xb0 && 0xa1u8 | 0x10 == 0xb1 && 0xaau8 | 0x10 == 0xba) by (bit_vector);
    assert(byte == 0xa0 || byte == 0xa1 || byte == 0xaa ==> (byte | 0x10) & !0x10u8 == byte)
        by (bit_vector);
}

/// A stream without a terminator is unfinished as a whole.
proof fn lemma_unterminated_is_unfinished(stream: Seq<u8>)
    requires
        forall|i: int| 0 <= i < stream.len() ==> !is_terminator(#[trigger] stream[i]),
    ensures
        unfinished(stream) == stream,
    decreases stream.len(),
{
    if stream.len() > 0 {
        let shorter = stream.drop_last();
        assert(forall|i: int| 0 <= i < shorter.len() ==> shorter[i] == #[trigger] stream[i]);
        lemma_unterminated_is_unfinished(shorter);
        assert(shorter.push(stream.last()) == stream);
    }
}

/// An encoded frame behind complete frames is reported by what its contents
/// are, and leaves nothing unfinished.
proof fn lemma_encoded_frame(stream: Seq<u8>, raw: Seq<u8>, terminator: u8, limit: nat)
    requires
        unfinished(stream).len() == 0,
        is_terminator(terminator),
    ensures
        frames(stream + encoded_frame(raw, terminator), limit) == frames(stream, limit)
            + closed_frame(escape(raw), terminator, limit),
        unfinished(stream + encoded_frame(raw, terminator)).len() == 0,
{
    let body = escape(raw);
    let line = encoded_frame(raw, terminator);
    law_escape_round_trip(raw);
    lemma_unterminated_is_unfinished(body);
    lemma_unfinished_is_unterminated(body, limit);
    law_pieces_do_not_matter(stream, line, limit);
    assert(unfinished(stream) + line == line);
    assert(line.drop_last() == body);
    let none = Seq::<Result<FrameModel, ErrorModel>>::empty();
    assert(none + closed_frame(body, terminator, limit) == closed_frame(body, terminator, limit));
}

/// The sum of a concatenation is the sum of the sums.
pub proof fn law_sum_of_concatenation(first: Seq<u8>, second: Seq<u8>)
    ensures
        byte_sum(first + second) == byte_sum(first) + byte_sum(second),
    decreases second.len(),
{
    if second.len() == 0 {
        assert(first + second == first);
    } else {
        law_sum_of_concatenation(first, second.drop_last());
        assert((first + second).drop_last() == first + second.drop_last());
    }
}

/// The checksum of a concatenation is the wrapped sum of the checksums, in
/// either order; nothing has the checksum zero, and bytes with their own
/// check byte behind them have it too.
pub proof fn law_checksum_adds_up(first: Seq<u8>, second: Seq<u8>)
    ensures
        checksum_of(first + second) == (checksum_of(first) + checksum_of(second)) % 256,
        checksum_of(first + second) == checksum_of(first).wrapping_add(checksum_of(second)),
        checksum_of(first + second) == checksum_of(second + first),
        checksum_of(seq![]) == 0,
        check_byte(first) == 0u8.wrapping_sub(checksum_of(first)),
        checksum_of(first.push(check_byte(first))) == 0,
{
    let one = byte_sum(first);
    let two = byte_sum(second);
    law_sum_of_concatenation(first, second);
    law_sum_of_concatenation(second, first);
    assert((one + two) % 256 == (one % 256 + two % 256) % 256) by {
        lemma_add_mod_noop(one as int, two as int, 256);
    }
    lemma_balanced_sum(first);
}

/// The check byte is the negated checksum, and balances the sum.
proof fn lemma_balanced_sum(bytes: Seq<u8>)
    ensures
        check_byte(bytes) == 0u8.wrapping_sub(checksum_of(bytes)),
        byte_sum(bytes.push(check_byte(bytes))) % 256 == 0,
{
    assert(bytes.push(check_byte(bytes)).drop_last() == bytes);
}

/// The check byte makes the bytes of a message sum to a multiple of 256.
pub proof fn law_check_byte_balances(message: MessageModel)
    ensures
        byte_sum(message_payload(message)) % 256 == 0,
{
    lemma_balanced_sum(message_body(message));
}

/// Every message that fits is read back as it was written, whatever its
/// command, and nothing is left over.
pub proof fn law_message_round_trip(stream: Seq<u8>, message: MessageModel, limit: nat)
    requires
        unfinished(stream).len() == 0,
        message.data.len() + 4 <= limit,
    ensures
        frames(stream + encoded_message(message), limit) == frames(stream, limit).push(
            Ok(FrameModel::Message(message)),
        ),
        unfinished(stream + encoded_message(message)).len() == 0,
{
    let payload = message_payload(message);
    lemma_encoded_frame(stream, payload, VM_MSG_CHAR, limit);
    law_escape_round_trip(payload);
    law_check_byte_balances(message);
    assert(payload.subrange(3, payload.len() - 1) == message.data);
    assert(parsed_message(payload) == Ok::<FrameModel, ErrorModel>(FrameModel::Message(message)));
    assert(closed_frame(escape(payload), VM_MSG_CHAR, limit) == seq![parsed_message(payload)]);
}

/// Every control command that fits and is not empty is read back as it was
/// written, and nothing is left over.
pub proof fn law_command_round_trip(stream: Seq<u8>, command: Seq<u8>, limit: nat)
    requires
        unfinished(stream).len() == 0,
        0 < command.len() <= limit,
    ensures
        frames(stream + encoded_command(command), limit) == frames(stream, limit).push(
            Ok(FrameModel::Command(command)),
        ),
        unfinished(stream + encoded_command(command)).len() == 0,
{
    lemma_encoded_frame(stream, command, VM_CMD_CHAR, limit);
    law_escape_round_trip(command);
}

/// Frames that are sent one behind the other are read back in their order.
pub proof fn law_frames_round_trip(list: Seq<FrameModel>, limit: nat)
    requires
        forall|i: int| 0 <= i < list.len() ==> 0 < frame_size(#[trigger] list[i]) <= limit,
    ensures
        frames(encoded_all(list), limit) == list.map_values(
            |frame: FrameModel| Ok::<FrameModel, ErrorModel>(frame),
        ),
        unfinished(encoded_all(list)).len() == 0,
    decreases list.len(),
{
    if list.len() > 0 {
        let shorter = list.drop_last();
        assert(forall|i: int| 0 <= i < shorter.len() ==> shorter[i] == #[trigger] list[i]);
        law_frames_round_trip(shorter, limit);
        assert(0 < frame_size(list[list.len() - 1]) <= limit);
        match list.last() {
            FrameModel::Message(message) => {
                law_message_round_trip(encoded_all(shorter), message, limit);
            },
            FrameModel::Command(command) => {
                law_command_round_trip(encoded_all(shorter), command, limit);
            },
        }
    }
}

/// A frame that holds more than the limit is reported as such, and the frames
/// behind it are not disturbed.
pub proof fn law_oversized_frame_is_refused(
    stream: Seq<u8>,
    raw: Seq<u8>,
    terminator: u8,
    limit: nat,
)
    requires
        unfinished(stream).len() == 0,
        is_terminator(terminator),
        raw.len() > limit,
    ensures
        frames(stream + encoded_frame(raw, terminator), limit) == frames(stream, limit).push(
            Err(ErrorModel::Protocol("frame exceeds max_frame_size"@)),
        ),
        unfinished(stream + encoded_frame(raw, terminator)).len() == 0,
{
    lemma_encoded_frame(stream, raw, terminator, limit);
    law_escape_round_trip(raw);
}

/// A terminator with nothing before it reports nothing.
pub proof fn law_empty_frame_is_silent(stream: Seq<u8>, terminator: u8, limit: nat)
    requires
        unfinished(stream).len() == 0,
        is_terminator(terminator),
    ensures
        frames(stream.push(terminator), limit) == frames(stream, limit),
        unfinished(stream.push(terminator)).len() == 0,
{
    assert(stream.push(terminator).drop_last() == stream);
    assert(unescape(unfinished(stream)).len() == 0);
}

/// No frame that is read holds more than the limit.
pub proof fn law_frames_fit(stream: Seq<u8>, limit: nat)
    ensures
        forall|i: int|
            0 <= i < frames(stream, limit).len() ==> (#[trigger] frames(stream, limit)[i] matches Ok(
                frame,
            ) ==> 0 < frame_size(frame) <= limit),
    decreases stream.len(),
{
    if stream.len() > 0 {
        law_frames_fit(stream.drop_last(), limit);
    }
}

/// Changing one byte of a message, header or check byte included, makes its
/// checksum wrong.
pub proof fn law_changed_byte_is_detected(payload: Seq<u8>, position: int, byte: u8)
    requires
        parsed_message(payload) is Ok,
        0 <= position < payload.len(),
        byte != payload[position],
    ensures
        parsed_message(payload.update(position, byte)) == Err::<FrameModel, ErrorModel>(
            ErrorModel::Protocol("IPMI message checksum mismatch"@),
        ),
{
    lemma_sum_of_update(payload, position, byte);
}

/// Replacing a byte changes the sum by the difference.
proof fn lemma_sum_of_update(bytes: Seq<u8>, position: int, byte: u8)
    requires
        0 <= position < bytes.len(),
    ensures
        byte_sum(bytes.update(position, byte)) == byte_sum(bytes) - bytes[position] + byte,
    decreases bytes.len(),
{
    let changed = bytes.update(position, byte);
    if position == bytes.len() - 1 {
        assert(changed.drop_last() == bytes.drop_last());
    } else {
        assert(changed.drop_last() == bytes.drop_last().update(position, byte));
        lemma_sum_of_update(bytes.drop_last(), position, byte);
    }
}

// The line, byte by byte
// ======================

/// Three byte values are reserved, and two of them close frames.
pub proof fn law_reserved_values(byte: u8)
    ensures
        is_terminator(byte) <==> byte == 0xa0 || byte == 0xa1,
        is_reserved(byte) <==> byte == 0xa0 || byte == 0xa1 || byte == 0xaa,
{
}

/// A reserved byte is written as 0xaa and the byte sixteen above it; any other
/// byte is written as it is.
pub proof fn law_escape_of_a_byte(byte: u8)
    ensures
        escape(seq![]) == Seq::<u8>::empty(),
        byte != 0xa0 && byte != 0xa1 && byte != 0xaa ==> escape(seq![byte]) == seq![byte],
        byte == 0xa0 || byte == 0xa1 || byte == 0xaa ==> {
            &&& escape(seq![byte]).len() == 2
            &&& escape(seq![byte])[0] == 0xaa
            &&& escape(seq![byte])[1] == byte + 16
        },
{
    assert(seq![byte].drop_last() == Seq::<u8>::empty());
    assert(escape(seq![]) == Seq::<u8>::empty());
    assert(escape(seq![byte]) == escape_byte(byte));
    assert(byte == 0xa0 || byte == 0xa1 || byte == 0xaa ==> (byte | 0x10) == byte + 16)
        by (bit_vector);
}

/// Every byte is escaped on its own: what comes before or behind it makes no
/// difference.
pub proof fn law_escape_of_concatenation(first: Seq<u8>, second: Seq<u8>)
    ensures
        escape(first + second) == escape(first) + escape(second),
    decreases second.len(),
{
    if second.len() == 0 {
        assert(first + second == first);
    } else {
        let shorter = second.drop_last();
        law_escape_of_concatenation(first, shorter);
        assert((first + second).drop_last() == first + shorter);
        let last = escape_byte(second.last());
        assert(escape(first) + escape(shorter) + last == escape(first) + (escape(shorter) + last));
    }
}

/// A byte behind 0xaa loses the bit worth sixteen, any other byte stands for
/// itself, and 0xaa stands for nothing.
pub proof fn law_unescape_of_the_next_byte(body: Seq<u8>, byte: u8)
    requires
        byte != 0xaa,
    ensures
        unescape(seq![]) == Seq::<u8>::empty(),
        unescape(body.push(0xaa)) == unescape(body),
        body.len() == 0 || body.last() != 0xaa ==> unescape(body.push(byte)) == unescape(body).push(
            byte,
        ),
        byte as int / 16 % 2 == 0 ==> unescape(body.push(0xaa).push(byte)) == unescape(body).push(
            byte,
        ),
        byte as int / 16 % 2 == 1 ==> unescape(body.push(0xaa).push(byte)) == unescape(body).push(
            (byte - 16) as u8,
        ),
{
    let announced = body.push(0xaa);
    assert(announced.drop_last() == body);
    assert(body.push(byte).drop_last() == body);
    assert(announced.push(byte).drop_last() == announced);
    assert(unescape(announced) == unescape(body));
    assert(unescape(announced.push(byte)) == unescape(body).push(byte & !0x10u8));
    assert((byte / 16) % 2 == 0 ==> byte & !0x10u8 == byte) by (bit_vector);
    assert((byte / 16) % 2 == 1 ==> byte & !0x10u8 == byte - 16) by (bit_vector);
}

/// Bytes without 0xaa stand for themselves.
pub proof fn law_plain_body_stands_for_itself(body: Seq<u8>)
    requires
        forall|i: int| 0 <= i < body.len() ==> #[trigger] body[i] != 0xaa,
    ensures
        unescape(body) == body,
    decreases body.len(),
{
    if body.len() > 0 {
        let shorter = body.drop_last();
        assert(forall|i: int| 0 <= i < shorter.len() ==> shorter[i] == #[trigger] body[i]);
        law_plain_body_stands_for_itself(shorter);
        assert(body[body.len() - 1] != 0xaa);
        assert(shorter.len() > 0 ==> shorter.last() == body[shorter.len() - 1]);
        assert(shorter.push(body.last()) == body);
    }
}

/// The sum of one byte is the byte, that of none is zero, and the check byte
/// complements a sum to a multiple of 256.
pub proof fn law_sum_of_a_byte(byte: u8, bytes: Seq<u8>)
    ensures
        byte_sum(seq![]) == 0,
        byte_sum(seq![byte]) == byte,
        (byte_sum(bytes) + check_byte(bytes)) % 256 == 0,
        checksum_of(bytes) == byte_sum(bytes) % 256,
{
    assert(seq![byte].drop_last() == Seq::<u8>::empty());
    assert(byte_sum(seq![]) == 0);
}

/// On the line of a message stand, once unescaped, the sequence number, the
/// NetFn/LUN, the command, the data and a byte that makes the sum a multiple of
/// 256; 0xa0 closes it, and no terminator occurs before that.
pub proof fn law_layout_of_a_message(message: MessageModel)
    ensures
        ({
            let line = encoded_message(message);
            let raw = unescape(line.drop_last());
            &&& line.len() > 0
            &&& line.last() == 0xa0
            &&& forall|i: int|
                0 <= i < line.len() - 1 ==> #[trigger] line[i] != 0xa0 && line[i] != 0xa1
            &&& line.drop_last() == escape(raw)
            &&& raw.len() == message.data.len() + 4
            &&& raw[0] == message.sequence
            &&& raw[1] == message.netfn_lun
            &&& raw[2] == message.command
            &&& forall|i: int|
                0 <= i < message.data.len() ==> #[trigger] message.data[i] == raw[3 + i]
            &&& byte_sum(raw) % 256 == 0
        }),
{
    let payload = message_payload(message);
    let line = encoded_message(message);
    law_escape_round_trip(payload);
    law_check_byte_balances(message);
    assert(line.drop_last() == escape(payload));
    assert forall|i: int| 0 <= i < line.len() - 1 implies #[trigger] line[i] != 0xa0 && line[i]
        != 0xa1 by {
        assert(line[i] == escape(payload)[i]);
    }
}

/// On the line of a control command stand, once unescaped, its bytes; 0xa1
/// closes it, and no terminator occurs before that.
pub proof fn law_layout_of_a_command(command: Seq<u8>)
    ensures
        ({
            let line = encoded_command(command);
            &&& line.len() > 0
            &&& line.last() == 0xa1
            &&& forall|i: int|
                0 <= i < line.len() - 1 ==> #[trigger] line[i] != 0xa0 && line[i] != 0xa1
            &&& line.drop_last() == escape(command)
            &&& unescape(line.drop_last()) == command
        }),
{
    let line = encoded_command(command);
    law_escape_round_trip(command);
    assert(line.drop_last() == escape(command));
    assert forall|i: int| 0 <= i < line.len() - 1 implies #[trigger] line[i] != 0xa0 && line[i]
        != 0xa1 by {
        assert(line[i] == escape(command)[i]);
    }
}

/// A message is read by position: sequence number, NetFn/LUN and command are
/// the first three bytes, the last byte is the check byte, and the data is all
/// that stands between. Fewer than four bytes, or a sum that is no multiple of
/// 256, are no message.
pub proof fn law_message_is_read_by_position(payload: Seq<u8>)
    ensures
        payload.len() < 4 ==> parsed_message(payload) == Err::<FrameModel, ErrorModel>(
            ErrorModel::Protocol("IPMI message is too short"@),
        ),
        payload.len() >= 4 && byte_sum(payload) % 256 != 0 ==> parsed_message(payload) == Err::<
            FrameModel,
            ErrorModel,
        >(ErrorModel::Protocol("IPMI message checksum mismatch"@)),
        payload.len() >= 4 && byte_sum(payload) % 256 == 0 ==> {
            &&& parsed_message(payload) matches Ok(FrameModel::Message(message))
            &&& message.sequence == payload[0]
            &&& message.netfn_lun == payload[1]
            &&& message.command == payload[2]
            &&& message.data.len() == payload.len() - 4
            &&& forall|i: int|
                0 <= i < message.data.len() ==> #[trigger] message.data[i] == payload[3 + i]
        },
{
}

/// What is unfinished is the part of the stream behind its last terminator.
pub proof fn law_unfinished_is_the_last_part(stream: Seq<u8>)
    ensures
        ({
            let rest = unfinished(stream);
            let start = stream.len() - rest.len();
            &&& start >= 0
            &&& stream.skip(start) == rest
            &&& forall|i: int| 0 <= i < rest.len() ==> #[trigger] rest[i] != 0xa0 && rest[i] != 0xa1
            &&& start > 0 ==> stream[start - 1] == 0xa0 || stream[start - 1] == 0xa1
        }),
    decreases stream.len(),
{
    let rest = unfinished(stream);
    let start = stream.len() - rest.len();
    if stream.len() > 0 && !is_terminator(stream.last()) {
        let shorter = stream.drop_last();
        law_unfinished_is_the_last_part(shorter);
        let before = unfinished(shorter);
        assert(start == shorter.len() - before.len());
        assert(stream.skip(start) == shorter.skip(start).push(stream.last()));
    } else {
        assert(stream.skip(start) == rest);
    }
}

/// Bytes without a terminator complete no frame.
pub proof fn law_no_frame_without_terminator(stream: Seq<u8>, limit: nat)
    requires
        forall|i: int| 0 <= i < stream.len() ==> #[trigger] stream[i] != 0xa0 && stream[i] != 0xa1,
    ensures
        frames(stream, limit) == Seq::<Result<FrameModel, ErrorModel>>::empty(),
        unfinished(stream) == stream,
{
    lemma_unterminated_is_unfinished(stream);
    lemma_unfinished_is_unterminated(stream, limit);
}

/// What a terminator reports of the bytes `body` before it, behind complete
/// frames: too many bytes, an escape that announces nothing, nothing at all of
/// no bytes, a control command of exactly these bytes, or a message whose parts
/// stand at their positions.
pub proof fn law_report_of_a_frame(before: Seq<u8>, body: Seq<u8>, terminator: u8, limit: nat)
    requires
        before.len() == 0 || before.last() == 0xa0 || before.last() == 0xa1,
        forall|i: int| 0 <= i < body.len() ==> #[trigger] body[i] != 0xa0 && body[i] != 0xa1,
        terminator == 0xa0 || terminator == 0xa1,
    ensures
        ({
            let payload = unescape(body);
            let dangling = body.len() > 0 && body.last() == 0xaa;
            let earlier = frames(before, limit);
            let all = frames(before + body.push(terminator), limit);
            &&& unfinished(before + body.push(terminator)).len() == 0
            &&& earlier.len() <= all.len()
            &&& all.take(earlier.len() as int) == earlier
            &&& payload.len() <= limit && body.len() == 0 ==> all == earlier
            &&& payload.len() > limit || body.len() > 0 ==> all.len() == earlier.len() + 1
            &&& payload.len() > limit ==> all.last() == Err::<FrameModel, ErrorModel>(
                ErrorModel::Protocol("frame exceeds max_frame_size"@),
            )
            &&& payload.len() <= limit && dangling ==> all.last() == Err::<FrameModel, ErrorModel>(
                ErrorModel::Protocol("frame ended after escape byte"@),
            )
            &&& payload.len() <= limit && !dangling && body.len() > 0 && terminator == 0xa1
                ==> all.last() == Ok::<FrameModel, ErrorModel>(FrameModel::Command(payload))
            &&& payload.len() <= limit && !dangling && 0 < payload.len() < 4 && terminator == 0xa0
                ==> all.last() == Err::<FrameModel, ErrorModel>(
                ErrorModel::Protocol("IPMI message is too short"@),
            )
            &&& 4 <= payload.len() <= limit && !dangling && byte_sum(payload) % 256 != 0
                && terminator == 0xa0 ==> all.last() == Err::<FrameModel, ErrorModel>(
                ErrorModel::Protocol("IPMI message checksum mismatch"@),
            )
            &&& 4 <= payload.len() <= limit && !dangling && byte_sum(payload) % 256 == 0
                && terminator == 0xa0 ==> {
                &&& all.last() matches Ok(FrameModel::Message(message))
                &&& message.sequence == payload[0]
                &&& message.netfn_lun == payload[1]
                &&& message.command == payload[2]
                &&& message.data == payload.subrange(3, payload.len() - 1)
            }
        }),
{
    let line = body.push(terminator);
    let stream = before + line;
    let earlier = frames(before, limit);
    law_no_frame_without_terminator(body, limit);
    law_pieces_do_not_matter(before, line, limit);
    assert(unfinished(before) == Seq::<u8>::empty());
    assert(unfinished(before) + line == line);
    assert(line.drop_last() == body);
    let report = closed_frame(body, terminator, limit);
    let none = Seq::<Result<FrameModel, ErrorModel>>::empty();
    assert(none + report == report);
    assert(frames(stream, limit) == earlier + report);
    assert((earlier + report).take(earlier.len() as int) == earlier);
    assert(earlier + none == earlier);
    if body.len() > 0 && body.last() != 0xaa {
        assert(unescape(body).len() > 0);
    }
}

// Models
// ======

/// The model of a message has the parts of the message.
pub proof fn law_model_of_a_message(message: IpmiMessage)
    ensures
        message@.sequence == message.sequence,
        message@.netfn_lun == message.netfn_lun,
        message@.command == message.command,
        message@.data == message.data@,
        Frame::Message(message)@ == FrameModel::Message(message@),
        frame_size(FrameModel::Message(message@)) == message.data@.len() + 4,
{
}

/// The model of a control command has its bytes.
pub proof fn law_model_of_a_command(command: Vec<u8>)
    ensures
        Frame::Command(command)@ == FrameModel::Command(command@),
        frame_size(FrameModel::Command(command@)) == command@.len(),
{
}

/// The models of several reports are the models of each, in their order.
pub proof fn law_models_of_reports(results: Seq<Result<Frame, RelayError>>)
    ensures
        outcomes(results).len() == results.len(),
        forall|i: int|
            0 <= i < results.len() ==> (#[trigger] results[i] matches Ok(frame) ==> outcomes(
                results,
            )[i] == Ok::<FrameModel, ErrorModel>(frame@)),
        forall|i: int|
            0 <= i < results.len() ==> (#[trigger] results[i] matches Err(error) ==> outcomes(
                results,
            )[i] == Err::<FrameModel, ErrorModel>(error@)),
{
}

} // verus!
