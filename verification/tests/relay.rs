use qemu_ipmi_relay::error::RelayError;
use qemu_ipmi_relay::openipmi::Backend;
use qemu_ipmi_relay::relay::{forward, reply, Session, Step};
use qemu_ipmi_relay::vm_codec::{encode_command, encode_message, IpmiMessage, VM_CMD_RESET};
use std::cell::RefCell;
use std::sync::atomic::{AtomicUsize, Ordering};
use std::time::Duration;

struct EchoBackend;

impl Backend for EchoBackend {
    fn transact(
        &self,
        request: &IpmiMessage,
        _timeout: Duration,
    ) -> Result<IpmiMessage, RelayError> {
        Ok(IpmiMessage {
            sequence: request.sequence,
            netfn_lun: request.netfn_lun.wrapping_add(4),
            command: request.command,
            data: vec![0, request.data[0]],
        })
    }
}

struct FailOnceBackend {
    calls: AtomicUsize,
}

impl Backend for FailOnceBackend {
    fn transact(
        &self,
        request: &IpmiMessage,
        _timeout: Duration,
    ) -> Result<IpmiMessage, RelayError> {
        if self.calls.fetch_add(1, Ordering::Relaxed) == 0 {
            return Err(RelayError::OpenIpmi("test failure".into()));
        }
        Ok(IpmiMessage {
            sequence: request.sequence,
            netfn_lun: request.netfn_lun.wrapping_add(4),
            command: request.command,
            data: vec![0],
        })
    }
}

struct RecordingBackend {
    seen: RefCell<Vec<(IpmiMessage, Duration)>>,
}

impl Backend for RecordingBackend {
    fn transact(&self, request: &IpmiMessage, timeout: Duration) -> Result<IpmiMessage, RelayError> {
        self.seen.borrow_mut().push((request.clone(), timeout));
        Ok(request.clone())
    }
}

fn message(sequence: u8, command: u8, data: Vec<u8>) -> IpmiMessage {
    IpmiMessage {
        sequence,
        netfn_lun: 0x18,
        command,
        data,
    }
}

/// Serves a connection on which `pieces` arrive and then the end of the stream.
fn serve<B: Backend>(backend: &B, pieces: &[Vec<u8>]) -> (Vec<u8>, Result<(), RelayError>) {
    let mut session = Session::new(303);
    let mut pieces = pieces.iter();
    let mut output = Vec::new();
    loop {
        match session.step() {
            Step::Read => session.receive(pieces.next().map_or(&[][..], |piece| &piece[..])),
            Step::Forward(request) => {
                if let Some(line) = forward(backend, &request, Duration::from_secs(1)) {
                    output.extend(line);
                }
            }
            Step::Ignore(_) => {}
            Step::Finish(result) => return (output, result),
        }
    }
}

#[test]
fn relays_a_complete_message_without_interpreting_the_command() {
    let request = IpmiMessage {
        sequence: 9,
        netfn_lun: 0x18,
        command: 0xa0,
        data: vec![0xaa],
    };
    let (response, result) = serve(&EchoBackend, &[encode_message(&request)]);
    assert_eq!(
        response,
        encode_message(&IpmiMessage {
            sequence: 9,
            netfn_lun: 0x1c,
            command: 0xa0,
            data: vec![0, 0xaa],
        })
    );
    result.unwrap();
}

#[test]
fn backend_failure_does_not_disconnect_qemu() {
    let backend = FailOnceBackend {
        calls: AtomicUsize::new(0),
    };
    let first = IpmiMessage {
        sequence: 1,
        netfn_lun: 0x18,
        command: 1,
        data: vec![],
    };
    let second = IpmiMessage {
        sequence: 2,
        netfn_lun: 0x18,
        command: 2,
        data: vec![],
    };
    let input = encode_message(&first)
        .into_iter()
        .chain(encode_message(&second))
        .collect::<Vec<_>>();
    let (response, result) = serve(&backend, &[input]);
    assert_eq!(
        response,
        encode_message(&IpmiMessage {
            sequence: 2,
            netfn_lun: 0x1c,
            command: 2,
            data: vec![0],
        })
    );
    result.unwrap();
}

#[test]
fn serves_frames_in_order_and_passes_over_commands() {
    let backend = RecordingBackend {
        seen: RefCell::new(Vec::new()),
    };
    let mut input = encode_message(&message(1, 1, vec![0xa0]));
    input.extend(encode_command(&[VM_CMD_RESET]));
    input.extend(encode_message(&message(2, 2, vec![])));
    let pieces = input.iter().map(|byte| vec![*byte]).collect::<Vec<_>>();
    let (output, result) = serve(&backend, &pieces);
    assert_eq!(result, Ok(()));
    let mut expected = encode_message(&message(1, 1, vec![0xa0]));
    expected.extend(encode_message(&message(2, 2, vec![])));
    assert_eq!(output, expected);
    assert_eq!(
        backend.seen.into_inner(),
        vec![
            (message(1, 1, vec![0xa0]), Duration::from_secs(1)),
            (message(2, 2, vec![]), Duration::from_secs(1)),
        ]
    );
}

#[test]
fn a_broken_frame_ends_the_session_behind_earlier_ones() {
    let backend = RecordingBackend {
        seen: RefCell::new(Vec::new()),
    };
    let mut input = encode_message(&message(1, 1, vec![]));
    input.extend([1, 2, 0xa0]);
    input.extend(encode_message(&message(2, 2, vec![])));
    let (output, result) = serve(&backend, &[input]);
    assert_eq!(output, encode_message(&message(1, 1, vec![])));
    assert_eq!(
        result,
        Err(RelayError::Protocol(
            "IPMI message is too short".to_string()
        ))
    );
    assert_eq!(backend.seen.into_inner().len(), 1);
}

#[test]
fn a_finished_session_takes_nothing_more() {
    let mut session = Session::new(303);
    session.receive(&[1, 0xa0]);
    assert_eq!(
        session.step(),
        Step::Finish(Err(RelayError::Protocol(
            "IPMI message is too short".to_string()
        )))
    );
    session.receive(&encode_message(&message(2, 2, vec![])));
    assert_eq!(session.step(), Step::Finish(Ok(())));
}

#[test]
fn the_end_comes_behind_the_frames() {
    let mut session = Session::new(303);
    assert_eq!(session.step(), Step::Read);
    session.receive(&encode_command(&[VM_CMD_RESET]));
    session.receive(&[]);
    assert_eq!(session.step(), Step::Ignore(vec![VM_CMD_RESET]));
    assert_eq!(session.step(), Step::Finish(Ok(())));
}

#[test]
fn replies_only_with_answers() {
    let answer = message(3, 4, vec![0]);
    assert_eq!(reply(Ok(answer.clone())), Some(encode_message(&answer)));
    assert_eq!(reply(Err(RelayError::BmcWorkerUnavailable)), None);
}

#[test]
fn reading_ahead_makes_no_difference() {
    let first = encode_message(&message(1, 1, vec![]));
    let second = encode_message(&message(2, 2, vec![]));
    let mut ahead = Session::new(303);
    ahead.receive(&first);
    ahead.receive(&second);
    let mut behind = Session::new(303);
    behind.receive(&first);
    assert_eq!(ahead.step(), Step::Forward(message(1, 1, vec![])));
    assert_eq!(behind.step(), Step::Forward(message(1, 1, vec![])));
    behind.receive(&second);
    assert_eq!(ahead.step(), Step::Forward(message(2, 2, vec![])));
    assert_eq!(behind.step(), Step::Forward(message(2, 2, vec![])));
}

#[test]
fn a_connection_serves_its_stream_however_it_is_cut() {
    let mut good = encode_message(&message(1, 1, vec![0xaa]));
    good.extend(encode_command(&[VM_CMD_RESET]));
    good.extend(encode_message(&message(2, 2, vec![])));
    let mut broken = good.clone();
    broken.extend([9, 0xaa, 0xa0]);
    broken.extend(encode_message(&message(3, 3, vec![])));
    let dangling = Err(RelayError::Protocol(
        "frame ended after escape byte".to_string(),
    ));
    for (stream, end) in [(good, Ok(())), (broken, dangling)] {
        for size in 1..=stream.len() {
            let mut session = Session::new(303);
            let mut pieces = stream.chunks(size);
            let mut steps = Vec::new();
            loop {
                match session.step() {
                    Step::Read => session.receive(pieces.next().unwrap_or(&[])),
                    Step::Finish(result) => {
                        steps.push(Step::Finish(result));
                        break;
                    }
                    step => steps.push(step),
                }
            }
            assert_eq!(
                steps,
                vec![
                    Step::Forward(message(1, 1, vec![0xaa])),
                    Step::Ignore(vec![VM_CMD_RESET]),
                    Step::Forward(message(2, 2, vec![])),
                    Step::Finish(end.clone()),
                ]
            );
        }
    }
}
