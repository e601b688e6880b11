use qemu_ipmi_relay::error::RelayError;
use qemu_ipmi_relay::openipmi::{
    ioc, ipmictl_receive_msg_trunc, ipmictl_send_command, Action, Event, MessageIds, Received,
    SendCommand, Transaction,
};
use qemu_ipmi_relay::startup::{retry_pause, wait_for_device};
use qemu_ipmi_relay::vm_codec::IpmiMessage;
use std::time::Duration;

fn request(netfn_lun: u8, data: Vec<u8>) -> IpmiMessage {
    IpmiMessage {
        sequence: 9,
        netfn_lun,
        command: 0x37,
        data,
    }
}

fn transaction() -> Transaction {
    Transaction {
        sequence: 9,
        msgid: 41,
    }
}

fn received(recv_type: i32, msgid: i64, data_len: u16) -> Event {
    Event::Fetched {
        result: 0,
        cause: String::new(),
        received: Received {
            recv_type,
            msgid,
            netfn: 7,
            cmd: 0x37,
            lun: 0xfe,
            data_len,
            data: vec![0, 0x20, 0, 0],
        },
    }
}

fn failed(text: &str) -> Action {
    Action::Finish(Err(RelayError::OpenIpmi(text.to_string())))
}

#[test]
fn ioctl_numbers_on_64_bit_linux() {
    assert_eq!(ipmictl_send_command(40), 0x8028_690d);
    assert_eq!(ipmictl_receive_msg_trunc(48), 0xc030_690b);
    assert_eq!(ioc(1, 2, 3), 0x4003_6902);
}

#[test]
fn request_is_split_for_the_driver() {
    let mut ids = MessageIds::new();
    let (transaction, command) =
        Transaction::begin(&mut ids, &request(0x1b, vec![1, 2])).unwrap();
    assert_eq!(
        transaction,
        Transaction {
            sequence: 9,
            msgid: 1
        }
    );
    assert_eq!(
        command,
        SendCommand {
            addr_type: 0x0c,
            channel: 0x0f,
            lun: 3,
            msgid: 1,
            netfn: 6,
            cmd: 0x37,
            data: vec![1, 2],
        }
    );
}

#[test]
fn numbers_follow_one_another() {
    let mut ids = MessageIds::new();
    assert_eq!(ids.allocate(), 1);
    assert_eq!(ids.allocate(), 2);
    let (transaction, _) = Transaction::begin(&mut ids, &request(0, vec![])).unwrap();
    assert_eq!(transaction.msgid, 3);
}

#[test]
fn refuses_payloads_over_the_driver_limit() {
    let mut ids = MessageIds::new();
    assert_eq!(
        Transaction::begin(&mut ids, &request(0, vec![0; 65_536])),
        Err(RelayError::OpenIpmi(
            "request payload is too large".to_string()
        ))
    );
    assert_eq!(ids.allocate(), 1);
    assert!(Transaction::begin(&mut ids, &request(0, vec![0; 65_535])).is_ok());
}

#[test]
fn netfn_and_lun_survive_the_driver() {
    let mut ids = MessageIds::new();
    for netfn_lun in 0..=255u8 {
        let (transaction, command) =
            Transaction::begin(&mut ids, &request(netfn_lun, vec![])).unwrap();
        let event = Event::Fetched {
            result: 0,
            cause: String::new(),
            received: Received {
                recv_type: 1,
                msgid: command.msgid,
                netfn: command.netfn,
                cmd: command.cmd,
                lun: command.lun,
                data_len: 0,
                data: vec![0; 4],
            },
        };
        assert_eq!(
            transaction.step(event),
            Action::Finish(Ok(request(netfn_lun, vec![])))
        );
    }
}

#[test]
fn takes_its_own_answer() {
    assert_eq!(
        transaction().step(received(1, 41, 2)),
        Action::Finish(Ok(IpmiMessage {
            sequence: 9,
            netfn_lun: 0x1e,
            command: 0x37,
            data: vec![0, 0x20],
        }))
    );
}

#[test]
fn claims_beyond_the_buffer_are_cut() {
    match transaction().step(received(1, 41, 1000)) {
        Action::Finish(Ok(message)) => assert_eq!(message.data, vec![0, 0x20, 0, 0]),
        other => panic!("{other:?}"),
    }
}

#[test]
fn late_answers_are_ignored() {
    assert_eq!(transaction().step(received(1, 40, 2)), Action::CheckDeadline);
    assert_eq!(transaction().step(received(2, 41, 2)), Action::CheckDeadline);
}

#[test]
fn polls_for_the_remaining_time() {
    let poll = |time| transaction().step(Event::Remaining(time));
    assert_eq!(poll(Duration::from_millis(3000)), Action::Poll(3000));
    assert_eq!(poll(Duration::from_micros(1999)), Action::Poll(1));
    assert_eq!(poll(Duration::from_nanos(1)), Action::Poll(0));
    assert_eq!(poll(Duration::MAX), Action::Poll(i32::MAX));
    assert_eq!(poll(Duration::ZERO), failed("request timed out"));
}

#[test]
fn poll_results_decide() {
    let polled = |result, interrupted| {
        transaction().step(Event::Polled {
            result,
            interrupted,
            cause: "broken".to_string(),
        })
    };
    assert_eq!(polled(1, false), Action::Fetch);
    assert_eq!(polled(0, false), failed("request timed out"));
    assert_eq!(polled(-1, true), Action::CheckDeadline);
    assert_eq!(
        polled(-1, false),
        Action::Finish(Err(RelayError::Io("broken".to_string())))
    );
}

#[test]
fn driver_errors_end_the_transaction() {
    let sent = |result| {
        transaction().step(Event::Sent {
            result,
            cause: "no device".to_string(),
        })
    };
    assert_eq!(sent(0), Action::CheckDeadline);
    assert_eq!(sent(-1), failed("no device"));
    let fetched = Event::Fetched {
        result: -1,
        cause: "too long".to_string(),
        received: Received {
            recv_type: 1,
            msgid: 41,
            netfn: 7,
            cmd: 0,
            lun: 0,
            data_len: 0,
            data: vec![],
        },
    };
    assert_eq!(transaction().step(fetched), failed("too long"));
}

#[test]
fn waits_for_the_device_while_time_remains() {
    assert_eq!(
        wait_for_device(Duration::from_nanos(1), "absent".to_string()),
        Ok(())
    );
    assert_eq!(
        wait_for_device(Duration::ZERO, "absent".to_string()),
        Err(RelayError::Io("absent".to_string()))
    );
}

#[test]
fn pauses_within_the_remaining_time() {
    let pause = |nanos| retry_pause(Duration::from_nanos(nanos));
    assert_eq!(pause(0), Duration::ZERO);
    assert_eq!(pause(999_999), Duration::ZERO);
    assert_eq!(pause(99_999_999), Duration::from_millis(99));
    assert_eq!(pause(100_000_000), Duration::from_millis(100));
    assert_eq!(pause(5_000_000_000), Duration::from_millis(100));
}
