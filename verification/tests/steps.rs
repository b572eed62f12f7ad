//! Single frames and single steps of a transfer.

use display_interface_i2c::frame::{COMMAND_PREFIX, FRAME_CAPACITY, MAX_CMD_CHUNK, MAX_DATA_CHUNK};
use display_interface_i2c::{Action, DisplayError, Event, Frame, I2CInterface, Payload};

fn written(action: Action) -> Vec<u8> {
    match action {
        Action::Write { address, frame } => {
            assert_eq!(address, 0x3C);
            frame.as_slice().to_vec()
        }
        other => panic!("a write was expected, not {:?}", other),
    }
}

fn done(action: Action) -> Result<(), DisplayError> {
    match action {
        Action::Done(result) => result,
        other => panic!("the end was expected, not {:?}", other),
    }
}

fn interface() -> I2CInterface<()> {
    I2CInterface::new((), 0x3C, 0x40)
}

#[test]
fn limits_are_those_of_the_controller() {
    assert_eq!(COMMAND_PREFIX, 0x00);
    assert_eq!(MAX_CMD_CHUNK, 7);
    assert_eq!(MAX_DATA_CHUNK, 16);
    assert_eq!(FRAME_CAPACITY, 17);
}

#[test]
fn frame_holds_prefix_then_chunk() {
    let frame = Frame::new(0x40, &[1, 2, 3]);
    assert_eq!(frame.as_slice(), &[0x40, 1, 2, 3]);
    assert_eq!(frame.len(), 4);
    assert_eq!(frame.prefix(), 0x40);
    assert_eq!(frame.payload(), &[1, 2, 3]);
}

#[test]
fn frame_of_no_bytes_is_the_prefix_alone() {
    let frame = Frame::new(0x00, &[]);
    assert_eq!(frame.as_slice(), &[0x00]);
    assert_eq!(frame.len(), 1);
    assert!(frame.payload().is_empty());
}

#[test]
fn full_frame_has_17_bytes() {
    let chunk: Vec<u8> = (100..116).collect();
    let frame = Frame::new(0x40, &chunk);
    assert_eq!(frame.len(), 17);
    assert_eq!(frame.prefix(), 0x40);
    assert_eq!(frame.payload(), &chunk[..]);
}

#[test]
fn is_pull_tells_a_request_for_a_byte() {
    assert!(Action::Pull.is_pull());
    assert!(!Action::Done(Ok(())).is_pull());
    assert!(!Action::Write { address: 0x3C, frame: Frame::new(0, &[]) }.is_pull());
}

#[test]
fn buffer_transfer_hands_out_frames_one_per_accepted_write() {
    let data: Vec<u8> = (0..20).collect();
    let mut transfer = interface().send_data(Payload::Bytes(&data));
    let mut first = vec![0x40];
    first.extend_from_slice(&data[..16]);
    assert_eq!(written(transfer.pending()), first);
    assert_eq!(written(transfer.step(Event::Written)), vec![0x40, 16, 17, 18, 19]);
    assert_eq!(done(transfer.step(Event::Written)), Ok(()));
}

#[test]
fn pending_repeats_the_standing_request() {
    let data = [7u8, 8, 9];
    let mut transfer = interface().send_data(Payload::Bytes(&data));
    assert_eq!(written(transfer.pending()), vec![0x40, 7, 8, 9]);
    assert_eq!(written(transfer.pending()), vec![0x40, 7, 8, 9]);
    transfer.step(Event::Written);
    assert_eq!(done(transfer.pending()), Ok(()));
}

#[test]
fn reports_that_answer_nothing_are_passed_over() {
    let data = [7u8, 8, 9];
    let mut transfer = interface().send_data(Payload::Bytes(&data));
    assert_eq!(written(transfer.step(Event::Byte(1))), vec![0x40, 7, 8, 9]);
    assert_eq!(written(transfer.step(Event::End)), vec![0x40, 7, 8, 9]);
    assert_eq!(done(transfer.step(Event::Written)), Ok(()));

    let mut stream = interface().send_data(Payload::ByteStream);
    assert!(stream.step(Event::Written).is_pull());
    assert!(stream.step(Event::WriteFailed).is_pull());
    assert!(stream.step(Event::Byte(5)).is_pull());
    assert_eq!(written(stream.step(Event::End)), vec![0x40, 5]);
}

#[test]
fn finished_transfer_stays_finished() {
    let data = [1u8; 40];
    let mut transfer = interface().send_data(Payload::Bytes(&data));
    transfer.step(Event::Written);
    assert_eq!(done(transfer.step(Event::WriteFailed)), Err(DisplayError::BusWriteError));
    for event in [Event::Written, Event::WriteFailed, Event::Byte(3), Event::End] {
        assert_eq!(done(transfer.step(event)), Err(DisplayError::BusWriteError));
    }

    let mut over = interface().send_data(Payload::Bytes(&[]));
    for event in [Event::Written, Event::WriteFailed, Event::Byte(3), Event::End] {
        assert_eq!(done(over.step(event)), Ok(()));
    }

    let mut refused = interface().send_data(Payload::Other);
    for event in [Event::Written, Event::WriteFailed, Event::Byte(3), Event::End] {
        assert_eq!(done(refused.step(event)), Err(DisplayError::DataFormatNotImplemented));
    }
}

#[test]
fn stream_fills_a_frame_byte_by_byte() {
    let mut transfer = interface().send_data(Payload::ByteStream);
    assert!(transfer.pending().is_pull());
    for byte in 0..15u8 {
        assert!(transfer.step(Event::Byte(byte)).is_pull());
    }
    let full: Vec<u8> = std::iter::once(0x40).chain(0..16).collect();
    assert_eq!(written(transfer.step(Event::Byte(15))), full);
    assert!(transfer.step(Event::Written).is_pull());
    assert!(transfer.step(Event::Byte(16)).is_pull());
    assert_eq!(written(transfer.step(Event::End)), vec![0x40, 16]);
    assert_eq!(done(transfer.step(Event::Written)), Ok(()));
}

#[test]
fn stream_that_ends_on_a_full_frame_is_done_after_it() {
    let mut transfer = interface().send_data(Payload::ByteStream);
    for byte in 0..16u8 {
        transfer.step(Event::Byte(byte));
    }
    assert!(transfer.step(Event::Written).is_pull());
    assert_eq!(done(transfer.step(Event::End)), Ok(()));
}

#[test]
fn stream_asks_for_no_byte_after_the_end() {
    let mut transfer = interface().send_data(Payload::ByteStream);
    transfer.step(Event::Byte(1));
    assert_eq!(written(transfer.step(Event::End)), vec![0x40, 1]);
    assert_eq!(written(transfer.step(Event::Byte(2))), vec![0x40, 1]);
    assert_eq!(done(transfer.step(Event::Written)), Ok(()));
}

#[test]
fn failed_write_in_a_stream_is_a_bus_write_error() {
    let mut transfer = interface().send_data(Payload::ByteStream);
    for byte in 0..16u8 {
        transfer.step(Event::Byte(byte));
    }
    assert_eq!(done(transfer.step(Event::WriteFailed)), Err(DisplayError::BusWriteError));
    assert_eq!(done(transfer.step(Event::Byte(16))), Err(DisplayError::BusWriteError));
}

#[test]
fn pull_from_takes_no_more_than_a_frame_holds() {
    let mut source = 0..40u8;
    let mut transfer = interface().send_data(Payload::ByteStream);
    let first: Vec<u8> = std::iter::once(0x40).chain(0..16).collect();
    assert_eq!(written(transfer.pull_from(&mut source)), first);
    assert_eq!(source.len(), 24);
    assert_eq!(written(transfer.pull_from(&mut source)), first);
    assert_eq!(source.len(), 24);
    transfer.step(Event::Written);
    let second: Vec<u8> = std::iter::once(0x40).chain(16..32).collect();
    assert_eq!(written(transfer.pull_from(&mut source)), second);
    transfer.step(Event::Written);
    let last: Vec<u8> = std::iter::once(0x40).chain(32..40).collect();
    assert_eq!(written(transfer.pull_from(&mut source)), last);
    transfer.step(Event::Written);
    assert_eq!(done(transfer.pull_from(&mut source)), Ok(()));
}

#[test]
fn pull_from_stops_asking_a_source_that_has_ended() {
    let mut calls = 0;
    let mut items = vec![None, Some(2u8), Some(1u8)];
    let mut source = std::iter::from_fn(|| {
        calls += 1;
        items.pop().flatten()
    });
    let mut transfer = interface().send_data(Payload::ByteStream);
    assert_eq!(written(transfer.pull_from(&mut source)), vec![0x40, 1, 2]);
    transfer.step(Event::Written);
    assert_eq!(done(transfer.pull_from(&mut source)), Ok(()));
    drop(source);
    assert_eq!(calls, 3);
}

#[test]
fn pull_from_leaves_the_source_alone_for_bytes_at_hand() {
    let data = [1u8, 2];
    let mut source = 10..20u8;
    let mut transfer = interface().send_data(Payload::Bytes(&data));
    assert_eq!(written(transfer.pull_from(&mut source)), vec![0x40, 1, 2]);
    transfer.step(Event::Written);
    assert_eq!(done(transfer.pull_from(&mut source)), Ok(()));
    assert_eq!(source.len(), 10);
}

#[test]
fn commands_go_out_once_and_whole() {
    let cmds = [0xAE, 0xD5, 0x80, 0xA8, 0x3F, 0xD3, 0x00];
    let mut transfer = interface().send_commands(Payload::Bytes(&cmds));
    assert_eq!(
        written(transfer.pending()),
        vec![0x00, 0xAE, 0xD5, 0x80, 0xA8, 0x3F, 0xD3, 0x00]
    );
    assert_eq!(done(transfer.step(Event::Written)), Ok(()));
}

#[test]
fn empty_commands_still_take_a_write() {
    let mut transfer = interface().send_commands(Payload::Bytes(&[]));
    assert_eq!(written(transfer.pending()), vec![0x00]);
    assert_eq!(done(transfer.step(Event::Written)), Ok(()));
}

#[test]
fn writes_go_to_the_address_of_the_interface() {
    let interface = I2CInterface::new((), 0x3D, 0x40);
    for action in [
        interface.send_data(Payload::Bytes(&[1, 2])).pending(),
        interface.send_commands(Payload::Bytes(&[0xAF])).pending(),
        interface.send_data(Payload::ByteStream).pull_from(&mut (0..3u8)),
    ] {
        match action {
            Action::Write { address, .. } => assert_eq!(address, 0x3D),
            other => panic!("a write was expected, not {:?}", other),
        }
    }
}

#[test]
fn refused_shapes_are_over_at_once() {
    assert_eq!(
        done(interface().send_data(Payload::Other).pending()),
        Err(DisplayError::DataFormatNotImplemented)
    );
    assert_eq!(
        done(interface().send_commands(Payload::Other).pending()),
        Err(DisplayError::DataFormatNotImplemented)
    );
    assert_eq!(
        done(interface().send_commands(Payload::ByteStream).pending()),
        Err(DisplayError::DataFormatNotImplemented)
    );
}
