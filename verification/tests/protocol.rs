use migration_profile::error::{DecodeError, MigratableError};
use migration_profile::protocol::{Command, Request, Response, Status};

fn frame_of(bytes: &[u8]) -> [u8; 16] {
    bytes.try_into().unwrap()
}

#[test]
fn request_bytes_layout() {
    let mut out = Vec::new();
    Request::memory(0x0102_0304_0506_0708).write_to(&mut out);
    assert_eq!(
        out,
        vec![4, 0, 0, 0, 0, 0, 0, 0, 8, 7, 6, 5, 4, 3, 2, 1]
    );
}

#[test]
fn request_roundtrip() {
    let requests = [
        Request::start(),
        Request::config(10),
        Request::state(20),
        Request::memory(30),
        Request::memory_fd(8),
        Request::complete(),
        Request::complete_paused(),
        Request::abandon(),
        Request::new(Command::Invalid, 7),
    ];
    for r in requests {
        let mut out = Vec::new();
        r.write_to(&mut out);
        let back = Request::read_from(&frame_of(&out)).unwrap().unwrap();
        assert_eq!(back.command(), r.command());
        assert_eq!(back.length(), r.length());
    }
}

#[test]
fn request_keep_alive_is_skipped() {
    let mut out = Vec::new();
    Request::keep_alive().write_to(&mut out);
    assert!(Request::read_from(&frame_of(&out)).unwrap().is_none());
}

#[test]
fn request_invalid_command_is_rejected() {
    let mut frame = [0u8; 16];
    frame[0] = 10;
    assert_eq!(
        Request::read_from(&frame).unwrap_err(),
        MigratableError::DeserializeError(DecodeError::InvalidCommand(10))
    );
    frame[0] = 0;
    frame[1] = 1;
    assert_eq!(
        Request::read_from(&frame).unwrap_err(),
        MigratableError::DeserializeError(DecodeError::InvalidCommand(256))
    );
}

#[test]
fn command_codes() {
    assert_eq!(Command::KeepAlive.code(), 8);
    assert_eq!(Command::CompletePaused.code(), 9);
    assert_eq!(Command::from_code(9), Some(Command::CompletePaused));
    assert_eq!(Command::from_code(11), None);
}

#[test]
fn response_roundtrip_and_status() {
    for r in [Response::ok(), Response::error(), Response::new(Status::Invalid, 3)] {
        let mut out = Vec::new();
        r.write_to(&mut out);
        assert_eq!(out.len(), 16);
        let back = Response::read_from(&frame_of(&out)).unwrap().unwrap();
        assert_eq!(back.status(), r.status());
        assert_eq!(back.length(), r.length());
    }
    let mut out = Vec::new();
    Response::keep_alive().write_to(&mut out);
    assert!(Response::read_from(&frame_of(&out)).unwrap().is_none());

    let mut frame = [0u8; 16];
    frame[0] = 4;
    assert_eq!(
        Response::read_from(&frame).unwrap_err(),
        MigratableError::DeserializeError(DecodeError::InvalidStatus(4))
    );
}

#[test]
fn ok_or_error() {
    let err = MigratableError::MigrateSocket("boom".to_string());
    assert_eq!(Response::ok().ok_or_error(err.clone()).unwrap().status(), Status::Success);
    assert_eq!(Response::error().ok_or_error(err.clone()).unwrap_err(), err);
    assert_eq!(Response::new(Status::Invalid, 0).ok_or_error(err.clone()).unwrap_err(), err);
}

#[test]
fn request_stream_skips_keep_alives() {
    let mut stream = Vec::new();
    Request::keep_alive().write_to(&mut stream);
    Request::keep_alive().write_to(&mut stream);
    Request::config(0x40).write_to(&mut stream);
    let mut read = None;
    let mut consumed = 0;
    for frame in stream.chunks(16) {
        consumed += 16;
        if let Some(r) = Request::read_from(&frame_of(frame)).unwrap() {
            read = Some(r);
            break;
        }
    }
    let r = read.unwrap();
    assert_eq!(consumed, 48);
    assert_eq!(r.command(), Command::Config);
    assert_eq!(r.length(), 0x40);
}
