//! Message headers of the live-migration protocol.
//!
//! Every message starts with a 16-byte header: a little-endian `u16` command
//! (or status), six padding bytes, and a little-endian `u64` payload length.
use crate::error::{DecodeError, MigratableError};
use vstd::bytes::*;
use vstd::prelude::*;

verus! {

/// The size in bytes of a request or response header.
pub const HEADER_SIZE: usize = 16;

/// The commands of the live-migration protocol.
#[derive(Debug, Copy, Clone, Default, PartialEq, Eq, Structural)]
pub enum Command {
    #[default]
    Invalid,
    Start,
    Config,
    State,
    Memory,
    /// Finalizes the migration and resumes the VM on the destination.
    /// Sent when the source VM was running at migration time.
    Complete,
    Abandon,
    MemoryFd,
    /// Finalizes the migration without resuming the VM on the destination.
    /// Sent when the source VM was paused at migration time.
    CompletePaused,
    KeepAlive,
}

/// The number that stands for a command on the wire.
pub open spec fn command_code(c: Command) -> u16 {
    match c {
        Command::Invalid => 0,
        Command::Start => 1,
        Command::Config => 2,
        Command::State => 3,
        Command::Memory => 4,
        Command::Complete => 5,
        Command::Abandon => 6,
        Command::MemoryFd => 7,
        Command::KeepAlive => 8,
        Command::CompletePaused => 9,
    }
}

/// The command that a wire number stands for, if any.
pub open spec fn command_of_code(v: u16) -> Option<Command> {
    if v == 0 {
        Some(Command::Invalid)
    } else if v == 1 {
        Some(Command::Start)
    } else if v == 2 {
        Some(Command::Config)
    } else if v == 3 {
        Some(Command::State)
    } else if v == 4 {
        Some(Command::Memory)
    } else if v == 5 {
        Some(Command::Complete)
    } else if v == 6 {
        Some(Command::Abandon)
    } else if v == 7 {
        Some(Command::MemoryFd)
    } else if v == 8 {
        Some(Command::KeepAlive)
    } else if v == 9 {
        Some(Command::CompletePaused)
    } else {
        None
    }
}

impl Command {
    /// The number that stands for this command on the wire.
    pub fn code(self) -> (r: u16)
        ensures
            r == command_code(self),
    {
        match self {
            Command::Invalid => 0,
            Command::Start => 1,
            Command::Config => 2,
            Command::State => 3,
            Command::Memory => 4,
            Command::Complete => 5,
            Command::Abandon => 6,
            Command::MemoryFd => 7,
            Command::KeepAlive => 8,
            Command::CompletePaused => 9,
        }
    }

    /// The command that `v` stands for on the wire, if any.
    pub fn from_code(v: u16) -> (r: Option<Command>)
        ensures
            r == command_of_code(v),
    {
        if v == 0 {
            Some(Command::Invalid)
        } else if v == 1 {
            Some(Command::Start)
        } else if v == 2 {
            Some(Command::Config)
        } else if v == 3 {
            Some(Command::State)
        } else if v == 4 {
            Some(Command::Memory)
        } else if v == 5 {
            Some(Command::Complete)
        } else if v == 6 {
            Some(Command::Abandon)
        } else if v == 7 {
            Some(Command::MemoryFd)
        } else if v == 8 {
            Some(Command::KeepAlive)
        } else if v == 9 {
            Some(Command::CompletePaused)
        } else {
            None
        }
    }
}

/// The status of a response.
#[derive(Debug, Copy, Clone, Default, PartialEq, Eq, Structural)]
pub enum Status {
    #[default]
    Invalid,
    Success,
    Error,
    KeepAlive,
}

/// The number that stands for a status on the wire.
pub open spec fn status_code(s: Status) -> u16 {
    match s {
        Status::Invalid => 0,
        Status::Success => 1,
        Status::Error => 2,
        Status::KeepAlive => 3,
    }
}

/// The status that a wire number stands for, if any.
pub open spec fn status_of_code(v: u16) -> Option<Status> {
    if v == 0 {
        Some(Status::Invalid)
    } else if v == 1 {
        Some(Status::Success)
    } else if v == 2 {
        Some(Status::Error)
    } else if v == 3 {
        Some(Status::KeepAlive)
    } else {
        None
    }
}

impl Status {
    /// The number that stands for this status on the wire.
    pub fn code(self) -> (r: u16)
        ensures
            r == status_code(self),
    {
        match self {
            Status::Invalid => 0,
            Status::Success => 1,
            Status::Error => 2,
            Status::KeepAlive => 3,
        }
    }

    /// The status that `v` stands for on the wire, if any.
    pub fn from_code(v: u16) -> (r: Option<Status>)
        ensures
            r == status_of_code(v),
    {
        if v == 0 {
            Some(Status::Invalid)
        } else if v == 1 {
            Some(Status::Success)
        } else if v == 2 {
            Some(Status::Error)
        } else if v == 3 {
            Some(Status::KeepAlive)
        } else {
            None
        }
    }
}

/// The bytes of a header: the code, the padding and the length, in this order.
pub open spec fn header_bytes(code: u16, padding: Seq<u8>, length: u64) -> Seq<u8> {
    spec_u16_to_le_bytes(code) + padding + spec_u64_to_le_bytes(length)
}

/// Appends `bytes` to `out`.
fn append_bytes(out: &mut Vec<u8>, bytes: &[u8])
    ensures
        final(out)@ == old(out)@ + bytes@,
{
    let mut i: usize = 0;
    while i < bytes.len()
        invariant
            i <= bytes@.len(),
            out@ == old(out)@ + bytes@.subrange(0, i as int),
        decreases bytes@.len() - i,
    {
        out.push(bytes[i]);
        i = i + 1;
        assert(bytes@.subrange(0, i as int) == bytes@.subrange(0, i - 1).push(bytes@[i - 1]));
    }
    assert(bytes@.subrange(0, bytes@.len() as int) == bytes@);
}

/// Appends the header made of `code`, `padding` and `length` to `out`.
fn write_header(out: &mut Vec<u8>, code: u16, padding: &[u8; 6], length: u64)
    ensures
        final(out)@ == old(out)@ + header_bytes(code, padding@, length),
{
    let code_bytes = u16_to_le_bytes(code);
    append_bytes(out, code_bytes.as_slice());
    append_bytes(out, padding.as_slice());
    let length_bytes = u64_to_le_bytes(length);
    append_bytes(out, length_bytes.as_slice());
    assert(old(out)@ + spec_u16_to_le_bytes(code) + padding@ + spec_u64_to_le_bytes(length)
        == old(out)@ + header_bytes(code, padding@, length));
}

/// Splits a header into its code, padding and length.
fn read_header(frame: &[u8; 16]) -> (r: (u16, [u8; 6], u64))
    ensures
        frame@ == header_bytes(r.0, r.1@, r.2),
{
    let code_bytes: [u8; 2] = [frame[0], frame[1]];
    let code = u16_from_le_bytes(code_bytes.as_slice());
    let padding: [u8; 6] = [frame[2], frame[3], frame[4], frame[5], frame[6], frame[7]];
    let length_bytes: [u8; 8] = [
        frame[8],
        frame[9],
        frame[10],
        frame[11],
        frame[12],
        frame[13],
        frame[14],
        frame[15],
    ];
    let length = u64_from_le_bytes(length_bytes.as_slice());
    proof {
        lemma_auto_spec_u16_to_from_le_bytes();
        lemma_auto_spec_u64_to_from_le_bytes();
        assert(code_bytes@ == frame@.subrange(0, 2));
        assert(length_bytes@ == frame@.subrange(8, 16));
        assert(spec_u16_to_le_bytes(code) == frame@.subrange(0, 2));
        assert(spec_u64_to_le_bytes(length) == frame@.subrange(8, 16));
        assert(padding@ == frame@.subrange(2, 8));
        assert(frame@ == frame@.subrange(0, 2) + frame@.subrange(2, 8) + frame@.subrange(8, 16));
    }
    (code, padding, length)
}


/// The code field of a received header.
pub open spec fn frame_code(frame: Seq<u8>) -> u16 {
    spec_u16_from_le_bytes(frame.subrange(0, 2))
}

/// A request header: a command and the length of the payload that follows it.
#[derive(Debug, Default, Copy, Clone)]
pub struct Request {
    command: Command,
    padding: [u8; 6],
    length: u64,
}

impl Request {
    /// The command of the request.
    pub closed spec fn spec_command(self) -> Command {
        self.command
    }

    /// The payload length of the request.
    pub closed spec fn spec_length(self) -> u64 {
        self.length
    }

    /// The bytes of the request on the wire.
    pub closed spec fn spec_bytes(self) -> Seq<u8> {
        header_bytes(command_code(self.command), self.padding@, self.length)
    }

    /// A request with the given command and payload length.
    pub fn new(command: Command, length: u64) -> (r: Self)
        ensures
            r == Self::new_spec(command, length),
            r.spec_command() == command,
            r.spec_length() == length,
            r.spec_bytes() == header_bytes(command_code(command), seq![0u8, 0, 0, 0, 0, 0], length),
    {
        let r = Request { command, padding: [0u8, 0, 0, 0, 0, 0], length };
        assert(r.padding@ =~= seq![0u8, 0, 0, 0, 0, 0]);
        r
    }

    pub fn start() -> (r: Self)
        ensures
            r == Self::new_spec(Command::Start, 0),
            r.spec_command() == Command::Start,
            r.spec_length() == 0,
    {
        Self::new(Command::Start, 0)
    }

    pub fn state(length: u64) -> (r: Self)
        ensures
            r == Self::new_spec(Command::State, length),
            r.spec_command() == Command::State,
            r.spec_length() == length,
    {
        Self::new(Command::State, length)
    }

    pub fn config(length: u64) -> (r: Self)
        ensures
            r == Self::new_spec(Command::Config, length),
            r.spec_command() == Command::Config,
            r.spec_length() == length,
    {
        Self::new(Command::Config, length)
    }

    pub fn memory(length: u64) -> (r: Self)
        ensures
            r == Self::new_spec(Command::Memory, length),
            r.spec_command() == Command::Memory,
            r.spec_length() == length,
    {
        Self::new(Command::Memory, length)
    }

    pub fn memory_fd(length: u64) -> (r: Self)
        ensures
            r == Self::new_spec(Command::MemoryFd, length),
            r.spec_command() == Command::MemoryFd,
            r.spec_length() == length,
    {
        Self::new(Command::MemoryFd, length)
    }

    /// Finalizes the migration and resumes the VM on the destination.
    pub fn complete() -> (r: Self)
        ensures
            r == Self::new_spec(Command::Complete, 0),
            r.spec_command() == Command::Complete,
            r.spec_length() == 0,
    {
        Self::new(Command::Complete, 0)
    }

    /// Finalizes the migration without resuming the VM on the destination.
    pub fn complete_paused() -> (r: Self)
        ensures
            r == Self::new_spec(Command::CompletePaused, 0),
            r.spec_command() == Command::CompletePaused,
            r.spec_length() == 0,
    {
        Self::new(Command::CompletePaused, 0)
    }

    pub fn abandon() -> (r: Self)
        ensures
            r == Self::new_spec(Command::Abandon, 0),
            r.spec_command() == Command::Abandon,
            r.spec_length() == 0,
    {
        Self::new(Command::Abandon, 0)
    }

    pub fn keep_alive() -> (r: Self)
        ensures
            r == Self::new_spec(Command::KeepAlive, 0),
            r.spec_command() == Command::KeepAlive,
            r.spec_length() == 0,
    {
        Self::new(Command::KeepAlive, 0)
    }

    /// The request that `new(command, length)` builds.
    pub closed spec fn new_spec(command: Command, length: u64) -> Self {
        Request { command, padding: [0u8, 0, 0, 0, 0, 0], length }
    }

    pub fn command(&self) -> (r: Command)
        ensures
            r == self.spec_command(),
    {
        self.command
    }

    pub fn length(&self) -> (r: u64)
        ensures
            r == self.spec_length(),
    {
        self.length
    }

    /// Decodes one received request header.
    ///
    /// A keep-alive request is thrown away: `Ok(None)` asks the caller to read
    /// the next header. A header whose command field holds no known command
    /// is rejected.
    pub fn read_from(frame: &[u8; 16]) -> (r: Result<Option<Request>, MigratableError>)
        ensures
            match command_of_code(frame_code(frame@)) {
                None => r == Err::<Option<Request>, MigratableError>(
                    MigratableError::DeserializeError(DecodeError::InvalidCommand(frame_code(frame@))),
                ),
                Some(Command::KeepAlive) => r == Ok::<Option<Request>, MigratableError>(None),
                Some(c) => r matches Ok(Some(req)) && req.spec_command() == c && req.spec_bytes()
                    == frame@,
            },
    {
        let (code, padding, length) = read_header(frame);
        proof {
            lemma_auto_spec_u16_to_from_le_bytes();
            assert(frame@.subrange(0, 2) == spec_u16_to_le_bytes(code));
        }
        match Command::from_code(code) {
            None => Err(MigratableError::DeserializeError(DecodeError::InvalidCommand(code))),
            Some(command) => {
                if command == Command::KeepAlive {
                    Ok(None)
                } else {
                    Ok(Some(Request { command, padding, length }))
                }
            },
        }
    }

    /// Appends the bytes of this request to `out`.
    pub fn write_to(&self, out: &mut Vec<u8>)
        ensures
            final(out)@ == old(out)@ + self.spec_bytes(),
    {
        write_header(out, self.command.code(), &self.padding, self.length);
    }
}

/// A response header: a status and the length of the payload that follows it.
#[derive(Debug, Default, Copy, Clone)]
pub struct Response {
    status: Status,
    padding: [u8; 6],
    length: u64,
}

impl Response {
    /// The status of the response.
    pub closed spec fn spec_status(self) -> Status {
        self.status
    }

    /// The payload length of the response.
    pub closed spec fn spec_length(self) -> u64 {
        self.length
    }

    /// The bytes of the response on the wire.
    pub closed spec fn spec_bytes(self) -> Seq<u8> {
        header_bytes(status_code(self.status), self.padding@, self.length)
    }

    /// The response that `new(status, length)` builds.
    pub closed spec fn new_spec(status: Status, length: u64) -> Self {
        Response { status, padding: [0u8, 0, 0, 0, 0, 0], length }
    }

    /// A response with the given status and payload length.
    pub fn new(status: Status, length: u64) -> (r: Self)
        ensures
            r == Self::new_spec(status, length),
            r.spec_status() == status,
            r.spec_length() == length,
            r.spec_bytes() == header_bytes(status_code(status), seq![0u8, 0, 0, 0, 0, 0], length),
    {
        let r = Response { status, padding: [0u8, 0, 0, 0, 0, 0], length };
        assert(r.padding@ =~= seq![0u8, 0, 0, 0, 0, 0]);
        r
    }

    pub fn ok() -> (r: Self)
        ensures
            r == Self::new_spec(Status::Success, 0),
            r.spec_status() == Status::Success,
            r.spec_length() == 0,
    {
        Self::new(Status::Success, 0)
    }

    pub fn error() -> (r: Self)
        ensures
            r == Self::new_spec(Status::Error, 0),
            r.spec_status() == Status::Error,
            r.spec_length() == 0,
    {
        Self::new(Status::Error, 0)
    }

    pub fn keep_alive() -> (r: Self)
        ensures
            r == Self::new_spec(Status::KeepAlive, 0),
            r.spec_status() == Status::KeepAlive,
            r.spec_length() == 0,
    {
        Self::new(Status::KeepAlive, 0)
    }

    pub fn status(&self) -> (r: Status)
        ensures
            r == self.spec_status(),
    {
        self.status
    }

    pub fn length(&self) -> (r: u64)
        ensures
            r == self.spec_length(),
    {
        self.length
    }

    /// Decodes one received response header.
    ///
    /// A keep-alive response is thrown away: `Ok(None)` asks the caller to
    /// read the next header. A header whose status field holds no known
    /// status is rejected.
    pub fn read_from(frame: &[u8; 16]) -> (r: Result<Option<Response>, MigratableError>)
        ensures
            match status_of_code(frame_code(frame@)) {
                None => r == Err::<Option<Response>, MigratableError>(
                    MigratableError::DeserializeError(DecodeError::InvalidStatus(frame_code(frame@))),
                ),
                Some(Status::KeepAlive) => r == Ok::<Option<Response>, MigratableError>(None),
                Some(s) => r matches Ok(Some(resp)) && resp.spec_status() == s && resp.spec_bytes()
                    == frame@,
            },
    {
        let (code, padding, length) = read_header(frame);
        proof {
            lemma_auto_spec_u16_to_from_le_bytes();
            assert(frame@.subrange(0, 2) == spec_u16_to_le_bytes(code));
        }
        match Status::from_code(code) {
            None => Err(MigratableError::DeserializeError(DecodeError::InvalidStatus(code))),
            Some(status) => {
                if status == Status::KeepAlive {
                    Ok(None)
                } else {
                    Ok(Some(Response { status, padding, length }))
                }
            },
        }
    }

    /// Returns the response if its status is `Success`; returns the
    /// caller-provided error for any other status.
    pub fn ok_or_error(self, error: MigratableError) -> (r: Result<Response, MigratableError>)
        ensures
            self.spec_status() == Status::Success ==> r == Ok::<Response, MigratableError>(self),
            self.spec_status() != Status::Success ==> r == Err::<Response, MigratableError>(error),
    {
        if self.status != Status::Success {
            return Err(error);
        }
        Ok(self)
    }

    /// Appends the bytes of this response to `out`.
    pub fn write_to(&self, out: &mut Vec<u8>)
        ensures
            final(out)@ == old(out)@ + self.spec_bytes(),
    {
        write_header(out, self.status.code(), &self.padding, self.length);
    }
}

proof fn lemma_header_bytes_parts(code: u16, padding: Seq<u8>, length: u64)
    requires
        padding.len() == 6,
    ensures
        header_bytes(code, padding, length).len() == 16,
        header_bytes(code, padding, length).subrange(0, 2) == spec_u16_to_le_bytes(code),
        header_bytes(code, padding, length).subrange(2, 8) == padding,
        header_bytes(code, padding, length).subrange(8, 16) == spec_u64_to_le_bytes(length),
        frame_code(header_bytes(code, padding, length)) == code,
{
    lemma_auto_spec_u16_to_from_le_bytes();
    lemma_auto_spec_u64_to_from_le_bytes();
    let h = header_bytes(code, padding, length);
    assert(h.subrange(0, 2) =~= spec_u16_to_le_bytes(code));
    assert(h.subrange(2, 8) =~= padding);
    assert(h.subrange(8, 16) =~= spec_u64_to_le_bytes(length));
}

proof fn lemma_header_bytes_injective(
    code1: u16,
    padding1: Seq<u8>,
    length1: u64,
    code2: u16,
    padding2: Seq<u8>,
    length2: u64,
)
    requires
        padding1.len() == 6,
        padding2.len() == 6,
        header_bytes(code1, padding1, length1) == header_bytes(code2, padding2, length2),
    ensures
        code1 == code2,
        padding1 == padding2,
        length1 == length2,
{
    lemma_auto_spec_u16_to_from_le_bytes();
    lemma_auto_spec_u64_to_from_le_bytes();
    lemma_header_bytes_parts(code1, padding1, length1);
    lemma_header_bytes_parts(code2, padding2, length2);
    assert(spec_u16_from_le_bytes(spec_u16_to_le_bytes(code1)) == code1);
    assert(spec_u16_from_le_bytes(spec_u16_to_le_bytes(code2)) == code2);
    assert(spec_u64_from_le_bytes(spec_u64_to_le_bytes(length1)) == length1);
    assert(spec_u64_from_le_bytes(spec_u64_to_le_bytes(length2)) == length2);
}

/// A request frame carries its command's code in its first two bytes.
proof fn lemma_request_frame_code(c: Command, length: u64)
    ensures
        frame_code(Request::new_spec(c, length).spec_bytes()) == command_code(c),
{
    let r = Request::new_spec(c, length);
    lemma_header_bytes_parts(command_code(c), r.padding@, length);
}

/// A response frame carries its status's code in its first two bytes.
proof fn lemma_response_frame_code(s: Status, length: u64)
    ensures
        frame_code(Response::new_spec(s, length).spec_bytes()) == status_code(s),
{
    let r = Response::new_spec(s, length);
    lemma_header_bytes_parts(status_code(s), r.padding@, length);
}

/// The wire codes of the commands, fixed by the protocol: `Invalid` 0,
/// `Start` 1, `Config` 2, `State` 3, `Memory` 4, `Complete` 5, `Abandon` 6,
/// `MemoryFd` 7, `KeepAlive` 8, `CompletePaused` 9. Every request frame
/// carries its command's code in its first two bytes (read as a
/// little-endian number), a frame with one of these codes is read as that
/// command, and every other code is refused.
pub proof fn lemma_command_wire_codes(length: u64)
    ensures
        frame_code(Request::new_spec(Command::Invalid, length).spec_bytes()) == 0,
        frame_code(Request::new_spec(Command::Start, length).spec_bytes()) == 1,
        frame_code(Request::new_spec(Command::Config, length).spec_bytes()) == 2,
        frame_code(Request::new_spec(Command::State, length).spec_bytes()) == 3,
        frame_code(Request::new_spec(Command::Memory, length).spec_bytes()) == 4,
        frame_code(Request::new_spec(Command::Complete, length).spec_bytes()) == 5,
        frame_code(Request::new_spec(Command::Abandon, length).spec_bytes()) == 6,
        frame_code(Request::new_spec(Command::MemoryFd, length).spec_bytes()) == 7,
        frame_code(Request::new_spec(Command::KeepAlive, length).spec_bytes()) == 8,
        frame_code(Request::new_spec(Command::CompletePaused, length).spec_bytes()) == 9,
        command_of_code(0) == Some(Command::Invalid),
        command_of_code(1) == Some(Command::Start),
        command_of_code(2) == Some(Command::Config),
        command_of_code(3) == Some(Command::State),
        command_of_code(4) == Some(Command::Memory),
        command_of_code(5) == Some(Command::Complete),
        command_of_code(6) == Some(Command::Abandon),
        command_of_code(7) == Some(Command::MemoryFd),
        command_of_code(8) == Some(Command::KeepAlive),
        command_of_code(9) == Some(Command::CompletePaused),
        forall|v: u16| v > 9 ==> command_of_code(v) is None,
{
    lemma_request_frame_code(Command::Invalid, length);
    lemma_request_frame_code(Command::Start, length);
    lemma_request_frame_code(Command::Config, length);
    lemma_request_frame_code(Command::State, length);
    lemma_request_frame_code(Command::Memory, length);
    lemma_request_frame_code(Command::Complete, length);
    lemma_request_frame_code(Command::Abandon, length);
    lemma_request_frame_code(Command::MemoryFd, length);
    lemma_request_frame_code(Command::KeepAlive, length);
    lemma_request_frame_code(Command::CompletePaused, length);
}

/// The wire codes of the statuses, fixed by the protocol: `Invalid` 0,
/// `Ok` (here `Success`) 1, `Error` 2, `KeepAlive` 3. Every response frame
/// carries its status's code in its first two bytes (read as a little-endian
/// number), a frame with one of these codes is read as that status, and
/// every other code is refused.
pub proof fn lemma_status_wire_codes(length: u64)
    ensures
        frame_code(Response::new_spec(Status::Invalid, length).spec_bytes()) == 0,
        frame_code(Response::new_spec(Status::Success, length).spec_bytes()) == 1,
        frame_code(Response::new_spec(Status::Error, length).spec_bytes()) == 2,
        frame_code(Response::new_spec(Status::KeepAlive, length).spec_bytes()) == 3,
        status_of_code(0) == Some(Status::Invalid),
        status_of_code(1) == Some(Status::Success),
        status_of_code(2) == Some(Status::Error),
        status_of_code(3) == Some(Status::KeepAlive),
        forall|v: u16| v > 3 ==> status_of_code(v) is None,
{
    lemma_response_frame_code(Status::Invalid, length);
    lemma_response_frame_code(Status::Success, length);
    lemma_response_frame_code(Status::Error, length);
    lemma_response_frame_code(Status::KeepAlive, length);
}

/// A request read back from the bytes that [`Request::write_to`] wrote is the
/// request that was written; only a keep-alive request is never handed back
/// but skipped.
pub proof fn lemma_request_roundtrip(r: Request, frame: Seq<u8>)
    requires
        frame == r.spec_bytes(),
    ensures
        frame.len() == 16,
        command_of_code(frame_code(frame)) == Some(r.spec_command()),
        forall|r2: Request| #[trigger] r2.spec_bytes() == frame ==> r2 == r,
{
    lemma_header_bytes_parts(command_code(r.command), r.padding@, r.length);
    assert forall|r2: Request| #[trigger] r2.spec_bytes() == frame implies r2 == r by {
        lemma_header_bytes_injective(
            command_code(r2.command),
            r2.padding@,
            r2.length,
            command_code(r.command),
            r.padding@,
            r.length,
        );
        assert(r2.padding =~= r.padding);
    }
}

/// Reading a request stream frame by frame with [`Request::read_from`]: the
/// index of the first frame that is not a keep-alive, which is the frame
/// that gives a request or an error; keep-alive frames before it are
/// skipped.
pub open spec fn first_non_keep_alive(frames: Seq<Seq<u8>>) -> Option<int>
    decreases frames.len(),
{
    if frames.len() == 0 {
        None
    } else if command_of_code(frame_code(frames[0])) == Some(Command::KeepAlive) {
        match first_non_keep_alive(frames.drop_first()) {
            Some(i) => Some(i + 1),
            None => None,
        }
    } else {
        Some(0)
    }
}

/// A stream of `k` keep-alive requests followed by a request `r` that is not
/// a keep-alive, and then anything: reading it frame by frame skips the `k`
/// keep-alives and reads `r` back from the frame after them, having consumed
/// `16 * (k + 1)` bytes.
pub proof fn lemma_request_stream(k: nat, r: Request, rest: Seq<Seq<u8>>)
    requires
        r.spec_command() != Command::KeepAlive,
    ensures
        ({
            let frames = Seq::new(k, |i: int| Request::new_spec(Command::KeepAlive, 0).spec_bytes()).push(
                r.spec_bytes(),
            ) + rest;
            &&& first_non_keep_alive(frames) == Some(k as int)
            &&& forall|i: int| 0 <= i <= k ==> (#[trigger] frames[i]).len() == 16
            &&& command_of_code(frame_code(frames[k as int])) == Some(r.spec_command())
            &&& forall|r2: Request| #[trigger] r2.spec_bytes() == frames[k as int] ==> r2 == r
        }),
    decreases k,
{
    let ka = Request::new_spec(Command::KeepAlive, 0);
    lemma_request_roundtrip(ka, ka.spec_bytes());
    lemma_request_roundtrip(r, r.spec_bytes());
    let frames = Seq::new(k, |i: int| ka.spec_bytes()).push(r.spec_bytes()) + rest;
    if k == 0 {
        assert(frames[0] == r.spec_bytes());
    } else {
        lemma_request_stream((k - 1) as nat, r, rest);
        let tail = Seq::new((k - 1) as nat, |i: int| ka.spec_bytes()).push(r.spec_bytes()) + rest;
        assert(frames.drop_first() =~= tail);
        assert(frames[0] == ka.spec_bytes());
        assert(frames[k as int] == tail[k - 1]);
        assert forall|i: int| 0 <= i <= k implies (#[trigger] frames[i]).len() == 16 by {
            if i > 0 {
                assert(frames[i] == tail[i - 1]);
            }
        }
    }
}

/// A response read back from the bytes that [`Response::write_to`] wrote is
/// the response that was written; only a keep-alive response is never handed
/// back but skipped.
pub proof fn lemma_response_roundtrip(r: Response, frame: Seq<u8>)
    requires
        frame == r.spec_bytes(),
    ensures
        frame.len() == 16,
        status_of_code(frame_code(frame)) == Some(r.spec_status()),
        forall|r2: Response| #[trigger] r2.spec_bytes() == frame ==> r2 == r,
{
    lemma_header_bytes_parts(status_code(r.status), r.padding@, r.length);
    assert forall|r2: Response| #[trigger] r2.spec_bytes() == frame implies r2 == r by {
        lemma_header_bytes_injective(
            status_code(r2.status),
            r2.padding@,
            r2.length,
            status_code(r.status),
            r.padding@,
            r.length,
        );
        assert(r2.padding =~= r.padding);
    }
}

} // verus!
