//! Moving one subvolume: `btrfs send` on one side, `btrfs receive` on the other, and the bytes
//! that go from the first to the second.
//!
//! A [`Pipe`] decides what happens next. Whoever runs it starts the two processes, reads, writes
//! and waits as its stage says, and reports what came of it.
use crate::text::{join, joined, texts};
use vstd::prelude::*;

verus! {

/// Arguments for `btrfs send [-p <parent>] <snapshot>`.
pub open spec fn send_command(snapshot: Seq<char>, parent: Option<Seq<char>>) -> Seq<Seq<char>> {
    match parent {
        Some(parent) => seq!["send"@, "-p"@, parent, snapshot],
        None => seq!["send"@, snapshot],
    }
}

/// Arguments for `btrfs send [-p <parent>] <snapshot>`.
#[must_use]
pub fn send_args(snapshot: &str, parent: Option<&str>) -> (args: Vec<String>)
    ensures
        texts(args@) == send_command(
            snapshot@,
            match parent {
                Some(parent) => Some(parent@),
                None => None,
            },
        ),
{
    let mut args: Vec<String> = vec!["send".to_owned()];
    if let Some(parent) = parent {
        args.push("-p".to_owned());
        args.push(parent.to_owned());
    }
    args.push(snapshot.to_owned());
    proof {
        match parent {
            Some(parent) => {
                assert(texts(args@) =~= seq!["send"@, "-p"@, parent@, snapshot@]);
            },
            None => {
                assert(texts(args@) =~= seq!["send"@, snapshot@]);
            },
        }
    }
    args
}

/// The command that receives a subvolume into `dir`.
pub open spec fn receive_command(dir: Seq<char>) -> Seq<Seq<char>> {
    seq!["btrfs"@, "receive"@, dir]
}

/// The command that receives a subvolume into `dir`.
#[must_use]
pub fn receive_args(dir: &str) -> (args: Vec<String>)
    ensures
        texts(args@) == receive_command(dir@),
{
    let args: Vec<String> = vec!["btrfs".to_owned(), "receive".to_owned(), dir.to_owned()];
    assert(texts(args@) =~= receive_command(dir@));
    args
}

/// What a transfer does now.
#[derive(Debug, Clone, Copy, PartialEq, Eq, Structural)]
pub enum PipeStage {
    /// Starts the sending process.
    StartSend,
    /// Starts the receiving process.
    StartReceive,
    /// Kills the sending process and waits for it: there is nobody to receive.
    Abandon,
    /// Reads from the sending process.
    Read,
    /// Writes what was read, this many bytes, to the receiving process.
    Write(usize),
    /// Closes the receiving process's input, and kills the sending process if one side broke.
    Close,
    /// Waits for the sending process.
    WaitSend,
    /// Waits for the receiving process.
    WaitReceive,
    /// Writes the received data to the disk.
    Sync,
    /// Nothing: the transfer is complete.
    Complete,
    /// Nothing: the transfer failed.
    Failed(PipeFault),
}

/// Why a transfer failed.
#[derive(Debug, Clone, Copy, PartialEq, Eq, Structural)]
pub enum PipeFault {
    /// The sending process could not be started.
    SendNotStarted,
    /// The receiving process could not be started.
    ReceiveNotStarted,
    /// The sending process could not be waited for.
    SendNotWaited,
    /// The receiving process could not be waited for.
    ReceiveNotWaited,
    /// The sending process failed.
    SendFailed,
    /// The receiving process failed.
    ReceiveFailed,
    /// Reading failed, though both processes ended well.
    ReadFailed,
    /// Writing failed, though both processes ended well.
    WriteFailed,
}

/// What came of a stage.
#[derive(Debug, Clone, Copy, PartialEq, Eq, Structural)]
pub enum PipeEvent {
    /// It was done.
    Done,
    /// It was done, and gave this many bytes.
    Bytes(usize),
    /// It could not be done.
    Failed,
    /// The process that was waited for ended: well, or not.
    Ended(bool),
}

/// A transfer.
#[derive(Debug, Clone, Copy, PartialEq, Eq, Structural)]
pub struct Pipe {
    pub stage: PipeStage,
    /// The bytes that were written to the receiving process.
    pub bytes: u64,
    /// Whether reading failed.
    pub read_failed: bool,
    /// Whether writing failed.
    pub write_failed: bool,
    /// Whether the sending process ended well.
    pub send_ok: bool,
    /// Whether the receiving process ended well.
    pub receive_ok: bool,
    /// Whether the received data is written to the disk at the end.
    pub syncs: bool,
}

/// What is reported of a transfer whose processes have ended: why it failed, if it did. When the
/// receiving side died the send failure is only a consequence, and the cause is reported.
pub open spec fn pipe_fault(
    read_failed: bool,
    write_failed: bool,
    send_ok: bool,
    receive_ok: bool,
) -> Option<PipeFault> {
    if write_failed && !receive_ok {
        Some(PipeFault::ReceiveFailed)
    } else if !send_ok {
        Some(PipeFault::SendFailed)
    } else if !receive_ok {
        Some(PipeFault::ReceiveFailed)
    } else if write_failed {
        Some(PipeFault::WriteFailed)
    } else if read_failed {
        Some(PipeFault::ReadFailed)
    } else {
        None
    }
}

impl Pipe {
    /// The transfer after what came of its stage. What can't come of a stage changes nothing.
    pub open spec fn after(self, event: PipeEvent) -> Pipe {
        match (self.stage, event) {
            (PipeStage::StartSend, PipeEvent::Done) => Pipe {
                stage: PipeStage::StartReceive,
                ..self
            },
            (PipeStage::StartSend, PipeEvent::Failed) => Pipe {
                stage: PipeStage::Failed(PipeFault::SendNotStarted),
                ..self
            },
            (PipeStage::StartReceive, PipeEvent::Done) => Pipe { stage: PipeStage::Read, ..self },
            (PipeStage::StartReceive, PipeEvent::Failed) => Pipe {
                stage: PipeStage::Abandon,
                ..self
            },
            (PipeStage::Abandon, _) => Pipe {
                stage: PipeStage::Failed(PipeFault::ReceiveNotStarted),
                ..self
            },
            (PipeStage::Read, PipeEvent::Bytes(n)) => Pipe {
                stage: if n == 0 {
                    PipeStage::Close
                } else {
                    PipeStage::Write(n)
                },
                ..self
            },
            (PipeStage::Read, PipeEvent::Failed) => Pipe {
                stage: PipeStage::Close,
                read_failed: true,
                ..self
            },
            (PipeStage::Write(n), PipeEvent::Done) => Pipe {
                stage: PipeStage::Read,
                bytes: (self.bytes + n) as u64,
                ..self
            },
            (PipeStage::Write(_), PipeEvent::Failed) => Pipe {
                stage: PipeStage::Close,
                write_failed: true,
                ..self
            },
            (PipeStage::Close, _) => Pipe { stage: PipeStage::WaitSend, ..self },
            (PipeStage::WaitSend, PipeEvent::Ended(ok)) => Pipe {
                stage: PipeStage::WaitReceive,
                send_ok: ok,
                ..self
            },
            (PipeStage::WaitSend, PipeEvent::Failed) => Pipe {
                stage: PipeStage::Failed(PipeFault::SendNotWaited),
                ..self
            },
            (PipeStage::WaitReceive, PipeEvent::Ended(ok)) => Pipe {
                stage: match pipe_fault(self.read_failed, self.write_failed, self.send_ok, ok) {
                    Some(fault) => PipeStage::Failed(fault),
                    None => if self.syncs {
                        PipeStage::Sync
                    } else {
                        PipeStage::Complete
                    },
                },
                receive_ok: ok,
                ..self
            },
            (PipeStage::WaitReceive, PipeEvent::Failed) => Pipe {
                stage: PipeStage::Failed(PipeFault::ReceiveNotWaited),
                ..self
            },
            // A replica that could not be synced is complete all the same.
            (PipeStage::Sync, _) => Pipe { stage: PipeStage::Complete, ..self },
            (_, _) => self,
        }
    }

    /// Whether one more event can be counted.
    pub open spec fn can_count(self) -> bool {
        self.stage matches PipeStage::Write(n) ==> self.bytes + n <= u64::MAX
    }

    /// Whether the sending process is killed when the receiving process's input is closed.
    pub open spec fn kills(self) -> bool {
        self.read_failed || self.write_failed
    }

    /// A transfer that has not started.
    pub fn start(syncs: bool) -> (pipe: Pipe)
        ensures
            pipe == Pipe::started(syncs),
    {
        Pipe {
            stage: PipeStage::StartSend,
            bytes: 0,
            read_failed: false,
            write_failed: false,
            send_ok: false,
            receive_ok: false,
            syncs,
        }
    }

    /// A transfer that has not started.
    pub open spec fn started(syncs: bool) -> Pipe {
        Pipe {
            stage: PipeStage::StartSend,
            bytes: 0,
            read_failed: false,
            write_failed: false,
            send_ok: false,
            receive_ok: false,
            syncs,
        }
    }

    /// Whether the sending process is to be killed when the receiving process's input is closed.
    pub fn is_broken(&self) -> (broken: bool)
        ensures
            broken == self.kills(),
    {
        self.read_failed || self.write_failed
    }

    /// Takes in what came of the stage.
    pub fn next(&mut self, event: PipeEvent)
        requires
            old(self).can_count(),
        ensures
            *final(self) == old(self).after(event),
    {
        match (self.stage, event) {
            (PipeStage::StartSend, PipeEvent::Done) => {
                self.stage = PipeStage::StartReceive;
            },
            (PipeStage::StartSend, PipeEvent::Failed) => {
                self.stage = PipeStage::Failed(PipeFault::SendNotStarted);
            },
            (PipeStage::StartReceive, PipeEvent::Done) => {
                self.stage = PipeStage::Read;
            },
            (PipeStage::StartReceive, PipeEvent::Failed) => {
                self.stage = PipeStage::Abandon;
            },
            (PipeStage::Abandon, _) => {
                self.stage = PipeStage::Failed(PipeFault::ReceiveNotStarted);
            },
            (PipeStage::Read, PipeEvent::Bytes(n)) => {
                self.stage = if n == 0 {
                    PipeStage::Close
                } else {
                    PipeStage::Write(n)
                };
            },
            (PipeStage::Read, PipeEvent::Failed) => {
                self.read_failed = true;
                self.stage = PipeStage::Close;
            },
            (PipeStage::Write(n), PipeEvent::Done) => {
                self.bytes = self.bytes + n as u64;
                self.stage = PipeStage::Read;
            },
            (PipeStage::Write(_), PipeEvent::Failed) => {
                self.write_failed = true;
                self.stage = PipeStage::Close;
            },
            (PipeStage::Close, _) => {
                self.stage = PipeStage::WaitSend;
            },
            (PipeStage::WaitSend, PipeEvent::Ended(ok)) => {
                self.send_ok = ok;
                self.stage = PipeStage::WaitReceive;
            },
            (PipeStage::WaitSend, PipeEvent::Failed) => {
                self.stage = PipeStage::Failed(PipeFault::SendNotWaited);
            },
            (PipeStage::WaitReceive, PipeEvent::Ended(ok)) => {
                self.receive_ok = ok;
                self.stage = match fault_of(
                    self.read_failed,
                    self.write_failed,
                    self.send_ok,
                    ok,
                ) {
                    Some(fault) => PipeStage::Failed(fault),
                    None => if self.syncs {
                        PipeStage::Sync
                    } else {
                        PipeStage::Complete
                    },
                };
            },
            (PipeStage::WaitReceive, PipeEvent::Failed) => {
                self.stage = PipeStage::Failed(PipeFault::ReceiveNotWaited);
            },
            (PipeStage::Sync, _) => {
                self.stage = PipeStage::Complete;
            },
            (_, _) => {},
        }
    }
}

fn fault_of(read_failed: bool, write_failed: bool, send_ok: bool, receive_ok: bool) -> (fault:
    Option<PipeFault>)
    ensures
        fault == pipe_fault(read_failed, write_failed, send_ok, receive_ok),
{
    if write_failed && !receive_ok {
        Some(PipeFault::ReceiveFailed)
    } else if !send_ok {
        Some(PipeFault::SendFailed)
    } else if !receive_ok {
        Some(PipeFault::ReceiveFailed)
    } else if write_failed {
        Some(PipeFault::WriteFailed)
    } else if read_failed {
        Some(PipeFault::ReadFailed)
    } else {
        None
    }
}

/// A transfer after everything that came of its stages, one event after the other.
pub open spec fn piped(pipe: Pipe, events: Seq<PipeEvent>) -> Pipe
    decreases events.len(),
{
    if events.len() == 0 {
        pipe
    } else {
        piped(pipe, events.drop_last()).after(events.last())
    }
}

/// The bytes that a transfer has written once these events came.
pub open spec fn written(pipe: Pipe, events: Seq<PipeEvent>) -> nat
    decreases events.len(),
{
    if events.len() == 0 {
        0
    } else {
        written(pipe, events.drop_last()) + match (
            piped(pipe, events.drop_last()).stage,
            events.last(),
        ) {
            (PipeStage::Write(n), PipeEvent::Done) => n as nat,
            (_, _) => 0,
        }
    }
}

/// The number of bytes that a transfer reports is the number that it wrote, whatever came of its
/// stages, as long as that number fits.
pub proof fn lemma_bytes_are_counted(syncs: bool, events: Seq<PipeEvent>)
    requires
        written(Pipe::started(syncs), events) <= u64::MAX,
    ensures
        piped(Pipe::started(syncs), events).bytes == written(Pipe::started(syncs), events),
    decreases events.len(),
{
    if events.len() > 0 {
        lemma_bytes_are_counted(syncs, events.drop_last());
    }
}

/// Whether a transfer got through: nothing failed on the way, and both processes ended well.
pub open spec fn got_through(pipe: Pipe) -> bool {
    !pipe.read_failed && !pipe.write_failed && pipe.send_ok && pipe.receive_ok
}

/// A transfer is synced and reported complete only if nothing failed on the way and both
/// processes ended well, whatever came of its stages.
pub proof fn lemma_complete_only_if_through(syncs: bool, events: Seq<PipeEvent>)
    ensures
        piped(Pipe::started(syncs), events).stage is Complete ==> got_through(
            piped(Pipe::started(syncs), events),
        ),
        piped(Pipe::started(syncs), events).stage is Sync ==> got_through(
            piped(Pipe::started(syncs), events),
        ),
        piped(Pipe::started(syncs), events).syncs == syncs,
    decreases events.len(),
{
    if events.len() > 0 {
        lemma_complete_only_if_through(syncs, events.drop_last());
    }
}

/// A transfer that is to be synced is complete only after it was tried to write the received data
/// to the disk.
pub proof fn lemma_synced_before_complete(pipe: Pipe, event: PipeEvent)
    requires
        pipe.syncs,
        !(pipe.stage is Complete),
        pipe.after(event).stage is Complete,
    ensures
        pipe.stage is Sync,
{
}

/// A transfer fails exactly if something failed on the way or a process did not end well. If
/// writing failed because the receiving process did, that is what is reported.
pub proof fn lemma_fault_of_ended(
    read_failed: bool,
    write_failed: bool,
    send_ok: bool,
    receive_ok: bool,
)
    ensures
        pipe_fault(read_failed, write_failed, send_ok, receive_ok) is None <==> !read_failed
            && !write_failed && send_ok && receive_ok,
        write_failed && !receive_ok ==> pipe_fault(read_failed, write_failed, send_ok, receive_ok)
            == Some(PipeFault::ReceiveFailed),
{
}

impl PipeFault {
    /// What to say of a transfer that failed: `cause` is the exit status of the process that
    /// failed, or the error of what could not be done.
    pub fn message(&self, send: &[String], url: &str, cause: &str) -> (message: String)
        ensures
            message@ == pipe_fault_text(*self, texts(send@), url@, cause@),
    {
        match self {
            PipeFault::SendNotStarted => "failed to execute 'btrfs send': ".to_owned().concat(
                cause,
            ),
            PipeFault::ReceiveNotStarted => "failed to start 'btrfs receive' at ".to_owned().concat(
                url,
            ).concat(": ").concat(cause),
            PipeFault::SendNotWaited => "failed to wait for 'btrfs send': ".to_owned().concat(
                cause,
            ),
            PipeFault::ReceiveNotWaited => "failed to wait for 'btrfs receive': ".to_owned().concat(
                cause,
            ),
            PipeFault::SendFailed => {
                let line: String = join(send, " ");
                "'btrfs ".to_owned().concat(line.as_str()).concat("' failed with ").concat(cause)
            },
            PipeFault::ReceiveFailed => "'btrfs receive' at ".to_owned().concat(url).concat(
                " failed with ",
            ).concat(cause),
            PipeFault::ReadFailed => "failed to read from 'btrfs send': ".to_owned().concat(cause),
            PipeFault::WriteFailed => "failed to write to 'btrfs receive': ".to_owned().concat(
                cause,
            ),
        }
    }
}

/// What to say of a transfer that failed.
pub open spec fn pipe_fault_text(
    fault: PipeFault,
    send: Seq<Seq<char>>,
    url: Seq<char>,
    cause: Seq<char>,
) -> Seq<char> {
    match fault {
        PipeFault::SendNotStarted => "failed to execute 'btrfs send': "@ + cause,
        PipeFault::ReceiveNotStarted => "failed to start 'btrfs receive' at "@ + url + ": "@
            + cause,
        PipeFault::SendNotWaited => "failed to wait for 'btrfs send': "@ + cause,
        PipeFault::ReceiveNotWaited => "failed to wait for 'btrfs receive': "@ + cause,
        PipeFault::SendFailed => "'btrfs "@ + joined(send, " "@) + "' failed with "@ + cause,
        PipeFault::ReceiveFailed => "'btrfs receive' at "@ + url + " failed with "@ + cause,
        PipeFault::ReadFailed => "failed to read from 'btrfs send': "@ + cause,
        PipeFault::WriteFailed => "failed to write to 'btrfs receive': "@ + cause,
    }
}

} // verus!
