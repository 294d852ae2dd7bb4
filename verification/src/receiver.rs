//! The receiving side of a transfer, as a machine: it is told what happened
//! on the connection and says what to do next.

use crate::file_io::{file_views, FileInfo};
use crate::network::{TransferError, BUFFER_SIZE, RETRY_DELAY_MS};
use crate::tree_model::FileView;
use vstd::prelude::*;

verus! {

/// Where a receiving session stands.
#[derive(Clone, Copy, Debug, PartialEq, Eq, Structural)]
pub enum ReceiverState {
    /// Not connected yet.
    Idle,
    /// Connected; the control frame has been asked for.
    Connected,
    /// The list of files is known, and the destination of file `index` is being created.
    Opening { index: usize },
    /// File `index` is open and `remaining` of its bytes are still to come.
    Streaming { index: usize, remaining: usize },
    /// Every file has been received in full.
    Complete,
    /// The session has failed and is over.
    Failed { error: TransferError },
}

/// What the outside reports to a receiving session.
#[derive(Debug)]
pub enum ReceiverEvent {
    /// The connection to the sender stands.
    Connected,
    /// The control frame was read and held this list of files.
    Manifest(Vec<FileInfo>),
    /// The destination file that was asked for exists and is empty.
    FileCreated,
    /// A read from the connection brought this many bytes, which were appended
    /// to the open file. Zero means that the read brought nothing.
    Received(usize),
    /// Connecting, reading, decoding, creating or writing failed.
    Failed(TransferError),
}

/// What a receiving session asks the outside to do next.
#[derive(Clone, Copy, Debug, PartialEq, Eq, Structural)]
pub enum ReceiverAction {
    /// Read exactly one control frame from the connection and decode it.
    ReadControlFrame,
    /// Create the destination of file `index` under its base name, emptying
    /// it if it exists.
    CreateFile { index: usize },
    /// Read at most `max` bytes from the connection and append them to the open file.
    Read { max: usize },
    /// Wait `delay_ms` milliseconds, then read as for `Read`.
    RetryRead { max: usize, delay_ms: u64 },
    /// Close the connection: the transfer is complete.
    Finish,
    /// Close the connection and leave the files as they are: the session has failed.
    Abort,
    /// Nothing: the session was over already.
    Nothing,
}

/// A receiving session as the contracts see it.
pub struct ReceiverView {
    pub state: ReceiverState,
    pub files: Seq<FileView>,
}

/// How many bytes are asked for at once when `remaining` are still to come.
pub open spec fn chunk_limit(remaining: usize) -> usize {
    if remaining > BUFFER_SIZE {
        BUFFER_SIZE
    } else {
        remaining
    }
}

impl ReceiverView {
    /// The file in hand is one of the list, what remains of it is part of it,
    /// and the lengths of the files are numbers that the machine can hold.
    pub open spec fn wf(self) -> bool {
        &&& self.files.len() <= usize::MAX
        &&& forall|i: int|
            0 <= i < self.files.len() ==> (#[trigger] self.files[i]).size <= usize::MAX
        &&& match self.state {
            ReceiverState::Opening { index } => index < self.files.len(),
            ReceiverState::Streaming { index, remaining } => index < self.files.len() && 0
                < remaining <= self.files[index as int].size,
            _ => true,
        }
    }

    /// The session over, with the error.
    pub open spec fn fail(self, error: TransferError) -> (ReceiverView, ReceiverAction) {
        (
            ReceiverView { state: ReceiverState::Failed { error }, files: self.files },
            ReceiverAction::Abort,
        )
    }

    /// The session turned to file `index`: its destination is created, or,
    /// where the list has no such file, the transfer is complete.
    pub open spec fn begin_file(self, index: int) -> (ReceiverView, ReceiverAction) {
        if 0 <= index < self.files.len() {
            (
                ReceiverView {
                    state: ReceiverState::Opening { index: index as usize },
                    files: self.files,
                },
                ReceiverAction::CreateFile { index: index as usize },
            )
        } else {
            (
                ReceiverView { state: ReceiverState::Complete, files: self.files },
                ReceiverAction::Finish,
            )
        }
    }

    /// The session after `event`, and what it asks for.
    ///
    /// Files are taken in the order of the list, and a file is complete when
    /// as many bytes have come as the list announced: nothing else marks its
    /// end. A read that brings nothing is no end and no failure: the same
    /// read is asked for again after a pause. A session that is over stays
    /// as it is.
    pub open spec fn next(self, event: ReceiverEvent) -> (ReceiverView, ReceiverAction) {
        match self.state {
            ReceiverState::Complete | ReceiverState::Failed { .. } => (
                self,
                ReceiverAction::Nothing,
            ),
            _ => match event {
                ReceiverEvent::Failed(error) => self.fail(error),
                ReceiverEvent::Connected => match self.state {
                    ReceiverState::Idle => (
                        ReceiverView { state: ReceiverState::Connected, files: self.files },
                        ReceiverAction::ReadControlFrame,
                    ),
                    _ => self.fail(TransferError::Protocol),
                },
                ReceiverEvent::Manifest(files) => match self.state {
                    ReceiverState::Connected => (ReceiverView {
                        state: ReceiverState::Connected,
                        files: file_views(files@),
                    }).begin_file(0),
                    _ => self.fail(TransferError::Protocol),
                },
                ReceiverEvent::FileCreated => match self.state {
                    ReceiverState::Opening { index } => if self.files[index as int].size == 0 {
                        self.begin_file(index + 1)
                    } else {
                        (
                            ReceiverView {
                                state: ReceiverState::Streaming {
                                    index,
                                    remaining: self.files[index as int].size as usize,
                                },
                                files: self.files,
                            },
                            ReceiverAction::Read {
                                max: chunk_limit(self.files[index as int].size as usize),
                            },
                        )
                    },
                    _ => self.fail(TransferError::Protocol),
                },
                ReceiverEvent::Received(count) => match self.state {
                    ReceiverState::Streaming { index, remaining } => if count == 0 {
                        (
                            self,
                            ReceiverAction::RetryRead {
                                max: chunk_limit(remaining),
                                delay_ms: RETRY_DELAY_MS,
                            },
                        )
                    } else if count > chunk_limit(remaining) {
                        self.fail(TransferError::Protocol)
                    } else if count == remaining {
                        self.begin_file(index + 1)
                    } else {
                        (
                            ReceiverView {
                                state: ReceiverState::Streaming {
                                    index,
                                    remaining: (remaining - count) as usize,
                                },
                                files: self.files,
                            },
                            ReceiverAction::Read { max: chunk_limit((remaining - count) as usize) },
                        )
                    },
                    _ => self.fail(TransferError::Protocol),
                },
            },
        }
    }
}

/// A receiving session.
#[derive(Debug)]
pub struct Receiver {
    state: ReceiverState,
    files: Vec<FileInfo>,
}

impl View for Receiver {
    type V = ReceiverView;

    closed spec fn view(&self) -> ReceiverView {
        ReceiverView { state: self.state, files: file_views(self.files@) }
    }
}

impl Receiver {
    /// The file in hand is one of the list, and what remains of it is part of it.
    pub open spec fn wf(&self) -> bool {
        self@.wf()
    }

    /// A session that has not connected yet and knows no files.
    pub fn new() -> (session: Self)
        ensures
            session.wf(),
            session@ == (ReceiverView { state: ReceiverState::Idle, files: Seq::empty() }),
    {
        let session = Receiver { state: ReceiverState::Idle, files: Vec::new() };
        assert(file_views(session.files@) =~= Seq::empty());
        session
    }

    /// Where the session stands.
    pub fn state(&self) -> (state: ReceiverState)
        ensures
            state == self@.state,
    {
        self.state
    }

    /// The files that the sender announced, in its order.
    pub fn files(&self) -> (files: &Vec<FileInfo>)
        ensures
            file_views(files@) == self@.files,
    {
        &self.files
    }

    fn begin_file(&mut self, index: usize) -> (action: ReceiverAction)
        requires
            index <= old(self).files@.len(),
            old(self)@.files.len() <= usize::MAX,
            forall|i: int|
                0 <= i < old(self)@.files.len() ==> (#[trigger] old(self)@.files[i]).size
                    <= usize::MAX,
        ensures
            final(self).wf(),
            (final(self)@, action) == old(self)@.begin_file(index as int),
    {
        if index < self.files.len() {
            self.state = ReceiverState::Opening { index };
            ReceiverAction::CreateFile { index }
        } else {
            self.state = ReceiverState::Complete;
            ReceiverAction::Finish
        }
    }

    fn fail(&mut self, error: TransferError) -> (action: ReceiverAction)
        requires
            old(self).wf(),
        ensures
            final(self).wf(),
            (final(self)@, action) == old(self)@.fail(error),
    {
        self.state = ReceiverState::Failed { error };
        ReceiverAction::Abort
    }

    /// Takes in what happened and says what to do next.
    pub fn step(&mut self, event: ReceiverEvent) -> (action: ReceiverAction)
        requires
            old(self).wf(),
        ensures
            final(self).wf(),
            (final(self)@, action) == old(self)@.next(event),
    {
        let count = self.files.len();
        match self.state {
            ReceiverState::Complete => {
                return ReceiverAction::Nothing;
            },
            ReceiverState::Failed { .. } => {
                return ReceiverAction::Nothing;
            },
            _ => {},
        }
        match event {
            ReceiverEvent::Failed(error) => self.fail(error),
            ReceiverEvent::Connected => match self.state {
                ReceiverState::Idle => {
                    self.state = ReceiverState::Connected;
                    ReceiverAction::ReadControlFrame
                },
                _ => self.fail(TransferError::Protocol),
            },
            ReceiverEvent::Manifest(files) => match self.state {
                ReceiverState::Connected => {
                    assert(files.len() == files@.len());
                    self.files = files;
                    self.begin_file(0)
                },
                _ => self.fail(TransferError::Protocol),
            },
            ReceiverEvent::FileCreated => match self.state {
                ReceiverState::Opening { index } => {
                    let size = self.files[index].size;
                    if size == 0 {
                        self.begin_file(index + 1)
                    } else {
                        self.state = ReceiverState::Streaming { index, remaining: size };
                        ReceiverAction::Read { max: limit(size) }
                    }
                },
                _ => self.fail(TransferError::Protocol),
            },
            ReceiverEvent::Received(bytes) => match self.state {
                ReceiverState::Streaming { index, remaining } => {
                    if bytes == 0 {
                        ReceiverAction::RetryRead {
                            max: limit(remaining),
                            delay_ms: RETRY_DELAY_MS,
                        }
                    } else if bytes > limit(remaining) {
                        self.fail(TransferError::Protocol)
                    } else if bytes == remaining {
                        self.begin_file(index + 1)
                    } else {
                        let left = remaining - bytes;
                        self.state = ReceiverState::Streaming { index, remaining: left };
                        ReceiverAction::Read { max: limit(left) }
                    }
                },
                _ => self.fail(TransferError::Protocol),
            },
        }
    }
}

/// How many bytes to ask for at once when `remaining` are still to come: all
/// of them, or as many as the buffer holds.
pub fn limit(remaining: usize) -> (max: usize)
    ensures
        max == chunk_limit(remaining),
{
    if remaining > BUFFER_SIZE {
        BUFFER_SIZE
    } else {
        remaining
    }
}

/// A read that brings nothing while a file is being received is neither the
/// end of the file nor a failure: the session stays where it is and asks for
/// the same read again after the retry delay.
pub proof fn law_stalled_read_is_retried(session: ReceiverView)
    requires
        session.state is Streaming,
    ensures
        session.next(ReceiverEvent::Received(0)).0 == session,
        session.next(ReceiverEvent::Received(0)).1 == (ReceiverAction::RetryRead {
            max: chunk_limit(session.state->remaining),
            delay_ms: 100,
        }),
{
}

/// A session that is complete or has failed takes no further step.
pub proof fn law_receiver_end_is_final(session: ReceiverView, event: ReceiverEvent)
    requires
        session.state is Complete || session.state is Failed,
    ensures
        session.next(event) == (session, ReceiverAction::Nothing),
{
}

/// Any failure that is reported to a running session ends it at once, with
/// that error, and nothing is asked for but to abort.
pub proof fn law_receiver_failure_is_fatal(session: ReceiverView, error: TransferError)
    requires
        !(session.state is Complete),
        !(session.state is Failed),
    ensures
        session.next(ReceiverEvent::Failed(error)).0.state == (ReceiverState::Failed { error }),
        session.next(ReceiverEvent::Failed(error)).1 == ReceiverAction::Abort,
{
}

/// The number of the file that a session has in hand: files before it are
/// complete, files behind it have not begun.
pub open spec fn receiver_progress(session: ReceiverView) -> int {
    match session.state {
        ReceiverState::Opening { index } => index as int,
        ReceiverState::Streaming { index, .. } => index as int,
        ReceiverState::Complete => session.files.len() as int,
        _ => 0,
    }
}

/// Files are received in the order of the list: a step that does not fail
/// stays with the file in hand or goes on to the one behind it, and while a
/// file is streamed every step that stays with it takes from what remains
/// exactly what the read brought.
pub proof fn law_receiver_keeps_order(session: ReceiverView, event: ReceiverEvent)
    requires
        session.wf(),
        !(session.next(event).0.state is Failed),
    ensures
        session.next(event).0.wf(),
        receiver_progress(session) <= receiver_progress(session.next(event).0)
            <= receiver_progress(session) + 1,
        !(event is Manifest) ==> session.next(event).0.files == session.files,
        session.state matches ReceiverState::Streaming { index, remaining } ==> {
            &&& event matches ReceiverEvent::Received(count)
            &&& count <= chunk_limit(remaining)
            &&& match session.next(event).0.state {
                ReceiverState::Streaming { index: same, remaining: left } => same == index && left
                    == remaining - count,
                _ => count == remaining,
            }
        },
{
    if let ReceiverEvent::Manifest(files) = event {
        assert(files.len() == files@.len());
    }
}

} // verus!
