//! The sending side of a transfer, as a machine: it is told what happened on
//! the connection and says what to do next.

use crate::file_io::{file_views, FileInfo};
use crate::network::{control_frame, padded_frame, TransferError, BUFFER_SIZE, CONTROL_FRAME_SIZE};
use crate::tree_model::FileView;
use vstd::prelude::*;

verus! {

/// Where a sending session stands.
#[derive(Clone, Copy, Debug, PartialEq, Eq, Structural)]
pub enum SenderState {
    /// No receiver has connected yet.
    Idle,
    /// A receiver has connected; the control frame is being sent.
    Connected,
    /// The control frame is out, and file `index` is being opened.
    Opening { index: usize },
    /// File `index` is open and is being sent chunk by chunk.
    Streaming { index: usize },
    /// Every file has been sent in full.
    Complete,
    /// The session has failed and is over.
    Failed { error: TransferError },
}

/// What the outside reports to a sending session.
#[derive(Clone, Copy, Debug, PartialEq, Eq, Structural)]
pub enum SenderEvent {
    /// The one receiver that this session serves has connected.
    Accepted,
    /// The control frame has been written to the connection.
    FrameSent,
    /// The file that was asked for is open for reading.
    FileOpened,
    /// A read from the open file brought this many bytes, and all of them
    /// have been written to the connection. Zero means that the file is
    /// exhausted.
    ChunkSent(usize),
    /// Binding, accepting, opening, reading or writing failed.
    Failed(TransferError),
}

/// What a sending session asks the outside to do next.
#[derive(Clone, Copy, Debug, PartialEq, Eq, Structural)]
pub enum SenderAction {
    /// Write the control frame to the connection.
    SendFrame,
    /// Open file `index` of the list for reading.
    OpenFile { index: usize },
    /// Read at most `max` bytes from the open file and write what came to
    /// the connection at once.
    SendChunk { max: usize },
    /// Close the connection: the transfer is complete.
    Finish,
    /// Close the connection: the session has failed.
    Abort,
    /// Nothing: the session was over already.
    Nothing,
}

/// A sending session as the contracts see it.
pub struct SenderView {
    pub state: SenderState,
    pub files: Seq<FileView>,
    pub frame: Seq<u8>,
}

impl SenderView {
    /// The file in hand is one of the list, and the control frame has the
    /// length that both sides agreed on.
    pub open spec fn wf(self) -> bool {
        &&& self.files.len() <= usize::MAX
        &&& self.frame.len() == CONTROL_FRAME_SIZE
        &&& match self.state {
            SenderState::Opening { index } => index < self.files.len(),
            SenderState::Streaming { index } => index < self.files.len(),
            _ => true,
        }
    }

    /// The session in another state.
    pub open spec fn at(self, state: SenderState) -> SenderView {
        SenderView { state, files: self.files, frame: self.frame }
    }

    /// The session over, with the error.
    pub open spec fn fail(self, error: TransferError) -> (SenderView, SenderAction) {
        (self.at(SenderState::Failed { error }), SenderAction::Abort)
    }

    /// The session turned to file `index`: the file is opened, or, where the
    /// list has no such file, the transfer is complete.
    pub open spec fn begin_file(self, index: int) -> (SenderView, SenderAction) {
        if 0 <= index < self.files.len() {
            (
                self.at(SenderState::Opening { index: index as usize }),
                SenderAction::OpenFile { index: index as usize },
            )
        } else {
            (self.at(SenderState::Complete), SenderAction::Finish)
        }
    }

    /// The session after `event`, and what it asks for.
    ///
    /// The control frame goes out first. Then the files go out in the order
    /// of the list, each until a read from it brings nothing, with nothing
    /// between one file and the next. A session that is over stays as it is.
    pub open spec fn next(self, event: SenderEvent) -> (SenderView, SenderAction) {
        match self.state {
            SenderState::Complete | SenderState::Failed { .. } => (self, SenderAction::Nothing),
            _ => match event {
                SenderEvent::Failed(error) => self.fail(error),
                SenderEvent::Accepted => match self.state {
                    SenderState::Idle => (self.at(SenderState::Connected), SenderAction::SendFrame),
                    _ => self.fail(TransferError::Protocol),
                },
                SenderEvent::FrameSent => match self.state {
                    SenderState::Connected => self.begin_file(0),
                    _ => self.fail(TransferError::Protocol),
                },
                SenderEvent::FileOpened => match self.state {
                    SenderState::Opening { index } => (
                        self.at(SenderState::Streaming { index }),
                        SenderAction::SendChunk { max: BUFFER_SIZE },
                    ),
                    _ => self.fail(TransferError::Protocol),
                },
                SenderEvent::ChunkSent(count) => match self.state {
                    SenderState::Streaming { index } => if count == 0 {
                        self.begin_file(index + 1)
                    } else if count > BUFFER_SIZE {
                        self.fail(TransferError::Protocol)
                    } else {
                        (self, SenderAction::SendChunk { max: BUFFER_SIZE })
                    },
                    _ => self.fail(TransferError::Protocol),
                },
            },
        }
    }
}

/// A sending session.
#[derive(Debug)]
pub struct Sender {
    state: SenderState,
    files: Vec<FileInfo>,
    frame: Vec<u8>,
}

impl View for Sender {
    type V = SenderView;

    closed spec fn view(&self) -> SenderView {
        SenderView { state: self.state, files: file_views(self.files@), frame: self.frame@ }
    }
}

impl Sender {
    /// The file in hand is one of the list, and the control frame has the
    /// length that both sides agreed on.
    pub open spec fn wf(&self) -> bool {
        self@.wf()
    }

    /// Prepares a session for `files`, whose encoding as a list is `encoded`.
    /// This is where the size of the encoding is checked, before any
    /// connection exists: an encoding that is longer than the control frame
    /// gives no session at all, and one that fits gives an idle session that
    /// holds the padded frame.
    pub fn new(files: Vec<FileInfo>, encoded: &Vec<u8>) -> (made: Result<Sender, TransferError>)
        ensures
            made is Ok <==> encoded@.len() <= CONTROL_FRAME_SIZE,
            made matches Ok(session) ==> session.wf() && session@ == (SenderView {
                state: SenderState::Idle,
                files: file_views(files@),
                frame: padded_frame(encoded@),
            }),
            made matches Err(error) ==> error == TransferError::Encoding,
    {
        match control_frame(encoded) {
            Ok(frame) => {
                assert(files.len() == files@.len());
                Ok(Sender { state: SenderState::Idle, files, frame })
            },
            Err(error) => Err(error),
        }
    }

    /// Where the session stands.
    pub fn state(&self) -> (state: SenderState)
        ensures
            state == self@.state,
    {
        self.state
    }

    /// The files of the transfer, in the order in which they are sent.
    pub fn files(&self) -> (files: &Vec<FileInfo>)
        ensures
            file_views(files@) == self@.files,
    {
        &self.files
    }

    /// The control frame to send.
    pub fn frame(&self) -> (frame: &Vec<u8>)
        ensures
            frame@ == self@.frame,
    {
        &self.frame
    }

    fn begin_file(&mut self, index: usize) -> (action: SenderAction)
        requires
            old(self).wf(),
            index <= old(self).files@.len(),
        ensures
            final(self).wf(),
            (final(self)@, action) == old(self)@.begin_file(index as int),
    {
        if index < self.files.len() {
            self.state = SenderState::Opening { index };
            SenderAction::OpenFile { index }
        } else {
            self.state = SenderState::Complete;
            SenderAction::Finish
        }
    }

    fn fail(&mut self, error: TransferError) -> (action: SenderAction)
        requires
            old(self).wf(),
        ensures
            final(self).wf(),
            (final(self)@, action) == old(self)@.fail(error),
    {
        self.state = SenderState::Failed { error };
        SenderAction::Abort
    }

    /// Takes in what happened and says what to do next.
    pub fn step(&mut self, event: SenderEvent) -> (action: SenderAction)
        requires
            old(self).wf(),
        ensures
            final(self).wf(),
            (final(self)@, action) == old(self)@.next(event),
    {
        let count = self.files.len();
        match self.state {
            SenderState::Complete => {
                return SenderAction::Nothing;
            },
            SenderState::Failed { .. } => {
                return SenderAction::Nothing;
            },
            _ => {},
        }
        match event {
            SenderEvent::Failed(error) => self.fail(error),
            SenderEvent::Accepted => match self.state {
                SenderState::Idle => {
                    self.state = SenderState::Connected;
                    SenderAction::SendFrame
                },
                _ => self.fail(TransferError::Protocol),
            },
            SenderEvent::FrameSent => match self.state {
                SenderState::Connected => self.begin_file(0),
                _ => self.fail(TransferError::Protocol),
            },
            SenderEvent::FileOpened => match self.state {
                SenderState::Opening { index } => {
                    self.state = SenderState::Streaming { index };
                    SenderAction::SendChunk { max: BUFFER_SIZE }
                },
                _ => self.fail(TransferError::Protocol),
            },
            SenderEvent::ChunkSent(bytes) => match self.state {
                SenderState::Streaming { index } => {
                    if bytes == 0 {
                        self.begin_file(index + 1)
                    } else if bytes > BUFFER_SIZE {
                        self.fail(TransferError::Protocol)
                    } else {
                        SenderAction::SendChunk { max: BUFFER_SIZE }
                    }
                },
                _ => self.fail(TransferError::Protocol),
            },
        }
    }
}

/// A session that is complete or has failed takes no further step.
pub proof fn law_sender_end_is_final(session: SenderView, event: SenderEvent)
    requires
        session.state is Complete || session.state is Failed,
    ensures
        session.next(event) == (session, SenderAction::Nothing),
{
}

/// Any failure that is reported to a running session ends it at once, with
/// that error, and nothing is asked for but to abort.
pub proof fn law_sender_failure_is_fatal(session: SenderView, error: TransferError)
    requires
        !(session.state is Complete),
        !(session.state is Failed),
    ensures
        session.next(SenderEvent::Failed(error)) == (
            session.at(SenderState::Failed { error }),
            SenderAction::Abort,
        ),
{
}

/// The number of the file that a session has in hand: files before it have
/// been sent, files behind it have not begun.
pub open spec fn sender_progress(session: SenderView) -> int {
    match session.state {
        SenderState::Opening { index } => index as int,
        SenderState::Streaming { index } => index as int,
        SenderState::Complete => session.files.len() as int,
        _ => 0,
    }
}

/// Files are sent in the order of the list: a step that does not fail stays
/// with the file in hand or goes on to the one behind it, and neither the
/// list nor the control frame ever changes.
pub proof fn law_sender_keeps_order(session: SenderView, event: SenderEvent)
    requires
        session.wf(),
        !(session.next(event).0.state is Failed),
    ensures
        session.next(event).0.wf(),
        session.next(event).0.files == session.files,
        session.next(event).0.frame == session.frame,
        sender_progress(session) <= sender_progress(session.next(event).0) <= sender_progress(
            session,
        ) + 1,
{
}

} // verus!
