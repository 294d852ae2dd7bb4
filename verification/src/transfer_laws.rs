//! What a whole transfer comes to, where the outside does what the sessions
//! ask for: the sender puts the control frame and then the content of each
//! file on the wire, and the receiver cuts what follows the frame into the
//! files again, by their announced lengths alone.

use crate::network::{BUFFER_SIZE, CONTROL_FRAME_SIZE};
use crate::path_name::base_name;
use crate::receiver::{chunk_limit, ReceiverAction, ReceiverEvent, ReceiverState, ReceiverView};
use crate::sender::{SenderAction, SenderEvent, SenderState, SenderView};
use crate::tree_model::FileView;
use vstd::prelude::*;

verus! {

/// The lengths of the first `count` files of a list, added up: where in the
/// bulk stream the file behind them begins.
pub open spec fn offset_of(files: Seq<FileView>, count: int) -> nat
    decreases count,
{
    if count <= 0 {
        0
    } else {
        offset_of(files, count - 1) + files[count - 1].size
    }
}

/// The part of the bulk stream that belongs to file `index` of the list.
pub open spec fn file_run(stream: Seq<u8>, files: Seq<FileView>, index: int) -> Seq<u8> {
    stream.subrange(offset_of(files, index) as int, offset_of(files, index + 1) as int)
}

/// The bulk stream of a transfer: the content of each file, one after the
/// other, with nothing between them.
pub open spec fn bulk_stream(contents: Seq<Seq<u8>>) -> Seq<u8>
    decreases contents.len(),
{
    if contents.len() == 0 {
        Seq::empty()
    } else {
        bulk_stream(contents.drop_last()) + contents.last()
    }
}

/// Whether a list announces the files of `contents`: as many files, each
/// with the length of its content.
pub open spec fn announces(files: Seq<FileView>, contents: Seq<Seq<u8>>) -> bool {
    &&& files.len() == contents.len()
    &&& forall|i: int| 0 <= i < files.len() ==> (#[trigger] files[i]).size == contents[i].len()
}

/// The name under which a receiver stores file `index` of a list.
pub open spec fn name_of(files: Seq<FileView>, index: int) -> Seq<char> {
    base_name(files[index].path)
}

/// No two files of the list have the same base name, so that no file is
/// stored over another.
pub open spec fn distinct_names(files: Seq<FileView>) -> bool {
    forall|i: int, j: int|
        0 <= i < j < files.len() ==> #[trigger] name_of(files, i) != #[trigger] name_of(files, j)
}

/// The names under which the first `count` files of a list are stored.
pub open spec fn names_of(files: Seq<FileView>, count: int) -> Set<Seq<char>> {
    Set::new(|name: Seq<char>| exists|j: int| 0 <= j < count && #[trigger] name_of(files, j) == name)
}

/// A download in progress: the session, what it asked for last, how much of
/// the bulk stream has been read, and what the download folder holds under
/// each name.
pub struct Download {
    pub session: ReceiverView,
    pub asked: ReceiverAction,
    pub taken: nat,
    pub stored: Map<Seq<char>, Seq<u8>>,
}

/// How many bytes a read brings that asks for at most `max`, when the
/// connection offers `offer` and `left` are still to come on it.
pub open spec fn brought(offer: nat, max: usize, left: int) -> nat {
    let most = if offer < max {
        offer
    } else {
        max as nat
    };
    if left <= 0 {
        0
    } else if most < left {
        most
    } else {
        left as nat
    }
}

impl Download {
    /// The download when the list of files has just been taken in.
    pub open spec fn start(files: Seq<FileView>) -> Download {
        let begun = (ReceiverView { state: ReceiverState::Connected, files }).begin_file(0);
        Download { session: begun.0, asked: begun.1, taken: 0, stored: Map::empty() }
    }

    /// The download with the session's answer to `event`.
    pub open spec fn report(
        self,
        event: ReceiverEvent,
        taken: nat,
        stored: Map<Seq<char>, Seq<u8>>,
    ) -> Download {
        let answer = self.session.next(event);
        Download { session: answer.0, asked: answer.1, taken, stored }
    }

    /// One turn: the outside does what the session asked for last and reports
    /// it. A file that is created is empty, whatever was stored under its
    /// name before. A read brings the next bytes of `stream`, as many as the
    /// connection offers this time but no more than were asked for, and they
    /// are appended to the file that is being received.
    pub open spec fn turn(self, stream: Seq<u8>, offer: nat) -> Download {
        match self.asked {
            ReceiverAction::CreateFile { index } => self.report(
                ReceiverEvent::FileCreated,
                self.taken,
                self.stored.insert(name_of(self.session.files, index as int), Seq::empty()),
            ),
            ReceiverAction::Read { max } => self.read(stream, offer, max),
            ReceiverAction::RetryRead { max, .. } => self.read(stream, offer, max),
            _ => self,
        }
    }

    /// The reading turn.
    pub open spec fn read(self, stream: Seq<u8>, offer: nat, max: usize) -> Download {
        match self.session.state {
            ReceiverState::Streaming { index, .. } => {
                let count = brought(offer, max, stream.len() - self.taken);
                let name = name_of(self.session.files, index as int);
                self.report(
                    ReceiverEvent::Received(count as usize),
                    self.taken + count,
                    self.stored.insert(
                        name,
                        self.stored[name] + stream.subrange(
                            self.taken as int,
                            (self.taken + count) as int,
                        ),
                    ),
                )
            },
            _ => self,
        }
    }

    /// How many destination files the download has created.
    pub open spec fn created(self) -> int {
        match self.session.state {
            ReceiverState::Opening { index } => index as int,
            ReceiverState::Streaming { index, .. } => index + 1,
            ReceiverState::Complete => self.session.files.len() as int,
            _ => 0,
        }
    }

    /// Whether file `index` is stored under its name with its run of the stream.
    pub open spec fn holds(self, stream: Seq<u8>, files: Seq<FileView>, index: int) -> bool {
        &&& self.stored.dom().contains(name_of(files, index))
        &&& self.stored[name_of(files, index)] == file_run(stream, files, index)
    }

    /// The download after one turn for each of `offers`, in order.
    pub open spec fn run(self, stream: Seq<u8>, offers: Seq<nat>) -> Download
        decreases offers.len(),
    {
        if offers.len() == 0 {
            self
        } else {
            self.run(stream, offers.drop_last()).turn(stream, offers.last())
        }
    }

    /// What holds of a download at every turn: the files before the one in
    /// hand hold their runs of the stream, the one in hand holds its run as
    /// far as it has come, nothing else is stored, and nothing else has been
    /// read.
    pub open spec fn on_track(self, stream: Seq<u8>, files: Seq<FileView>) -> bool {
        &&& self.session.files == files
        &&& self.session.wf()
        &&& self.taken <= stream.len()
        &&& self.stored.dom() == names_of(files, self.created())
        &&& match self.session.state {
            ReceiverState::Opening { index } => {
                &&& self.asked == ReceiverAction::CreateFile { index }
                &&& self.taken == offset_of(files, index as int)
                &&& forall|j: int| 0 <= j < index ==> #[trigger] self.holds(stream, files, j)
            },
            ReceiverState::Streaming { index, remaining } => {
                &&& (self.asked == ReceiverAction::Read { max: chunk_limit(remaining) }
                    || self.asked == ReceiverAction::RetryRead {
                    max: chunk_limit(remaining),
                    delay_ms: 100,
                })
                &&& self.taken + remaining == offset_of(files, index + 1)
                &&& self.stored.dom().contains(name_of(files, index as int))
                &&& self.stored[name_of(files, index as int)] == stream.subrange(
                    offset_of(files, index as int) as int,
                    self.taken as int,
                )
                &&& forall|j: int| 0 <= j < index ==> #[trigger] self.holds(stream, files, j)
            },
            ReceiverState::Complete => {
                &&& self.asked == ReceiverAction::Finish
                &&& self.taken == offset_of(files, files.len() as int)
                &&& forall|j: int| 0 <= j < files.len() ==> #[trigger] self.holds(stream, files, j)
            },
            _ => false,
        }
    }
}

/// Where each file of a list begins in the bulk stream, the one before it ends.
proof fn lemma_offsets_grow(files: Seq<FileView>, count: int)
    requires
        0 <= count,
    ensures
        offset_of(files, count) <= offset_of(files, count + 1),
        offset_of(files, count + 1) == offset_of(files, count) + files[count].size,
{
}

/// A download that is on track stays on track through a turn.
proof fn lemma_turn_keeps_track(
    download: Download,
    stream: Seq<u8>,
    files: Seq<FileView>,
    offer: nat,
)
    requires
        distinct_names(files),
        download.on_track(stream, files),
    ensures
        download.turn(stream, offer).on_track(stream, files),
{
    let next = download.turn(stream, offer);
    match download.session.state {
        ReceiverState::Opening { index } => {
            lemma_offsets_grow(files, index as int);
            let name = name_of(files, index as int);
            assert(next.stored == download.stored.insert(name, Seq::empty()));
            assert(next.stored.dom() =~= names_of(files, next.created())) by {
                assert(name_of(files, index as int) == name);
            }
            assert(next.stored[name] =~= stream.subrange(
                offset_of(files, index as int) as int,
                download.taken as int,
            ));
            assert forall|j: int| 0 <= j < index implies #[trigger] next.holds(
                stream,
                files,
                j,
            ) by {
                assert(download.holds(stream, files, j));
                assert(name_of(files, j) != name_of(files, index as int));
            }
        },
        ReceiverState::Streaming { index, remaining } => {
            lemma_offsets_grow(files, index as int);
            let max = chunk_limit(remaining);
            let count = brought(offer, max, stream.len() - download.taken);
            let name = name_of(files, index as int);
            assert(count <= max);
            assert(next == download.read(stream, offer, max));
            let grown = download.stored[name] + stream.subrange(
                download.taken as int,
                (download.taken + count) as int,
            );
            assert(grown =~= stream.subrange(
                offset_of(files, index as int) as int,
                (download.taken + count) as int,
            ));
            assert(next.stored == download.stored.insert(name, grown));
            assert(next.stored.dom() =~= download.stored.dom());
            assert forall|j: int| 0 <= j < index implies #[trigger] next.holds(
                stream,
                files,
                j,
            ) by {
                assert(download.holds(stream, files, j));
                assert(name_of(files, j) != name_of(files, index as int));
            }
            assert(next.stored[name] == grown);
        },
        _ => {},
    }
}

/// A download that starts on a list of files is on track after any turns.
proof fn lemma_run_keeps_track(files: Seq<FileView>, stream: Seq<u8>, offers: Seq<nat>)
    requires
        distinct_names(files),
        files.len() <= usize::MAX,
        forall|i: int| 0 <= i < files.len() ==> (#[trigger] files[i]).size <= usize::MAX,
    ensures
        Download::start(files).run(stream, offers).on_track(stream, files),
    decreases offers.len(),
{
    if offers.len() == 0 {
        assert(offset_of(files, 0) == 0);
        assert(Map::<Seq<char>, Seq<u8>>::empty().dom() =~= names_of(files, 0));
    } else {
        lemma_run_keeps_track(files, stream, offers.drop_last());
        lemma_turn_keeps_track(
            Download::start(files).run(stream, offers.drop_last()),
            stream,
            files,
            offers.last(),
        );
    }
}

/// Whatever the connection offers from read to read, reads that bring
/// nothing and reads that bring a single byte included, a download never
/// fails by itself, and when it is complete every file of the list is
/// stored under its base name with exactly its run of the stream: the bytes
/// between the end of the file before it and its own announced length; and
/// nothing is stored under any other name. This is said of lists in which
/// no two files have the same base name; in any other, one file is stored
/// over another.
pub proof fn law_download_cuts_stream_by_sizes(
    files: Seq<FileView>,
    stream: Seq<u8>,
    offers: Seq<nat>,
)
    requires
        distinct_names(files),
        files.len() <= usize::MAX,
        forall|i: int| 0 <= i < files.len() ==> (#[trigger] files[i]).size <= usize::MAX,
    ensures
        ({
            let end = Download::start(files).run(stream, offers);
            &&& !(end.session.state is Failed)
            &&& end.session.state is Complete ==> {
                &&& end.stored.dom() == names_of(files, files.len() as int)
                &&& forall|j: int| 0 <= j < files.len() ==> #[trigger] end.holds(stream, files, j)
            }
        }),
{
    lemma_run_keeps_track(files, stream, offers);
}

/// How many of `offers` bring something.
pub open spec fn fruitful(offers: Seq<nat>) -> nat
    decreases offers.len(),
{
    if offers.len() == 0 {
        0
    } else if offers.last() > 0 {
        fruitful(offers.drop_last()) + 1
    } else {
        fruitful(offers.drop_last())
    }
}

/// What a download still has to do: the bytes it has not read and the
/// destination files it has not created.
pub open spec fn download_work(download: Download, files: Seq<FileView>) -> int {
    (offset_of(files, files.len() as int) - download.taken) + (files.len() - download.created())
}

/// A turn never adds to what a download has to do, and a turn in which the
/// connection offers something takes from it, until nothing is left and the
/// download is complete.
proof fn lemma_turn_makes_progress(
    download: Download,
    stream: Seq<u8>,
    files: Seq<FileView>,
    offer: nat,
)
    requires
        distinct_names(files),
        download.on_track(stream, files),
        stream.len() >= offset_of(files, files.len() as int),
    ensures
        download_work(download, files) >= 0,
        download_work(download, files) == 0 <==> download.session.state is Complete,
        download_work(download.turn(stream, offer), files) <= download_work(download, files),
        offer > 0 && download_work(download, files) > 0 ==> download_work(
            download.turn(stream, offer),
            files,
        ) < download_work(download, files),
{
    match download.session.state {
        ReceiverState::Opening { index } => {
            lemma_offsets_within(files, index as int, files.len() as int);
        },
        ReceiverState::Streaming { index, remaining } => {
            lemma_offsets_within(files, index + 1, files.len() as int);
        },
        _ => {},
    }
}

/// After any turns, what a download still has to do is what it had to do at
/// the start less one for each turn in which the connection offered something.
proof fn lemma_run_makes_progress(files: Seq<FileView>, stream: Seq<u8>, offers: Seq<nat>)
    requires
        distinct_names(files),
        files.len() <= usize::MAX,
        forall|i: int| 0 <= i < files.len() ==> (#[trigger] files[i]).size <= usize::MAX,
        stream.len() >= offset_of(files, files.len() as int),
    ensures
        ({
            let end = Download::start(files).run(stream, offers);
            let work = download_work(end, files);
            &&& 0 <= work
            &&& work == 0 <==> end.session.state is Complete
            &&& work == 0 || work + fruitful(offers) <= offset_of(files, files.len() as int)
                + files.len()
        }),
    decreases offers.len(),
{
    lemma_run_keeps_track(files, stream, offers);
    lemma_turn_makes_progress(Download::start(files).run(stream, offers), stream, files, 0);
    if offers.len() > 0 {
        let before = Download::start(files).run(stream, offers.drop_last());
        lemma_run_makes_progress(files, stream, offers.drop_last());
        lemma_run_keeps_track(files, stream, offers.drop_last());
        lemma_turn_makes_progress(before, stream, files, offers.last());
    }
}

/// Reads that bring nothing only delay a download: where the stream holds
/// the bytes of every announced file, the download is complete as soon as
/// the connection has offered something as many times as there are bytes
/// and files in all, however many empty reads fall in between.
pub proof fn law_download_completes(files: Seq<FileView>, stream: Seq<u8>, offers: Seq<nat>)
    requires
        distinct_names(files),
        files.len() <= usize::MAX,
        forall|i: int| 0 <= i < files.len() ==> (#[trigger] files[i]).size <= usize::MAX,
        stream.len() >= offset_of(files, files.len() as int),
        fruitful(offers) >= offset_of(files, files.len() as int) + files.len(),
    ensures
        Download::start(files).run(stream, offers).session.state is Complete,
{
    lemma_run_makes_progress(files, stream, offers);
}

/// In the bulk stream of some contents, the run of each file, cut by the
/// announced lengths, is the content of that file.
pub proof fn law_runs_of_bulk_stream_are_contents(
    files: Seq<FileView>,
    contents: Seq<Seq<u8>>,
    index: int,
)
    requires
        announces(files, contents),
        0 <= index < contents.len(),
    ensures
        offset_of(files, contents.len() as int) == bulk_stream(contents).len(),
        file_run(bulk_stream(contents), files, index) == contents[index],
    decreases contents.len(),
{
    let shorter = contents.drop_last();
    let fewer = files.drop_last();
    let last = contents.len() - 1;
    assert forall|i: int| 0 <= i < fewer.len() implies (#[trigger] fewer[i]).size
        == shorter[i].len() by {
        assert(fewer[i] == files[i]);
    }
    lemma_offsets_agree(files, fewer, last);
    if last > 0 {
        law_runs_of_bulk_stream_are_contents(fewer, shorter, 0);
    } else {
        assert(bulk_stream(shorter).len() == 0);
        assert(offset_of(fewer, 0) == 0);
    }
    assert(offset_of(files, last) == bulk_stream(shorter).len());
    lemma_offsets_grow(files, last);
    if index < last {
        law_runs_of_bulk_stream_are_contents(fewer, shorter, index);
        lemma_offsets_agree(files, fewer, index + 1);
        lemma_offsets_agree(files, fewer, index);
        lemma_offsets_within(fewer, index + 1, last);
        lemma_offsets_within(fewer, index, index + 1);
        assert(file_run(bulk_stream(contents), files, index) =~= file_run(
            bulk_stream(shorter),
            fewer,
            index,
        ));
    } else {
        assert(file_run(bulk_stream(contents), files, index) =~= contents[index]);
    }
}

/// A shorter list begins its files where the longer one does.
proof fn lemma_offsets_agree(files: Seq<FileView>, fewer: Seq<FileView>, count: int)
    requires
        0 <= count <= fewer.len() <= files.len(),
        forall|i: int| 0 <= i < fewer.len() ==> #[trigger] fewer[i] == files[i],
    ensures
        offset_of(fewer, count) == offset_of(files, count),
    decreases count,
{
    if count > 0 {
        lemma_offsets_agree(files, fewer, count - 1);
    }
}

/// A file begins no later than any file behind it.
proof fn lemma_offsets_within(files: Seq<FileView>, early: int, late: int)
    requires
        0 <= early <= late,
    ensures
        offset_of(files, early) <= offset_of(files, late),
    decreases late - early,
{
    if early < late {
        lemma_offsets_within(files, early, late - 1);
    }
}

/// An upload in progress: the session, what it asked for last, what has been
/// written to the connection, and how much of the open file has been read.
pub struct Upload {
    pub session: SenderView,
    pub asked: SenderAction,
    pub wire: Seq<u8>,
    pub read: nat,
}

impl Upload {
    /// The upload when a receiver has just connected to an idle session.
    pub open spec fn start(files: Seq<FileView>, frame: Seq<u8>) -> Upload {
        let accepted = (SenderView { state: SenderState::Idle, files, frame }).next(
            SenderEvent::Accepted,
        );
        Upload { session: accepted.0, asked: accepted.1, wire: Seq::empty(), read: 0 }
    }

    /// The upload with the session's answer to `event`.
    pub open spec fn report(self, event: SenderEvent, wire: Seq<u8>, read: nat) -> Upload {
        let answer = self.session.next(event);
        Upload { session: answer.0, asked: answer.1, wire, read }
    }

    /// One turn: the outside does what the session asked for last and reports
    /// it. The frame is written as it is. A file is opened at its beginning.
    /// A read from the open file brings at least one byte unless the file is
    /// exhausted, at most `portion + 1`, and no more than were asked for; what
    /// it brings is written to the connection.
    pub open spec fn turn(self, contents: Seq<Seq<u8>>, portion: nat) -> Upload {
        match self.asked {
            SenderAction::SendFrame => self.report(
                SenderEvent::FrameSent,
                self.wire + self.session.frame,
                self.read,
            ),
            SenderAction::OpenFile { index } => self.report(SenderEvent::FileOpened, self.wire, 0),
            SenderAction::SendChunk { max } => match self.session.state {
                SenderState::Streaming { index } => {
                    let content = contents[index as int];
                    let count = brought(portion + 1, max, content.len() - self.read);
                    self.report(
                        SenderEvent::ChunkSent(count as usize),
                        self.wire + content.subrange(self.read as int, (self.read + count) as int),
                        self.read + count,
                    )
                },
                _ => self,
            },
            _ => self,
        }
    }

    /// The upload after one turn for each of `portions`, in order.
    pub open spec fn run(self, contents: Seq<Seq<u8>>, portions: Seq<nat>) -> Upload
        decreases portions.len(),
    {
        if portions.len() == 0 {
            self
        } else {
            self.run(contents, portions.drop_last()).turn(contents, portions.last())
        }
    }

    /// What holds of an upload at every turn: the connection has been given
    /// the frame, the content of every file before the one in hand, and the
    /// content of the one in hand as far as it has been read.
    pub open spec fn on_track(self, frame: Seq<u8>, contents: Seq<Seq<u8>>) -> bool {
        &&& self.session.frame == frame
        &&& self.session.files.len() == contents.len()
        &&& self.session.wf()
        &&& match self.session.state {
            SenderState::Connected => self.asked == SenderAction::SendFrame && self.wire
                == Seq::<u8>::empty(),
            SenderState::Opening { index } => {
                &&& self.asked == SenderAction::OpenFile { index }
                &&& self.wire == frame + bulk_stream(contents.take(index as int))
            },
            SenderState::Streaming { index } => {
                &&& self.asked == SenderAction::SendChunk { max: BUFFER_SIZE }
                &&& self.read <= contents[index as int].len()
                &&& self.wire == frame + bulk_stream(contents.take(index as int))
                    + contents[index as int].subrange(0, self.read as int)
            },
            SenderState::Complete => {
                &&& self.asked == SenderAction::Finish
                &&& self.wire == frame + bulk_stream(contents)
            },
            _ => false,
        }
    }
}

/// An upload that is on track stays on track through a turn.
proof fn lemma_upload_turn_keeps_track(
    upload: Upload,
    frame: Seq<u8>,
    contents: Seq<Seq<u8>>,
    portion: nat,
)
    requires
        upload.on_track(frame, contents),
    ensures
        upload.turn(contents, portion).on_track(frame, contents),
{
    let next = upload.turn(contents, portion);
    match upload.session.state {
        SenderState::Connected => {
            assert(contents.take(0) =~= Seq::<Seq<u8>>::empty());
            assert(next.wire =~= frame + bulk_stream(contents.take(0)));
            assert(contents.take(contents.len() as int) =~= contents);
        },
        SenderState::Opening { index } => {
            assert(next.wire =~= frame + bulk_stream(contents.take(index as int))
                + contents[index as int].subrange(0, 0));
        },
        SenderState::Streaming { index } => {
            let content = contents[index as int];
            let count = brought(portion + 1, BUFFER_SIZE, content.len() - upload.read);
            let sent = frame + bulk_stream(contents.take(index as int));
            assert(next.wire == upload.wire + content.subrange(
                upload.read as int,
                (upload.read + count) as int,
            ));
            assert(next.wire =~= sent + content.subrange(0, (upload.read + count) as int));
            if count == 0 {
                assert(upload.read == content.len());
                assert(content.subrange(0, upload.read as int) =~= content);
                let more = contents.take(index + 1);
                assert(more.drop_last() =~= contents.take(index as int));
                assert(more.last() == content);
                assert(next.wire =~= frame + bulk_stream(more));
                assert(contents.take(contents.len() as int) =~= contents);
            }
        },
        _ => {},
    }
}

/// An upload that starts on an idle session is on track after any turns.
proof fn lemma_upload_keeps_track(
    files: Seq<FileView>,
    frame: Seq<u8>,
    contents: Seq<Seq<u8>>,
    portions: Seq<nat>,
)
    requires
        files.len() == contents.len(),
        files.len() <= usize::MAX,
        frame.len() == CONTROL_FRAME_SIZE,
    ensures
        Upload::start(files, frame).run(contents, portions).on_track(frame, contents),
    decreases portions.len(),
{
    if portions.len() > 0 {
        lemma_upload_keeps_track(files, frame, contents, portions.drop_last());
        lemma_upload_turn_keeps_track(
            Upload::start(files, frame).run(contents, portions.drop_last()),
            frame,
            contents,
            portions.last(),
        );
    }
}

/// However the reads from the files fall, an upload never fails by itself,
/// and when it is complete the connection has been given the control frame
/// followed by the bulk stream of the contents, and nothing else.
pub proof fn law_upload_writes_frame_then_bulk_stream(
    files: Seq<FileView>,
    frame: Seq<u8>,
    contents: Seq<Seq<u8>>,
    portions: Seq<nat>,
)
    requires
        files.len() == contents.len(),
        files.len() <= usize::MAX,
        frame.len() == CONTROL_FRAME_SIZE,
    ensures
        ({
            let end = Upload::start(files, frame).run(contents, portions);
            &&& !(end.session.state is Failed)
            &&& end.session.state is Complete ==> end.wire == frame + bulk_stream(contents)
        }),
{
    lemma_upload_keeps_track(files, frame, contents, portions);
}

/// The turns that the files from `from` on take at most: for each file one
/// to open it, one for each of its bytes, and one to find it exhausted.
pub open spec fn turns_for(contents: Seq<Seq<u8>>, from: int) -> nat
    decreases contents.len() - from,
{
    if 0 <= from < contents.len() {
        contents[from].len() + 2 + turns_for(contents, from + 1)
    } else {
        0
    }
}

/// The turns that an upload still takes at most.
pub open spec fn upload_work(upload: Upload, contents: Seq<Seq<u8>>) -> int {
    match upload.session.state {
        SenderState::Connected => (1 + turns_for(contents, 0)) as int,
        SenderState::Opening { index } => turns_for(contents, index as int) as int,
        SenderState::Streaming { index } => turns_for(contents, index as int) - 1 - upload.read,
        _ => 0,
    }
}

/// Every turn of an upload that is not complete takes at least one from the
/// turns that it still takes.
proof fn lemma_upload_turn_makes_progress(
    upload: Upload,
    frame: Seq<u8>,
    contents: Seq<Seq<u8>>,
    portion: nat,
)
    requires
        upload.on_track(frame, contents),
    ensures
        upload_work(upload, contents) >= 0,
        upload_work(upload, contents) == 0 <==> upload.session.state is Complete,
        upload_work(upload.turn(contents, portion), contents) <= upload_work(upload, contents),
        upload_work(upload, contents) > 0 ==> upload_work(upload.turn(contents, portion), contents)
            < upload_work(upload, contents),
{
    match upload.session.state {
        SenderState::Streaming { index } => {
            assert(turns_for(contents, index as int) == contents[index as int].len() + 2
                + turns_for(contents, index + 1));
        },
        SenderState::Opening { index } => {
            assert(turns_for(contents, index as int) == contents[index as int].len() + 2
                + turns_for(contents, index + 1));
        },
        _ => {},
    }
}

/// After any turns, an upload still takes at most what it took at the start
/// less the turns it has had.
proof fn lemma_upload_makes_progress(
    files: Seq<FileView>,
    frame: Seq<u8>,
    contents: Seq<Seq<u8>>,
    portions: Seq<nat>,
)
    requires
        files.len() == contents.len(),
        files.len() <= usize::MAX,
        frame.len() == CONTROL_FRAME_SIZE,
    ensures
        ({
            let end = Upload::start(files, frame).run(contents, portions);
            let work = upload_work(end, contents);
            &&& 0 <= work
            &&& work == 0 <==> end.session.state is Complete
            &&& work == 0 || work + portions.len() <= 1 + turns_for(contents, 0)
        }),
    decreases portions.len(),
{
    lemma_upload_keeps_track(files, frame, contents, portions);
    lemma_upload_turn_makes_progress(
        Upload::start(files, frame).run(contents, portions),
        frame,
        contents,
        0,
    );
    if portions.len() > 0 {
        let before = Upload::start(files, frame).run(contents, portions.drop_last());
        lemma_upload_makes_progress(files, frame, contents, portions.drop_last());
        lemma_upload_keeps_track(files, frame, contents, portions.drop_last());
        lemma_upload_turn_makes_progress(before, frame, contents, portions.last());
    }
}

/// An upload is complete after one turn for the frame and, for each file,
/// one to open it, one for each of its bytes and one to find it exhausted,
/// or sooner.
pub proof fn law_upload_completes(
    files: Seq<FileView>,
    frame: Seq<u8>,
    contents: Seq<Seq<u8>>,
    portions: Seq<nat>,
)
    requires
        files.len() == contents.len(),
        files.len() <= usize::MAX,
        frame.len() == CONTROL_FRAME_SIZE,
        portions.len() >= 1 + turns_for(contents, 0),
    ensures
        Upload::start(files, frame).run(contents, portions).session.state is Complete,
{
    lemma_upload_makes_progress(files, frame, contents, portions);
}

/// The bulk stream is as long as the announced lengths add up to.
proof fn lemma_bulk_stream_length(files: Seq<FileView>, contents: Seq<Seq<u8>>)
    requires
        announces(files, contents),
    ensures
        bulk_stream(contents).len() == offset_of(files, files.len() as int),
{
    if contents.len() > 0 {
        law_runs_of_bulk_stream_are_contents(files, contents, 0);
    }
}

/// A whole transfer. Where the list announces the contents with their true
/// lengths and no two files have the same base name, and both sides get the
/// turns they need, the upload completes with the control frame and the
/// bulk stream on the wire, and the download of what follows the frame
/// completes with every file stored under its base name with the content of
/// its source, byte for byte, and with nothing else stored: however the
/// reads fall on either side, and however often a read on the receiving
/// side brings nothing.
pub proof fn law_transfer_reproduces_contents(
    files: Seq<FileView>,
    frame: Seq<u8>,
    contents: Seq<Seq<u8>>,
    portions: Seq<nat>,
    offers: Seq<nat>,
)
    requires
        announces(files, contents),
        distinct_names(files),
        files.len() <= usize::MAX,
        forall|i: int| 0 <= i < files.len() ==> (#[trigger] files[i]).size <= usize::MAX,
        frame.len() == CONTROL_FRAME_SIZE,
        portions.len() >= 1 + turns_for(contents, 0),
        fruitful(offers) >= offset_of(files, files.len() as int) + files.len(),
    ensures
        ({
            let upload = Upload::start(files, frame).run(contents, portions);
            let download = Download::start(files).run(
                upload.wire.skip(CONTROL_FRAME_SIZE as int),
                offers,
            );
            &&& upload.session.state is Complete
            &&& upload.wire == frame + bulk_stream(contents)
            &&& download.session.state is Complete
            &&& download.stored.dom() == names_of(files, files.len() as int)
            &&& forall|j: int|
                0 <= j < files.len() ==> download.stored.dom().contains(
                    #[trigger] name_of(files, j),
                ) && download.stored[name_of(files, j)] == contents[j]
        }),
{
    let upload = Upload::start(files, frame).run(contents, portions);
    let stream = upload.wire.skip(CONTROL_FRAME_SIZE as int);
    let download = Download::start(files).run(stream, offers);
    law_upload_completes(files, frame, contents, portions);
    law_upload_writes_frame_then_bulk_stream(files, frame, contents, portions);
    assert(stream =~= bulk_stream(contents));
    lemma_bulk_stream_length(files, contents);
    law_download_completes(files, stream, offers);
    law_download_cuts_stream_by_sizes(files, stream, offers);
    assert forall|j: int| 0 <= j < files.len() implies download.stored.dom().contains(
        #[trigger] name_of(files, j),
    ) && download.stored[name_of(files, j)] == contents[j] by {
        assert(download.holds(stream, files, j));
        law_runs_of_bulk_stream_are_contents(files, contents, j);
    }
}

} // verus!
