use file_relay::file_io::{FileInfo, FileSystem, FolderInfo};
use file_relay::network::{TransferError, BUFFER_SIZE};
use file_relay::receiver::{limit, Receiver, ReceiverAction, ReceiverEvent, ReceiverState};
use file_relay::sender::{Sender, SenderAction, SenderEvent, SenderState};

fn file(path: &str, size: usize) -> FileInfo {
    FileInfo::new(path.to_string(), size)
}

fn streaming_receiver(files: Vec<FileInfo>) -> Receiver {
    let mut session = Receiver::new();
    assert_eq!(session.step(ReceiverEvent::Connected), ReceiverAction::ReadControlFrame);
    assert_eq!(session.step(ReceiverEvent::Manifest(files)), ReceiverAction::CreateFile { index: 0 });
    session
}

#[test]
fn receiver_takes_files_in_order() {
    let mut session = Receiver::new();
    assert_eq!(session.state(), ReceiverState::Idle);
    assert_eq!(session.step(ReceiverEvent::Connected), ReceiverAction::ReadControlFrame);
    assert_eq!(session.state(), ReceiverState::Connected);
    let files = vec![file("up/a.txt", 5), file("up/sub/b.txt", 10)];
    assert_eq!(session.step(ReceiverEvent::Manifest(files)), ReceiverAction::CreateFile { index: 0 });
    assert_eq!(session.state(), ReceiverState::Opening { index: 0 });
    assert_eq!(session.files()[0].name(), "a.txt");
    assert_eq!(session.step(ReceiverEvent::FileCreated), ReceiverAction::Read { max: 5 });
    assert_eq!(session.state(), ReceiverState::Streaming { index: 0, remaining: 5 });
    assert_eq!(session.step(ReceiverEvent::Received(2)), ReceiverAction::Read { max: 3 });
    assert_eq!(session.state(), ReceiverState::Streaming { index: 0, remaining: 3 });
    assert_eq!(session.step(ReceiverEvent::Received(3)), ReceiverAction::CreateFile { index: 1 });
    assert_eq!(session.files()[1].name(), "b.txt");
    assert_eq!(session.step(ReceiverEvent::FileCreated), ReceiverAction::Read { max: 10 });
    assert_eq!(session.step(ReceiverEvent::Received(10)), ReceiverAction::Finish);
    assert_eq!(session.state(), ReceiverState::Complete);
}

#[test]
fn receiver_retries_after_empty_read() {
    let mut session = streaming_receiver(vec![file("a", 8)]);
    assert_eq!(session.step(ReceiverEvent::FileCreated), ReceiverAction::Read { max: 8 });
    assert_eq!(session.step(ReceiverEvent::Received(3)), ReceiverAction::Read { max: 5 });
    for _ in 0..50 {
        assert_eq!(
            session.step(ReceiverEvent::Received(0)),
            ReceiverAction::RetryRead { max: 5, delay_ms: 100 }
        );
        assert_eq!(session.state(), ReceiverState::Streaming { index: 0, remaining: 5 });
    }
    assert_eq!(session.step(ReceiverEvent::Received(5)), ReceiverAction::Finish);
    assert_eq!(session.state(), ReceiverState::Complete);
}

#[test]
fn receiver_asks_for_no_more_than_the_buffer_holds() {
    let size = BUFFER_SIZE * 2 + 10;
    let mut session = streaming_receiver(vec![file("big", size)]);
    assert_eq!(session.step(ReceiverEvent::FileCreated), ReceiverAction::Read { max: BUFFER_SIZE });
    assert_eq!(
        session.step(ReceiverEvent::Received(BUFFER_SIZE)),
        ReceiverAction::Read { max: BUFFER_SIZE }
    );
    assert_eq!(session.state(), ReceiverState::Streaming { index: 0, remaining: BUFFER_SIZE + 10 });
    assert_eq!(session.step(ReceiverEvent::Received(BUFFER_SIZE)), ReceiverAction::Read { max: 10 });
    assert_eq!(session.step(ReceiverEvent::Received(10)), ReceiverAction::Finish);
}

#[test]
fn chunk_limit_is_the_smaller_of_remaining_and_buffer() {
    assert_eq!(limit(0), 0);
    assert_eq!(limit(1), 1);
    assert_eq!(limit(BUFFER_SIZE - 1), BUFFER_SIZE - 1);
    assert_eq!(limit(BUFFER_SIZE), BUFFER_SIZE);
    assert_eq!(limit(BUFFER_SIZE + 1), BUFFER_SIZE);
    assert_eq!(limit(usize::MAX), BUFFER_SIZE);
}

#[test]
fn receiver_completes_empty_file_without_reading() {
    let mut session = streaming_receiver(vec![file("empty", 0), file("b", 1), file("none", 0)]);
    assert_eq!(session.step(ReceiverEvent::FileCreated), ReceiverAction::CreateFile { index: 1 });
    assert_eq!(session.step(ReceiverEvent::FileCreated), ReceiverAction::Read { max: 1 });
    assert_eq!(session.step(ReceiverEvent::Received(1)), ReceiverAction::CreateFile { index: 2 });
    assert_eq!(session.step(ReceiverEvent::FileCreated), ReceiverAction::Finish);
    assert_eq!(session.state(), ReceiverState::Complete);
}

#[test]
fn receiver_with_empty_list_is_complete_at_once() {
    let mut session = Receiver::new();
    session.step(ReceiverEvent::Connected);
    assert_eq!(session.step(ReceiverEvent::Manifest(vec![])), ReceiverAction::Finish);
    assert_eq!(session.state(), ReceiverState::Complete);
}

#[test]
fn receiver_fails_on_reported_failure() {
    let mut session = Receiver::new();
    assert_eq!(
        session.step(ReceiverEvent::Failed(TransferError::Connection)),
        ReceiverAction::Abort
    );
    assert_eq!(session.state(), ReceiverState::Failed { error: TransferError::Connection });

    let mut session = Receiver::new();
    session.step(ReceiverEvent::Connected);
    assert_eq!(session.step(ReceiverEvent::Failed(TransferError::Decoding)), ReceiverAction::Abort);
    assert_eq!(session.state(), ReceiverState::Failed { error: TransferError::Decoding });

    let mut session = streaming_receiver(vec![file("a", 4)]);
    session.step(ReceiverEvent::FileCreated);
    session.step(ReceiverEvent::Received(1));
    assert_eq!(
        session.step(ReceiverEvent::Failed(TransferError::Connection)),
        ReceiverAction::Abort
    );
    assert_eq!(session.state(), ReceiverState::Failed { error: TransferError::Connection });
}

#[test]
fn receiver_that_is_over_stays_over() {
    let mut session = Receiver::new();
    session.step(ReceiverEvent::Failed(TransferError::Connection));
    assert_eq!(session.step(ReceiverEvent::Connected), ReceiverAction::Nothing);
    assert_eq!(session.step(ReceiverEvent::Received(3)), ReceiverAction::Nothing);
    assert_eq!(session.step(ReceiverEvent::Failed(TransferError::Decoding)), ReceiverAction::Nothing);
    assert_eq!(session.state(), ReceiverState::Failed { error: TransferError::Connection });

    let mut session = Receiver::new();
    session.step(ReceiverEvent::Connected);
    session.step(ReceiverEvent::Manifest(vec![]));
    assert_eq!(session.step(ReceiverEvent::FileCreated), ReceiverAction::Nothing);
    assert_eq!(session.step(ReceiverEvent::Failed(TransferError::Connection)), ReceiverAction::Nothing);
    assert_eq!(session.state(), ReceiverState::Complete);
}

#[test]
fn receiver_refuses_what_cannot_follow() {
    let mut session = Receiver::new();
    assert_eq!(session.step(ReceiverEvent::Received(1)), ReceiverAction::Abort);
    assert_eq!(session.state(), ReceiverState::Failed { error: TransferError::Protocol });

    let mut session = Receiver::new();
    assert_eq!(session.step(ReceiverEvent::Manifest(vec![file("a", 1)])), ReceiverAction::Abort);

    let mut session = Receiver::new();
    session.step(ReceiverEvent::Connected);
    assert_eq!(session.step(ReceiverEvent::Connected), ReceiverAction::Abort);

    let mut session = streaming_receiver(vec![file("a", 4)]);
    assert_eq!(session.step(ReceiverEvent::Received(1)), ReceiverAction::Abort);

    let mut session = streaming_receiver(vec![file("a", 4)]);
    session.step(ReceiverEvent::FileCreated);
    assert_eq!(session.step(ReceiverEvent::FileCreated), ReceiverAction::Abort);
}

#[test]
fn receiver_refuses_more_bytes_than_asked_for() {
    let mut session = streaming_receiver(vec![file("a", 4), file("b", 4)]);
    session.step(ReceiverEvent::FileCreated);
    assert_eq!(session.step(ReceiverEvent::Received(5)), ReceiverAction::Abort);
    assert_eq!(session.state(), ReceiverState::Failed { error: TransferError::Protocol });
}

#[test]
fn sender_checks_frame_size_before_anything_else() {
    let files = vec![file("a", 1)];
    assert_eq!(Sender::new(files, &vec![1u8; 1025]).err(), Some(TransferError::Encoding));
    let session = Sender::new(vec![file("a", 1)], &vec![1u8; 1024]).unwrap();
    assert_eq!(session.state(), SenderState::Idle);
    assert_eq!(session.frame(), &vec![1u8; 1024]);
}

#[test]
fn sender_holds_the_padded_frame() {
    let session = Sender::new(vec![file("a", 1)], &vec![9, 8, 7]).unwrap();
    assert_eq!(session.frame().len(), 1024);
    assert_eq!(&session.frame()[0..4], &[9, 8, 7, 0]);
    assert!(session.frame()[3..].iter().all(|byte| *byte == 0));
    assert_eq!(session.files().len(), 1);
}

#[test]
fn sender_sends_frame_then_files_in_order() {
    let mut session = Sender::new(vec![file("a", 5), file("b", 0)], &vec![1]).unwrap();
    assert_eq!(session.step(SenderEvent::Accepted), SenderAction::SendFrame);
    assert_eq!(session.state(), SenderState::Connected);
    assert_eq!(session.step(SenderEvent::FrameSent), SenderAction::OpenFile { index: 0 });
    assert_eq!(session.state(), SenderState::Opening { index: 0 });
    assert_eq!(session.step(SenderEvent::FileOpened), SenderAction::SendChunk { max: BUFFER_SIZE });
    assert_eq!(session.state(), SenderState::Streaming { index: 0 });
    assert_eq!(session.step(SenderEvent::ChunkSent(5)), SenderAction::SendChunk { max: BUFFER_SIZE });
    assert_eq!(session.state(), SenderState::Streaming { index: 0 });
    assert_eq!(session.step(SenderEvent::ChunkSent(0)), SenderAction::OpenFile { index: 1 });
    assert_eq!(session.step(SenderEvent::FileOpened), SenderAction::SendChunk { max: BUFFER_SIZE });
    assert_eq!(session.step(SenderEvent::ChunkSent(0)), SenderAction::Finish);
    assert_eq!(session.state(), SenderState::Complete);
    assert_eq!(session.step(SenderEvent::ChunkSent(0)), SenderAction::Nothing);
}

#[test]
fn sender_with_no_files_finishes_after_the_frame() {
    let mut session = Sender::new(vec![], &vec![]).unwrap();
    assert_eq!(session.step(SenderEvent::Accepted), SenderAction::SendFrame);
    assert_eq!(session.step(SenderEvent::FrameSent), SenderAction::Finish);
    assert_eq!(session.state(), SenderState::Complete);
}

#[test]
fn sender_fails_on_reported_failure() {
    let mut session = Sender::new(vec![file("a", 5)], &vec![1]).unwrap();
    session.step(SenderEvent::Accepted);
    session.step(SenderEvent::FrameSent);
    assert_eq!(session.step(SenderEvent::Failed(TransferError::Connection)), SenderAction::Abort);
    assert_eq!(session.state(), SenderState::Failed { error: TransferError::Connection });
    assert_eq!(session.step(SenderEvent::FileOpened), SenderAction::Nothing);
    assert_eq!(session.state(), SenderState::Failed { error: TransferError::Connection });
}

#[test]
fn sender_refuses_what_cannot_follow() {
    let mut session = Sender::new(vec![file("a", 5)], &vec![1]).unwrap();
    assert_eq!(session.step(SenderEvent::FrameSent), SenderAction::Abort);
    assert_eq!(session.state(), SenderState::Failed { error: TransferError::Protocol });

    let mut session = Sender::new(vec![file("a", 5)], &vec![1]).unwrap();
    session.step(SenderEvent::Accepted);
    assert_eq!(session.step(SenderEvent::ChunkSent(1)), SenderAction::Abort);

    let mut session = Sender::new(vec![file("a", 5)], &vec![1]).unwrap();
    session.step(SenderEvent::Accepted);
    session.step(SenderEvent::FrameSent);
    session.step(SenderEvent::FileOpened);
    assert_eq!(session.step(SenderEvent::ChunkSent(BUFFER_SIZE + 1)), SenderAction::Abort);
    assert_eq!(session.state(), SenderState::Failed { error: TransferError::Protocol });
}

/// What a sender puts on the wire, and what it read from where.
fn run_sender(sources: &Vec<(String, Vec<u8>)>, encoded: &Vec<u8>, chunk: usize) -> Vec<u8> {
    let files: Vec<FileInfo> = sources.iter().map(|(p, c)| file(p, c.len())).collect();
    let mut session = Sender::new(files, encoded).unwrap();
    let mut wire: Vec<u8> = vec![];
    let mut open: Option<(usize, usize)> = None;
    let mut action = session.step(SenderEvent::Accepted);
    loop {
        let event = match action {
            SenderAction::SendFrame => {
                wire.extend_from_slice(session.frame());
                SenderEvent::FrameSent
            }
            SenderAction::OpenFile { index } => {
                let position = sources
                    .iter()
                    .position(|(p, _)| *p == session.files()[index].path)
                    .unwrap();
                assert_eq!(position, index);
                open = Some((index, 0));
                SenderEvent::FileOpened
            }
            SenderAction::SendChunk { max } => {
                let (index, offset) = open.unwrap();
                let content = &sources[index].1;
                let count = max.min(chunk).min(content.len() - offset);
                wire.extend_from_slice(&content[offset..offset + count]);
                open = Some((index, offset + count));
                SenderEvent::ChunkSent(count)
            }
            SenderAction::Finish => return wire,
            SenderAction::Abort | SenderAction::Nothing => panic!("sender failed"),
        };
        action = session.step(event);
    }
}

/// What a receiver stores, by name, when reads bring what `pattern` says.
fn run_receiver(wire: &Vec<u8>, pattern: &Vec<usize>) -> (Vec<(String, Vec<u8>)>, usize) {
    let mut session = Receiver::new();
    let mut stored: Vec<(String, Vec<u8>)> = vec![];
    let mut offset = 0;
    let mut turn = 0;
    let mut retries = 0;
    let mut action = session.step(ReceiverEvent::Connected);
    loop {
        let event = match action {
            ReceiverAction::ReadControlFrame => {
                let frame = &wire[offset..offset + 1024];
                offset += 1024;
                let list: Vec<(String, u64)> = rmp_serde::from_slice(frame).unwrap();
                ReceiverEvent::Manifest(
                    list.into_iter().map(|(p, s)| file(&p, s as usize)).collect(),
                )
            }
            ReceiverAction::CreateFile { index } => {
                let name = session.files()[index].name().to_string();
                stored.retain(|(n, _)| *n != name);
                stored.push((name, vec![]));
                ReceiverEvent::FileCreated
            }
            ReceiverAction::Read { max } | ReceiverAction::RetryRead { max, .. } => {
                if let ReceiverAction::RetryRead { delay_ms, .. } = action {
                    assert_eq!(delay_ms, 100);
                    retries += 1;
                }
                let wish = pattern[turn % pattern.len()];
                turn += 1;
                let count = wish.min(max).min(wire.len() - offset);
                stored.last_mut().unwrap().1.extend_from_slice(&wire[offset..offset + count]);
                offset += count;
                ReceiverEvent::Received(count)
            }
            ReceiverAction::Finish => {
                assert_eq!(offset, wire.len());
                return (stored, retries);
            }
            ReceiverAction::Abort | ReceiverAction::Nothing => panic!("receiver failed"),
        };
        action = session.step(event);
    }
}

fn encode(sources: &Vec<(String, Vec<u8>)>) -> Vec<u8> {
    let list: Vec<(String, u64)> =
        sources.iter().map(|(p, c)| (p.clone(), c.len() as u64)).collect();
    rmp_serde::to_vec(&list).unwrap()
}

#[test]
fn transfer_cycle_reproduces_every_file() {
    let sources = vec![
        ("up/first.bin".to_string(), (0..=255u8).cycle().take(3000).collect::<Vec<u8>>()),
        ("up/empty".to_string(), vec![]),
        ("up\\deep\\second.txt".to_string(), b"hello, world".to_vec()),
        ("third".to_string(), vec![0u8; 777]),
    ];
    let wire = run_sender(&sources, &encode(&sources), 1000);
    assert_eq!(wire.len(), 1024 + 3000 + 12 + 777);
    for pattern in [vec![usize::MAX], vec![1], vec![7, 0, 0, 13, 1, 0], vec![0, 0, 0, 5000]] {
        let (stored, retries) = run_receiver(&wire, &pattern);
        let names: Vec<&str> = stored.iter().map(|(n, _)| n.as_str()).collect();
        assert_eq!(names, vec!["first.bin", "empty", "second.txt", "third"]);
        for (i, (_, content)) in stored.iter().enumerate() {
            assert_eq!(content, &sources[i].1);
        }
        assert_eq!(retries > 0, pattern.contains(&0));
    }
}

#[test]
fn selected_tree_is_transferred() {
    let mut sub = FolderInfo::new("root/sub".to_string(), 10, vec![]);
    sub.push_file(file("root/sub/b.txt", 10));
    let mut root = FolderInfo::new("root".to_string(), 15, vec![]);
    root.push_file(file("root/a.txt", 5));
    root.push_folder(sub);
    let mut system = FileSystem::new(root).unwrap();
    assert!(system.toggle_folder("root"));

    let on_disk = |path: &str| -> Vec<u8> {
        match path {
            "root/a.txt" => b"aaaaa".to_vec(),
            "root/sub/b.txt" => b"bbbbbbbbbb".to_vec(),
            _ => panic!("no such file"),
        }
    };
    let sources: Vec<(String, Vec<u8>)> = system
        .selected_files()
        .iter()
        .map(|f| (f.path.clone(), on_disk(&f.path)))
        .collect();
    for (i, selected) in system.selected_files().iter().enumerate() {
        assert_eq!(selected.size, sources[i].1.len());
    }
    let wire = run_sender(&sources, &encode(&sources), 4);
    let (stored, _) = run_receiver(&wire, &vec![3, 0, 2]);
    assert_eq!(
        stored,
        vec![
            ("a.txt".to_string(), b"aaaaa".to_vec()),
            ("b.txt".to_string(), b"bbbbbbbbbb".to_vec()),
        ]
    );
}

#[test]
fn list_that_does_not_fit_the_frame_starts_no_transfer() {
    let sources: Vec<(String, Vec<u8>)> =
        (0..80).map(|i| (format!("uploads/some/long/folder/name/file-{:04}.dat", i), vec![])).collect();
    let encoded = encode(&sources);
    assert!(encoded.len() > 1024);
    let files: Vec<FileInfo> = sources.iter().map(|(p, c)| file(p, c.len())).collect();
    assert_eq!(Sender::new(files, &encoded).err(), Some(TransferError::Encoding));
}
