use polydrive::cli::list::ListCommand;
use polydrive::command::handler::CommandHandler;
use polydrive::command::pipe::{
    CommandListener, CommandWriter, SocketClaim, TransportError, WriterState,
};
use polydrive::command::wire::{
    decode_command, decode_response, encode_command, encode_response, frame, unframe, Failure,
    Response, WireError,
};
use polydrive::indexer::entry::{Fingerprint, IndexEntry, SyncStatus};
use polydrive::indexer::event::{ChangeEvent, ChangeKind};
use polydrive::indexer::index::Indexer;
use polydrive::indexer::model::Transition;
use polydrive::{Command, Handler};

fn socket() -> Vec<u8> {
    b"/run/polydrive.sock".to_vec()
}

fn entry(at: &str, hash: u64, remote_id: Option<u64>, status: SyncStatus) -> IndexEntry {
    IndexEntry {
        path: at.as_bytes().to_vec(),
        fingerprint: Fingerprint { hash, size: 2, modified: 3 },
        remote_id,
        status,
        deleted: false,
        placeholder: false,
        superseded: false,
    }
}

#[test]
fn frame_puts_the_length_in_front() {
    assert_eq!(frame(&vec![]), Ok(vec![0, 0, 0, 0]));
    assert_eq!(frame(&vec![9, 8, 7]), Ok(vec![3, 0, 0, 0, 9, 8, 7]));
    let long = vec![5u8; 258];
    let framed = frame(&long).unwrap();
    assert_eq!(&framed[..4], &[2, 1, 0, 0]);
    assert_eq!(&framed[4..], &long[..]);
}

#[test]
fn unframe_undoes_frame() {
    for payload in [vec![], vec![1u8], vec![0u8; 300]] {
        assert_eq!(unframe(&frame(&payload).unwrap()), Ok(payload));
    }
}

#[test]
fn unframe_rejects_short_and_long_input() {
    assert_eq!(unframe(&vec![]), Err(WireError::Truncated));
    assert_eq!(unframe(&vec![1, 0, 0]), Err(WireError::Truncated));
    assert_eq!(unframe(&vec![2, 0, 0, 0, 7]), Err(WireError::Truncated));
    assert_eq!(unframe(&vec![1, 0, 0, 0, 7, 7]), Err(WireError::Trailing));
    assert_eq!(unframe(&vec![0, 0, 0, 0]), Ok(vec![]));
}

#[test]
fn list_command_is_one_tag_byte() {
    let list = Command::List(ListCommand {});
    assert_eq!(encode_command(&list), vec![1]);
    assert_eq!(decode_command(&vec![1]), Ok(list));
}

#[test]
fn unknown_command_payload_is_malformed() {
    assert_eq!(decode_command(&vec![]), Err(WireError::Malformed));
    assert_eq!(decode_command(&vec![0]), Err(WireError::Malformed));
    assert_eq!(decode_command(&vec![2]), Err(WireError::Malformed));
    assert_eq!(decode_command(&vec![1, 0]), Err(WireError::Malformed));
}

#[test]
fn entry_layout_on_the_wire() {
    let listing = Response::Listing(vec![IndexEntry {
        path: b"/a".to_vec(),
        fingerprint: Fingerprint { hash: 0x0102, size: 3, modified: 4 },
        remote_id: Some(5),
        status: SyncStatus::Synced,
        deleted: false,
        placeholder: true,
        superseded: false,
    }]);
    let mut expected: Vec<u8> = vec![0, 1, 0, 0, 0];
    expected.extend_from_slice(&[2, 0, 0, 0, b'/', b'a']);
    expected.extend_from_slice(&[2, 0, 1, 0]);
    expected.extend_from_slice(&[1, 5, 0, 0, 0, 0, 0, 0, 0]);
    expected.extend_from_slice(&[2, 1, 0, 0, 0, 0, 0, 0]);
    expected.extend_from_slice(&[3, 0, 0, 0, 0, 0, 0, 0]);
    expected.extend_from_slice(&[4, 0, 0, 0, 0, 0, 0, 0]);
    assert_eq!(encode_response(&listing), Ok(expected));
}

#[test]
fn responses_survive_the_round_trip() {
    let mut gone = entry("/tmp/gone", 9, Some(u64::MAX), SyncStatus::Pending);
    gone.deleted = true;
    gone.superseded = true;
    let responses = vec![
        Response::Listing(vec![]),
        Response::Listing(vec![
            entry("/tmp/a.txt", 1, Some(7), SyncStatus::Synced),
            entry("", 2, None, SyncStatus::Unsynced),
            gone,
            entry("/tmp/\u{e9}", 3, Some(0), SyncStatus::Conflicted),
        ]),
        Response::Error { kind: Failure::Decode, message: b"malformed command".to_vec() },
        Response::Error { kind: Failure::Handler, message: vec![] },
    ];
    for response in responses {
        let payload = encode_response(&response).unwrap();
        assert_eq!(decode_response(&payload), Ok(response));
    }
}

#[test]
fn malformed_response_payloads_are_rejected() {
    assert_eq!(decode_response(&vec![]), Err(WireError::Malformed));
    assert_eq!(decode_response(&vec![7]), Err(WireError::Malformed));
    assert_eq!(decode_response(&vec![0, 1, 0, 0]), Err(WireError::Malformed));
    assert_eq!(decode_response(&vec![0, 1, 0, 0, 0]), Err(WireError::Malformed));
    assert_eq!(decode_response(&vec![0, 0, 0, 0, 0, 9]), Err(WireError::Malformed));
    assert_eq!(decode_response(&vec![1]), Err(WireError::Malformed));
    assert_eq!(decode_response(&vec![1, 2]), Err(WireError::Malformed));
    let good = encode_response(&Response::Listing(vec![entry("/a", 1, Some(2), SyncStatus::Synced)]))
        .unwrap();
    let mut bad_status = good.clone();
    bad_status[5 + 4 + 2] = 4;
    assert_eq!(decode_response(&bad_status), Err(WireError::Malformed));
    let mut bad_flag = good.clone();
    bad_flag[5 + 4 + 2 + 1] = 2;
    assert_eq!(decode_response(&bad_flag), Err(WireError::Malformed));
    let mut short = good.clone();
    short.pop();
    assert_eq!(decode_response(&short), Err(WireError::Malformed));
    let mut huge_count = good.clone();
    huge_count[1] = 0xff;
    huge_count[4] = 0xff;
    assert_eq!(decode_response(&huge_count), Err(WireError::Malformed));
}

#[test]
fn writer_goes_through_its_states() {
    let writer = CommandWriter::new(socket());
    assert_eq!(writer.current(), WriterState::Connect);
    assert_eq!(writer.socket_path(), socket());
    let writer = writer.connected(true).unwrap();
    assert_eq!(writer.current(), WriterState::Send);
    let writer = writer.send(&Command::List(ListCommand {})).unwrap();
    assert_eq!(writer.current(), WriterState::AwaitResponse);
    assert_eq!(writer.frame(), vec![1, 0, 0, 0, 1]);
    let reply = frame(&encode_response(&Response::Listing(vec![])).unwrap()).unwrap();
    assert_eq!(writer.receive(&reply), Ok(Response::Listing(vec![])));
}

#[test]
fn unreachable_daemon_is_a_connection_error() {
    let writer = CommandWriter::new(socket());
    assert_eq!(writer.connected(false).err(), Some(TransportError::Connection));
}

#[test]
fn writer_steps_out_of_turn() {
    let list = Command::List(ListCommand {});
    assert_eq!(CommandWriter::new(socket()).send(&list).err(), Some(TransportError::OutOfTurn));
    assert_eq!(
        CommandWriter::new(socket()).receive(&vec![0, 0, 0, 0]),
        Err(TransportError::OutOfTurn)
    );
    let sending = CommandWriter::new(socket()).connected(true).unwrap();
    assert_eq!(sending.connected(true).err(), Some(TransportError::OutOfTurn));
    let waiting =
        CommandWriter::new(socket()).connected(true).unwrap().send(&list).unwrap();
    assert_eq!(waiting.send(&list).err(), Some(TransportError::OutOfTurn));
}

fn waiting_writer() -> CommandWriter {
    CommandWriter::new(socket())
        .connected(true)
        .unwrap()
        .send(&Command::List(ListCommand {}))
        .unwrap()
}

#[test]
fn reply_cut_short_is_a_connection_error() {
    let reply = frame(
        &encode_response(&Response::Listing(vec![entry("/a", 1, Some(2), SyncStatus::Synced)]))
            .unwrap(),
    )
    .unwrap();
    for kept in 0..reply.len() {
        assert_eq!(waiting_writer().receive(&reply[..kept].to_vec()), Err(TransportError::Connection));
    }
    assert!(waiting_writer().receive(&reply).is_ok());
}

#[test]
fn reply_that_is_no_response_is_a_decode_error() {
    assert_eq!(waiting_writer().receive(&vec![1, 0, 0, 0, 9]), Err(TransportError::Decode));
    assert_eq!(waiting_writer().receive(&vec![0, 0, 0, 0, 9]), Err(TransportError::Decode));
    assert_eq!(waiting_writer().receive(&vec![0, 0, 0, 0]), Err(TransportError::Decode));
}

#[test]
fn handler_puts_the_command_on_the_bus() {
    let bus = CommandWriter::new(socket()).connected(true).unwrap();
    let bus = ListCommand {}.handler(bus).unwrap();
    assert_eq!(bus.current(), WriterState::AwaitResponse);
    assert_eq!(bus.frame(), vec![1, 0, 0, 0, 1]);
    let unconnected = CommandWriter::new(socket());
    assert_eq!(ListCommand {}.handler(unconnected).err(), Some(TransportError::OutOfTurn));
}

#[test]
fn listener_serves_one_exchange_per_connection() {
    let mut index = Indexer::new();
    index.apply(&ChangeEvent {
        path: b"/tmp/a".to_vec(),
        kind: ChangeKind::Created(Fingerprint { hash: 1, size: 2, modified: 3 }),
        observed_at: 0,
    });
    let mut listener = CommandListener::new(socket(), CommandHandler::new());
    assert_eq!(listener.socket_path(), socket());
    assert_eq!(listener.reply(), None);
    assert!(listener.listen());
    assert!(!listener.listen());
    assert!(listener.accepted(true));
    assert!(listener.decode(&vec![1, 0, 0, 0, 1]));
    assert_eq!(listener.reply(), None);
    assert!(listener.dispatch(&index));
    let reply = listener.reply().unwrap();
    assert_eq!(
        decode_response(&unframe(&reply).unwrap()),
        Ok(Response::Listing(index.snapshot()))
    );
    assert!(listener.responded());
    assert!(!listener.responded());
    assert!(listener.listen());
}

#[test]
fn listener_refuses_steps_out_of_turn() {
    let index = Indexer::new();
    let mut listener = CommandListener::new(socket(), CommandHandler::new());
    assert!(!listener.accepted(true));
    assert!(!listener.decode(&vec![1, 0, 0, 0, 1]));
    assert!(!listener.dispatch(&index));
    assert!(!listener.responded());
    assert!(listener.listen());
    assert!(!listener.decode(&vec![1, 0, 0, 0, 1]));
    assert!(listener.accepted(false));
    assert!(listener.listen());
}

#[test]
fn malformed_command_gets_a_decode_error_back() {
    for bytes in [vec![], vec![1, 0, 0, 0, 9], vec![2, 0, 0, 0, 1, 1], vec![5, 0, 0, 0, 1]] {
        let mut listener = CommandListener::new(socket(), CommandHandler::new());
        listener.listen();
        listener.accepted(true);
        assert!(listener.decode(&bytes));
        assert!(!listener.dispatch(&Indexer::new()));
        let reply = listener.reply().unwrap();
        assert_eq!(
            waiting_writer().receive(&reply),
            Ok(Response::Error { kind: Failure::Decode, message: b"malformed command".to_vec() })
        );
        assert!(listener.responded());
    }
}

#[test]
fn lost_connection_never_stops_the_listener() {
    let mut listener = CommandListener::new(socket(), CommandHandler::new());
    listener.listen();
    listener.accepted(true);
    listener.abort();
    assert!(listener.listen());
    listener.accepted(true);
    listener.decode(&vec![1, 0, 0, 0, 1]);
    listener.abort();
    assert_eq!(listener.reply(), None);
    assert!(listener.listen());
}

#[test]
fn stopped_listener_takes_no_new_connection() {
    let mut listener = CommandListener::new(socket(), CommandHandler::new());
    listener.listen();
    listener.accepted(true);
    listener.stop();
    // The exchange under way finishes.
    assert!(listener.decode(&vec![1, 0, 0, 0, 1]));
    assert!(listener.dispatch(&Indexer::new()));
    assert!(listener.responded());
    assert!(!listener.listen());
}

#[test]
fn socket_claim_at_startup() {
    assert_eq!(CommandListener::claim(false, false), SocketClaim::Bind);
    assert_eq!(CommandListener::claim(false, true), SocketClaim::Bind);
    assert_eq!(CommandListener::claim(true, false), SocketClaim::Replace);
    assert_eq!(CommandListener::claim(true, true), SocketClaim::Refuse);
}

#[test]
fn list_against_a_daemon_with_two_synced_entries() {
    // The daemon's side: two entries, both synced.
    let mut index = Indexer::new();
    for (at, hash, id) in [("/tmp/a.txt", 1u64, 10u64), ("/tmp/b.txt", 2, 11)] {
        let path = at.as_bytes().to_vec();
        index.apply(&ChangeEvent {
            path: path.clone(),
            kind: ChangeKind::Created(Fingerprint { hash, size: 2, modified: 3 }),
            observed_at: 0,
        });
        assert!(index.transition(&path, Transition::Start));
        assert!(index.transition(&path, Transition::Synced { remote_id: id }));
    }
    let mut listener = CommandListener::new(socket(), CommandHandler::new());

    // The client's side.
    let handler = polydrive::Cli {
        verbose: 0,
        daemon: false,
        files: vec![],
        config: None,
        command: Some(Command::List(ListCommand {})),
    }
    .command()
    .unwrap();
    let bus = handler.handler(CommandWriter::new(socket()).connected(true).unwrap()).unwrap();

    // One exchange.
    assert!(listener.listen());
    assert!(listener.accepted(true));
    assert!(listener.decode(&bus.frame()));
    assert!(listener.dispatch(&index));
    let reply = listener.reply().unwrap();
    assert!(listener.responded());

    assert_eq!(
        bus.receive(&reply),
        Ok(Response::Listing(vec![
            entry("/tmp/a.txt", 1, Some(10), SyncStatus::Synced),
            entry("/tmp/b.txt", 2, Some(11), SyncStatus::Synced),
        ]))
    );
}

#[test]
fn list_against_a_daemon_that_does_not_run() {
    let handler = polydrive::Cli {
        verbose: 0,
        daemon: false,
        files: vec![],
        config: None,
        command: Some(Command::List(ListCommand {})),
    }
    .command();
    assert!(handler.is_ok());
    // The socket does not exist or refuses: the exchange ends before it starts.
    assert_eq!(
        CommandWriter::new(socket()).connected(false).err(),
        Some(TransportError::Connection)
    );
}
