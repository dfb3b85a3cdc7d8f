use job_broker::command::Command;
use job_broker::session::{
    execute, Session, Step, DEFAULT_DELAY, DEFAULT_PRIORITY, DEFAULT_TTR,
};
use job_broker::store::{JobState, JobStore};

const STATS: &str = "name: default
current-jobs-urgent: 0
current-jobs-ready: 0
current-jobs-reserved: 0
current-jobs-delayed: 0
current-jobs-buried: 0
total-jobs: 0
current-using: 0
current-waiting: 0
current-watching: 0
pause: 0
cmd-delete: 0
cmd-pause-tube: 0
pause-time-left: 0
";

fn feed(session: &mut Session, bytes: &[u8]) -> bool {
    let mut sent = 0;
    loop {
        assert!(session.can_read());
        let target = session.read_target();
        assert!(!target.is_empty());
        let n = target.len().min(bytes.len() - sent);
        target[..n].copy_from_slice(&bytes[sent..sent + n]);
        let open = session.received(n);
        sent += n;
        if sent == bytes.len() {
            return open;
        }
    }
}

/// Sends `request` to a fresh connection state and returns what comes back.
fn exchange(session: &mut Session, store: &mut JobStore, request: &[u8]) -> Vec<u8> {
    assert!(feed(session, request));
    match session.next_step() {
        Step::Execute(command) => execute(store, command),
        other => panic!("expected a command, got {:?}", other),
    }
}

#[test]
fn end_to_end_put_reserve_delete() {
    let mut store = JobStore::new();
    let mut session = Session::new();
    assert_eq!(exchange(&mut session, &mut store, b"put ab12\r\n"), b"INSERTED 1\r\n".to_vec());
    assert_eq!(
        exchange(&mut session, &mut store, b"reserve\r\n"),
        b"RESERVED 1 4\r\nab12\r\n".to_vec()
    );
    assert_eq!(exchange(&mut session, &mut store, b"delete 1\r\n"), b"DELETED\r\n".to_vec());
    assert_eq!(exchange(&mut session, &mut store, b"delete 1\r\n"), b"NOT FOUND\r\n".to_vec());
}

#[test]
fn put_in_two_reads_is_decoded_once() {
    let mut session = Session::new();
    assert_eq!(session.next_step(), Step::Read);
    assert!(feed(&mut session, b"put hel"));
    assert_eq!(session.next_step(), Step::Read);
    assert!(feed(&mut session, b"lo\r\n"));
    assert_eq!(session.next_step(), Step::Execute(Command::Put { data: b"hello".to_vec() }));
    assert_eq!(session.next_step(), Step::Read);
}

#[test]
fn byte_by_byte_input_is_decoded_once() {
    let mut session = Session::new();
    let line = b"release 77\r\n";
    for (i, byte) in line.iter().enumerate() {
        assert_eq!(session.next_step(), Step::Read);
        assert!(feed(&mut session, &[*byte]));
        if i + 1 < line.len() {
            assert_eq!(session.next_step(), Step::Read);
        }
    }
    assert_eq!(session.next_step(), Step::Execute(Command::Release { id: 77 }));
    assert_eq!(session.next_step(), Step::Read);
}

#[test]
fn two_commands_in_one_read_are_decoded_in_turn() {
    let mut session = Session::new();
    assert!(feed(&mut session, b"put a\r\nreserve\r\ndel"));
    assert_eq!(session.next_step(), Step::Execute(Command::Put { data: b"a".to_vec() }));
    assert_eq!(session.next_step(), Step::Execute(Command::Reserve));
    assert_eq!(session.next_step(), Step::Read);
    assert!(feed(&mut session, b"ete 5\r\n"));
    assert_eq!(session.next_step(), Step::Execute(Command::Delete { id: 5 }));
}

#[test]
fn zero_byte_read_ends_the_session() {
    let mut session = Session::new();
    let target_len = session.read_target().len();
    assert!(target_len >= 16);
    assert!(!session.received(0));
}

#[test]
fn malformed_command_is_rejected() {
    let mut session = Session::new();
    assert!(feed(&mut session, b"delete abc\r\n"));
    assert_eq!(session.next_step(), Step::Reject(b"BAD_FORMAT\r\n".to_vec()));
}

#[test]
fn unknown_command_closes_the_session() {
    let mut session = Session::new();
    assert!(feed(&mut session, b"frobnicate\r\n"));
    assert_eq!(session.next_step(), Step::Close);
}

#[test]
fn long_payload_grows_the_buffer() {
    let mut session = Session::new();
    let payload = vec![b'q'; 3000];
    let mut line = b"put ".to_vec();
    line.extend_from_slice(&payload);
    line.extend_from_slice(b"\r\n");
    for chunk in line.chunks(7) {
        assert!(feed(&mut session, chunk));
    }
    assert_eq!(session.next_step(), Step::Execute(Command::Put { data: payload }));
}

#[test]
fn session_buffer_stays_small_under_steady_traffic() {
    let mut session = Session::new();
    for _ in 0..500 {
        assert!(feed(&mut session, b"reserve\r\n"));
        assert_eq!(session.next_step(), Step::Execute(Command::Reserve));
        assert_eq!(session.read_target().len(), 16);
    }
}

#[test]
fn put_uses_the_default_parameters() {
    assert_eq!((DEFAULT_PRIORITY, DEFAULT_DELAY, DEFAULT_TTR), (1, 1, 1));
    let mut store = JobStore::new();
    let urgent = store.submit(0, 0, 0, b"urgent".to_vec());
    let late = store.submit(2, 0, 0, b"late".to_vec());
    assert_eq!(
        execute(&mut store, Command::Put { data: b"plain".to_vec() }),
        b"INSERTED 3\r\n".to_vec()
    );
    assert_eq!(store.state_of(3), Some(JobState::Ready));
    assert_eq!(store.reserve().unwrap().0, urgent);
    assert_eq!(store.reserve().unwrap().0, 3);
    assert_eq!(store.reserve().unwrap().0, late);
}

#[test]
fn reserve_reports_id_and_payload_length() {
    let mut store = JobStore::new();
    for _ in 0..11 {
        store.submit(5, 0, 0, Vec::new());
    }
    let payload = vec![b'x'; 123];
    store.submit(1, 0, 0, payload.clone());
    let mut expected = b"RESERVED 12 123\r\n".to_vec();
    expected.extend_from_slice(&payload);
    expected.extend_from_slice(b"\r\n");
    assert_eq!(execute(&mut store, Command::Reserve), expected);
    assert_eq!(execute(&mut store, Command::Reserve), b"RESERVED 1 0\r\n\r\n".to_vec());
}

#[test]
fn reserve_without_a_ready_job_says_so() {
    let mut store = JobStore::new();
    assert_eq!(execute(&mut store, Command::Reserve), b"TIMED_OUT\r\n".to_vec());
    assert_eq!(store.last_id(), 0);
}

#[test]
fn release_answers() {
    let mut store = JobStore::new();
    let id = store.submit(1, 0, 0, b"x".to_vec());
    assert_eq!(execute(&mut store, Command::Release { id }), b"NOT FOUND\r\n".to_vec());
    store.reserve();
    assert_eq!(execute(&mut store, Command::Release { id }), b"RELEASED\r\n".to_vec());
    assert_eq!(store.state_of(id), Some(JobState::Ready));
    assert_eq!(execute(&mut store, Command::Release { id: 9 }), b"NOT FOUND\r\n".to_vec());
}

#[test]
fn delete_answers() {
    let mut store = JobStore::new();
    let id = store.submit(1, 0, 0, b"x".to_vec());
    assert_eq!(execute(&mut store, Command::Delete { id: 999 }), b"NOT FOUND\r\n".to_vec());
    assert_eq!(execute(&mut store, Command::Delete { id }), b"DELETED\r\n".to_vec());
    assert!(!store.contains(id));
}

#[test]
fn tube_commands_have_fixed_answers() {
    let mut store = JobStore::new();
    store.submit(1, 0, 0, b"x".to_vec());
    assert_eq!(
        execute(&mut store, Command::Watch { tube: b"jobs".to_vec() }),
        b"WATCHING 1\r\n".to_vec()
    );
    assert_eq!(
        execute(&mut store, Command::UseTube { tube: b"jobs".to_vec() }),
        b"USING jobs\r\n".to_vec()
    );
    assert_eq!(execute(&mut store, Command::ListTubes), b"OK 7\r\ndefault\r\n".to_vec());
    assert_eq!(
        execute(&mut store, Command::StatsTube { tube: b"jobs".to_vec() }),
        format!("OK {}\r\n{}\r\n", STATS.len(), STATS).into_bytes()
    );
    assert_eq!(STATS.len(), 261);
    assert_eq!(execute(&mut store, Command::PeekReady), b"NOT_FOUND\r\n".to_vec());
    assert_eq!(execute(&mut store, Command::PeekDelayed), b"NOT_FOUND\r\n".to_vec());
    assert_eq!(execute(&mut store, Command::PeekBuried), b"NOT_FOUND\r\n".to_vec());
    assert_eq!(store.state_of(1), Some(JobState::Ready));
    assert_eq!(store.last_id(), 1);
}

#[test]
fn inserted_id_can_be_sent_back() {
    let mut store = JobStore::new();
    let mut session = Session::new();
    for _ in 0..12 {
        store.submit(1, 0, 0, Vec::new());
    }
    let answer = exchange(&mut session, &mut store, b"put x\r\n");
    assert_eq!(answer, b"INSERTED 13\r\n".to_vec());
    let mut request = b"delete ".to_vec();
    request.extend_from_slice(&answer[9..]);
    assert_eq!(exchange(&mut session, &mut store, &request), b"DELETED\r\n".to_vec());
    assert!(!store.contains(13));
}

#[test]
fn cursors_return_to_zero_after_a_whole_command() {
    let mut session = Session::new();
    assert!(feed(&mut session, b"reserve\r\n"));
    assert_eq!(session.buffer().consumed(), 0);
    assert_eq!(session.buffer().filled(), 9);
    assert_eq!(session.next_step(), Step::Execute(Command::Reserve));
    assert_eq!(session.buffer().consumed(), 0);
    assert_eq!(session.buffer().filled(), 0);
    assert!(session.buffer().readable_window().is_empty());
}

#[test]
fn cursors_stay_while_input_is_left() {
    let mut session = Session::new();
    assert!(feed(&mut session, b"reserve\r\nput"));
    assert_eq!(session.next_step(), Step::Execute(Command::Reserve));
    assert_eq!(session.buffer().consumed(), 9);
    assert_eq!(session.buffer().filled(), 12);
    assert_eq!(session.buffer().readable_window(), b"put");
    assert_eq!(session.next_step(), Step::Read);
    assert!(feed(&mut session, b" x\r\n"));
    assert_eq!(session.next_step(), Step::Execute(Command::Put { data: b"x".to_vec() }));
    assert_eq!(session.buffer().consumed(), 0);
    assert_eq!(session.buffer().filled(), 0);
}

#[test]
fn refused_input_stays_in_the_buffer() {
    let mut session = Session::new();
    assert!(feed(&mut session, b"bogus\r\n"));
    assert_eq!(session.next_step(), Step::Close);
    assert_eq!(session.buffer().readable_window(), b"bogus\r\n");
    assert_eq!(session.next_step(), Step::Close);
}

/// Feeds `stream` in two reads cut at `cut` and returns the steps up to the
/// first that is no command.
fn steps_of(stream: &[u8], cut: usize) -> (Vec<Command>, Step) {
    let mut session = Session::new();
    let mut commands = Vec::new();
    let mut parts = vec![&stream[..cut], &stream[cut..]];
    parts.retain(|part| !part.is_empty());
    let mut parts = parts.into_iter();
    loop {
        match session.next_step() {
            Step::Execute(command) => commands.push(command),
            Step::Read => match parts.next() {
                Some(part) => assert!(feed(&mut session, part)),
                None => return (commands, Step::Read),
            },
            last => return (commands, last),
        }
    }
}

#[test]
fn where_the_reads_cut_the_stream_does_not_matter() {
    let stream = b"put a1\r\nreserve\r\ndelete 1\r\nrelease 22\r\nlist-tubes\r\nput tail";
    let expected = vec![
        Command::Put { data: b"a1".to_vec() },
        Command::Reserve,
        Command::Delete { id: 1 },
        Command::Release { id: 22 },
        Command::ListTubes,
    ];
    for cut in 0..=stream.len() {
        let (commands, last) = steps_of(stream, cut);
        assert_eq!(commands, expected);
        assert_eq!(last, Step::Read);
    }
}

#[test]
fn a_refusal_stops_the_stream_wherever_it_is_cut() {
    let stream = b"reserve\r\nput a b\r\nreserve\r\n";
    for cut in 0..=stream.len() {
        let (commands, last) = steps_of(stream, cut);
        assert_eq!(commands, vec![Command::Reserve]);
        assert_eq!(last, Step::Reject(b"BAD_FORMAT\r\n".to_vec()));
    }
}
