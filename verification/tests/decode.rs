use job_broker::command::{Command, Verb};
use job_broker::decode::{decode, DecodeResult, InvalidReason};

fn complete(command: Command, consumed: usize) -> DecodeResult {
    DecodeResult::Complete(command, consumed)
}

fn bad_format() -> DecodeResult {
    DecodeResult::Invalid(InvalidReason::BadFormat)
}

fn unknown() -> DecodeResult {
    DecodeResult::Invalid(InvalidReason::UnknownCommand)
}

#[test]
fn decodes_put() {
    assert_eq!(decode(b"put hello\r\n"), complete(Command::Put { data: b"hello".to_vec() }, 11));
    assert_eq!(decode(b"put ab12\r\n"), complete(Command::Put { data: b"ab12".to_vec() }, 10));
    assert_eq!(decode(b"put 7\r\n"), complete(Command::Put { data: b"7".to_vec() }, 7));
}

#[test]
fn decodes_reserve() {
    assert_eq!(decode(b"reserve\r\n"), complete(Command::Reserve, 9));
}

#[test]
fn decodes_delete_and_release() {
    assert_eq!(decode(b"delete 1\r\n"), complete(Command::Delete { id: 1 }, 10));
    assert_eq!(decode(b"delete 999\r\n"), complete(Command::Delete { id: 999 }, 12));
    assert_eq!(decode(b"release 42\r\n"), complete(Command::Release { id: 42 }, 12));
    assert_eq!(decode(b"delete 007\r\n"), complete(Command::Delete { id: 7 }, 12));
    assert_eq!(
        decode(b"release 18446744073709551615\r\n"),
        complete(Command::Release { id: u64::MAX }, 30)
    );
}

#[test]
fn decodes_tube_commands() {
    assert_eq!(decode(b"watch jobs\r\n"), complete(Command::Watch { tube: b"jobs".to_vec() }, 12));
    assert_eq!(decode(b"use mail\r\n"), complete(Command::UseTube { tube: b"mail".to_vec() }, 10));
    assert_eq!(
        decode(b"stats-tube default\r\n"),
        complete(Command::StatsTube { tube: b"default".to_vec() }, 20)
    );
    assert_eq!(decode(b"list-tubes\r\n"), complete(Command::ListTubes, 12));
}

#[test]
fn decodes_peek_commands() {
    assert_eq!(decode(b"peek-ready\r\n"), complete(Command::PeekReady, 12));
    assert_eq!(decode(b"peek-delayed\r\n"), complete(Command::PeekDelayed, 14));
    assert_eq!(decode(b"peek-buried\r\n"), complete(Command::PeekBuried, 13));
}

#[test]
fn partial_put_is_incomplete_until_the_line_ends() {
    assert_eq!(decode(b"put hel"), DecodeResult::Incomplete);
    assert_eq!(decode(b"put hello\r\n"), complete(Command::Put { data: b"hello".to_vec() }, 11));
}

#[test]
fn every_proper_prefix_of_a_command_is_incomplete() {
    let lines: [&[u8]; 6] = [
        b"put hello\r\n",
        b"reserve\r\n",
        b"delete 12345\r\n",
        b"release 18446744073709551615\r\n",
        b"peek-delayed\r\n",
        b"stats-tube default\r\n",
    ];
    for line in lines {
        for cut in 0..line.len() {
            assert_eq!(decode(&line[..cut]), DecodeResult::Incomplete);
        }
        assert!(matches!(decode(line), DecodeResult::Complete(_, n) if n == line.len()));
    }
}

#[test]
fn empty_window_is_incomplete() {
    assert_eq!(decode(b""), DecodeResult::Incomplete);
}

#[test]
fn only_the_first_command_is_decoded() {
    assert_eq!(decode(b"reserve\r\ndelete 1\r\n"), complete(Command::Reserve, 9));
    assert_eq!(
        decode(b"put a\r\nput bb\r\n"),
        complete(Command::Put { data: b"a".to_vec() }, 7)
    );
    assert_eq!(decode(b"delete 3\r\n\xff\xff"), complete(Command::Delete { id: 3 }, 10));
}

#[test]
fn unknown_words_are_refused() {
    assert_eq!(decode(b"get 1\r\n"), unknown());
    assert_eq!(decode(b"x"), unknown());
    assert_eq!(decode(b"\r\n"), unknown());
    assert_eq!(decode(b" put a\r\n"), unknown());
    assert_eq!(decode(b"PUT a\r\n"), unknown());
    assert_eq!(decode(b"pux"), unknown());
    assert_eq!(decode(b"putx a\r\n"), unknown());
    assert_eq!(decode(b"reserved\r\n"), unknown());
    assert_eq!(decode(b"peek-ready-now\r\n"), unknown());
    assert_eq!(decode(b"put\n"), unknown());
    assert_eq!(decode(b"\x00"), unknown());
}

#[test]
fn missing_argument_is_bad_format() {
    assert_eq!(decode(b"put\r\n"), bad_format());
    assert_eq!(decode(b"put\r"), bad_format());
    assert_eq!(decode(b"delete\r\n"), bad_format());
    assert_eq!(decode(b"put \r\n"), bad_format());
    assert_eq!(decode(b"use \r"), bad_format());
}

#[test]
fn unexpected_argument_is_bad_format() {
    assert_eq!(decode(b"reserve now\r\n"), bad_format());
    assert_eq!(decode(b"reserve "), bad_format());
    assert_eq!(decode(b"list-tubes all\r\n"), bad_format());
}

#[test]
fn argument_with_other_bytes_is_bad_format() {
    assert_eq!(decode(b"put hello world\r\n"), bad_format());
    assert_eq!(decode(b"put he-llo\r\n"), bad_format());
    assert_eq!(decode(b"put he\nllo\r\n"), bad_format());
    assert_eq!(decode(b"put  a\r\n"), bad_format());
    assert_eq!(decode(b"put a\xc3\xa9\r\n"), bad_format());
    assert_eq!(decode(b"put hello "), bad_format());
}

#[test]
fn line_must_end_in_cr_lf() {
    assert_eq!(decode(b"put hello\n"), bad_format());
    assert_eq!(decode(b"put hello\rx"), bad_format());
    assert_eq!(decode(b"reserve\rx"), bad_format());
    assert_eq!(decode(b"reserve\r\r\n"), bad_format());
    assert_eq!(decode(b"put hello\r"), DecodeResult::Incomplete);
    assert_eq!(decode(b"reserve\r"), DecodeResult::Incomplete);
}

#[test]
fn job_id_must_be_a_number() {
    assert_eq!(decode(b"delete abc\r\n"), bad_format());
    assert_eq!(decode(b"delete 12a\r\n"), bad_format());
    assert_eq!(decode(b"release x1\r\n"), bad_format());
    assert_eq!(decode(b"delete -1\r\n"), bad_format());
}

#[test]
fn job_id_is_refused_as_soon_as_it_cannot_be_one() {
    assert_eq!(decode(b"delete 12a"), bad_format());
    assert_eq!(decode(b"delete 12"), DecodeResult::Incomplete);
    assert_eq!(decode(b"delete "), DecodeResult::Incomplete);
    assert_eq!(decode(b"release 18446744073709551616"), bad_format());
    assert_eq!(decode(b"release 18446744073709551615"), DecodeResult::Incomplete);
}

#[test]
fn job_id_must_fit_in_64_bits() {
    assert_eq!(decode(b"delete 18446744073709551616\r\n"), bad_format());
    assert_eq!(decode(b"delete 99999999999999999999999\r\n"), bad_format());
}

#[test]
fn payload_may_be_long() {
    let mut line = b"put ".to_vec();
    let payload = vec![b'z'; 5000];
    line.extend_from_slice(&payload);
    assert_eq!(decode(&line), DecodeResult::Incomplete);
    line.extend_from_slice(b"\r\n");
    assert_eq!(decode(&line), complete(Command::Put { data: payload }, 5006));
}

#[test]
fn keywords_are_the_words_of_the_protocol() {
    let expected = [
        "put",
        "reserve",
        "delete",
        "release",
        "watch",
        "use",
        "list-tubes",
        "stats-tube",
        "peek-ready",
        "peek-delayed",
        "peek-buried",
    ];
    for (i, word) in expected.iter().enumerate() {
        assert_eq!(Verb::nth(i).keyword_str(), *word);
    }
    assert!(Verb::Put.expects_argument());
    assert!(Verb::Delete.expects_argument() && Verb::Delete.expects_id());
    assert!(Verb::Release.expects_argument() && Verb::Release.expects_id());
    assert!(Verb::Watch.expects_argument() && !Verb::Watch.expects_id());
    assert!(Verb::Use.expects_argument());
    assert!(Verb::StatsTube.expects_argument());
    assert!(!Verb::Reserve.expects_argument());
    assert!(!Verb::ListTubes.expects_argument());
    assert!(!Verb::PeekReady.expects_argument());
    assert!(!Verb::PeekDelayed.expects_argument());
    assert!(!Verb::PeekBuried.expects_argument());
}
