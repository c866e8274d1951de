use stream_relay::sesp::{Command, Response};
use stream_relay::types::Message;

#[test]
fn create_topic_command_from_bytes_test() {
    let data = b"#foo\n".to_vec();
    let cmd = Command::from(data);

    if let Command::CreateTopic(topic_name) = cmd {
        assert_eq!(topic_name, b"foo".to_vec());
    } else {
        panic!("command should have been parsed as Command::CreateTopic");
    }
}

#[test]
fn delete_topic_command_from_bytes_test() {
    let data = b"!foo\n".to_vec();
    let cmd = Command::from(data);

    if let Command::DeleteTopic(topic_name) = cmd {
        assert_eq!(topic_name, b"foo".to_vec());
    } else {
        panic!("command should have been parsed as Command::DeleteTopic");
    }
}

#[test]
fn select_topic_command_from_bytes_test() {
    let data = b"@foo\n".to_vec();
    let cmd = Command::from(data);

    if let Command::SelectTopic(topic_name) = cmd {
        assert_eq!(topic_name, b"foo".to_vec());
    } else {
        panic!("command should have been parsed as Command::SelectTopic");
    }
}

#[test]
fn set_read_offset_topic_command_from_bytes_test() {
    let data = b"$1001\n".to_vec();
    let cmd = Command::from(data);

    if let Command::SetReadOffset(offset) = cmd {
        assert_eq!(offset, 1001);
    } else {
        panic!("command should have been parsed as Command::SetReadOffset");
    }
}

#[test]
fn read_message_command_from_bytes_test() {
    let data = b"<\n".to_vec();
    let cmd = Command::from(data);

    if let Command::ReadMessage = cmd {
        // pass
    } else {
        panic!("command should have been parsed as Command::ReadMessage");
    }
}

#[test]
fn publish_message_command_from_bytes_test() {
    let data = b">hello world\n".to_vec();
    let cmd = Command::from(data);

    if let Command::PublishMessage(msg) = cmd {
        assert_eq!(msg, Message::from(b"hello world\n".to_vec()));
    } else {
        panic!("command should have been parsed as Command::PublishMessage");
    }
}

#[test]
fn invalid_command_test_01() {
    let data = b"inavlid_bytes".to_vec();

    let cmd = Command::from(data);

    if let Command::InvalidCommand = cmd {
        // pass
    } else {
        panic!("command should have been parsed as Command::InvalidCommand");
    }
}

#[test]
fn invalid_command_test_02() {
    let data = b"#inavlid_bytes".to_vec();

    let cmd = Command::from(data);

    if let Command::InvalidCommand = cmd {
        // pass
    } else {
        panic!("command should have been parsed as Command::InvalidCommand");
    }
}

#[test]
fn invalid_command_test_03() {
    let data = b"inavlid_bytes\n".to_vec();

    let cmd = Command::from(data);

    if let Command::InvalidCommand = cmd {
        // pass
    } else {
        panic!("command should have been parsed as Command::InvalidCommand");
    }
}

#[test]
fn invalid_command_test_04() {
    let data = b"$inavlid_offset\n".to_vec();

    let cmd = Command::from(data);

    if let Command::InvalidCommand = cmd {
        // pass
    } else {
        panic!("command should have been parsed as Command::InvalidCommand");
    }
}

#[test]
fn invalid_command_test_05() {
    let data = b"$123O5\n".to_vec(); // it's an O not zero

    let cmd = Command::from(data);

    if let Command::InvalidCommand = cmd {
        // pass
    } else {
        panic!("command should have been parsed as Command::InvalidCommand");
    }
}

#[test]
fn invalid_command_test_06() {
    let data = b"<inavlid_read_command\n".to_vec();

    let cmd = Command::from(data);

    if let Command::InvalidCommand = cmd {
        // pass
    } else {
        panic!("command should have been parsed as Command::InvalidCommand");
    }
}

#[test]
fn test_positive_response() {
    let res = Response::Positive("hello".to_owned());
    assert_eq!(res.as_vec_of_u8(), b"+hello\n".to_vec());
}

#[test]
fn test_negative_response() {
    let res = Response::Negative("hello".to_owned());
    assert_eq!(res.as_vec_of_u8(), b"-hello\n".to_vec());
}

#[test]
fn set_read_offset_overflow_is_invalid() {
    // usize::MAX on a 64-bit target parses; one more does not.
    let max = usize::MAX.to_string();
    let mut line = b"$".to_vec();
    line.extend_from_slice(max.as_bytes());
    line.push(b'\n');
    match Command::from(line) {
        Command::SetReadOffset(offset) => assert_eq!(offset, usize::MAX),
        other => panic!("expected SetReadOffset, got {:?}", other),
    }

    let cmd = Command::from(b"$18446744073709551616\n".to_vec());
    assert!(matches!(cmd, Command::InvalidCommand));
}

#[test]
fn set_read_offset_requires_digits_only() {
    // A sign character is not an ASCII decimal non-negative integer.
    let cmd = Command::from(b"$+123\n".to_vec());
    assert!(matches!(cmd, Command::InvalidCommand));
    let cmd = Command::from(b"$\n".to_vec());
    assert!(matches!(cmd, Command::InvalidCommand));
}

#[test]
fn empty_publish_keeps_only_newline() {
    let cmd = Command::from(b">\n".to_vec());
    if let Command::PublishMessage(msg) = cmd {
        assert_eq!(msg.value(), &b"\n".to_vec());
    } else {
        panic!("command should have been parsed as Command::PublishMessage");
    }
}

#[test]
fn response_with_trailing_newline_is_not_doubled() {
    let res = Response::Positive("hello\n".to_owned());
    assert_eq!(res.as_vec_of_u8(), b"+hello\n".to_vec());
    let res = Response::Positive(String::new());
    assert_eq!(res.as_vec_of_u8(), b"+\n".to_vec());
}
