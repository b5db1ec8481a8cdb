use waybar_module_pomodoro::message::Message;

#[test]
fn test_new() {
    let message = Message::new("example", 42);
    assert_eq!(message.name, "example");
    assert_eq!(message.value, 42);
}

#[test]
fn test_name() {
    let message = Message::new("example", 42);
    assert_eq!(message.name(), "example");
}

#[test]
fn test_value() {
    let message = Message::new("example", 42);
    assert_eq!(message.value(), 42);
}

#[test]
fn test_encode() {
    let message = Message::new("example", 42);
    assert_eq!(message.encode(), "[example;42]");
}

#[test]
fn test_decode_success() {
    let input = "[example;42]";
    let result = Message::decode(input);
    assert!(result.is_ok());
    let message = result.unwrap();
    assert_eq!(message.name, "example");
    assert_eq!(message.value, 42);
}

#[test]
fn test_decode_failure_missing_name() {
    let input = "[;7]";
    let result = Message::decode(input);
    assert!(result.is_err());
    if let Err(e) = result {
        assert_eq!(
            e.message(),
            "message name is missing. msg == (\"[;7]\", [\"\", \"7\"])"
        );
    }
}

#[test]
fn test_decode_failure_no_input() {
    let input = "";
    let result = Message::decode(input);
    assert!(result.is_err());
    if let Err(e) = result {
        assert_eq!(e.message(), "unable to decode message: ");
    }
}

#[test]
fn test_decode_failure_no_value() {
    let input = "[example;]";
    let result = Message::decode(input);
    assert!(result.is_err());
    if let Err(e) = result {
        assert_eq!(e.message(), "cannot parse integer from empty string");
    }
}

#[test]
fn test_decode_failure_not_a_number() {
    let input = "[example;not_a_number]";
    let result = Message::decode(input);
    assert!(result.is_err());
    if let Err(e) = result {
        assert_eq!(e.message(), "invalid digit found in string");
    }
}

#[test]
fn test_decode_missing_parts() {
    let input = "[example]";
    let result = Message::decode(input);
    assert!(result.is_err());
    if let Err(e) = result {
        assert_eq!(e.message(), "unable to decode message: [example]");
    }
}

#[test]
fn test_decode_empty_input() {
    let input = "";
    let result = Message::decode(input);
    assert!(result.is_err());
    if let Err(e) = result {
        assert_eq!(e.message(), "unable to decode message: ");
    }
}

#[test]
fn test_decode_negative_value() {
    let result = Message::decode("[example;-5]").unwrap();
    assert_eq!(result.name(), "example");
    assert_eq!(result.value(), -5);
}

#[test]
fn test_decode_value_too_large() {
    let result = Message::decode("[example;99999999999]");
    assert!(result.is_err());
    if let Err(e) = result {
        assert_eq!(e.message(), "number too large to fit in target type");
    }
}

#[test]
fn test_decode_value_too_small() {
    let result = Message::decode("[example;-99999999999]");
    assert!(result.is_err());
    if let Err(e) = result {
        assert_eq!(e.message(), "number too small to fit in target type");
    }
}

#[test]
fn test_decode_picks_leftmost_group() {
    let result = Message::decode("x[a;1]y[b;2]").unwrap();
    assert_eq!(result.name(), "a");
    assert_eq!(result.value(), 1);
}

#[test]
fn test_decode_earliest_separator_wins() {
    // the value part runs from the first separator to the first closing
    // bracket, so an inner separator makes the value unreadable
    let result = Message::decode("[a;b;2]");
    assert!(result.is_err());
    if let Err(e) = result {
        assert_eq!(e.message(), "invalid digit found in string");
    }
}

#[test]
fn test_decode_newline_blocks_group() {
    let result = Message::decode("[exa\nmple;42]");
    assert!(result.is_err());
    if let Err(e) = result {
        assert_eq!(e.message(), "unable to decode message: [exa\nmple;42]");
    }
}

#[test]
fn test_encode_decode_round_trip() {
    for value in [0, 1, -1, 42, -42, i32::MAX, i32::MIN] {
        let sent = Message::new("example", value);
        let decoded = Message::decode(&sent.encode()).unwrap();
        assert_eq!(decoded, sent);
    }
}
