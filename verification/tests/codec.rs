use chess_logic::codec::{decode_binary, decode_message, encode_message};

#[test]
fn decode_binary_reads_one_chunk() {
    assert_eq!(decode_binary("01000001").unwrap(), vec![65]);
}

#[test]
fn decode_binary_reads_separated_chunks() {
    assert_eq!(decode_binary("01000001 01000010").unwrap(), vec![65, 66]);
    assert_eq!(decode_binary("11111111 00000000 00000001").unwrap(), vec![255, 0, 1]);
}

#[test]
fn decode_binary_rejects_a_stray_character() {
    assert!(decode_binary("0100000x").is_err());
    assert!(decode_binary("01000001 01000002").is_err());
}

#[test]
fn decode_binary_of_nothing_is_empty() {
    assert_eq!(decode_binary("").unwrap(), Vec::<u8>::new());
}

#[test]
fn decode_message_takes_the_first_line() {
    assert_eq!(decode_message(&b"hello\nworld".to_vec()), "hello");
    assert_eq!(decode_message(&b"hello\r\nworld".to_vec()), "hello");
    assert_eq!(decode_message(&b"plain".to_vec()), "plain");
    assert_eq!(decode_message(&b"\nrest".to_vec()), "");
}

#[test]
fn encode_message_frames_to_1024_bytes() {
    let frame = encode_message("abc".to_string());
    assert_eq!(frame.len(), 1024);
    assert_eq!(&frame[0..3], b"abc");
    assert!(frame[3..].iter().all(|&b| b == 0));
}

#[test]
fn encode_message_cuts_long_messages() {
    let long = "x".repeat(2000);
    let frame = encode_message(long);
    assert_eq!(frame.len(), 1024);
    assert!(frame.iter().all(|&b| b == b'x'));
}

#[test]
fn decode_message_inverts_encode_message_up_to_padding() {
    let frame = encode_message("rnbqkbnr/pppppppp w".to_string());
    let line = decode_message(&frame);
    assert!(line.starts_with("rnbqkbnr/pppppppp w"));
    assert_eq!(line.trim_end_matches('\0'), "rnbqkbnr/pppppppp w");
}
