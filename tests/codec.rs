use chat_relay::message::{decode_message, encode_message, AuthAction, MessageError, MessageType};
use chat_relay::wire::{
    be32_decode, be32_encode, decode_frame, encode_frame, frame_length, BytesSendReceiveError,
    MAX_FRAME_LEN,
};

fn round_trip(m: MessageType) {
    let bytes = encode_message(&m).unwrap();
    assert_eq!(decode_message(&bytes).unwrap(), m);
}

#[test]
fn test_sending_and_receiving_bytes() {
    let test_string = "This is a test string.";
    let test_payload = test_string.as_bytes();
    let frame = encode_frame(test_payload).unwrap();
    let (received_payload, used) = decode_frame(&frame).unwrap();
    assert_eq!(received_payload, test_payload.to_vec());
    assert_eq!(used, frame.len());
}

#[test]
fn test_sending_and_receiving_messages() {
    let test_message = MessageType::Text("This is a test string.".to_string());
    let frame = encode_frame(&encode_message(&test_message).unwrap()).unwrap();
    let (payload, _) = decode_frame(&frame).unwrap();
    let received_message = decode_message(&payload).unwrap();
    assert_eq!(test_message, received_message);
}

#[test]
fn big_endian_length_prefix() {
    assert_eq!(be32_encode(0x0102_0304), [1, 2, 3, 4]);
    assert_eq!(be32_decode(&[1, 2, 3, 4]), 0x0102_0304);
    assert_eq!(be32_encode(u32::MAX), [255, 255, 255, 255]);
    assert_eq!(encode_frame(&[9, 8, 7]).unwrap(), vec![0, 0, 0, 3, 9, 8, 7]);
}

#[test]
fn empty_payload_frame_round_trip() {
    let frame = encode_frame(&[]).unwrap();
    assert_eq!(frame, vec![0, 0, 0, 0]);
    assert_eq!(decode_frame(&frame).unwrap(), (vec![], 4));
}

#[test]
fn truncated_frame_is_connection_closed() {
    let frame = encode_frame(b"hello").unwrap();
    for k in 0..frame.len() {
        assert_eq!(decode_frame(&frame[..k]), Err(BytesSendReceiveError::ConnectionClosed));
    }
}

#[test]
fn frame_leaves_following_bytes() {
    let mut bytes = encode_frame(b"ab").unwrap();
    bytes.extend_from_slice(&[0, 0, 0, 1, 7]);
    assert_eq!(decode_frame(&bytes).unwrap(), (b"ab".to_vec(), 6));
}

#[test]
fn oversized_frame_is_refused() {
    let over = (MAX_FRAME_LEN as u32 + 1).to_be_bytes();
    assert_eq!(frame_length(&over), Err(BytesSendReceiveError::FrameTooLarge));
    assert_eq!(decode_frame(&over), Err(BytesSendReceiveError::FrameTooLarge));
    let at = (MAX_FRAME_LEN as u32).to_be_bytes();
    assert_eq!(frame_length(&at), Ok(MAX_FRAME_LEN));
    let big = vec![0u8; MAX_FRAME_LEN + 1];
    assert_eq!(encode_frame(&big), Err(BytesSendReceiveError::FrameTooLarge));
}

#[test]
fn every_variant_round_trips() {
    round_trip(MessageType::Text(String::new()));
    round_trip(MessageType::Text("héllo, wörld ✓".to_string()));
    round_trip(MessageType::Image(vec![0x89, b'P', b'N', b'G']));
    round_trip(MessageType::Image(vec![]));
    round_trip(MessageType::File("notes.txt".to_string(), vec![1, 2, 3]));
    round_trip(MessageType::AuthRequest(
        AuthAction::Register,
        "alice".to_string(),
        "p@ss1".to_string(),
    ));
    round_trip(MessageType::AuthRequest(AuthAction::Login, "bob".to_string(), String::new()));
    round_trip(MessageType::AuthResponse(true, "Registration successful.".to_string()));
    round_trip(MessageType::AuthResponse(false, "no".to_string()));
}

#[test]
fn encoding_layout() {
    assert_eq!(
        encode_message(&MessageType::Text("hi".to_string())).unwrap(),
        vec![0, 0, 0, 0, 2, b'h', b'i']
    );
    assert_eq!(
        encode_message(&MessageType::File("a".to_string(), vec![5])).unwrap(),
        vec![2, 0, 0, 0, 1, b'a', 0, 0, 0, 1, 5]
    );
    assert_eq!(
        encode_message(&MessageType::AuthRequest(AuthAction::Login, "u".to_string(), "p".to_string()))
            .unwrap(),
        vec![3, 1, 0, 0, 0, 1, b'u', 0, 0, 0, 1, b'p']
    );
    assert_eq!(
        encode_message(&MessageType::AuthResponse(true, String::new())).unwrap(),
        vec![4, 1, 0, 0, 0, 0]
    );
}

#[test]
fn malformed_messages_are_refused() {
    assert_eq!(decode_message(&[]), Err(MessageError::Malformed));
    assert_eq!(decode_message(&[9, 0, 0, 0, 0]), Err(MessageError::Malformed));
    assert_eq!(decode_message(&[0, 0, 0, 0, 3, b'a']), Err(MessageError::Malformed));
    assert_eq!(decode_message(&[0, 0, 0, 0, 1, b'a', b'b']), Err(MessageError::Malformed));
    assert_eq!(decode_message(&[0, 0, 0, 0, 1, 0xff]), Err(MessageError::Malformed));
    assert_eq!(decode_message(&[3, 2, 0, 0, 0, 0, 0, 0, 0, 0]), Err(MessageError::Malformed));
    assert_eq!(decode_message(&[4, 7, 0, 0, 0, 0]), Err(MessageError::Malformed));
    assert_eq!(decode_message(&[2, 0, 0, 0, 0]), Err(MessageError::Malformed));
}

#[test]
fn oversized_message_is_refused() {
    let m = MessageType::Image(vec![0u8; MAX_FRAME_LEN]);
    assert_eq!(encode_message(&m), Err(MessageError::TooLarge));
}
