use alley::digest::{sha1_of, to_lower_hex};
use alley::transfer::{
    decode_text, frame_chunk, message_kind, outgoing, text_payload, FileReceiver, FileSender,
    Message, MessageKind, Outgoing, CHUNK_SIZE, DIGEST_HEX_LEN,
};

const ABC_SHA1_HEX: &str = "a9993e364706816aba3e25717850c26c9cd0d89d";
const EMPTY_SHA1_HEX: &str = "da39a3ee5e6b4b0d3255bfef95601890afd80709";

#[test]
fn lower_hex_of_bytes() {
    assert_eq!(to_lower_hex(&[0x0a, 0x14, 0x1e]), b"0a141e".to_vec());
    assert_eq!(to_lower_hex(&[0x00, 0xff, 0x9c]), b"00ff9c".to_vec());
    assert_eq!(to_lower_hex(&[]), Vec::<u8>::new());
}

#[test]
fn sha1_of_known_inputs() {
    assert_eq!(to_lower_hex(&sha1_of(b"abc")), ABC_SHA1_HEX.as_bytes().to_vec());
    assert_eq!(to_lower_hex(&sha1_of(b"")), EMPTY_SHA1_HEX.as_bytes().to_vec());
    assert_eq!(sha1_of(b"abc").len(), 20);
}

#[test]
fn frame_is_hex_digest_then_chunk() {
    let frame = frame_chunk(b"abc");
    let mut expected = ABC_SHA1_HEX.as_bytes().to_vec();
    expected.extend_from_slice(b"abc");
    assert_eq!(frame, expected);
    assert_eq!(frame.len(), DIGEST_HEX_LEN + 3);
}

#[test]
fn sender_trailer_is_digest_of_whole_file() {
    let mut sender = FileSender::new(6);
    assert_eq!(sender.record_chunk(b"ab"), 333);
    assert_eq!(sender.record_chunk(b"c"), 166);
    assert_eq!(sender.sent(), 3);
    assert_eq!(sender.finish(), ABC_SHA1_HEX.as_bytes().to_vec());
}

#[test]
fn sender_of_empty_file() {
    let sender = FileSender::new(10);
    assert_eq!(sender.sent(), 0);
    assert_eq!(sender.finish(), EMPTY_SHA1_HEX.as_bytes().to_vec());
}

#[test]
fn per_mille_uses_the_chunk_length() {
    let mut sender = FileSender::new(2 * CHUNK_SIZE as u64);
    let chunk = vec![7u8; CHUNK_SIZE];
    assert_eq!(sender.record_chunk(&chunk), 500);
    // The figure is that of the chunk alone, not of all that was sent.
    assert_eq!(sender.record_chunk(&chunk), 500);
    assert_eq!(sender.sent(), 2 * CHUNK_SIZE);
}

#[test]
fn receiver_rejects_hex_field_of_a_frame() {
    let frame = frame_chunk(b"abc");
    let (field, chunk) = frame.split_at(DIGEST_HEX_LEN);
    assert!(!FileReceiver::chunk_matches(field, chunk));
}

#[test]
fn receiver_accepts_raw_digest_field() {
    let digest = sha1_of(b"abc");
    assert!(FileReceiver::chunk_matches(&digest, b"abc"));
    assert!(!FileReceiver::chunk_matches(&digest, b"abd"));
}

#[test]
fn receiver_progress_and_last_chunk() {
    let mut receiver = FileReceiver::new(4 * CHUNK_SIZE as u64);
    let full = vec![1u8; CHUNK_SIZE];
    let p = receiver.accept_chunk(&full);
    assert_eq!(p.per_mille, 250);
    assert!(!p.last);
    let p = receiver.accept_chunk(&[2u8; 10]);
    assert_eq!(p.per_mille, 0);
    assert!(p.last);
    assert_eq!(receiver.received(), CHUNK_SIZE + 10);
}

#[test]
fn receiver_whole_file_check() {
    let mut receiver = FileReceiver::new(3);
    receiver.accept_chunk(b"a");
    receiver.accept_chunk(b"bc");
    assert!(receiver.file_matches(&sha1_of(b"abc")));

    let mut receiver = FileReceiver::new(3);
    receiver.accept_chunk(b"abc");
    assert!(!receiver.file_matches(ABC_SHA1_HEX.as_bytes()));
}

#[test]
fn first_byte_selects_message_kind() {
    assert_eq!(message_kind(0), MessageKind::Text);
    assert_eq!(message_kind(1), MessageKind::File);
    assert_eq!(message_kind(255), MessageKind::File);
}

#[test]
fn text_round_trip() {
    let text = "héllo, 世界";
    let bytes = text_payload(text);
    assert_eq!(bytes, text.as_bytes().to_vec());
    let mut buf = [0u8; CHUNK_SIZE];
    buf[..bytes.len()].copy_from_slice(&bytes);
    assert_eq!(decode_text(&buf, bytes.len()), text.to_string());
}

#[test]
fn invalid_utf8_is_replaced() {
    let buf = [b'h', b'i', 0xff, b'!'];
    assert_eq!(decode_text(&buf, 4), "hi\u{FFFD}!".to_string());
    assert_eq!(decode_text(&buf, 2), "hi".to_string());
    assert_eq!(decode_text(&buf, 0), String::new());
}

#[test]
fn outgoing_text_and_path() {
    match outgoing(Message::Text("añ".to_string())) {
        Outgoing::Text(bytes, shown) => {
            assert_eq!(bytes, vec![b'a', 0xc3, 0xb1]);
            assert_eq!(shown, "añ");
        }
        Outgoing::File(_) => panic!("a text is sent as bytes"),
    }
    let path = std::path::PathBuf::from("/tmp/report.txt");
    match outgoing(Message::Path(path.clone())) {
        Outgoing::File(p) => assert_eq!(p, path),
        Outgoing::Text(..) => panic!("a path is sent as a file"),
    }
}
