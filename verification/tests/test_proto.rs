use sugar_wifi_conf_rs::proto::{
    frame_notify_message, ReassemblyBuffer, ReassemblyError, CONCAT_TAG, END_TAG,
    DEFAULT_MAX_REASSEMBLY_BYTES, NOTIFY_CHUNK_SIZE, NOTIFY_CHUNK_DELAY_MS,
};

#[test]
fn terminator_across_boundaries_reassembles() {
    let mut buf = ReassemblyBuffer::new(1024);
    let out1 = buf.push(b"hello&").unwrap();
    assert!(out1.is_empty());
    assert_eq!(buf.len(), b"hello&".len());
    let out2 = buf.push(b"#&").unwrap();
    assert_eq!(out2, vec![b"hello".to_vec()]);
    assert!(buf.is_empty());
}

#[test]
fn multiple_messages_in_one_buffer() {
    let mut buf = ReassemblyBuffer::new(1024);
    let out = buf.push(b"a&#&b&#&").unwrap();
    assert_eq!(out, vec![b"a".to_vec(), b"b".to_vec()]);
    assert!(buf.is_empty());
    let out2 = buf.push(b"c&#&d").unwrap();
    assert_eq!(out2, vec![b"c".to_vec()]);
    assert_eq!(buf.buffered().to_vec(), b"d".to_vec());
}

#[test]
fn oversized_input_clears_and_recovers() {
    let mut buf = ReassemblyBuffer::new(10);
    let err = buf.push(b"01234567890").unwrap_err();
    assert_eq!(err, ReassemblyError::Overflow { max_size: 10, attempted: 11 });
    assert!(buf.is_empty());
    let out = buf.push(b"ok&#&").unwrap();
    assert_eq!(out, vec![b"ok".to_vec()]);
    assert!(buf.is_empty());
}

#[test]
fn frame_notify_message_chunks_and_terminates() {
    let chunks = frame_notify_message(b"x");
    assert_eq!(chunks.concat(), b"x&#&".to_vec());
    let msg = vec![b'a'; 20];
    let chunks = frame_notify_message(&msg);
    assert_eq!(chunks[0].len(), 20);
    assert_eq!(chunks.concat().len(), 23);
    assert!(chunks.concat().ends_with(END_TAG.as_bytes()));
}

#[test]
fn test_basic_reassembly() {
    let mut buf = ReassemblyBuffer::new(1024);
    let result = buf.push(b"hello world&#&").unwrap();
    assert_eq!(result.len(), 1);
    assert_eq!(result[0], b"hello world");
    assert!(buf.is_empty());
}

#[test]
fn test_cross_boundary_reassembly() {
    let mut buf = ReassemblyBuffer::new(1024);
    let out1 = buf.push(b"hello&").unwrap();
    assert!(out1.is_empty());
    assert_eq!(buf.len(), 6);
    let out2 = buf.push(b"#&").unwrap();
    assert_eq!(out2.len(), 1);
    assert_eq!(out2[0], b"hello");
    assert!(buf.is_empty());
}

#[test]
fn test_multiple_messages_at_once() {
    let mut buf = ReassemblyBuffer::new(1024);
    let result = buf.push(b"msg1&#&msg2&#&msg3&#&").unwrap();
    assert_eq!(result.len(), 3);
    assert_eq!(result[0], b"msg1");
    assert_eq!(result[1], b"msg2");
    assert_eq!(result[2], b"msg3");
    assert!(buf.is_empty());
}

#[test]
fn test_empty_push() {
    let mut buf = ReassemblyBuffer::new(1024);
    let result = buf.push(b"").unwrap();
    assert!(result.is_empty());
    buf.push(b"test&#&").unwrap();
    let result = buf.push(b"").unwrap();
    assert!(result.is_empty());
}

#[test]
fn test_overflow_handling() {
    let mut buf = ReassemblyBuffer::new(10);
    let result = buf.push(b"01234567890");
    assert!(result.is_err());
    assert!(buf.is_empty());
    let result = buf.push(b"ok&#&").unwrap();
    assert_eq!(result.len(), 1);
    assert_eq!(result[0], b"ok");
}

#[test]
fn test_default_max_size() {
    let buf = ReassemblyBuffer::with_default_max();
    assert_eq!(buf.len(), 0);
    assert_eq!(DEFAULT_MAX_REASSEMBLY_BYTES, 16 * 1024);
}

#[test]
fn test_large_message() {
    let mut buf = ReassemblyBuffer::new(64 * 1024);
    let large_payload = vec![b'x'; 10000];
    let mut message = large_payload.clone();
    message.extend_from_slice(END_TAG.as_bytes());
    let result = buf.push(&message).unwrap();
    assert_eq!(result.len(), 1);
    assert_eq!(result[0].len(), 10000);
}

#[test]
fn test_frame_notify_message() {
    let message = b"hello";
    let chunks = frame_notify_message(message);
    assert_eq!(chunks.len(), 1);
    assert_eq!(chunks[0], b"hello&#&");
}

#[test]
fn test_notify_message_chunking() {
    let message = vec![b'a'; 25];
    let chunks = frame_notify_message(&message);
    assert!(chunks.len() > 1);
    assert_eq!(chunks[0].len(), NOTIFY_CHUNK_SIZE);
    let combined: Vec<u8> = chunks.concat();
    assert!(combined.starts_with(&message));
    assert!(combined.ends_with(END_TAG.as_bytes()));
}

#[test]
fn test_exact_chunk_boundary() {
    let message = vec![b'b'; NOTIFY_CHUNK_SIZE];
    let chunks = frame_notify_message(&message);
    assert_eq!(chunks.len(), 2);
    assert_eq!(chunks[0].len(), NOTIFY_CHUNK_SIZE);
    assert_eq!(chunks[1].len(), END_TAG.len());
}

#[test]
fn test_chunk_delay_constant() {
    assert_eq!(NOTIFY_CHUNK_DELAY_MS, 200);
}

#[test]
fn test_concat_tag_format() {
    assert_eq!(CONCAT_TAG, "%&%");
    let request = format!("pisugar{}MyWiFi{}password123", CONCAT_TAG, CONCAT_TAG);
    let parts: Vec<&str> = request.split(CONCAT_TAG).collect();
    assert_eq!(parts.len(), 3);
    assert_eq!(parts[0], "pisugar");
    assert_eq!(parts[1], "MyWiFi");
    assert_eq!(parts[2], "password123");
}

#[test]
fn test_streaming_data() {
    let mut buf = ReassemblyBuffer::new(1024);
    let mut received = Vec::new();
    let packets = vec![
        b"msg1&#&msg".as_slice(),
        b"2&#&".as_slice(),
        b"msg3&#&msg4&#&".as_slice(),
    ];
    for packet in packets {
        let msgs = buf.push(packet).unwrap();
        for msg in msgs {
            received.push(String::from_utf8(msg).unwrap());
        }
    }
    assert_eq!(received, vec!["msg1", "msg2", "msg3", "msg4"]);
}

#[test]
fn test_buffer_state() {
    let mut buf = ReassemblyBuffer::new(100);
    assert!(buf.is_empty());
    assert_eq!(buf.len(), 0);
    buf.push(b"partial").unwrap();
    assert!(!buf.is_empty());
    assert_eq!(buf.len(), 7);
    buf.push(b" data&#&").unwrap();
    assert!(buf.is_empty());
}

#[test]
fn test_manual_clear() {
    let mut buf = ReassemblyBuffer::new(100);
    buf.push(b"partial data").unwrap();
    assert!(!buf.is_empty());
    buf.clear();
    assert!(buf.is_empty());
    assert_eq!(buf.len(), 0);
}

#[test]
fn test_stress_many_small_messages() {
    let mut buf = ReassemblyBuffer::new(1024 * 1024);
    let message_count = 1000;
    let mut stream = Vec::new();
    for i in 0..message_count {
        stream.extend_from_slice(format!("msg{}&#&", i).as_bytes());
    }
    let result = buf.push(&stream).unwrap();
    assert_eq!(result.len(), message_count);
}

#[test]
fn test_invalid_utf8_data() {
    let mut buf = ReassemblyBuffer::new(1024);
    let data = vec![0x80, 0x81, 0x82, 0x83];
    let mut message = data.clone();
    message.extend_from_slice(END_TAG.as_bytes());
    let result = buf.push(&message).unwrap();
    assert_eq!(result.len(), 1);
    assert_eq!(result[0], data);
}

// Laws on concrete values.

#[test]
fn framed_message_written_chunk_by_chunk_comes_back() {
    let message = b"pisugar%&%MyWiFi%&%a fairly long password 123".to_vec();
    let chunks = frame_notify_message(&message);
    let mut buf = ReassemblyBuffer::with_default_max();
    let mut received = Vec::new();
    for c in &chunks {
        received.extend(buf.push(c).unwrap());
    }
    assert_eq!(received, vec![message]);
    assert!(buf.is_empty());
}

#[test]
fn reassembly_is_lossless() {
    let mut buf = ReassemblyBuffer::new(1024);
    let out = buf.push(b"ab&#&&#&cd&#").unwrap();
    assert_eq!(out, vec![b"ab".to_vec(), b"".to_vec()]);
    assert_eq!(buf.buffered().to_vec(), b"cd&#".to_vec());
}

#[test]
fn overlapping_terminators_split_left_to_right() {
    let mut buf = ReassemblyBuffer::new(1024);
    let out = buf.push(b"&#&#&x").unwrap();
    assert_eq!(out, vec![b"".to_vec()]);
    assert_eq!(buf.buffered().to_vec(), b"#&x".to_vec());
}

#[test]
fn chunks_are_full_but_the_last() {
    let chunks = frame_notify_message(&vec![b'z'; 45]);
    assert_eq!(chunks.iter().map(|c| c.len()).collect::<Vec<_>>(), vec![20, 20, 8]);
}

#[test]
fn overflow_reports_attempted_size_and_keeps_max() {
    let mut buf = ReassemblyBuffer::new(5);
    buf.push(b"abc").unwrap();
    let err = buf.push(b"def").unwrap_err();
    assert_eq!(err, ReassemblyError::Overflow { max_size: 5, attempted: 6 });
    assert!(buf.is_empty());
}

#[test]
fn framed_chunks_fit_a_tight_buffer() {
    let msg = b"a message longer than one notification chunk";
    let mut buf = ReassemblyBuffer::new(msg.len() + 3);
    let mut got = Vec::new();
    for chunk in frame_notify_message(msg) {
        got.extend(buf.push(&chunk).unwrap());
    }
    assert_eq!(got, vec![msg.to_vec()]);
    assert!(buf.is_empty());
}
