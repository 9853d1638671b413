use scope_live::protocol::{crc32c, Frame, FrameDecoder};

#[test]
fn crc32c_matches_castagnoli_check_value() {
    assert_eq!(crc32c(b"123456789"), 0xe306_9283);
}

#[test]
fn frame_round_trip_matches_golden_layout() {
    let frame = Frame::new(0x14, 3, 7, 11, 13, 17_u64.to_le_bytes().to_vec());

    let encoded = frame.encode().unwrap();

    assert_eq!(&encoded[..4], b"SCP1");
    assert_eq!(u32::from_le_bytes(encoded[12..16].try_into().unwrap()), 8);
    assert_eq!(Frame::decode(&encoded).unwrap(), frame);
}

#[test]
fn decoder_handles_fragmentation_noise_and_crc_recovery() {
    let first = Frame::new(0x14, 0, 1, 9, 0, vec![1]).encode().unwrap();
    let mut corrupt = Frame::new(0x20, 0, 2, 9, 4, vec![2, 3]).encode().unwrap();
    corrupt[29] ^= 0x55;
    let last = Frame::new(0x15, 0, 3, 9, 0, vec![4]).encode().unwrap();
    let mut decoder = FrameDecoder::default();

    decoder.push(b"noiseS");
    decoder.push(&first[..9]);
    decoder.push(&first[9..]);
    decoder.push(&corrupt);
    decoder.push(&last);
    let frames = decoder.drain_frames();

    assert_eq!(
        frames
            .iter()
            .map(|frame| frame.sequence)
            .collect::<Vec<_>>(),
        vec![1, 3]
    );
    assert!(decoder.stats().crc_errors >= 1);
    assert!(decoder.stats().discarded_bytes >= 5);
}

#[test]
fn decoder_gives_the_same_frames_however_the_stream_is_split() {
    let first = Frame::new(0x14, 0, 1, 9, 0, vec![1]).encode().unwrap();
    let mut corrupt = Frame::new(0x20, 0, 2, 9, 4, vec![2, 3]).encode().unwrap();
    corrupt[29] ^= 0x55;
    let last = Frame::new(0x15, 0, 3, 9, 0, vec![4]).encode().unwrap();
    let mut stream = b"noiseS".to_vec();
    stream.extend_from_slice(&first);
    stream.extend_from_slice(&corrupt);
    stream.extend_from_slice(b"SC");
    stream.extend_from_slice(&last);
    let mut whole = FrameDecoder::default();
    whole.push(&stream);
    let expected = whole.drain_frames();
    assert_eq!(expected.iter().map(|f| f.sequence).collect::<Vec<_>>(), vec![1, 3]);
    for cut in 0..=stream.len() {
        let mut split = FrameDecoder::default();
        split.push(&stream[..cut]);
        split.push(&stream[cut..]);
        assert_eq!(split.drain_frames(), expected, "cut at {cut}");
        assert_eq!(split.stats(), whole.stats(), "cut at {cut}");
    }
}
