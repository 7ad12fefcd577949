use blockchain_simulator::framing::{
    encode_frame, FrameDecoder, FrameError, HEADER_BYTES, MAX_FRAME_BYTES,
};
use bytes::{Bytes, BytesMut};
use tokio_util::codec::{Decoder, Encoder, LengthDelimitedCodec};

fn codec_encoded(payload: &[u8]) -> Option<Vec<u8>> {
    let mut codec = LengthDelimitedCodec::new();
    let mut out = BytesMut::new();
    match codec.encode(Bytes::copy_from_slice(payload), &mut out) {
        Ok(()) => Some(out.to_vec()),
        Err(_) => None,
    }
}

#[test]
fn frame_limits_are_as_documented() {
    assert_eq!(HEADER_BYTES, 4);
    assert_eq!(MAX_FRAME_BYTES, 8 * 1024 * 1024);
}

#[test]
fn frame_is_length_then_payload() {
    assert_eq!(
        encode_frame(b"hello world"),
        Ok(vec![0, 0, 0, 11, b'h', b'e', b'l', b'l', b'o', b' ', b'w', b'o', b'r', b'l', b'd'])
    );
    assert_eq!(encode_frame(b""), Ok(vec![0, 0, 0, 0]));
}

#[test]
fn frame_length_is_big_endian() {
    let payload = vec![7u8; 300];
    let frame = encode_frame(&payload).unwrap();
    assert_eq!(frame[..4], [0, 0, 1, 44]);
    assert_eq!(frame.len(), 304);
    assert_eq!(frame[4..], payload[..]);

    let payload = vec![1u8; 0x01_02_03];
    let frame = encode_frame(&payload).unwrap();
    assert_eq!(frame[..4], [0, 1, 2, 3]);
}

#[test]
fn longest_frame_is_taken_and_one_more_byte_refused() {
    let payload = vec![0u8; MAX_FRAME_BYTES];
    let frame = encode_frame(&payload).unwrap();
    assert_eq!(frame[..4], [0, 128, 0, 0]);
    assert_eq!(frame.len(), MAX_FRAME_BYTES + 4);

    let payload = vec![0u8; MAX_FRAME_BYTES + 1];
    assert_eq!(encode_frame(&payload), Err(FrameError::TooLong));
}

#[test]
fn frames_match_the_length_delimited_codec() {
    let payloads: Vec<Vec<u8>> =
        vec![vec![], vec![1], vec![0xff; 255], vec![0xab; 256], vec![3; 70_000]];
    for payload in payloads.iter() {
        assert_eq!(encode_frame(payload).ok(), codec_encoded(payload));
    }
    let too_long = vec![0u8; MAX_FRAME_BYTES + 1];
    assert_eq!(codec_encoded(&too_long), None);
    assert_eq!(encode_frame(&too_long).ok(), None);
}

#[test]
fn decoder_waits_for_the_whole_frame() {
    let frame = encode_frame(b"abcdef").unwrap();
    let mut decoder = FrameDecoder::new();
    assert_eq!(decoder.pending_bytes(), 0);
    assert_eq!(decoder.next_frame(), Ok(None));
    for (fed, byte) in frame.iter().enumerate() {
        assert_eq!(decoder.next_frame(), Ok(None));
        assert_eq!(decoder.pending_bytes(), fed);
        decoder.feed(&[*byte]);
    }
    assert_eq!(decoder.next_frame(), Ok(Some(b"abcdef".to_vec())));
    assert_eq!(decoder.pending_bytes(), 0);
    assert_eq!(decoder.next_frame(), Ok(None));
}

#[test]
fn decoder_hands_out_frames_in_order() {
    let mut bytes = encode_frame(b"first").unwrap();
    bytes.extend_from_slice(&encode_frame(b"").unwrap());
    bytes.extend_from_slice(&encode_frame(b"third one").unwrap());
    bytes.extend_from_slice(&[0, 0, 0, 9, 1, 2]);

    let mut decoder = FrameDecoder::new();
    decoder.feed(&bytes);
    assert_eq!(decoder.next_frame(), Ok(Some(b"first".to_vec())));
    assert_eq!(decoder.next_frame(), Ok(Some(vec![])));
    assert_eq!(decoder.next_frame(), Ok(Some(b"third one".to_vec())));
    assert_eq!(decoder.next_frame(), Ok(None));
    assert_eq!(decoder.pending_bytes(), 6);
    decoder.feed(&[3, 4, 5, 6, 7, 8, 9]);
    assert_eq!(decoder.next_frame(), Ok(Some(vec![1, 2, 3, 4, 5, 6, 7, 8, 9])));
    assert_eq!(decoder.pending_bytes(), 0);
}

#[test]
fn decoder_refuses_a_length_over_the_limit() {
    let mut decoder = FrameDecoder::new();
    decoder.feed(&[0, 128, 0, 1]);
    assert_eq!(decoder.next_frame(), Err(FrameError::TooLong));
    assert_eq!(decoder.pending_bytes(), 4);
    decoder.feed(&[1, 2, 3]);
    assert_eq!(decoder.next_frame(), Err(FrameError::TooLong));

    let mut decoder = FrameDecoder::new();
    decoder.feed(&[0xff, 0xff, 0xff, 0xff, 0]);
    assert_eq!(decoder.next_frame(), Err(FrameError::TooLong));

    let mut decoder = FrameDecoder::new();
    decoder.feed(&[0, 128, 0, 0]);
    assert_eq!(decoder.next_frame(), Ok(None));
}

#[test]
fn decoder_matches_the_length_delimited_codec() {
    let mut stream = Vec::new();
    for payload in [&b"one"[..], &b""[..], &[9u8; 1000][..]] {
        stream.extend_from_slice(&encode_frame(payload).unwrap());
    }
    stream.extend_from_slice(&[0, 0, 0, 5, 1]);

    let mut codec = LengthDelimitedCodec::new();
    let mut theirs = BytesMut::new();
    let mut ours = FrameDecoder::new();
    for chunk in stream.chunks(7) {
        theirs.extend_from_slice(chunk);
        ours.feed(chunk);
        loop {
            let expected = codec.decode(&mut theirs).unwrap().map(|frame| frame.to_vec());
            let got = ours.next_frame().unwrap();
            assert_eq!(got, expected);
            if got.is_none() {
                break;
            }
        }
    }

    let mut codec = LengthDelimitedCodec::new();
    let mut theirs = BytesMut::from(&[0u8, 128, 0, 1, 0][..]);
    let mut ours = FrameDecoder::new();
    ours.feed(&[0, 128, 0, 1, 0]);
    assert!(codec.decode(&mut theirs).is_err());
    assert!(ours.next_frame().is_err());
}
