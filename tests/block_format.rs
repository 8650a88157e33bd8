use scope_waveform::block::{decode_byte_block, decode_word_block};
use scope_waveform::waveform::{Error, MaxTransferSize};

fn block(samples: &[u8]) -> Vec<u8> {
    let len = samples.len().to_string();
    let mut out = vec![b'#', b'0' + len.len() as u8];
    out.extend_from_slice(len.as_bytes());
    out.extend_from_slice(samples);
    out
}

fn pattern(n: usize) -> Vec<u8> {
    (0..n).map(|i| (i % 251) as u8).collect()
}

fn round_trip(n: usize) {
    let samples = pattern(n);
    let resp = block(&samples);
    let mut buf = vec![0xAAu8; 250000];
    let used = decode_byte_block(&resp, &mut buf).unwrap();
    assert_eq!(used, resp.len());
    assert_eq!(&buf[..n], &samples[..]);
    assert!(buf[n..].iter().all(|b| *b == 0xAA));
}

#[test]
fn byte_block_round_trip_empty() {
    round_trip(0);
}

#[test]
fn byte_block_round_trip_one() {
    round_trip(1);
}

#[test]
fn byte_block_round_trip_one_below_ceiling() {
    round_trip(249999);
}

#[test]
fn byte_block_round_trip_at_ceiling() {
    round_trip(250000);
}

#[test]
fn full_block_takes_one_terminator_byte() {
    let samples = pattern(250000);
    let mut resp = block(&samples);
    let header = resp.len() - samples.len();
    resp.push(b'\n');
    resp.push(b'X');
    let mut buf = vec![0u8; 250000];
    assert_eq!(decode_byte_block(&resp, &mut buf).unwrap(), header + 250000 + 1);
    assert_eq!(buf, samples);
}

#[test]
fn short_block_terminator_follows_payload() {
    let samples = vec![5u8, 6, 7];
    let mut resp = block(&samples);
    resp.push(b'\n');
    let mut buf = vec![9u8; 250000];
    assert_eq!(decode_byte_block(&resp, &mut buf).unwrap(), resp.len());
    assert_eq!(&buf[..4], &[5, 6, 7, 9]);
}

#[test]
fn cut_block_ending_in_terminator_reads_zero() {
    let mut resp = b"#15".to_vec();
    resp.extend_from_slice(&[1, 2, b'\n']);
    let mut buf = vec![9u8; 250000];
    assert_eq!(decode_byte_block(&resp, &mut buf).unwrap(), resp.len());
    assert_eq!(&buf[..4], &[1, 2, 0, 9]);
}

#[test]
fn cut_block_without_terminator_is_truncated() {
    let mut resp = b"#15".to_vec();
    resp.extend_from_slice(&[1, 2, 3]);
    let mut buf = vec![9u8; 250000];
    assert!(matches!(decode_byte_block(&resp, &mut buf), Err(Error::TruncatedPayload)));
    assert!(buf.iter().all(|b| *b == 9));
    assert!(matches!(decode_byte_block(b"#15", &mut buf), Err(Error::TruncatedPayload)));
}

#[test]
fn malformed_envelopes() {
    let mut buf = vec![0u8; 250000];
    assert!(matches!(decode_byte_block(b"", &mut buf), Err(Error::MalformedEnvelope)));
    assert!(matches!(decode_byte_block(b"$13abc", &mut buf), Err(Error::MalformedEnvelope)));
    assert!(matches!(decode_byte_block(b"#03abc", &mut buf), Err(Error::MalformedEnvelope)));
    assert!(matches!(decode_byte_block(b"#x3abc", &mut buf), Err(Error::MalformedEnvelope)));
}

#[test]
fn malformed_lengths() {
    let mut buf = vec![0u8; 250000];
    assert!(matches!(decode_byte_block(b"#2x1ab", &mut buf), Err(Error::MalformedLength)));
    assert!(matches!(decode_byte_block(b"#31", &mut buf), Err(Error::MalformedLength)));
    assert!(matches!(decode_byte_block(b"#2+1a", &mut buf), Err(Error::MalformedLength)));
}

#[test]
fn byte_block_over_ceiling() {
    let mut buf = vec![0u8; 250000];
    assert!(matches!(
        decode_byte_block(b"#6250001", &mut buf),
        Err(Error::TransferSizeExceeded(MaxTransferSize::BYTE))
    ));
    assert!(matches!(
        decode_byte_block(b"#9999999999", &mut buf),
        Err(Error::TransferSizeExceeded(MaxTransferSize::BYTE))
    ));
}

#[test]
fn word_block_little_endian() {
    let mut resp = b"#13".to_vec();
    resp.extend_from_slice(&[0x34, 0x12, 0xFF, 0x00, 0x00, 0xFF, b'\n']);
    let mut buf = vec![7u16; 125000];
    decode_word_block(&resp, &mut buf).unwrap();
    assert_eq!(&buf[..4], &[0x1234, 0x00FF, 0xFF00, 7]);
}

#[test]
fn word_block_incomplete() {
    let mut resp = b"#13".to_vec();
    resp.extend_from_slice(&[1, 2, 3, 4, 5]);
    let mut buf = vec![7u16; 125000];
    assert!(matches!(decode_word_block(&resp, &mut buf), Err(Error::IncompleteData)));
    assert!(buf.iter().all(|w| *w == 7));
}

#[test]
fn word_block_over_ceiling() {
    let mut buf = vec![0u16; 125000];
    assert!(matches!(
        decode_word_block(b"#6125001", &mut buf),
        Err(Error::TransferSizeExceeded(MaxTransferSize::WORD))
    ));
    assert!(matches!(decode_word_block(b"#", &mut buf), Err(Error::MalformedEnvelope)));
}
