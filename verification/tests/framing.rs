use tcp_tunnel::codec::{CodecError, Encrypter};
use tcp_tunnel::framing::{FrameReader, STAGING_CAP};

fn reader_with_key(key_byte: u8) -> (Encrypter, FrameReader) {
    let key = vec![key_byte; 32];
    let enc = Encrypter::new(&key);
    let reader = FrameReader::new(Encrypter::new(&key));
    (enc, reader)
}

#[test]
fn framing_single_frame_whole() {
    let (enc, mut reader) = reader_with_key(1);
    let frame = enc.enc_aead_frame(b"hello over the stream");
    reader.push_transport_bytes(&frame).unwrap();
    assert_eq!(reader.available(), 21);
    assert_eq!(reader.take_output(100), b"hello over the stream");
    assert_eq!(reader.available(), 0);
}

#[test]
fn framing_boundary_byte_by_byte() {
    // The receiver reads back the concatenation of the plaintexts no
    // matter how the transport chunks its deliveries: here one byte at a
    // time.
    let (enc, mut reader) = reader_with_key(2);
    let plains: [&[u8]; 3] = [b"first ", b"second ", b"third"];
    let mut wire = Vec::new();
    for p in plains {
        wire.extend_from_slice(&enc.enc_aead_frame(p));
    }
    for b in &wire {
        reader.push_transport_bytes(std::slice::from_ref(b)).unwrap();
    }
    assert_eq!(reader.take_output(usize::MAX), b"first second third");
}

#[test]
fn framing_boundary_odd_chunks() {
    // The same bytes split at arbitrary boundaries, including chunks that
    // span two frames.
    let (enc, mut reader) = reader_with_key(3);
    let plains: [&[u8]; 4] = [b"alpha", b"", b"gamma gamma gamma", b"d"];
    let mut wire = Vec::new();
    for p in plains {
        wire.extend_from_slice(&enc.enc_aead_frame(p));
    }
    let mut taken = Vec::new();
    let mut i = 0;
    let mut step = 7;
    while i < wire.len() {
        let end = usize::min(i + step, wire.len());
        reader.push_transport_bytes(&wire[i..end]).unwrap();
        taken.extend_from_slice(&reader.take_output(usize::MAX));
        i = end;
        step = step * 2 + 1;
    }
    assert_eq!(taken, b"alphagamma gamma gammad");
}

#[test]
fn framing_take_output_in_pieces() {
    let (enc, mut reader) = reader_with_key(4);
    let frame = enc.enc_aead_frame(b"abcdefgh");
    reader.push_transport_bytes(&frame).unwrap();
    assert_eq!(reader.take_output(3), b"abc");
    assert_eq!(reader.take_output(3), b"def");
    assert_eq!(reader.take_output(3), b"gh");
    assert_eq!(reader.take_output(3), b"");
}

#[test]
fn framing_oversize_frame_is_protocol_error() {
    let (_, mut reader) = reader_with_key(5);
    // A length prefix announcing more than the staging capacity.
    let announced = STAGING_CAP + 100 - 2;
    let header = [(announced >> 8) as u8, (announced & 0xff) as u8];
    assert_eq!(reader.push_transport_bytes(&header), Err(CodecError::Protocol));
}

#[test]
fn framing_tampered_frame_is_fatal_after_good_frames() {
    let (enc, mut reader) = reader_with_key(6);
    let good = enc.enc_aead_frame(b"delivered");
    let mut bad = enc.enc_aead_frame(b"corrupted");
    let last = bad.len() - 1;
    bad[last] ^= 1;
    let mut wire = Vec::new();
    wire.extend_from_slice(&good);
    wire.extend_from_slice(&bad);
    assert_eq!(reader.push_transport_bytes(&wire), Err(CodecError::Decrypt));
    // The frame before the corruption was still delivered in order.
    assert_eq!(reader.take_output(usize::MAX), b"delivered");
}

#[test]
fn framing_vacancy_tracks_partial_frames() {
    let (enc, mut reader) = reader_with_key(7);
    assert_eq!(reader.staging_vacant(), STAGING_CAP);
    let frame = enc.enc_aead_frame(b"split frame");
    reader.push_transport_bytes(&frame[..5]).unwrap();
    assert_eq!(reader.staging_vacant(), STAGING_CAP - 5);
    assert_eq!(reader.available(), 0);
    reader.push_transport_bytes(&frame[5..]).unwrap();
    assert_eq!(reader.staging_vacant(), STAGING_CAP);
    assert_eq!(reader.take_output(usize::MAX), b"split frame");
}
