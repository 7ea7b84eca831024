use tcp_tunnel::codec::{frame_len, generate_key, CodecError, Encrypter};

use aead::{Aead, KeyInit};
use chacha20poly1305::{Key, XChaCha20Poly1305, XNonce};

#[test]
fn test_aead() {
    let key = generate_key();
    let enc = Encrypter::new(&key);
    let text = "Hello text!";
    let frame = enc.enc_aead_frame(text.as_bytes());
    let result = enc.dec_aead_frame(&frame).unwrap();
    assert_eq!(text.as_bytes(), result);
}

#[test]
fn codec_scenario_all_zero_key() {
    // All-zero 32-byte key, plaintext "Hello text!": the frame is
    // 2 + 24 + 11 + 16 = 53 bytes and decodes back.
    let key = vec![0u8; 32];
    let enc = Encrypter::new(&key);
    let frame = enc.enc_aead_frame("Hello text!".as_bytes());
    assert_eq!(frame.len(), 53);
    let len_field = ((frame[0] as usize) << 8) | frame[1] as usize;
    assert_eq!(len_field, 24 + 11 + 16);
    assert_eq!(enc.dec_aead_frame(&frame).unwrap(), "Hello text!".as_bytes());
}

#[test]
fn codec_empty_plaintext() {
    let key = generate_key();
    let enc = Encrypter::new(&key);
    let frame = enc.enc_aead_frame(&[]);
    assert_eq!(frame.len(), 2 + 24 + 16);
    assert_eq!(enc.dec_aead_frame(&frame).unwrap(), Vec::<u8>::new());
}

#[test]
fn codec_tamper_detection() {
    // Flipping any single byte of a frame makes decoding fail; from the
    // nonce onward the failure is the authentication error.
    let key = generate_key();
    let enc = Encrypter::new(&key);
    let frame = enc.enc_aead_frame(b"some tamper-checked payload");
    for i in 0..frame.len() {
        let mut bad = frame.clone();
        bad[i] ^= 0x40;
        let r = enc.dec_aead_frame(&bad);
        assert!(r.is_err(), "byte {} flipped but frame decoded", i);
        if i >= 2 {
            assert_eq!(r.unwrap_err(), CodecError::Decrypt);
        }
    }
}

#[test]
fn codec_rejects_malformed_frames() {
    let key = vec![7u8; 32];
    let enc = Encrypter::new(&key);
    // Too short for a length prefix.
    assert_eq!(enc.dec_aead_frame(&[5]), Err(CodecError::Protocol));
    // Length field smaller than the nonce length.
    let mut short = vec![0u8, 10u8];
    short.extend_from_slice(&[0u8; 10]);
    assert_eq!(enc.dec_aead_frame(&short), Err(CodecError::Protocol));
    // Length field that does not match the frame size.
    let mut wrong = vec![0u8, 60u8];
    wrong.extend_from_slice(&[0u8; 30]);
    assert_eq!(enc.dec_aead_frame(&wrong), Err(CodecError::Protocol));
}

#[test]
fn codec_matches_cipher_directly() {
    // A frame assembled around the cipher's own output decodes to the
    // same plaintext: the codec adds exactly the prefix and nonce.
    let key_bytes = vec![3u8; 32];
    let cipher = XChaCha20Poly1305::new(Key::from_slice(&key_bytes));
    let nonce = [9u8; 24];
    let plain = b"direct cipher cross-check";
    let sealed = cipher.encrypt(XNonce::from_slice(&nonce), plain.as_ref()).unwrap();
    let len = 24 + sealed.len();
    let mut frame = vec![(len >> 8) as u8, (len & 0xff) as u8];
    frame.extend_from_slice(&nonce);
    frame.extend_from_slice(&sealed);

    let enc = Encrypter::new(&key_bytes);
    assert_eq!(enc.dec_aead_frame(&frame).unwrap(), plain);
}

#[test]
fn generated_keys_are_fresh() {
    let k1 = generate_key();
    let k2 = generate_key();
    assert_eq!(k1.len(), 32);
    assert_eq!(k2.len(), 32);
    assert_ne!(k1, k2);
}

#[test]
fn nonces_are_fresh_per_frame() {
    let key = vec![1u8; 32];
    let enc = Encrypter::new(&key);
    let f1 = enc.enc_aead_frame(b"same plaintext");
    let f2 = enc.enc_aead_frame(b"same plaintext");
    assert_ne!(f1, f2);
    assert_eq!(enc.dec_aead_frame(&f1).unwrap(), b"same plaintext");
    assert_eq!(enc.dec_aead_frame(&f2).unwrap(), b"same plaintext");
}

#[test]
fn frame_len_counts_prefix() {
    assert_eq!(frame_len(0, 0), 2);
    assert_eq!(frame_len(0, 51), 53);
    assert_eq!(frame_len(1, 0), 258);
    assert_eq!(frame_len(0xff, 0xff), 65537);
}
