use tunnel_mux::{pack, write_opcode, OpCode, PackError, MAX_USER_DATA, MTU};

fn decrypt_packet(packet: &[u8]) -> Vec<u8> {
    assert_eq!(packet.len(), MTU);
    let nonce = &packet[4..16];
    let cipher = &packet[16..492];
    let tag = &packet[492..508];
    let mut plain = Vec::with_capacity(cipher.len());
    chacha20_poly1305_aead::decrypt(&[0u8; 32], nonce, &[], cipher, tag, &mut plain)
        .expect("tag must verify under the zero key and the embedded nonce");
    plain
}

fn frame_len(plain: &[u8]) -> usize {
    (((plain[0] & 1) as usize) << 8) | plain[1] as usize
}

#[test]
fn smoke() {
    println!("{:?}", pack(0, &Vec::new()).unwrap().to_vec());
}

#[test]
fn packs_to_mtu_for_all_fitting_lengths() {
    for len in [0usize, 1, 2, 100, 473, 474] {
        let data = vec![0xabu8; len];
        let packet = pack(9, &data).unwrap();
        assert_eq!(packet.len(), 508);
    }
}

#[test]
fn rejects_oversized_data() {
    let data = vec![1u8; 475];
    assert_eq!(pack(0, &data), Err(PackError::TooMuchUserData));
    let data = vec![1u8; 600];
    assert_eq!(pack(3, &data), Err(PackError::TooMuchUserData));
}

#[test]
fn top_bit_of_first_byte_is_always_clear() {
    let data = b"payload".to_vec();
    let packet = pack(0xFFFFFFFF, &data).unwrap();
    assert_eq!(packet[0] & 0x80, 0);
    assert_eq!(&packet[0..4], &[0x7F, 0xFF, 0xFF, 0xFF]);
}

#[test]
fn key_id_is_big_endian_in_header() {
    let packet = pack(7, &b"x".to_vec()).unwrap();
    assert_eq!(&packet[0..4], &[0, 0, 0, 7]);
    let packet = pack(0x01020304, &b"x".to_vec()).unwrap();
    assert_eq!(&packet[0..4], &[0x01, 0x02, 0x03, 0x04]);
}

#[test]
fn nonces_and_ciphertexts_never_repeat() {
    let data = b"identical input".to_vec();
    let mut nonces: Vec<Vec<u8>> = Vec::new();
    let mut bodies: Vec<Vec<u8>> = Vec::new();
    for _ in 0..300 {
        let packet = pack(5, &data).unwrap();
        let nonce = packet[4..16].to_vec();
        let body = packet[16..].to_vec();
        assert!(!nonces.contains(&nonce), "nonce repeated");
        assert!(!bodies.contains(&body), "ciphertext+tag repeated");
        nonces.push(nonce);
        bodies.push(body);
    }
}

#[test]
fn decrypted_plaintext_carries_opcode_length_and_data() {
    let data: Vec<u8> = (0..100u8).collect();
    let packet = pack(1, &data).unwrap();
    let plain = decrypt_packet(&packet);
    assert_eq!(plain.len(), 476);
    assert_eq!(plain[0] >> 1, 64);
    let len = frame_len(&plain);
    assert!(2 <= len && len <= 476);
    assert_eq!(len, 476 - data.len());
    assert_eq!(&plain[len..], &data[..]);
}

#[test]
fn empty_data_pads_the_whole_frame() {
    let packet = pack(0, &Vec::new()).unwrap();
    assert_eq!(packet.len(), 508);
    let plain = decrypt_packet(&packet);
    assert_eq!(frame_len(&plain), 476);
}

#[test]
fn full_data_leaves_minimum_padding() {
    let data = vec![0x5au8; 474];
    let packet = pack(7, &data).unwrap();
    assert_eq!(packet.len(), 508);
    let plain = decrypt_packet(&packet);
    assert_eq!(frame_len(&plain), 2);
    assert_eq!(&plain[2..], &data[..]);
}

#[test]
fn max_user_data_boundary() {
    assert_eq!(MAX_USER_DATA, 474);
    assert!(pack(0, &vec![0u8; MAX_USER_DATA]).is_ok());
    assert!(pack(0, &vec![0u8; MAX_USER_DATA + 1]).is_err());
}

#[test]
fn write_opcode_encodes_padding_frames() {
    let mut buf = vec![0u8, 0u8];
    write_opcode(&mut buf, OpCode::Padding, 476).unwrap();
    assert_eq!(buf, vec![129u8, 220u8]);

    let mut buf = vec![0u8, 0u8];
    write_opcode(&mut buf, OpCode::Padding, 2).unwrap();
    assert_eq!(buf, vec![128u8, 2u8]);

    let mut buf = vec![0u8, 0u8];
    assert_eq!(write_opcode(&mut buf, OpCode::Padding, 477), Err(PackError::FrameTooBig));
    assert_eq!(buf, vec![0u8, 0u8]);
}
