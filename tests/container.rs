use config_vault::aes_cbc::{decrypt_data, encrypt_data, CipherError};
use config_vault::container::{open_container, seal_container, CodecError};
use config_vault::derive::{get_key, pad_with_char, stretch_bytes};
use config_vault::metadata::{build_metadata, parse_metadata};

fn header_len(c: &[u8]) -> usize {
    u32::from_le_bytes([c[0], c[1], c[2], c[3]]) as usize
}

#[test]
fn scenario_key_and_round_trip() {
    let key = get_key(32, b"AABBCCDDEEFFHOST1", 'X');
    assert_eq!(key, b"AABBCCDDEEFFHOST1XXXXXXXXXXXXXXX".to_vec());
    let iv = get_key(16, b"AABBCCDDEEFFHOST1", 'X');
    assert_eq!(iv, b"AABBCCDDEEFFHOST".to_vec());
    let c = seal_container("{\"a\":1}", "AABBCCDDEEFF", "HOST1", 'X').unwrap();
    assert_eq!(open_container(&c, 'T').unwrap(), "{\"a\":1}");
}

#[test]
fn round_trip_various_chars_and_payloads() {
    for ch in ['T', 'X', '0', '#', '='] {
        for payload in ["", "x", "0123456789abcdef", "{\"k\":\"v\",\"n\":[1,2,3]}", "héllo wörld"] {
            let c = seal_container(payload, "902E168B9AC1", "DESKTOP-01", ch).unwrap();
            assert_eq!(open_container(&c, 'Z').unwrap(), payload);
        }
    }
}

#[test]
fn round_trip_multibyte_padding_char() {
    // 16 identity bytes leave an even gap for a two-byte character
    let c = seal_container("payload", "AABBCCDDEEFF", "HOST", 'é').unwrap();
    assert_eq!(open_container(&c, 'T').unwrap(), "payload");
}

#[test]
fn multibyte_padding_is_cut_to_length() {
    // 17 identity bytes leave an odd gap: the last copy of the character is cut
    let key = get_key(32, b"AABBCCDDEEFFHOST1", 'é');
    assert_eq!(key.len(), 32);
    assert_eq!(key[31], 0xC3);
    let c = seal_container("payload", "AABBCCDDEEFF", "HOST1", 'é').unwrap();
    assert_eq!(open_container(&c, 'T').unwrap(), "payload");
    let c4 = seal_container("p", "A", "B", '😀').unwrap();
    assert_eq!(open_container(&c4, 'T').unwrap(), "p");
}

#[test]
fn container_length_is_header_metadata_and_padded_payload() {
    for payload in ["", "abc", "0123456789abcdef", "0123456789abcdef0"] {
        let c = seal_container(payload, "AABBCCDDEEFF", "HOST1", 'X').unwrap();
        let meta_len = "MAC=AABBCCDDEEFF;HOST=HOST1;KEY_CHAR=X;".len();
        assert_eq!(c.len(), 4 + meta_len + 16 * (payload.len() / 16 + 1));
    }
}

#[test]
fn scenario_concrete_container_decrypts() {
    let meta = b"MAC=AABBCCDDEEFF;HOST=HOST1;KEY_CHAR=X;";
    let ct = encrypt_data(br#"{"a":1}"#, b"AABBCCDDEEFFHOST1XXXXXXXXXXXXXXX", b"AABBCCDDEEFFHOST").unwrap();
    let mut file = vec![39u8, 0, 0, 0];
    file.extend_from_slice(meta);
    file.extend_from_slice(&ct);
    assert_eq!(open_container(&file, 'Q').unwrap(), r#"{"a":1}"#);
    let sealed = seal_container(r#"{"a":1}"#, "AABBCCDDEEFF", "HOST1", 'X').unwrap();
    assert_eq!(sealed, file);
}

#[test]
fn decrypted_length_drops_one_to_sixteen_bytes() {
    let key = [3u8; 32];
    let iv = [4u8; 16];
    for n in [0usize, 1, 15, 16, 17, 31, 32] {
        let data = vec![5u8; n];
        let ct = encrypt_data(&data, &key, &iv).unwrap();
        let pt = decrypt_data(&ct, &key, &iv).unwrap();
        assert!(pt.len() < ct.len() && pt.len() + 16 >= ct.len());
        assert_eq!(pt, data);
    }
}

#[test]
fn header_matches_metadata_length() {
    let c = seal_container("{}", "AABBCCDDEEFF", "HOST1", 'X').unwrap();
    let meta = b"MAC=AABBCCDDEEFF;HOST=HOST1;KEY_CHAR=X;";
    assert_eq!(header_len(&c), meta.len());
    assert_eq!(&c[4..4 + meta.len()], &meta[..]);
    assert_eq!(c.len(), 4 + meta.len() + 16);
}

#[test]
fn metadata_is_built_exactly() {
    assert_eq!(build_metadata(b"AB", b"h", 'é'), "MAC=AB;HOST=h;KEY_CHAR=é;".as_bytes().to_vec());
}

#[test]
fn derivation_is_deterministic_and_char_sensitive() {
    assert_eq!(get_key(32, b"short", 'A'), get_key(32, b"short", 'A'));
    assert_ne!(get_key(32, b"short", 'A'), get_key(32, b"short", 'B'));
    assert_ne!(get_key(16, b"short", 'A'), get_key(16, b"short", 'B'));
    assert_eq!(pad_with_char(b"abc", 6, 'z'), b"abczzz".to_vec());
    assert_eq!(pad_with_char(b"", 3, 'q'), b"qqq".to_vec());
    assert_eq!(pad_with_char(b"exact", 5, 'q'), b"exact".to_vec());
}

#[test]
fn long_identity_is_truncated() {
    let id = b"0123456789ABCDEF0123456789ABCDEFextra";
    assert_eq!(get_key(32, id, 'A'), id[..32].to_vec());
    assert_eq!(get_key(32, id, 'A'), get_key(32, id, 'B'));
    assert_eq!(get_key(16, id, 'A'), id[..16].to_vec());
}

#[test]
fn stretch_with_empty_unit_leaves_input() {
    assert_eq!(stretch_bytes(b"ab", 4, b""), b"ab".to_vec());
}

#[test]
fn too_short_container_is_rejected() {
    assert_eq!(open_container(&[], 'T'), Err(CodecError::TooShort));
    assert_eq!(open_container(&[1, 0, 0], 'T'), Err(CodecError::TooShort));
}

#[test]
fn truncated_metadata_is_rejected() {
    assert_eq!(open_container(&[10, 0, 0, 0, b'M'], 'T'), Err(CodecError::MetadataTruncated));
    assert_eq!(open_container(&[0, 0, 0, 1], 'T'), Err(CodecError::MetadataTruncated));
}

#[test]
fn invalid_metadata_encoding_is_rejected() {
    assert_eq!(open_container(&[1, 0, 0, 0, 0xFF], 'T'), Err(CodecError::InvalidMetadataEncoding));
}

#[test]
fn ragged_ciphertext_is_rejected() {
    let mut c = seal_container("data", "AABBCCDDEEFF", "HOST1", 'X').unwrap();
    c.pop();
    assert_eq!(open_container(&c, 'T'), Err(CodecError::Cipher(CipherError::Unpad)));
    let mut empty = vec![0u8, 0, 0, 0];
    assert_eq!(open_container(&empty, 'T'), Err(CodecError::Cipher(CipherError::Unpad)));
    empty.push(1);
    assert_eq!(open_container(&empty, 'T'), Err(CodecError::Cipher(CipherError::Unpad)));
}

fn container_of(meta: &[u8], ct: &[u8]) -> Vec<u8> {
    let mut c = (meta.len() as u32).to_le_bytes().to_vec();
    c.extend_from_slice(meta);
    c.extend_from_slice(ct);
    c
}

#[test]
fn invalid_payload_encoding_is_rejected() {
    let key = get_key(32, b"AB", 'T');
    let iv = get_key(16, b"AB", 'T');
    let ct = encrypt_data(&[0xFF, 0xFE], &key, &iv).unwrap();
    let c = container_of(b"MAC=A;HOST=B;KEY_CHAR=T;", &ct);
    assert_eq!(open_container(&c, 'T'), Err(CodecError::InvalidPayloadEncoding));
}

#[test]
fn missing_key_char_uses_fallback() {
    let key = get_key(32, b"AB", 'Q');
    let iv = get_key(16, b"AB", 'Q');
    let ct = encrypt_data(b"fallback", &key, &iv).unwrap();
    let c = container_of(b"MAC=A;HOST=B;", &ct);
    assert_eq!(open_container(&c, 'Q').unwrap(), "fallback");
    let c2 = container_of(b"MAC=A;HOST=B;KEY_CHAR=;OTHER=1;", &ct);
    assert_eq!(open_container(&c2, 'Q').unwrap(), "fallback");
}

#[test]
fn metadata_parser_tolerates_unknown_and_missing_fields() {
    let f = parse_metadata(b"X=1;HOST=h;MAC=m1;MAC=m2;KEY_CHAR=xyz", 'T');
    assert_eq!(f.mac, b"m2".to_vec());
    assert_eq!(f.host, b"h".to_vec());
    assert_eq!(f.pad_unit, b"x".to_vec());
    let g = parse_metadata(b"", 'é');
    assert!(g.mac.is_empty() && g.host.is_empty());
    assert_eq!(g.pad_unit, "é".as_bytes().to_vec());
}

#[test]
fn cipher_pads_a_full_block_and_inverts() {
    let key = [7u8; 32];
    let iv = [9u8; 16];
    let data = [1u8; 16];
    let ct = encrypt_data(&data, &key, &iv).unwrap();
    assert_eq!(ct.len(), 32);
    assert_ne!(&ct[..16], &data[..]);
    assert_eq!(decrypt_data(&ct, &key, &iv).unwrap(), data.to_vec());
    assert_eq!(encrypt_data(b"abc", &key, &iv).unwrap().len(), 16);
}

#[test]
fn cipher_rejects_bad_key_lengths() {
    assert_eq!(encrypt_data(b"abc", &[0u8; 31], &[0u8; 16]), Err(CipherError::InvalidLength));
    assert_eq!(decrypt_data(&[0u8; 16], &[0u8; 32], &[0u8; 15]), Err(CipherError::InvalidLength));
}

#[test]
fn error_messages_are_descriptive() {
    assert_eq!(CodecError::TooShort.message(), "File is too small to contain valid data");
    assert_eq!(CodecError::Cipher(CipherError::Unpad).message(), "Error during decryption: Unpad Error");
    assert_eq!(CodecError::MetadataTruncated.message(), "File is too small to contain complete metadata");
    assert_eq!(CodecError::InvalidMetadataEncoding.message(), "Invalid metadata encoding");
    assert_eq!(CodecError::InvalidPayloadEncoding.message(), "Failed to convert decrypted data to string");
    assert_eq!(CipherError::InvalidLength.message(), "Error creating cipher: Invalid Length");
    assert_eq!(CipherError::Pad.message(), "Error during encryption: Padding error");
}
