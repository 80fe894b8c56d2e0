//! The container: a little-endian `u32` metadata length, the metadata record,
//! then the AES-256-CBC ciphertext of the payload. Everything needed to derive
//! the key again travels in the metadata.

use vstd::prelude::*;
use vstd::bytes::{spec_u32_from_le_bytes, spec_u32_to_le_bytes, u32_from_le_bytes, u32_to_le_bytes};
use vstd::string::*;
use vstd::utf8::*;
use crate::aes_cbc::{
    CipherError, cbc_encrypted, cbc_decrypted, lengths_ok, encrypt_data, decrypt_data, padded_len,
    cipher_error_text,
};
use crate::derive::{derived, stretch, stretch_bytes, get_key, lemma_derived_len, KEY_LEN, IV_LEN};
use crate::metadata::{
    SEMI, metadata, fields_of, build_metadata, parse_metadata, scan, apply_part, mac_tag, host_tag,
    key_char_tag, first_char_bytes,
};
use crate::bytes::{append_bytes, utf8_of, string_from_utf8};

verus! {

/// Why a container could not be produced or read.
#[derive(Debug, Clone, Copy, PartialEq, Eq, Structural)]
pub enum CodecError {
    /// Fewer than four bytes: no room for the metadata length.
    TooShort,
    /// The declared metadata length runs past the end of the container.
    MetadataTruncated,
    /// The metadata record is not well-formed UTF-8.
    InvalidMetadataEncoding,
    /// The block cipher refused the key material or the ciphertext.
    Cipher(CipherError),
    /// The decrypted payload is not well-formed UTF-8.
    InvalidPayloadEncoding,
}

impl CodecError {
    /// A human-readable description of the error.
    pub fn message(&self) -> (r: String)
        ensures
            r@ == codec_error_text(*self),
    {
        match self {
            CodecError::TooShort => String::from_str("File is too small to contain valid data"),
            CodecError::MetadataTruncated => String::from_str("File is too small to contain complete metadata"),
            CodecError::InvalidMetadataEncoding => String::from_str("Invalid metadata encoding"),
            CodecError::Cipher(e) => e.message(),
            CodecError::InvalidPayloadEncoding => String::from_str("Failed to convert decrypted data to string"),
        }
    }
}

/// The description of each container error.
pub open spec fn codec_error_text(e: CodecError) -> Seq<char> {
    match e {
        CodecError::TooShort => "File is too small to contain valid data"@,
        CodecError::MetadataTruncated => "File is too small to contain complete metadata"@,
        CodecError::InvalidMetadataEncoding => "Invalid metadata encoding"@,
        CodecError::Cipher(c) => cipher_error_text(c),
        CodecError::InvalidPayloadEncoding => "Failed to convert decrypted data to string"@,
    }
}

/// The identity string's bytes: the MAC followed by the hostname.
pub open spec fn identity_of(mac: Seq<u8>, host: Seq<u8>) -> Seq<u8> {
    mac + host
}

/// The container for `payload`, with metadata naming `mac`, `host` and `c`.
pub open spec fn sealed(payload: Seq<u8>, mac: Seq<u8>, host: Seq<u8>, c: char) -> Seq<u8> {
    let id = identity_of(mac, host);
    let meta = metadata(mac, host, c);
    spec_u32_to_le_bytes(meta.len() as u32) + meta
        + cbc_encrypted(derived(id, KEY_LEN as nat, c), derived(id, IV_LEN as nat, c), payload)
}

/// The metadata length that the first four bytes of `data` declare.
pub open spec fn declared_len(data: Seq<u8>) -> nat {
    spec_u32_from_le_bytes(data.subrange(0, 4)) as nat
}

/// What reading the container `data` gives, with `fallback` as the padding
/// character where the metadata names none.
pub open spec fn opened(data: Seq<u8>, fallback: char) -> Result<Seq<char>, CodecError> {
    if data.len() < 4 {
        Err(CodecError::TooShort)
    } else if data.len() - 4 < declared_len(data) {
        Err(CodecError::MetadataTruncated)
    } else {
        let end = 4 + declared_len(data);
        let meta = data.subrange(4, end as int);
        if !valid_utf8(meta) {
            Err(CodecError::InvalidMetadataEncoding)
        } else {
            let f = fields_of(meta, fallback);
            let id = identity_of(f.0, f.1);
            let key = stretch(id, KEY_LEN as nat, f.2);
            let iv = stretch(id, IV_LEN as nat, f.2);
            let ct = data.subrange(end as int, data.len() as int);
            if !lengths_ok(key, iv) {
                Err(CodecError::Cipher(CipherError::InvalidLength))
            } else if ct.len() == 0 || ct.len() % 16 != 0 {
                Err(CodecError::Cipher(CipherError::Unpad))
            } else {
                match cbc_decrypted(key, iv, ct) {
                    None => Err(CodecError::Cipher(CipherError::Unpad)),
                    Some(p) => if valid_utf8(p) {
                        Ok(decode_utf8(p))
                    } else {
                        Err(CodecError::InvalidPayloadEncoding)
                    },
                }
            }
        }
    }
}

/// True when no byte of `s` is the field separator `;`.
pub open spec fn no_separator(s: Seq<u8>) -> bool {
    forall|k: int| 0 <= k < s.len() ==> s[k] != SEMI
}

proof fn lemma_scan_skip(s: Seq<u8>, i: int, j: int, start: int, st: crate::metadata::FieldsModel)
    requires
        0 <= i <= j <= s.len(),
        forall|k: int| i <= k < j ==> s[k] != SEMI,
    ensures
        scan(s, i, start, st) == scan(s, j, start, st),
    decreases j - i,
{
    if i < j {
        lemma_scan_skip(s, i + 1, j, start, st);
    }
}

/// One `;`-terminated part at position `i` is applied and the scan moves past it.
proof fn lemma_scan_part(s: Seq<u8>, i: int, part: Seq<u8>, st: crate::metadata::FieldsModel)
    requires
        0 <= i,
        i + part.len() < s.len(),
        s.subrange(i, i + part.len()) == part,
        s[i + part.len()] == SEMI,
        no_separator(part),
    ensures
        scan(s, i, i, st) == scan(
            s,
            i + part.len() + 1,
            i + part.len() + 1,
            apply_part(st, part),
        ),
{
    let j = i + part.len();
    assert forall|k: int| i <= k < j implies s[k] != SEMI by {
        assert(s[k] == s.subrange(i, j)[k - i]);
    }
    lemma_scan_skip(s, i, j, i, st);
}

proof fn lemma_ascii_valid(s: Seq<u8>)
    requires
        forall|k: int| 0 <= k < s.len() ==> s[k] < 0x80,
    ensures
        valid_utf8(s),
    decreases s.len(),
{
    if s.len() > 0 {
        let b = s[0];
        assert((b & 0x7f) as u32 <= 0x7f) by (bit_vector);
        lemma_ascii_valid(s.subrange(1, s.len() as int));
        assert(s.subrange(1, s.len() as int) == pop_first_scalar(s));
    }
}

/// The UTF-8 encoding of any character but `;` holds no `;` byte, and its
/// first byte announces its length.
proof fn lemma_utf8_of_char(c: char)
    ensures
        c != ';' ==> no_separator(utf8_of(c)),
        valid_utf8(utf8_of(c)),
        utf8_of(c).len() >= 1,
        first_char_bytes(utf8_of(c)) == utf8_of(c),
{
    let v = c as u32;
    crate::bytes::lemma_utf8_of(c);
    if c != ';' {
        if v <= 0x7F {
            assert(v != 0x3B);
            assert(v <= 0x7F && v != 0x3B ==> (v & 0x7F) as u8 != 0x3B) by (bit_vector);
        } else {
            assert(forall|x: u8| #[trigger] (0x80u8 | x) != 0x3B) by (bit_vector);
            assert(forall|x: u8| #[trigger] (0xC0u8 | x) != 0x3B) by (bit_vector);
            assert(forall|x: u8| #[trigger] (0xE0u8 | x) != 0x3B) by (bit_vector);
            assert(forall|x: u8| #[trigger] (0xF0u8 | x) != 0x3B) by (bit_vector);
        }
    }
}

/// Reading the metadata record gives back the MAC, the hostname and the
/// padding character it was built from, when none of them holds a `;`.
proof fn lemma_metadata_fields(m: Seq<u8>, h: Seq<u8>, c: char, fallback: char)
    requires
        no_separator(m),
        no_separator(h),
        c != ';',
    ensures
        fields_of(metadata(m, h, c), fallback) == (m, h, utf8_of(c)),
{
    lemma_utf8_of_char(c);
    let u = utf8_of(c);
    let s = metadata(m, h, c);
    let p1 = mac_tag() + m;
    let p2 = host_tag() + h;
    let p3 = key_char_tag() + u;
    assert(s =~= p1 + seq![SEMI] + p2 + seq![SEMI] + p3 + seq![SEMI]);
    let a = p1.len() as int;
    let b = a + 1 + p2.len();
    let e = b + 1 + p3.len();
    assert(no_separator(p1));
    assert(no_separator(p2));
    assert(no_separator(p3));
    assert(s.subrange(0, a) =~= p1);
    assert(s.subrange(a + 1, b) =~= p2);
    assert(s.subrange(b + 1, e) =~= p3);
    let st0 = (Seq::<u8>::empty(), Seq::<u8>::empty(), utf8_of(fallback));
    lemma_scan_part(s, 0, p1, st0);
    assert(p1.subrange(0, 4) =~= mac_tag());
    assert(p1.subrange(4, p1.len() as int) =~= m);
    let st1 = apply_part(st0, p1);
    assert(st1 == (m, st0.1, st0.2));
    lemma_scan_part(s, a + 1, p2, st1);
    assert(p2.subrange(0, 4)[0] != mac_tag()[0]);
    assert(p2.subrange(0, 5) =~= host_tag());
    assert(p2.subrange(5, p2.len() as int) =~= h);
    let st2 = apply_part(st1, p2);
    assert(st2 == (m, h, st0.2));
    lemma_scan_part(s, b + 1, p3, st2);
    assert(p3.subrange(0, 4)[0] != mac_tag()[0]);
    assert(p3.subrange(0, 5)[0] != host_tag()[0]);
    assert(p3.subrange(0, 9) =~= key_char_tag());
    assert(p3.subrange(9, p3.len() as int) =~= u);
    let st3 = apply_part(st2, p3);
    assert(st3 == (m, h, u));
    assert(s.subrange(e + 1, s.len() as int) =~= Seq::<u8>::empty());
}

/// A container built from `payload` opens to `payload` again, given that its
/// ciphertext decrypts to the payload bytes.
proof fn lemma_open_sealed(payload: Seq<char>, m: Seq<u8>, h: Seq<u8>, c: char, fallback: char)
    requires
        no_separator(m),
        no_separator(h),
        c != ';',
        valid_utf8(m),
        valid_utf8(h),
        metadata(m, h, c).len() <= u32::MAX,
        cbc_encrypted(
            derived(identity_of(m, h), KEY_LEN as nat, c),
            derived(identity_of(m, h), IV_LEN as nat, c),
            encode_utf8(payload),
        ).len() == padded_len(encode_utf8(payload).len()),
        cbc_decrypted(
            derived(identity_of(m, h), KEY_LEN as nat, c),
            derived(identity_of(m, h), IV_LEN as nat, c),
            cbc_encrypted(
                derived(identity_of(m, h), KEY_LEN as nat, c),
                derived(identity_of(m, h), IV_LEN as nat, c),
                encode_utf8(payload),
            ),
        ) == Some(encode_utf8(payload)),
    ensures
        opened(sealed(encode_utf8(payload), m, h, c), fallback) == Ok::<Seq<char>, CodecError>(payload),
{
    let meta = metadata(m, h, c);
    let id = identity_of(m, h);
    let ct = cbc_encrypted(derived(id, KEY_LEN as nat, c), derived(id, IV_LEN as nat, c), encode_utf8(payload));
    let data = sealed(encode_utf8(payload), m, h, c);
    vstd::bytes::lemma_auto_spec_u32_to_from_le_bytes();
    let hd = spec_u32_to_le_bytes(meta.len() as u32);
    assert(data.subrange(0, 4) =~= hd);
    assert(declared_len(data) == meta.len());
    let end = 4 + meta.len();
    assert(data.subrange(4, end as int) =~= meta);
    assert(data.subrange(end as int, data.len() as int) =~= ct);
    lemma_derived_len(id, KEY_LEN as nat, c);
    lemma_derived_len(id, IV_LEN as nat, c);
    let q = (encode_utf8(payload).len() / 16) as int;
    assert((q * 16 + 16) % 16 == 0) by (nonlinear_arith)
        requires
            q >= 0,
    ;
    // the metadata is well-formed UTF-8
    lemma_utf8_of_char(c);
    lemma_ascii_valid(mac_tag());
    lemma_ascii_valid(host_tag());
    lemma_ascii_valid(key_char_tag());
    lemma_ascii_valid(seq![SEMI]);
    valid_utf8_concat(mac_tag(), m);
    valid_utf8_concat(mac_tag() + m, seq![SEMI]);
    valid_utf8_concat(mac_tag() + m + seq![SEMI], host_tag());
    valid_utf8_concat(mac_tag() + m + seq![SEMI] + host_tag(), h);
    valid_utf8_concat(mac_tag() + m + seq![SEMI] + host_tag() + h, seq![SEMI]);
    valid_utf8_concat(mac_tag() + m + seq![SEMI] + host_tag() + h + seq![SEMI], key_char_tag());
    valid_utf8_concat(mac_tag() + m + seq![SEMI] + host_tag() + h + seq![SEMI] + key_char_tag(), utf8_of(c));
    valid_utf8_concat(
        mac_tag() + m + seq![SEMI] + host_tag() + h + seq![SEMI] + key_char_tag() + utf8_of(c),
        seq![SEMI],
    );
    lemma_metadata_fields(m, h, c, fallback);
    encode_utf8_valid_utf8(payload);
    encode_utf8_decode_utf8(payload);
}

/// A container shorter than four bytes, or whose declared metadata length runs
/// past its end, is refused with a format error before anything is decrypted.
pub proof fn lemma_malformed_rejected(data: Seq<u8>, fallback: char)
    ensures
        data.len() < 4 ==> (opened(data, fallback) matches Err(CodecError::TooShort)),
        data.len() >= 4 && data.len() - 4 < declared_len(data)
            ==> (opened(data, fallback) matches Err(CodecError::MetadataTruncated)),
{
}

/// Encrypts `payload` under key material derived from `mac`, `host` and
/// `pad_char`, and frames it with the metadata that lets it be opened again.
pub fn seal_container(payload: &str, mac: &str, host: &str, pad_char: char) -> (r: Result<Vec<u8>, CodecError>)
    requires
        payload.spec_bytes().len() + 16 <= usize::MAX,
        metadata(mac.spec_bytes(), host.spec_bytes(), pad_char).len() <= u32::MAX,
    ensures
        r matches Ok(v) && v@ == sealed(payload.spec_bytes(), mac.spec_bytes(), host.spec_bytes(), pad_char),
        r matches Ok(v) ==> v@.len() == 4 + metadata(mac.spec_bytes(), host.spec_bytes(), pad_char).len()
            + padded_len(payload.spec_bytes().len()),
        r matches Ok(v) ==> declared_len(v@) == metadata(mac.spec_bytes(), host.spec_bytes(), pad_char).len()
            && v@.subrange(4, 4 + declared_len(v@) as int) == metadata(mac.spec_bytes(), host.spec_bytes(), pad_char),
        r matches Ok(v) ==> (no_separator(mac.spec_bytes()) && no_separator(host.spec_bytes()) && pad_char != ';'
            ==> forall|fb: char| #[trigger] opened(v@, fb) is Ok && opened(v@, fb)->Ok_0 == payload@),
{
    let mac_b = mac.as_bytes();
    let host_b = host.as_bytes();
    let mut identity = vstd::slice::slice_to_vec(mac_b);
    append_bytes(&mut identity, host_b);
    let key = get_key(KEY_LEN, identity.as_slice(), pad_char);
    let iv = get_key(IV_LEN, identity.as_slice(), pad_char);
    let meta = build_metadata(mac_b, host_b, pad_char);
    let meta_len: u32 = meta.len() as u32;
    proof {
        lemma_derived_len(identity@, KEY_LEN as nat, pad_char);
        lemma_derived_len(identity@, IV_LEN as nat, pad_char);
    }
    let ct = match encrypt_data(payload.as_bytes(), key.as_slice(), iv.as_slice()) {
        Ok(ct) => ct,
        Err(e) => return Err(CodecError::Cipher(e)),
    };
    let mut out = u32_to_le_bytes(meta_len);
    append_bytes(&mut out, meta.as_slice());
    append_bytes(&mut out, ct.as_slice());
    proof {
        vstd::bytes::lemma_auto_spec_u32_to_from_le_bytes();
        let h = spec_u32_to_le_bytes(meta_len);
        assert(out@.subrange(0, 4) =~= h);
        assert(out@.subrange(4, 4 + meta@.len() as int) =~= meta@);
        if no_separator(mac_b@) && no_separator(host_b@) && pad_char != ';' {
            encode_utf8_valid_utf8(mac@);
            encode_utf8_valid_utf8(host@);
            assert(identity@ == identity_of(mac_b@, host_b@));
            assert forall|fb: char| #[trigger] opened(out@, fb) is Ok && opened(out@, fb)->Ok_0 == payload@ by {
                lemma_open_sealed(payload@, mac_b@, host_b@, pad_char, fb);
            }
        }
    }
    Ok(out)
}

/// Reads a container: checks its framing, derives the key material again from
/// its metadata, decrypts, and returns the payload as text.
pub fn open_container(data: &[u8], fallback: char) -> (r: Result<String, CodecError>)
    ensures
        match opened(data@, fallback) {
            Ok(t) => r matches Ok(s) && s@ == t,
            Err(e) => r matches Err(e2) && e2 == e,
        },
{
    if data.len() < 4 {
        return Err(CodecError::TooShort);
    }
    let n = u32_from_le_bytes(vstd::slice::slice_subrange(data, 0, 4)) as usize;
    if data.len() - 4 < n {
        return Err(CodecError::MetadataTruncated);
    }
    let end: usize = 4 + n;
    let meta = vstd::slice::slice_subrange(data, 4, end);
    if string_from_utf8(vstd::slice::slice_to_vec(meta)).is_none() {
        return Err(CodecError::InvalidMetadataEncoding);
    }
    let fields = parse_metadata(meta, fallback);
    let mut identity = fields.mac;
    append_bytes(&mut identity, fields.host.as_slice());
    let key = stretch_bytes(identity.as_slice(), KEY_LEN, fields.pad_unit.as_slice());
    let iv = stretch_bytes(identity.as_slice(), IV_LEN, fields.pad_unit.as_slice());
    let ct = vstd::slice::slice_subrange(data, end, data.len());
    let plain = match decrypt_data(ct, key.as_slice(), iv.as_slice()) {
        Ok(p) => p,
        Err(e) => return Err(CodecError::Cipher(e)),
    };
    match string_from_utf8(plain) {
        Some(s) => Ok(s),
        None => Err(CodecError::InvalidPayloadEncoding),
    }
}

} // verus!
