//! Key material derivation: the identity bytes are cut or stretched to a fixed
//! length with a padding character. No hashing is involved, so the result is
//! exactly as secret as the identity itself.

use vstd::prelude::*;
use crate::bytes::{utf8_of, char_utf8, append_bytes, lemma_utf8_of};
use vstd::utf8::*;

verus! {

/// Length in bytes of an AES-256 key.
pub const KEY_LEN: usize = 32;

/// Length in bytes of an AES block, and so of the CBC initialisation vector.
pub const IV_LEN: usize = 16;

/// `id` followed by as many whole copies of `unit` as it takes to reach at
/// least `len` bytes.
pub open spec fn extend_to(id: Seq<u8>, len: nat, unit: Seq<u8>) -> Seq<u8>
    decreases (if id.len() >= len { 0 } else { len - id.len() }),
{
    if id.len() >= len || unit.len() == 0 {
        id
    } else {
        extend_to(id + unit, len, unit)
    }
}

/// `id` extended by copies of `unit` when shorter than `len`, then cut to
/// exactly `len` bytes.
pub open spec fn stretch(id: Seq<u8>, len: nat, unit: Seq<u8>) -> Seq<u8> {
    let e = extend_to(id, len, unit);
    if e.len() > len {
        e.subrange(0, len as int)
    } else {
        e
    }
}

/// The key material of `len` bytes derived from `id` and the padding character `c`.
pub open spec fn derived(id: Seq<u8>, len: nat, c: char) -> Seq<u8> {
    stretch(id, len, utf8_of(c))
}

/// Extends `input` by copies of `unit` until it is at least `length` bytes
/// long, then cuts it to exactly `length` bytes.
pub fn stretch_bytes(input: &[u8], length: usize, unit: &[u8]) -> (r: Vec<u8>)
    ensures
        r@ == stretch(input@, length as nat, unit@),
{
    let mut result = vstd::slice::slice_to_vec(input);
    if unit.len() > 0 {
        while result.len() < length
            invariant
                1 <= unit@.len(),
                extend_to(result@, length as nat, unit@) == extend_to(input@, length as nat, unit@),
            decreases (if result@.len() >= length { 0 } else { length - result@.len() }),
        {
            append_bytes(&mut result, unit);
        }
    }
    if result.len() > length {
        result.truncate(length);
    }
    result
}

/// Extends `input` by UTF-8 encodings of `pad_char` until it is at least
/// `length` bytes long, then cuts it to exactly `length` bytes.
pub fn pad_with_char(input: &[u8], length: usize, pad_char: char) -> (r: Vec<u8>)
    ensures
        r@ == derived(input@, length as nat, pad_char),
        r@.len() == length,
{
    proof {
        lemma_utf8_of(pad_char);
        lemma_derived_len(input@, length as nat, pad_char);
    }
    let unit = char_utf8(pad_char);
    stretch_bytes(input, length, unit.as_slice())
}

/// Key material of `key_length` bytes for the identity `computer_info`.
pub fn get_key(key_length: usize, computer_info: &[u8], pad_char: char) -> (r: Vec<u8>)
    ensures
        r@ == derived(computer_info@, key_length as nat, pad_char),
        r@.len() == key_length,
{
    pad_with_char(computer_info, key_length, pad_char)
}

/// `extend_to` keeps what it starts from, and adds one copy of `unit` at least
/// when that is shorter than `len`.
proof fn lemma_extend_prefix(x: Seq<u8>, len: nat, unit: Seq<u8>)
    requires
        unit.len() >= 1,
    ensures
        has_seq_prefix(extend_to(x, len, unit), x),
        x.len() < len ==> has_seq_prefix(extend_to(x, len, unit), x + unit),
    decreases (if x.len() >= len { 0 } else { len - x.len() }),
{
    if x.len() < len {
        lemma_extend_prefix(x + unit, len, unit);
        let r = extend_to(x, len, unit);
        let y = x + unit;
        assert(r == extend_to(y, len, unit));
        assert forall|k: int| 0 <= k < x.len() implies r[k] == x[k] by {
            assert(r.subrange(0, y.len() as int)[k] == y[k]);
        }
        assert(r.subrange(0, x.len() as int) =~= x);
    } else {
        assert(extend_to(x, len, unit).subrange(0, x.len() as int) =~= x);
    }
}

proof fn lemma_extend_len(x: Seq<u8>, len: nat, unit: Seq<u8>)
    requires
        unit.len() >= 1,
    ensures
        extend_to(x, len, unit).len() >= len,
        x.len() >= len ==> extend_to(x, len, unit) == x,
    decreases (if x.len() >= len { 0 } else { len - x.len() }),
{
    if x.len() < len {
        lemma_extend_len(x + unit, len, unit);
    }
}

/// Derived key material is always exactly as long as asked for.
pub proof fn lemma_derived_len(id: Seq<u8>, len: nat, c: char)
    ensures
        derived(id, len, c).len() == len,
{
    lemma_utf8_of(c);
    lemma_extend_len(id, len, utf8_of(c));
}

/// True when `s` begins with `p`.
pub open spec fn has_seq_prefix(s: Seq<u8>, p: Seq<u8>) -> bool {
    p.len() <= s.len() && s.subrange(0, p.len() as int) == p
}

/// An identity longer than the key is cut to its first bytes, whatever the
/// padding character.
pub proof fn lemma_long_identity_truncated(id: Seq<u8>, c1: char, c2: char)
    requires
        id.len() > KEY_LEN,
    ensures
        derived(id, KEY_LEN as nat, c1) == id.subrange(0, KEY_LEN as int),
        derived(id, KEY_LEN as nat, c1) == derived(id, KEY_LEN as nat, c2),
{
    lemma_utf8_of(c1);
    lemma_utf8_of(c2);
    lemma_extend_len(id, KEY_LEN as nat, utf8_of(c1));
    lemma_extend_len(id, KEY_LEN as nat, utf8_of(c2));
}

/// Derivation is a function of its inputs; and an identity short enough that
/// a whole encoding of either padding character fits after it gives different
/// key material for different padding characters.
pub proof fn lemma_padding_char_distinguishes(id: Seq<u8>, len: nat, c1: char, c2: char)
    requires
        id.len() + utf8_of(c1).len() <= len,
        id.len() + utf8_of(c2).len() <= len,
    ensures
        c1 == c2 ==> derived(id, len, c1) == derived(id, len, c2),
        c1 != c2 ==> derived(id, len, c1) != derived(id, len, c2),
{
    if c1 != c2 {
        let u1 = utf8_of(c1);
        let u2 = utf8_of(c2);
        lemma_utf8_of(c1);
        lemma_utf8_of(c2);
        lemma_extend_prefix(id, len, u1);
        lemma_extend_prefix(id, len, u2);
        let r1 = derived(id, len, c1);
        let r2 = derived(id, len, c2);
        let n = id.len() as int;
        if r1 == r2 {
            assert(r1[n] == (id + u1)[n]);
            assert(r2[n] == (id + u2)[n]);
            assert(u1[0] == u2[0]);
            assert(length_of_first_codepoint(u1) == length_of_first_codepoint(u2));
            assert forall|k: int| 0 <= k < u1.len() implies u1[k] == u2[k] by {
                assert(r1[n + k] == (id + u1)[n + k]);
                assert(r2[n + k] == (id + u2)[n + k]);
            }
            assert(u1 =~= u2);
            char_u32_cast(c1, c1 as u32);
            char_u32_cast(c2, c2 as u32);
        }
    }
}

} // verus!
