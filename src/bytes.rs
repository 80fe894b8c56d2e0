//! Small byte-sequence helpers shared by the derivation and the container codec.

use vstd::prelude::*;
use vstd::utf8::*;

verus! {

/// The UTF-8 encoding of a single character.
pub open spec fn utf8_of(c: char) -> Seq<u8> {
    encode_scalar(c as u32)
}

/// What the UTF-8 encoding of one character is known to satisfy: it is the
/// encoding of the one-character string, its first byte gives its length, and
/// it decodes back to the character.
pub proof fn lemma_utf8_of(c: char)
    ensures
        utf8_of(c) == encode_utf8(seq![c]),
        valid_utf8(utf8_of(c)),
        1 <= utf8_of(c).len() <= 4,
        length_of_first_codepoint(utf8_of(c)) == utf8_of(c).len(),
        decode_first_scalar(utf8_of(c)) == c as u32,
{
    char_is_scalar(c);
    encode_utf8_first_scalar(seq![c]);
    assert(encode_utf8(seq![c]) =~= utf8_of(c)) by {
        reveal_with_fuel(encode_utf8, 2);
        assert(seq![c].drop_first() =~= Seq::<char>::empty());
        assert(encode_utf8(Seq::<char>::empty()) =~= Seq::<u8>::empty());
    }
    encode_utf8_valid_utf8(seq![c]);
}

/// Relies on `String::from_utf8`: it succeeds exactly on well-formed UTF-8 and
/// then holds the decoded text.
#[verifier::external_body]
pub(crate) fn string_from_utf8(bytes: Vec<u8>) -> (r: Option<String>)
    ensures
        (r is Some) == valid_utf8(bytes@),
        r matches Some(s) ==> s@ == decode_utf8(bytes@),
{
    String::from_utf8(bytes).ok()
}

/// Appends every byte of `s` to `v`.
pub fn append_bytes(v: &mut Vec<u8>, s: &[u8])
    ensures
        final(v)@ == old(v)@ + s@,
{
    let mut i: usize = 0;
    while i < s.len()
        invariant
            0 <= i <= s@.len(),
            v@ == old(v)@ + s@.subrange(0, i as int),
        decreases s@.len() - i,
    {
        v.push(s[i]);
        i = i + 1;
        assert(v@ =~= old(v)@ + s@.subrange(0, i as int));
    }
    assert(s@.subrange(0, s@.len() as int) =~= s@);
}

/// Encodes one character as UTF-8.
pub fn char_utf8(c: char) -> (r: Vec<u8>)
    ensures
        r@ == utf8_of(c),
        1 <= r@.len() <= 4,
{
    let v: u32 = c as u32;
    let mut r: Vec<u8> = Vec::new();
    if v <= 0x7F {
        r.push((v & 0x7F) as u8);
    } else if v <= 0x7FF {
        r.push(0xC0 | ((v >> 6) & 0x1F) as u8);
        r.push(0x80 | (v & 0x3F) as u8);
    } else if v <= 0xFFFF {
        r.push(0xE0 | ((v >> 12) & 0x0F) as u8);
        r.push(0x80 | ((v >> 6) & 0x3F) as u8);
        r.push(0x80 | (v & 0x3F) as u8);
    } else {
        r.push(0xF0 | ((v >> 18) & 0x7) as u8);
        r.push(0x80 | ((v >> 12) & 0x3F) as u8);
        r.push(0x80 | ((v >> 6) & 0x3F) as u8);
        r.push(0x80 | (v & 0x3F) as u8);
    }
    proof {
        char_is_scalar(c);
    }
    assert(r@ =~= utf8_of(c));
    r
}

} // verus!
