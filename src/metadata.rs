//! The metadata record: `MAC=<mac>;HOST=<host>;KEY_CHAR=<c>;` as UTF-8 bytes,
//! and its tolerant parser.

use vstd::prelude::*;
use vstd::utf8::*;
use crate::bytes::{utf8_of, char_utf8, append_bytes};

verus! {

/// The byte `;` that ends each field.
pub const SEMI: u8 = 0x3B;

/// `MAC=`
pub open spec fn mac_tag() -> Seq<u8> {
    seq![0x4Du8, 0x41u8, 0x43u8, 0x3Du8]
}

/// `HOST=`
pub open spec fn host_tag() -> Seq<u8> {
    seq![0x48u8, 0x4Fu8, 0x53u8, 0x54u8, 0x3Du8]
}

/// `KEY_CHAR=`
pub open spec fn key_char_tag() -> Seq<u8> {
    seq![0x4Bu8, 0x45u8, 0x59u8, 0x5Fu8, 0x43u8, 0x48u8, 0x41u8, 0x52u8, 0x3Du8]
}

/// The serialized metadata record for a MAC, a hostname and a padding character.
pub open spec fn metadata(mac: Seq<u8>, host: Seq<u8>, c: char) -> Seq<u8> {
    mac_tag() + mac + seq![SEMI] + host_tag() + host + seq![SEMI] + key_char_tag() + utf8_of(c)
        + seq![SEMI]
}

/// True when `s` begins with `p`.
pub open spec fn has_prefix(s: Seq<u8>, p: Seq<u8>) -> bool {
    p.len() <= s.len() && s.subrange(0, p.len() as int) == p
}

/// The bytes of the first UTF-8 encoded character of `v`, as far as `v` reaches.
pub open spec fn first_char_bytes(v: Seq<u8>) -> Seq<u8> {
    if v.len() < length_of_first_codepoint(v) {
        v
    } else {
        v.subrange(0, length_of_first_codepoint(v))
    }
}

/// What the parser has gathered so far: MAC bytes, hostname bytes, and the
/// UTF-8 bytes of the padding character.
pub type FieldsModel = (Seq<u8>, Seq<u8>, Seq<u8>);

/// The effect of one `;`-delimited part on the gathered fields. Unknown parts
/// and an empty `KEY_CHAR` change nothing; a repeated field overrides.
pub open spec fn apply_part(st: FieldsModel, part: Seq<u8>) -> FieldsModel {
    if has_prefix(part, mac_tag()) {
        (part.subrange(4, part.len() as int), st.1, st.2)
    } else if has_prefix(part, host_tag()) {
        (st.0, part.subrange(5, part.len() as int), st.2)
    } else if has_prefix(part, key_char_tag()) && part.len() > 9 {
        (st.0, st.1, first_char_bytes(part.subrange(9, part.len() as int)))
    } else {
        st
    }
}

/// Splits `s` at each `;` from position `i` on, the current part having begun
/// at `start`, and applies each part in turn.
pub open spec fn scan(s: Seq<u8>, i: int, start: int, st: FieldsModel) -> FieldsModel
    decreases s.len() - i,
{
    if i >= s.len() {
        apply_part(st, s.subrange(start, s.len() as int))
    } else if s[i] == SEMI {
        scan(s, i + 1, i + 1, apply_part(st, s.subrange(start, i)))
    } else {
        scan(s, i + 1, start, st)
    }
}

/// The fields of a metadata record; absent MAC and hostname are empty, an
/// absent padding character is `fallback`.
pub open spec fn fields_of(meta: Seq<u8>, fallback: char) -> FieldsModel {
    scan(meta, 0, 0, (Seq::empty(), Seq::empty(), utf8_of(fallback)))
}

/// The fields read from a metadata record.
pub struct MetadataFields {
    pub mac: Vec<u8>,
    pub host: Vec<u8>,
    /// UTF-8 bytes of the padding character.
    pub pad_unit: Vec<u8>,
}

fn mac_tag_bytes() -> (r: Vec<u8>)
    ensures
        r@ == mac_tag(),
{
    let mut r: Vec<u8> = Vec::new();
    r.push(0x4D);
    r.push(0x41);
    r.push(0x43);
    r.push(0x3D);
    assert(r@ =~= mac_tag());
    r
}

fn host_tag_bytes() -> (r: Vec<u8>)
    ensures
        r@ == host_tag(),
{
    let mut r: Vec<u8> = Vec::new();
    r.push(0x48);
    r.push(0x4F);
    r.push(0x53);
    r.push(0x54);
    r.push(0x3D);
    assert(r@ =~= host_tag());
    r
}

fn key_char_tag_bytes() -> (r: Vec<u8>)
    ensures
        r@ == key_char_tag(),
{
    let mut r: Vec<u8> = Vec::new();
    r.push(0x4B);
    r.push(0x45);
    r.push(0x59);
    r.push(0x5F);
    r.push(0x43);
    r.push(0x48);
    r.push(0x41);
    r.push(0x52);
    r.push(0x3D);
    assert(r@ =~= key_char_tag());
    r
}

/// Serializes the metadata record.
pub fn build_metadata(mac: &[u8], host: &[u8], pad_char: char) -> (r: Vec<u8>)
    ensures
        r@ == metadata(mac@, host@, pad_char),
{
    let mut r = mac_tag_bytes();
    append_bytes(&mut r, mac);
    r.push(SEMI);
    let h = host_tag_bytes();
    append_bytes(&mut r, h.as_slice());
    append_bytes(&mut r, host);
    r.push(SEMI);
    let k = key_char_tag_bytes();
    append_bytes(&mut r, k.as_slice());
    let u = char_utf8(pad_char);
    append_bytes(&mut r, u.as_slice());
    r.push(SEMI);
    r
}

/// Whether `s[start..end]` begins with `tag`.
fn has_prefix_at(s: &[u8], start: usize, end: usize, tag: &[u8]) -> (r: bool)
    requires
        start <= end <= s@.len(),
    ensures
        r == has_prefix(s@.subrange(start as int, end as int), tag@),
{
    if end - start < tag.len() {
        return false;
    }
    let mut j: usize = 0;
    while j < tag.len()
        invariant
            j <= tag@.len(),
            start + tag@.len() <= end,
            end <= s@.len(),
            forall|k: int| 0 <= k < j ==> s@[start + k] == tag@[k],
        decreases tag@.len() - j,
    {
        if s[start + j] != tag[j] {
            assert(s@.subrange(start as int, end as int)[j as int] != tag@[j as int]);
            return false;
        }
        j = j + 1;
    }
    assert(s@.subrange(start as int, end as int).subrange(0, tag@.len() as int) =~= tag@);
    true
}

/// Copies `s[start..end]`.
pub(crate) fn copy_range(s: &[u8], start: usize, end: usize) -> (r: Vec<u8>)
    requires
        start <= end <= s@.len(),
    ensures
        r@ == s@.subrange(start as int, end as int),
{
    let mut r: Vec<u8> = Vec::new();
    let mut i: usize = start;
    while i < end
        invariant
            start <= i <= end,
            end <= s@.len(),
            r@ == s@.subrange(start as int, i as int),
        decreases end - i,
    {
        r.push(s[i]);
        i = i + 1;
        assert(r@ =~= s@.subrange(start as int, i as int));
    }
    r
}

/// Number of bytes that a UTF-8 sequence starting with `b` claims.
fn claimed_width(b: u8) -> (r: usize)
    ensures
        r as int == length_of_first_codepoint(seq![b]),
{
    if b <= 0x7F {
        1
    } else if 0xC0 <= b && b <= 0xDF {
        2
    } else if 0xE0 <= b && b <= 0xEF {
        3
    } else {
        4
    }
}

/// Applies the part `meta[start..end]` to the fields gathered so far.
fn apply_part_exec(
    meta: &[u8],
    start: usize,
    end: usize,
    fields: &mut MetadataFields,
)
    requires
        start <= end <= meta@.len(),
    ensures
        (final(fields).mac@, final(fields).host@, final(fields).pad_unit@) == apply_part(
            (old(fields).mac@, old(fields).host@, old(fields).pad_unit@),
            meta@.subrange(start as int, end as int),
        ),
{
    let ghost part = meta@.subrange(start as int, end as int);
    let mt = mac_tag_bytes();
    let ht = host_tag_bytes();
    let kt = key_char_tag_bytes();
    if has_prefix_at(meta, start, end, mt.as_slice()) {
        fields.mac = copy_range(meta, start + 4, end);
        assert(fields.mac@ =~= part.subrange(4, part.len() as int));
    } else if has_prefix_at(meta, start, end, ht.as_slice()) {
        fields.host = copy_range(meta, start + 5, end);
        assert(fields.host@ =~= part.subrange(5, part.len() as int));
    } else if has_prefix_at(meta, start, end, kt.as_slice()) && end - start > 9 {
        let ghost v = part.subrange(9, part.len() as int);
        let w = claimed_width(meta[start + 9]);
        assert(length_of_first_codepoint(seq![meta@[start + 9]]) == length_of_first_codepoint(v));
        let stop: usize = if end - (start + 9) < w { end } else { start + 9 + w };
        fields.pad_unit = copy_range(meta, start + 9, stop);
        assert(fields.pad_unit@ =~= first_char_bytes(v));
    }
}

/// Parses a metadata record: splits it at each `;` and reads the `MAC=`,
/// `HOST=` and `KEY_CHAR=` parts, ignoring any other part.
pub fn parse_metadata(meta: &[u8], fallback: char) -> (r: MetadataFields)
    ensures
        (r.mac@, r.host@, r.pad_unit@) == fields_of(meta@, fallback),
{
    let mut fields = MetadataFields { mac: Vec::new(), host: Vec::new(), pad_unit: char_utf8(fallback) };
    assert((fields.mac@, fields.host@, fields.pad_unit@) == (Seq::<u8>::empty(), Seq::<u8>::empty(), utf8_of(fallback)));
    let mut start: usize = 0;
    let mut i: usize = 0;
    while i < meta.len()
        invariant
            start <= i <= meta@.len(),
            scan(meta@, i as int, start as int, (fields.mac@, fields.host@, fields.pad_unit@))
                == fields_of(meta@, fallback),
        decreases meta@.len() - i,
    {
        if meta[i] == SEMI {
            apply_part_exec(meta, start, i, &mut fields);
            start = i + 1;
        }
        i = i + 1;
    }
    apply_part_exec(meta, start, meta.len(), &mut fields);
    fields
}

} // verus!
