//! Reading network interfaces out of the operating system's textual network
//! configuration report: a line that mentions `adapter` and ends in `:` opens
//! an interface section, and its first `Physical Address` line gives the MAC.

use vstd::prelude::*;
use vstd::string::*;
use vstd::utf8::*;
use crate::bytes::string_from_utf8;
use crate::fingerprint::{NetInterface, occurs, contains_bytes, lower_of, selected_mac, select_mac, lowered_names_of, macs_of};
use crate::metadata::{copy_range};

verus! {

/// The line feed that ends a line.
pub const LF: u8 = 0x0A;
/// `:`
pub const COLON: u8 = 0x3A;
/// `-`
pub const DASH: u8 = 0x2D;

/// ASCII white space: space, tab, line feed, vertical tab, form feed, carriage return.
pub open spec fn is_blank(b: u8) -> bool {
    b == 0x20 || (0x09 <= b && b <= 0x0D)
}

/// The two-byte UTF-8 encodings of white space: U+0085 and U+00A0.
pub open spec fn is_space2(a: u8, b: u8) -> bool {
    a == 0xC2 && (b == 0x85 || b == 0xA0)
}

/// The three-byte UTF-8 encodings of white space: U+1680, U+2000 to U+200A,
/// U+2028, U+2029, U+202F, U+205F and U+3000.
pub open spec fn is_space3(a: u8, b: u8, c: u8) -> bool {
    ||| (a == 0xE1 && b == 0x9A && c == 0x80)
    ||| (a == 0xE2 && b == 0x80 && ((0x80 <= c && c <= 0x8A) || c == 0xA8 || c == 0xA9 || c == 0xAF))
    ||| (a == 0xE2 && b == 0x81 && c == 0x9F)
    ||| (a == 0xE3 && b == 0x80 && c == 0x80)
}

/// The length of the white-space character encoded at `i`, or 0 where there is none.
pub open spec fn space_len_at(s: Seq<u8>, i: int) -> int {
    if 0 <= i < s.len() && is_blank(s[i]) {
        1
    } else if 0 <= i && i + 2 <= s.len() && is_space2(s[i], s[i + 1]) {
        2
    } else if 0 <= i && i + 3 <= s.len() && is_space3(s[i], s[i + 1], s[i + 2]) {
        3
    } else {
        0
    }
}

/// The length of the white-space character whose encoding ends at `j` and
/// starts at `lo` or later, or 0 where there is none.
pub open spec fn space_len_before(s: Seq<u8>, lo: int, j: int) -> int {
    if lo < j && 0 < j <= s.len() && is_blank(s[j - 1]) {
        1
    } else if lo <= j - 2 && 0 <= j - 2 && j <= s.len() && is_space2(s[j - 2], s[j - 1]) {
        2
    } else if lo <= j - 3 && 0 <= j - 3 && j <= s.len() && is_space3(s[j - 3], s[j - 2], s[j - 1]) {
        3
    } else {
        0
    }
}

/// The first index from `i` on that does not start a white-space character.
pub open spec fn lead_end(s: Seq<u8>, i: int) -> int
    decreases s.len() - i,
{
    if i < s.len() && space_len_at(s, i) > 0 {
        lead_end(s, i + space_len_at(s, i))
    } else {
        i
    }
}

/// The end of `s[lo..j]` once trailing white space is dropped.
pub open spec fn trail_start(s: Seq<u8>, lo: int, j: int) -> int
    decreases j - lo,
{
    if space_len_before(s, lo, j) > 0 {
        trail_start(s, lo, j - space_len_before(s, lo, j))
    } else {
        j
    }
}

/// `s` without leading and trailing white space.
pub open spec fn trimmed(s: Seq<u8>) -> Seq<u8> {
    let a = lead_end(s, 0);
    s.subrange(a, trail_start(s, a, s.len() as int))
}

/// The end of `s[..j]` once trailing colons are dropped.
pub open spec fn colons_start(s: Seq<u8>, j: int) -> int
    decreases j,
{
    if j > 0 && s[j - 1] == COLON {
        colons_start(s, j - 1)
    } else {
        j
    }
}

/// `s` without trailing colons.
pub open spec fn without_trailing_colons(s: Seq<u8>) -> Seq<u8> {
    s.subrange(0, colons_start(s, s.len() as int))
}

/// The first index from `i` on that holds `b`, or the length.
pub open spec fn index_of(s: Seq<u8>, b: u8, i: int) -> int
    decreases s.len() - i,
{
    if i >= s.len() {
        s.len() as int
    } else if s[i] == b {
        i
    } else {
        index_of(s, b, i + 1)
    }
}

/// The text after the first colon; none without a colon.
pub open spec fn after_first_colon(s: Seq<u8>) -> Option<Seq<u8>> {
    let i = index_of(s, COLON, 0);
    if i >= s.len() {
        None
    } else {
        Some(s.subrange(i + 1, s.len() as int))
    }
}

/// `s` without its `-` and `:` bytes.
pub open spec fn without_separators(s: Seq<u8>) -> Seq<u8>
    decreases s.len(),
{
    if s.len() == 0 {
        s
    } else {
        let r = without_separators(s.drop_last());
        if s.last() == DASH || s.last() == COLON {
            r
        } else {
            r.push(s.last())
        }
    }
}

/// Interfaces found so far (name and MAC as text), and the section being read
/// (name and MAC as bytes), if any.
pub type ReportState = (Seq<(Seq<char>, Seq<char>)>, Option<(Seq<u8>, Seq<u8>)>);

/// Closes a section: it is kept when it has a MAC and both parts are text.
pub open spec fn close_section(done: Seq<(Seq<char>, Seq<char>)>, cur: Option<(Seq<u8>, Seq<u8>)>) -> Seq<(Seq<char>, Seq<char>)> {
    match cur {
        Some((n, m)) => if m.len() > 0 && valid_utf8(n) && valid_utf8(m) {
            done.push((decode_utf8(n), decode_utf8(m)))
        } else {
            done
        },
        None => done,
    }
}

/// True when a trimmed line opens an interface section.
pub open spec fn is_header(t: Seq<u8>) -> bool {
    occurs(t, "adapter".spec_bytes()) && t.len() > 0 && t.last() == COLON
}

/// The effect of one line of the report.
pub open spec fn read_line(st: ReportState, line: Seq<u8>) -> ReportState {
    let t = trimmed(line);
    let st1 = if is_header(t) {
        (close_section(st.0, st.1), Some((without_trailing_colons(t), Seq::<u8>::empty())))
    } else {
        st
    };
    match (st1.1, after_first_colon(t)) {
        (Some((name, mac)), Some(field)) => if occurs(t, "Physical Address".spec_bytes())
            && mac.len() == 0 {
            (st1.0, Some((name, without_separators(trimmed(field)))))
        } else {
            st1
        },
        _ => st1,
    }
}

/// Reads the lines of `s` from position `i` on, the current line having
/// begun at `start`.
pub open spec fn read_lines(s: Seq<u8>, i: int, start: int, st: ReportState) -> ReportState
    decreases s.len() - i,
{
    if i >= s.len() {
        read_line(st, s.subrange(start, s.len() as int))
    } else if s[i] == LF {
        read_lines(s, i + 1, i + 1, read_line(st, s.subrange(start, i)))
    } else {
        read_lines(s, i + 1, start, st)
    }
}

/// The interfaces, with a MAC, that a report lists, in order.
pub open spec fn interfaces_in(report: Seq<u8>) -> Seq<(Seq<char>, Seq<char>)> {
    let st = read_lines(report, 0, 0, (Seq::empty(), None));
    close_section(st.0, st.1)
}

/// Name and MAC of each interface.
pub open spec fn views_of(v: Seq<NetInterface>) -> Seq<(Seq<char>, Seq<char>)> {
    Seq::new(v.len(), |k: int| (v[k].name@, v[k].mac@))
}

fn blank(b: u8) -> (r: bool)
    ensures
        r == is_blank(b),
{
    b == 0x20 || (0x09 <= b && b <= 0x0D)
}

fn space2(a: u8, b: u8) -> (r: bool)
    ensures
        r == is_space2(a, b),
{
    a == 0xC2 && (b == 0x85 || b == 0xA0)
}

fn space3(a: u8, b: u8, c: u8) -> (r: bool)
    ensures
        r == is_space3(a, b, c),
{
    (a == 0xE1 && b == 0x9A && c == 0x80)
        || (a == 0xE2 && b == 0x80 && ((0x80 <= c && c <= 0x8A) || c == 0xA8 || c == 0xA9 || c == 0xAF))
        || (a == 0xE2 && b == 0x81 && c == 0x9F)
        || (a == 0xE3 && b == 0x80 && c == 0x80)
}

/// The length of the white-space character encoded at `i`, or 0.
fn space_at(s: &[u8], i: usize) -> (r: usize)
    requires
        i <= s@.len(),
    ensures
        r as int == space_len_at(s@, i as int),
{
    let n = s.len();
    if i < n && blank(s[i]) {
        1
    } else if n >= 2 && i <= n - 2 && space2(s[i], s[i + 1]) {
        2
    } else if n >= 3 && i <= n - 3 && space3(s[i], s[i + 1], s[i + 2]) {
        3
    } else {
        0
    }
}

/// The length of the white-space character ending at `j` and starting at `lo`
/// or later, or 0.
fn space_before(s: &[u8], lo: usize, j: usize) -> (r: usize)
    requires
        lo <= j <= s@.len(),
    ensures
        r as int == space_len_before(s@, lo as int, j as int),
{
    if lo < j && blank(s[j - 1]) {
        1
    } else if j >= 2 && lo <= j - 2 && space2(s[j - 2], s[j - 1]) {
        2
    } else if j >= 3 && lo <= j - 3 && space3(s[j - 3], s[j - 2], s[j - 1]) {
        3
    } else {
        0
    }
}

/// `s` without leading and trailing white space.
fn trim_bytes(s: &[u8]) -> (r: Vec<u8>)
    ensures
        r@ == trimmed(s@),
{
    let n: usize = s.len();
    let mut a: usize = 0;
    loop
        invariant
            a <= n,
            n == s@.len(),
            lead_end(s@, a as int) == lead_end(s@, 0),
        ensures
            a <= n,
            a as int == lead_end(s@, 0),
        decreases n - a,
    {
        if a >= n {
            assert(lead_end(s@, a as int) == a);
            break;
        }
        let k = space_at(s, a);
        if k == 0 {
            assert(lead_end(s@, a as int) == a);
            break;
        }
        a = a + k;
    }
    let mut b: usize = n;
    loop
        invariant
            a <= b <= n,
            n == s@.len(),
            a as int == lead_end(s@, 0),
            trail_start(s@, a as int, b as int) == trail_start(s@, a as int, n as int),
        ensures
            a <= b <= n,
            b as int == trail_start(s@, a as int, n as int),
        decreases b,
    {
        let k = space_before(s, a, b);
        if k == 0 {
            assert(trail_start(s@, a as int, b as int) == b);
            break;
        }
        b = b - k;
    }
    copy_range(s, a, b)
}

/// `s` without trailing colons.
fn strip_trailing_colons(s: &[u8]) -> (r: Vec<u8>)
    ensures
        r@ == without_trailing_colons(s@),
{
    let mut j: usize = s.len();
    while j > 0 && s[j - 1] == COLON
        invariant
            j <= s@.len(),
            colons_start(s@, j as int) == colons_start(s@, s@.len() as int),
        decreases j,
    {
        j = j - 1;
    }
    copy_range(s, 0, j)
}

/// The first index from `i` on that holds `b`, or the length.
fn find_byte(s: &[u8], b: u8, i: usize) -> (r: usize)
    requires
        i <= s@.len(),
    ensures
        r as int == index_of(s@, b, i as int),
        i <= r <= s@.len(),
{
    let mut k: usize = i;
    while k < s.len() && s[k] != b
        invariant
            i <= k <= s@.len(),
            index_of(s@, b, k as int) == index_of(s@, b, i as int),
        decreases s@.len() - k,
    {
        k = k + 1;
    }
    k
}

/// `s` without its `-` and `:` bytes.
fn strip_separators(s: &[u8]) -> (r: Vec<u8>)
    ensures
        r@ == without_separators(s@),
{
    let mut r: Vec<u8> = Vec::new();
    let mut i: usize = 0;
    while i < s.len()
        invariant
            i <= s@.len(),
            r@ == without_separators(s@.subrange(0, i as int)),
        decreases s@.len() - i,
    {
        let ghost prev = s@.subrange(0, i as int);
        assert(s@.subrange(0, i + 1).drop_last() =~= prev);
        if s[i] != DASH && s[i] != COLON {
            r.push(s[i]);
        }
        i = i + 1;
    }
    assert(s@.subrange(0, s@.len() as int) =~= s@);
    r
}

/// The section being read.
struct Section {
    open: bool,
    name: Vec<u8>,
    mac: Vec<u8>,
}

spec fn section_view(c: &Section) -> Option<(Seq<u8>, Seq<u8>)> {
    if c.open {
        Some((c.name@, c.mac@))
    } else {
        None
    }
}

/// Closes the section `cur`, keeping it in `out` where `close_section` does.
fn close(out: &mut Vec<NetInterface>, cur: &Section)
    ensures
        views_of(final(out)@) == close_section(views_of(old(out)@), section_view(cur)),
{
    if cur.open && cur.mac.len() > 0 {
        let name = string_from_utf8(vstd::slice::slice_to_vec(cur.name.as_slice()));
        let mac = string_from_utf8(vstd::slice::slice_to_vec(cur.mac.as_slice()));
        match (name, mac) {
            (Some(name), Some(mac)) => {
                out.push(NetInterface { name, mac });
                assert(views_of(out@) =~= views_of(old(out)@).push((decode_utf8(cur.name@), decode_utf8(cur.mac@))));
            },
            _ => {},
        }
    }
}

/// Applies one line of the report.
fn apply_line(out: &mut Vec<NetInterface>, cur: &mut Section, line: &[u8])
    ensures
        (views_of(final(out)@), section_view(final(cur))) == read_line(
            (views_of(old(out)@), section_view(old(cur))),
            line@,
        ),
{
    let t = trim_bytes(line);
    let adapter = "adapter".as_bytes();
    if contains_bytes(t.as_slice(), adapter) && t.len() > 0 && t[t.len() - 1] == COLON {
        close(out, cur);
        *cur = Section { open: true, name: strip_trailing_colons(t.as_slice()), mac: Vec::new() };
    }
    let physical = "Physical Address".as_bytes();
    if contains_bytes(t.as_slice(), physical) {
        let i = find_byte(t.as_slice(), COLON, 0);
        if i < t.len() && cur.open && cur.mac.len() == 0 {
            let field = copy_range(t.as_slice(), i + 1, t.len());
            let trimmed_field = trim_bytes(field.as_slice());
            cur.mac = strip_separators(trimmed_field.as_slice());
        }
    }
}

/// The interfaces that a network configuration report lists, in order, each
/// with the MAC of its first `Physical Address` line; sections without one
/// are left out.
pub fn parse_interfaces(report: &str) -> (r: Vec<NetInterface>)
    ensures
        views_of(r@) == interfaces_in(report.spec_bytes()),
{
    let s = report.as_bytes();
    let mut out: Vec<NetInterface> = Vec::new();
    let mut cur = Section { open: false, name: Vec::new(), mac: Vec::new() };
    assert(views_of(out@) =~= Seq::<(Seq<char>, Seq<char>)>::empty());
    let mut start: usize = 0;
    let mut i: usize = 0;
    while i < s.len()
        invariant
            start <= i <= s@.len(),
            s@ == report.spec_bytes(),
            read_lines(s@, i as int, start as int, (views_of(out@), section_view(&cur)))
                == read_lines(s@, 0, 0, (Seq::empty(), None)),
        decreases s@.len() - i,
    {
        if s[i] == LF {
            let line = copy_range(s, start, i);
            apply_line(&mut out, &mut cur, line.as_slice());
            start = i + 1;
        }
        i = i + 1;
    }
    let line = copy_range(s, start, s.len());
    apply_line(&mut out, &mut cur, line.as_slice());
    close(&mut out, &cur);
    out
}

/// The MAC chosen for this machine from a network configuration report.
pub open spec fn mac_for_report(report: Seq<u8>) -> Seq<char> {
    let ifs = interfaces_in(report);
    selected_mac(
        Seq::new(ifs.len(), |k: int| encode_utf8(lower_of(ifs[k].0))),
        Seq::new(ifs.len(), |k: int| ifs[k].1),
    )
}

/// Reads the interfaces from a network configuration report and chooses the
/// MAC that identifies this machine.
pub fn mac_from_report(report: &str) -> (r: String)
    ensures
        r@ == mac_for_report(report.spec_bytes()),
{
    let ifaces = parse_interfaces(report);
    let ghost ifs = interfaces_in(report.spec_bytes());
    assert(lowered_names_of(ifaces@) =~= Seq::new(ifs.len(), |k: int| encode_utf8(lower_of(ifs[k].0))));
    assert(macs_of(ifaces@) =~= Seq::new(ifs.len(), |k: int| ifs[k].1));
    select_mac(&ifaces)
}

} // verus!
