//! Choosing the MAC address that identifies this machine among its network
//! interfaces: a physical Ethernet or Wi-Fi adapter first, then any adapter
//! that is not a loopback, then a fixed address.

use vstd::prelude::*;
use vstd::string::*;
use vstd::utf8::*;

verus! {

/// A network interface as the operating system reports it.
pub struct NetInterface {
    pub name: String,
    /// Hexadecimal digits of the hardware address, without separators.
    pub mac: String,
}

/// The lower-case form of `s`.
pub uninterp spec fn lower_of(s: Seq<char>) -> Seq<char>;

/// Relies on `str::to_lowercase`: the result depends on the characters alone.
#[verifier::external_body]
fn lowercase(s: &str) -> (r: String)
    ensures
        r@ == lower_of(s@),
{
    s.to_lowercase()
}

/// True when `p` occurs in `s` at position `i`.
pub open spec fn occurs_at(s: Seq<u8>, p: Seq<u8>, i: int) -> bool {
    0 <= i && i + p.len() <= s.len() && s.subrange(i, i + p.len()) == p
}

/// True when `p` occurs somewhere in `s`.
pub open spec fn occurs(s: Seq<u8>, p: Seq<u8>) -> bool {
    exists|i: int| occurs_at(s, p, i)
}

/// True when a lower-case interface name (as UTF-8) marks a physical wired or
/// wireless adapter, and none of a virtual, VPN or loopback one.
pub open spec fn is_preferred(n: Seq<u8>) -> bool {
    &&& !occurs(n, "virtual".spec_bytes())
    &&& !occurs(n, "vpn".spec_bytes())
    &&& !occurs(n, "vethernet".spec_bytes())
    &&& !occurs(n, "loopback".spec_bytes())
    &&& (occurs(n, "ethernet".spec_bytes()) || occurs(n, "wi-fi".spec_bytes())
        || occurs(n, "wlan".spec_bytes()))
}

/// True when a lower-case interface name (as UTF-8) is not a loopback's.
pub open spec fn is_not_loopback(n: Seq<u8>) -> bool {
    !occurs(n, "loopback".spec_bytes())
}

/// The strict test (a preferred adapter) or the loose one (not a loopback).
pub open spec fn passes(n: Seq<u8>, strict: bool) -> bool {
    if strict {
        is_preferred(n)
    } else {
        is_not_loopback(n)
    }
}

/// The index of the first name from `i` on that passes the strict test (or,
/// with `strict` false, the loose one); the length when there is none.
pub open spec fn first_from(names: Seq<Seq<u8>>, i: int, strict: bool) -> int
    decreases names.len() - i,
{
    if i >= names.len() {
        names.len() as int
    } else if passes(names[i], strict) {
        i
    } else {
        first_from(names, i + 1, strict)
    }
}

/// The MAC used when no interface yields one.
pub open spec fn fallback_mac() -> Seq<char> {
    "902E168B9AC1"@
}

/// The MAC at `i`, or nothing when `i` is past the end.
pub open spec fn mac_at(macs: Seq<Seq<char>>, i: int) -> Seq<char> {
    if 0 <= i < macs.len() {
        macs[i]
    } else {
        Seq::empty()
    }
}

/// The MAC chosen for interfaces with lower-case names `names` and addresses `macs`.
pub open spec fn selected_mac(names: Seq<Seq<u8>>, macs: Seq<Seq<char>>) -> Seq<char> {
    let first = mac_at(macs, first_from(names, 0, true));
    let second = mac_at(macs, first_from(names, 0, false));
    if first.len() > 0 {
        first
    } else if second.len() > 0 {
        second
    } else {
        fallback_mac()
    }
}

/// The UTF-8 bytes of each interface's name, taken as it is.
pub open spec fn names_of(ifaces: Seq<NetInterface>) -> Seq<Seq<u8>> {
    Seq::new(ifaces.len(), |i: int| encode_utf8(ifaces[i].name@))
}

/// The UTF-8 bytes of each interface's name in lower case.
pub open spec fn lowered_names_of(ifaces: Seq<NetInterface>) -> Seq<Seq<u8>> {
    Seq::new(ifaces.len(), |i: int| encode_utf8(lower_of(ifaces[i].name@)))
}

/// Each interface's MAC.
pub open spec fn macs_of(ifaces: Seq<NetInterface>) -> Seq<Seq<char>> {
    Seq::new(ifaces.len(), |i: int| ifaces[i].mac@)
}

/// Whether `p` occurs in `s`.
pub fn contains_bytes(s: &[u8], p: &[u8]) -> (r: bool)
    ensures
        r == occurs(s@, p@),
{
    if p.len() > s.len() {
        return false;
    }
    if p.len() == 0 {
        assert(s@.subrange(0, 0) =~= p@);
        assert(occurs_at(s@, p@, 0));
        return true;
    }
    let n: usize = s.len();
    let bound: usize = n - p.len() + 1;
    let mut i: usize = 0;
    while i < bound
        invariant
            bound + p@.len() == s@.len() + 1,
            n == s@.len(),
            i <= bound,
            forall|k: int| 0 <= k < i ==> !occurs_at(s@, p@, k),
        decreases bound - i,
    {
        let mut j: usize = 0;
        let mut same = true;
        while j < p.len()
            invariant
                i < bound,
                n == s@.len(),
                bound + p@.len() == s@.len() + 1,
                j <= p@.len(),
                same == (forall|k: int| 0 <= k < j ==> s@[i + k] == p@[k]),
            decreases p@.len() - j,
        {
            assert(i + j < s@.len());
            if s[i + j] != p[j] {
                same = false;
            }
            j = j + 1;
        }
        if same {
            assert(s@.subrange(i as int, i + p@.len()) =~= p@);
            assert(occurs_at(s@, p@, i as int));
            return true;
        } else {
            assert(!occurs_at(s@, p@, i as int)) by {
                let k = choose|k: int| 0 <= k < p@.len() && s@[i + k] != p@[k];
                if occurs_at(s@, p@, i as int) {
                    assert(s@.subrange(i as int, i + p@.len())[k] == p@[k]);
                }
            }
        }
        i = i + 1;
    }
    assert forall|k: int| !occurs_at(s@, p@, k) by {
        if 0 <= k < bound {
        }
    }
    false
}

/// Whether the lower-case name `n` marks a preferred adapter.
pub fn preferred_name(n: &str) -> (r: bool)
    ensures
        r == is_preferred(n.spec_bytes()),
{
    let b = n.as_bytes();
    !contains_bytes(b, "virtual".as_bytes())
        && !contains_bytes(b, "vpn".as_bytes())
        && !contains_bytes(b, "vethernet".as_bytes())
        && !contains_bytes(b, "loopback".as_bytes())
        && (contains_bytes(b, "ethernet".as_bytes())
            || contains_bytes(b, "wi-fi".as_bytes())
            || contains_bytes(b, "wlan".as_bytes()))
}

/// Whether the lower-case name `n` is not a loopback's.
pub fn not_loopback_name(n: &str) -> (r: bool)
    ensures
        r == is_not_loopback(n.spec_bytes()),
{
    !contains_bytes(n.as_bytes(), "loopback".as_bytes())
}

/// The index of the first interface from `start` on whose (lower-case) name
/// passes the strict or the loose test.
fn first_passing(ifaces: &Vec<NetInterface>, start: usize, strict: bool) -> (r: usize)
    requires
        start <= ifaces@.len(),
    ensures
        r as int == first_from(names_of(ifaces@), start as int, strict),
    decreases ifaces@.len() - start,
{
    if start == ifaces.len() {
        return start;
    }
    let n = ifaces[start].name.as_str();
    let pass = if strict { preferred_name(n) } else { not_loopback_name(n) };
    if pass {
        start
    } else {
        first_passing(ifaces, start + 1, strict)
    }
}

/// Chooses the MAC among interfaces whose names are already in lower case: the
/// first preferred adapter's, else the first non-loopback adapter's, else the
/// fixed fallback address.
pub fn choose_mac(ifaces: &Vec<NetInterface>) -> (r: String)
    ensures
        r@ == selected_mac(names_of(ifaces@), macs_of(ifaces@)),
{
    let a = first_passing(ifaces, 0, true);
    if a < ifaces.len() && !ifaces[a].mac.as_str().is_empty() {
        return ifaces[a].mac.clone();
    }
    let b = first_passing(ifaces, 0, false);
    if b < ifaces.len() && !ifaces[b].mac.as_str().is_empty() {
        return ifaces[b].mac.clone();
    }
    default_mac()
}

/// The fixed MAC used when no interface yields one.
pub fn default_mac() -> (r: String)
    ensures
        r@ == fallback_mac(),
{
    String::from_str("902E168B9AC1")
}

/// Chooses the MAC that identifies this machine among `ifaces`, comparing
/// names without regard to case.
pub fn select_mac(ifaces: &Vec<NetInterface>) -> (r: String)
    ensures
        r@ == selected_mac(lowered_names_of(ifaces@), macs_of(ifaces@)),
{
    let mut lowered: Vec<NetInterface> = Vec::new();
    let mut i: usize = 0;
    while i < ifaces.len()
        invariant
            i <= ifaces@.len(),
            lowered@.len() == i,
            forall|k: int| 0 <= k < i ==> (#[trigger] lowered@[k]).name@ == lower_of(ifaces@[k].name@)
                && lowered@[k].mac@ == ifaces@[k].mac@,
        decreases ifaces@.len() - i,
    {
        let name = lowercase(ifaces[i].name.as_str());
        let mac = ifaces[i].mac.clone();
        lowered.push(NetInterface { name, mac });
        i = i + 1;
    }
    assert(names_of(lowered@) =~= lowered_names_of(ifaces@));
    assert(macs_of(lowered@) =~= macs_of(ifaces@));
    choose_mac(&lowered)
}

proof fn lemma_first_from(names: Seq<Seq<u8>>, i: int, j: int, strict: bool)
    requires
        0 <= i <= j <= names.len(),
        forall|k: int| i <= k < j ==> !passes(#[trigger] names[k], strict),
        j == names.len() || passes(names[j], strict),
    ensures
        first_from(names, i, strict) == j,
    decreases j - i,
{
    if i < j {
        lemma_first_from(names, i + 1, j, strict);
    }
}

/// The first preferred adapter with an address gives the MAC, whatever virtual,
/// VPN or loopback adapters stand around it.
pub proof fn lemma_preferred_adapter_chosen(names: Seq<Seq<u8>>, macs: Seq<Seq<char>>, j: int)
    requires
        names.len() == macs.len(),
        0 <= j < names.len(),
        is_preferred(names[j]),
        macs[j].len() > 0,
        forall|k: int| 0 <= k < j ==> !is_preferred(#[trigger] names[k]),
    ensures
        selected_mac(names, macs) == macs[j],
{
    lemma_first_from(names, 0, j, true);
}

/// Where every interface is a loopback (or there is none), the fixed address is used.
pub proof fn lemma_only_loopbacks_fall_back(names: Seq<Seq<u8>>, macs: Seq<Seq<char>>)
    requires
        names.len() == macs.len(),
        forall|k: int| 0 <= k < names.len() ==> !is_not_loopback(#[trigger] names[k]),
    ensures
        selected_mac(names, macs) == fallback_mac(),
{
    assert forall|k: int| 0 <= k < names.len() implies !passes(#[trigger] names[k], true) by {
        assert(!is_not_loopback(names[k]));
    }
    lemma_first_from(names, 0, names.len() as int, true);
    lemma_first_from(names, 0, names.len() as int, false);
}

} // verus!
