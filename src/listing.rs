//! Reading this host's own private address out of the operating system's
//! listing of its network interfaces.
//!
//! Two textual formats are read: a plain list of addresses separated by
//! whitespace (as `hostname -I` prints it), and an interface report whose
//! address lines carry the label `IPv4` and the address after a colon (as
//! `ipconfig` prints it). Both are normalised to one answer: the first
//! address of a private range that the listing names. The listings are ASCII
//! text, so whitespace here is ASCII whitespace.
use vstd::prelude::*;

use crate::address::{address_of, parse_address_in, Address, Subnet};
use crate::text::{
    contains_within, drop_space_back, find_byte, find_from, find_word_end, is_space,
    is_space_byte, lemma_find_from_bounds, lemma_word_end_bounds, occurs_within, skip_space,
    trim_bounds, word_end,
};

verus! {

/// The textual format of an interface listing.
#[derive(Clone, Copy, Debug, PartialEq, Eq, Structural)]
pub enum ListingFormat {
    /// Addresses separated by whitespace.
    AddressList,
    /// Lines of `label : value`; an address line mentions `IPv4`.
    InterfaceReport,
}

/// Why this host's own network could not be determined.
#[derive(Clone, Copy, Debug, PartialEq, Eq, Structural)]
pub enum ResolutionError {
    /// The listing names no address of `192.168.0.0/16` or `10.0.0.0/8`.
    NoPrivateAddressFound,
    /// The operating system could not be asked for its interfaces.
    PlatformQueryFailed,
}

pub const COLON: u8 = 58;

pub const NEWLINE: u8 = 10;

/// The label `IPv4` that marks an address line of an interface report.
pub open spec fn ipv4_label() -> Seq<u8> {
    seq![73u8, 80u8, 118u8, 52u8]
}

/// The address that `t` spells, when it lies in a private range.
pub open spec fn private_address_of(t: Seq<u8>) -> Option<Address> {
    match address_of(t) {
        Some(x) => if x.private() {
            Some(x)
        } else {
            None
        },
        None => None,
    }
}

/// The first word from index `i` on that spells a private address.
pub open spec fn first_listed(s: Seq<u8>, i: int) -> Option<Address>
    decreases s.len() - i,
{
    if 0 <= i < s.len() {
        if is_space(s[i]) {
            first_listed(s, i + 1)
        } else {
            let j = word_end(s, i, s.len() as int);
            proof {
                lemma_word_end_bounds(s, i + 1, s.len() as int);
            }
            match private_address_of(s.subrange(i, j)) {
                Some(x) => Some(x),
                None => first_listed(s, j),
            }
        }
    } else {
        None
    }
}

/// The private address on the report line `s[lo..hi]`: the line mentions
/// `IPv4`, and the text between its first colon and the next one (or the end
/// of the line), trimmed of whitespace, spells the address.
pub open spec fn report_line(s: Seq<u8>, lo: int, hi: int) -> Option<Address> {
    if occurs_within(s, lo, hi, ipv4_label()) {
        let c = find_from(s, lo, hi, COLON);
        if c < hi {
            let e = find_from(s, c + 1, hi, COLON);
            let a = skip_space(s, c + 1, e);
            let b = drop_space_back(s, a, e);
            private_address_of(s.subrange(a, b))
        } else {
            None
        }
    } else {
        None
    }
}

/// The private address of the first report line from index `i` on that has one.
pub open spec fn first_reported(s: Seq<u8>, i: int) -> Option<Address>
    decreases s.len() - i,
{
    if 0 <= i < s.len() {
        let e = find_from(s, i, s.len() as int, NEWLINE);
        proof {
            lemma_find_from_bounds(s, i, s.len() as int, NEWLINE);
        }
        match report_line(s, i, e) {
            Some(x) => Some(x),
            None => if e < s.len() {
                first_reported(s, e + 1)
            } else {
                None
            },
        }
    } else {
        None
    }
}

/// This host's own address as a listing in the given format names it.
pub open spec fn own_address(s: Seq<u8>, format: ListingFormat) -> Option<Address> {
    match format {
        ListingFormat::AddressList => first_listed(s, 0),
        ListingFormat::InterfaceReport => first_reported(s, 0),
    }
}

fn ipv4_label_bytes() -> (r: Vec<u8>)
    ensures
        r@ == ipv4_label(),
{
    let r: Vec<u8> = vec![73, 80, 118, 52];
    assert(r@ =~= ipv4_label());
    r
}

/// The address that `s[lo..hi]` spells, when it lies in a private range.
fn private_address_in(s: &[u8], lo: usize, hi: usize) -> (r: Option<Address>)
    requires
        lo <= hi <= s@.len(),
    ensures
        r == private_address_of(s@.subrange(lo as int, hi as int)),
{
    match parse_address_in(s, lo, hi) {
        Some(x) => if x.is_private() {
            Some(x)
        } else {
            None
        },
        None => None,
    }
}

/// The first private address in a whitespace-separated list of addresses.
pub fn first_listed_address(s: &[u8]) -> (r: Option<Address>)
    ensures
        r == first_listed(s@, 0),
{
    let n = s.len();
    let mut i: usize = 0;
    while i < n
        invariant
            n == s@.len(),
            i <= n,
            first_listed(s@, i as int) == first_listed(s@, 0),
        decreases n - i,
    {
        if is_space_byte(s[i]) {
            i = i + 1;
        } else {
            let j = find_word_end(s, i, n);
            proof {
                lemma_word_end_bounds(s@, i + 1, n as int);
            }
            match private_address_in(s, i, j) {
                Some(x) => {
                    return Some(x);
                },
                None => {
                    i = j;
                },
            }
        }
    }
    None
}

/// The private address on one line `s[lo..hi]` of an interface report.
fn report_line_address(s: &[u8], lo: usize, hi: usize, label: &Vec<u8>) -> (r: Option<Address>)
    requires
        lo <= hi <= s@.len(),
        label@ == ipv4_label(),
    ensures
        r == report_line(s@, lo as int, hi as int),
{
    if !contains_within(s, lo, hi, label.as_slice()) {
        return None;
    }
    let c = find_byte(s, lo, hi, COLON);
    if c == hi {
        return None;
    }
    let e = find_byte(s, c + 1, hi, COLON);
    let (a, b) = trim_bounds(s, c + 1, e);
    private_address_in(s, a, b)
}

/// The first private address on an address line of an interface report.
pub fn first_reported_address(s: &[u8]) -> (r: Option<Address>)
    ensures
        r == first_reported(s@, 0),
{
    let label = ipv4_label_bytes();
    let n = s.len();
    let mut i: usize = 0;
    while i < n
        invariant
            n == s@.len(),
            i <= n,
            label@ == ipv4_label(),
            first_reported(s@, i as int) == first_reported(s@, 0),
        decreases n - i,
    {
        let e = find_byte(s, i, n, NEWLINE);
        match report_line_address(s, i, e, &label) {
            Some(x) => {
                return Some(x);
            },
            None => {
                if e == n {
                    return None;
                }
                i = e + 1;
            },
        }
    }
    None
}

/// This host's own address: the first address of `192.168.0.0/16` or
/// `10.0.0.0/8` that the interface listing names, if it names one.
pub fn get_own_ip(listing: &[u8], format: ListingFormat) -> (r: Option<Address>)
    ensures
        r == own_address(listing@, format),
        r matches Some(x) ==> x.private(),
{
    proof {
        lemma_own_address_private(listing@, format);
    }
    match format {
        ListingFormat::AddressList => first_listed_address(listing),
        ListingFormat::InterfaceReport => first_reported_address(listing),
    }
}

/// The /24 network to scan: the first three octets of this host's own address.
pub fn get_local_network(listing: &[u8], format: ListingFormat) -> (r: Option<(u8, u8, u8)>)
    ensures
        r == (match own_address(listing@, format) {
            Some(x) => Some((x.a, x.b, x.c)),
            None => None,
        }),
{
    match get_own_ip(listing, format) {
        Some(x) => Some((x.a, x.b, x.c)),
        None => None,
    }
}

/// This host's own address and its /24 subnet, from the listing that the
/// operating system gave (`None` when it could not be asked).
pub fn resolve_own_network(listing: Option<&[u8]>, format: ListingFormat) -> (r: Result<
    (Address, Subnet),
    ResolutionError,
>)
    ensures
        listing is None ==> r == Err::<(Address, Subnet), ResolutionError>(
            ResolutionError::PlatformQueryFailed,
        ),
        listing matches Some(s) ==> r == (match own_address(s@, format) {
            Some(x) => Ok((x, x.subnet_of())),
            None => Err(ResolutionError::NoPrivateAddressFound),
        }),
{
    match listing {
        None => Err(ResolutionError::PlatformQueryFailed),
        Some(s) => match get_own_ip(s, format) {
            Some(x) => Ok((x, x.subnet())),
            None => Err(ResolutionError::NoPrivateAddressFound),
        },
    }
}

proof fn lemma_first_listed_private(s: Seq<u8>, i: int)
    ensures
        first_listed(s, i) matches Some(x) ==> x.private(),
    decreases s.len() - i,
{
    if 0 <= i < s.len() {
        if is_space(s[i]) {
            lemma_first_listed_private(s, i + 1);
        } else {
            lemma_word_end_bounds(s, i + 1, s.len() as int);
            lemma_first_listed_private(s, word_end(s, i, s.len() as int));
        }
    }
}

proof fn lemma_first_reported_private(s: Seq<u8>, i: int)
    ensures
        first_reported(s, i) matches Some(x) ==> x.private(),
    decreases s.len() - i,
{
    if 0 <= i < s.len() {
        let e = find_from(s, i, s.len() as int, NEWLINE);
        lemma_find_from_bounds(s, i, s.len() as int, NEWLINE);
        if e < s.len() {
            lemma_first_reported_private(s, e + 1);
        }
    }
}

/// Whatever the format, the address read from a listing is private.
pub proof fn lemma_own_address_private(s: Seq<u8>, format: ListingFormat)
    ensures
        own_address(s, format) matches Some(x) ==> x.private(),
{
    lemma_first_listed_private(s, 0);
    lemma_first_reported_private(s, 0);
}

} // verus!
