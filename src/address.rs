//! IPv4 host addresses, /24 prefixes, and their dotted-decimal text.
use vstd::prelude::*;

verus! {

/// A 4-octet IPv4 host address `a.b.c.d`.
#[derive(Clone, Copy, Debug, PartialEq, Eq, Structural, Hash)]
pub struct Address {
    pub a: u8,
    pub b: u8,
    pub c: u8,
    pub d: u8,
}

/// The first three octets of a /24 subnet `a.b.c.0/24`.
#[derive(Clone, Copy, Debug, PartialEq, Eq, Structural, Hash)]
pub struct Subnet {
    pub a: u8,
    pub b: u8,
    pub c: u8,
}

/// ASCII code of the full stop that separates the octets.
pub const DOT: u8 = 46;

pub open spec fn is_digit(b: u8) -> bool {
    48 <= b <= 57
}

/// The ASCII digit for a value below ten.
pub open spec fn digit(n: int) -> u8 {
    (48 + n) as u8
}

/// The decimal text of an octet, without leading zeros.
pub open spec fn decimal(n: u8) -> Seq<u8> {
    let n = n as int;
    if n < 10 {
        seq![digit(n)]
    } else if n < 100 {
        seq![digit(n / 10), digit(n % 10)]
    } else {
        seq![digit(n / 100), digit((n / 10) % 10), digit(n % 10)]
    }
}

impl Address {
    /// Dotted-decimal text, as in `192.168.1.20`.
    pub open spec fn text(self) -> Seq<u8> {
        decimal(self.a) + seq![DOT] + decimal(self.b) + seq![DOT] + decimal(self.c) + seq![DOT]
            + decimal(self.d)
    }

    /// In one of the private ranges `192.168.0.0/16` or `10.0.0.0/8`.
    pub open spec fn private(self) -> bool {
        (self.a == 192 && self.b == 168) || self.a == 10
    }

    pub open spec fn subnet_of(self) -> Subnet {
        Subnet { a: self.a, b: self.b, c: self.c }
    }

    /// The address builds from its four octets.
    pub fn new(a: u8, b: u8, c: u8, d: u8) -> (r: Address)
        ensures
            r == (Address { a, b, c, d }),
    {
        Address { a, b, c, d }
    }

    /// Whether the address lies in `192.168.0.0/16` or `10.0.0.0/8`.
    pub fn is_private(&self) -> (r: bool)
        ensures
            r == self.private(),
    {
        (self.a == 192 && self.b == 168) || self.a == 10
    }

    /// The /24 subnet that holds the address.
    pub fn subnet(&self) -> (r: Subnet)
        ensures
            r == self.subnet_of(),
    {
        Subnet { a: self.a, b: self.b, c: self.c }
    }

    /// Dotted-decimal text of the address, as ASCII bytes.
    pub fn to_text(&self) -> (r: Vec<u8>)
        ensures
            r@ == self.text(),
    {
        let mut r: Vec<u8> = Vec::new();
        push_decimal(&mut r, self.a);
        r.push(DOT);
        push_decimal(&mut r, self.b);
        r.push(DOT);
        push_decimal(&mut r, self.c);
        r.push(DOT);
        push_decimal(&mut r, self.d);
        r
    }
}

impl Subnet {
    /// The host `a.b.c.host` of this subnet.
    pub open spec fn host(self, host: u8) -> Address {
        Address { a: self.a, b: self.b, c: self.c, d: host }
    }

    pub open spec fn contains(self, x: Address) -> bool {
        x.subnet_of() == self
    }
}

fn push_decimal(v: &mut Vec<u8>, n: u8)
    ensures
        final(v)@ == old(v)@ + decimal(n),
{
    if n < 10 {
        v.push(48 + n);
    } else if n < 100 {
        v.push(48 + n / 10);
        v.push(48 + n % 10);
    } else {
        v.push(48 + n / 100);
        v.push(48 + (n / 10) % 10);
        v.push(48 + n % 10);
    }
}

/// The value of a decimal digit.
pub open spec fn digit_value(b: u8) -> int {
    b - 48
}

/// The value of at most three decimal digits.
pub open spec fn short_value(f: Seq<u8>) -> int {
    if f.len() == 1 {
        digit_value(f[0])
    } else if f.len() == 2 {
        10 * digit_value(f[0]) + digit_value(f[1])
    } else {
        100 * digit_value(f[0]) + 10 * digit_value(f[1]) + digit_value(f[2])
    }
}

/// One to three digits, with no leading zero, of value at most 255.
pub open spec fn octet_shaped(f: Seq<u8>) -> bool {
    &&& 1 <= f.len() <= 3
    &&& forall|i: int| 0 <= i < f.len() ==> is_digit(#[trigger] f[i])
    &&& f.len() > 1 ==> f[0] != 48
    &&& short_value(f) <= 255
}

proof fn lemma_decimal_iff(f: Seq<u8>, v: u8)
    ensures
        f == decimal(v) <==> octet_shaped(f) && short_value(f) == v,
{
    let t = decimal(v);
    if v < 10 {
        assert(t.len() == 1);
    } else if v < 100 {
        assert(t.len() == 2);
        assert(1 <= v / 10 <= 9 && v == 10 * (v / 10) + v % 10);
    } else {
        assert(t.len() == 3);
        assert(1 <= v / 100 <= 2 && v == 100 * (v / 100) + 10 * ((v / 10) % 10) + v % 10);
    }
    if f == t {
        assert(octet_shaped(f));
    }
    if octet_shaped(f) && short_value(f) == v {
        assert(is_digit(f[0]));
        if f.len() >= 2 {
            assert(is_digit(f[1]));
        }
        if f.len() == 3 {
            assert(is_digit(f[2]));
        }
        assert(f =~= t);
    }
}

/// Reads the octet whose decimal text is `s[lo..hi]`, if it is one.
pub fn parse_octet(s: &[u8], lo: usize, hi: usize) -> (r: Option<u8>)
    requires
        lo <= hi <= s@.len(),
    ensures
        match r {
            Some(v) => s@.subrange(lo as int, hi as int) == decimal(v),
            None => forall|v: u8| s@.subrange(lo as int, hi as int) != decimal(v),
        },
{
    let ghost f = s@.subrange(lo as int, hi as int);
    proof {
        assert forall|v: u8| f == decimal(v) <==> octet_shaped(f) && short_value(f) == v by {
            lemma_decimal_iff(f, v);
        }
    }
    let n = hi - lo;
    if n == 0 || n > 3 {
        return None;
    }
    let x = s[lo];
    if !(48 <= x && x <= 57) || (n > 1 && x == 48) {
        assert(!is_digit(f[0]) || f[0] == 48);
        return None;
    }
    let mut w: u32 = x as u32 - 48;
    if n >= 2 {
        let y = s[lo + 1];
        if !(48 <= y && y <= 57) {
            assert(!is_digit(f[1]));
            return None;
        }
        w = 10 * w + (y as u32 - 48);
    }
    if n == 3 {
        let z = s[lo + 2];
        if !(48 <= z && z <= 57) {
            assert(!is_digit(f[2]));
            return None;
        }
        w = 10 * w + (z as u32 - 48);
    }
    assert(w == short_value(f));
    if w <= 255 {
        assert(forall|k: int| 0 <= k < f.len() ==> is_digit(#[trigger] f[k]));
        Some(w as u8)
    } else {
        None
    }
}

proof fn lemma_decimal_digits_only(v: u8)
    ensures
        1 <= decimal(v).len() <= 3,
        forall|i: int| 0 <= i < decimal(v).len() ==> is_digit(#[trigger] decimal(v)[i]),
{
    lemma_decimal_iff(decimal(v), v);
}

/// Where the three dots stand in the text of an address.
proof fn lemma_text_layout(x: Address)
    ensures
        ({
            let t = x.text();
            let i = decimal(x.a).len() as int;
            let j = i + 1 + decimal(x.b).len();
            let k = j + 1 + decimal(x.c).len();
            &&& t.len() == k + 1 + decimal(x.d).len()
            &&& t[i] == DOT && t[j] == DOT && t[k] == DOT
            &&& forall|p: int| 0 <= p < t.len() && p != i && p != j && p != k ==> is_digit(#[trigger] t[p])
            &&& t.subrange(0, i) == decimal(x.a)
            &&& t.subrange(i + 1, j) == decimal(x.b)
            &&& t.subrange(j + 1, k) == decimal(x.c)
            &&& t.subrange(k + 1, t.len() as int) == decimal(x.d)
        }),
{
    lemma_decimal_digits_only(x.a);
    lemma_decimal_digits_only(x.b);
    lemma_decimal_digits_only(x.c);
    lemma_decimal_digits_only(x.d);
    let t = x.text();
    let i = decimal(x.a).len() as int;
    let j = i + 1 + decimal(x.b).len();
    let k = j + 1 + decimal(x.c).len();
    assert(t.subrange(0, i) =~= decimal(x.a));
    assert(t.subrange(i + 1, j) =~= decimal(x.b));
    assert(t.subrange(j + 1, k) =~= decimal(x.c));
    assert(t.subrange(k + 1, t.len() as int) =~= decimal(x.d));
    assert forall|p: int| 0 <= p < t.len() && p != i && p != j && p != k implies is_digit(
        #[trigger] t[p],
    ) by {
        if p < i {
            assert(t[p] == decimal(x.a)[p]);
        } else if p < j {
            assert(t[p] == decimal(x.b)[p - i - 1]);
        } else if p < k {
            assert(t[p] == decimal(x.c)[p - j - 1]);
        } else {
            assert(t[p] == decimal(x.d)[p - k - 1]);
        }
    }
}

/// The first index in `from..to` that holds a dot, or `to` when none does.
fn find_dot(s: &[u8], from: usize, to: usize) -> (r: usize)
    requires
        from <= to <= s@.len(),
    ensures
        from <= r <= to,
        forall|k: int| from <= k < r ==> s@[k] != DOT,
        r < to ==> s@[r as int] == DOT,
{
    let mut i = from;
    while i < to && s[i] != DOT
        invariant
            from <= i <= to <= s@.len(),
            forall|k: int| from <= k < i ==> s@[k] != DOT,
        decreases to - i,
    {
        i = i + 1;
    }
    i
}

/// Where the address texts `s[lo..hi]` are split at the dots `p < q < u`.
pub open spec fn split_at_dots(s: Seq<u8>, lo: int, hi: int, p: int, q: int, u: int, x: Address) -> bool {
    &&& 0 <= lo <= p < q < u < hi <= s.len()
    &&& s[p] == DOT && s[q] == DOT && s[u] == DOT
    &&& s.subrange(lo, p) == decimal(x.a)
    &&& s.subrange(p + 1, q) == decimal(x.b)
    &&& s.subrange(q + 1, u) == decimal(x.c)
    &&& s.subrange(u + 1, hi) == decimal(x.d)
}

/// The text of an address splits at its first three dots.
proof fn lemma_first_dots(s: Seq<u8>, lo: int, hi: int, p: int, q: int, u: int, x: Address)
    requires
        0 <= lo <= p <= hi <= s.len(),
        forall|k: int| lo <= k < p ==> s[k] != DOT,
        p < hi ==> s[p] == DOT,
        p < hi ==> p + 1 <= q <= hi,
        p < hi ==> forall|k: int| p + 1 <= k < q ==> s[k] != DOT,
        q < hi ==> s[q] == DOT,
        q < hi ==> q + 1 <= u <= hi,
        q < hi ==> forall|k: int| q + 1 <= k < u ==> s[k] != DOT,
        u < hi ==> s[u] == DOT,
        s.subrange(lo, hi) == x.text(),
    ensures
        split_at_dots(s, lo, hi, p, q, u, x),
{
    let f = s.subrange(lo, hi);
    lemma_text_layout(x);
    let i = decimal(x.a).len() as int;
    let j = i + 1 + decimal(x.b).len();
    let k = j + 1 + decimal(x.c).len();
    assert(s[lo + i] == f[i]);
    if p < lo + i {
        assert(f[p - lo] == s[p]);
    }
    assert(p == lo + i);
    assert(s[lo + j] == f[j]);
    if q < lo + j {
        assert(f[q - lo] == s[q]);
    }
    assert(q == lo + j);
    assert(s[lo + k] == f[k]);
    if u < lo + k {
        assert(f[u - lo] == s[u]);
    }
    assert(u == lo + k);
    assert(s.subrange(lo, p) =~= f.subrange(0, i));
    assert(s.subrange(p + 1, q) =~= f.subrange(i + 1, j));
    assert(s.subrange(q + 1, u) =~= f.subrange(j + 1, k));
    assert(s.subrange(u + 1, hi) =~= f.subrange(k + 1, f.len() as int));
}

/// Four octets between three dots make the text of their address.
proof fn lemma_joined_text(s: Seq<u8>, lo: int, hi: int, p: int, q: int, u: int, x: Address)
    requires
        split_at_dots(s, lo, hi, p, q, u, x),
    ensures
        s.subrange(lo, hi) == x.text(),
{
    lemma_append_field(s, lo, p, q);
    lemma_append_field(s, lo, q, u);
    lemma_append_field(s, lo, u, hi);
}

/// `s[lo..p]`, a dot, and `s[p+1..q]` make `s[lo..q]`.
proof fn lemma_append_field(s: Seq<u8>, lo: int, p: int, q: int)
    requires
        0 <= lo <= p < q <= s.len(),
        s[p] == DOT,
    ensures
        s.subrange(lo, p) + seq![DOT] + s.subrange(p + 1, q) == s.subrange(lo, q),
        s.subrange(lo, p + 1) == s.subrange(lo, p) + seq![DOT],
{
    assert(s.subrange(lo, p) + seq![DOT] =~= s.subrange(lo, p + 1));
    assert(s.subrange(lo, p + 1) + s.subrange(p + 1, q) =~= s.subrange(lo, q));
}

/// The address whose dotted-decimal text is `t`, if there is one.
pub open spec fn address_of(t: Seq<u8>) -> Option<Address> {
    if exists|x: Address| x.text() == t {
        Some(choose|x: Address| x.text() == t)
    } else {
        None
    }
}

/// No two addresses share a text.
pub proof fn lemma_text_injective(x: Address, y: Address)
    requires
        x.text() == y.text(),
    ensures
        x == y,
{
    let t = x.text();
    lemma_text_layout(x);
    let i = decimal(x.a).len() as int;
    let j = i + 1 + decimal(x.b).len();
    let k = j + 1 + decimal(x.c).len();
    assert forall|m: int| 0 <= m < i implies t[m] != DOT by {
        assert(is_digit(t[m]));
    }
    assert forall|m: int| i + 1 <= m < j implies t[m] != DOT by {
        assert(is_digit(t[m]));
    }
    assert forall|m: int| j + 1 <= m < k implies t[m] != DOT by {
        assert(is_digit(t[m]));
    }
    assert(t.subrange(0, t.len() as int) =~= t);
    lemma_first_dots(t, 0, t.len() as int, i, j, k, y);
    lemma_decimal_iff(decimal(x.a), x.a);
    lemma_decimal_iff(decimal(x.a), y.a);
    lemma_decimal_iff(decimal(x.b), x.b);
    lemma_decimal_iff(decimal(x.b), y.b);
    lemma_decimal_iff(decimal(x.c), x.c);
    lemma_decimal_iff(decimal(x.c), y.c);
    lemma_decimal_iff(decimal(x.d), x.d);
    lemma_decimal_iff(decimal(x.d), y.d);
}

/// The parse of a text agrees with `address_of`.
proof fn lemma_address_of(t: Seq<u8>, r: Option<Address>)
    requires
        match r {
            Some(x) => t == x.text(),
            None => forall|x: Address| t != x.text(),
        },
    ensures
        r == address_of(t),
{
    if let Some(x) = r {
        let y = choose|y: Address| y.text() == t;
        lemma_text_injective(x, y);
    }
}

/// Reads the address whose dotted-decimal text is `s[lo..hi]`, if it is one.
pub fn parse_address_in(s: &[u8], lo: usize, hi: usize) -> (r: Option<Address>)
    requires
        lo <= hi <= s@.len(),
    ensures
        r == address_of(s@.subrange(lo as int, hi as int)),
        match r {
            Some(x) => s@.subrange(lo as int, hi as int) == x.text(),
            None => forall|x: Address| s@.subrange(lo as int, hi as int) != x.text(),
        },
{
    let p = find_dot(s, lo, hi);
    let q = if p < hi { find_dot(s, p + 1, hi) } else { hi };
    let u = if q < hi { find_dot(s, q + 1, hi) } else { hi };
    let oa = parse_octet(s, lo, p);
    let ob = if p < hi { parse_octet(s, p + 1, q) } else { None };
    let oc = if q < hi { parse_octet(s, q + 1, u) } else { None };
    let od = if u < hi { parse_octet(s, u + 1, hi) } else { None };
    match (oa, ob, oc, od) {
        (Some(a), Some(b), Some(c), Some(d)) => {
            let x = Address { a, b, c, d };
            proof {
                lemma_joined_text(s@, lo as int, hi as int, p as int, q as int, u as int, x);
                lemma_address_of(s@.subrange(lo as int, hi as int), Some(x));
            }
            Some(x)
        },
        _ => {
            assert forall|x: Address| s@.subrange(lo as int, hi as int) != x.text() by {
                if s@.subrange(lo as int, hi as int) == x.text() {
                    lemma_first_dots(s@, lo as int, hi as int, p as int, q as int, u as int, x);
                }
            }
            proof {
                lemma_address_of(s@.subrange(lo as int, hi as int), None);
            }
            None
        },
    }
}

/// Reads an address from its dotted-decimal text, as in `192.168.1.20`.
pub fn parse_address(s: &[u8]) -> (r: Option<Address>)
    ensures
        r == address_of(s@),
        match r {
            Some(x) => s@ == x.text(),
            None => forall|x: Address| s@ != x.text(),
        },
{
    let r = parse_address_in(s, 0, s.len());
    assert(s@.subrange(0, s@.len() as int) =~= s@);
    r
}

} // verus!
