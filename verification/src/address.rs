use vstd::prelude::*;

verus! {

/// The character that stands for a digit below 16.
pub open spec fn digit_char(d: nat) -> char {
    if d < 10 {
        (48 + d) as char
    } else {
        (87 + d) as char
    }
}

/// A number written to a base between 2 and 16, without leading zeros.
pub open spec fn numeral(n: nat, base: nat) -> Seq<char>
    recommends
        2 <= base <= 16,
    decreases n,
{
    if n < base || base < 2 {
        seq![digit_char(n)]
    } else {
        proof {
            lemma_quotient_is_less(n, base);
        }
        numeral(n / base, base).push(digit_char(n % base))
    }
}

/// Dividing by 2 or more makes a number that is not zero smaller, and a
/// number below the divisor is its own remainder.
pub proof fn lemma_quotient_is_less(n: nat, base: nat)
    requires
        2 <= base,
    ensures
        n >= base ==> n / base < n,
        n < base ==> n % base == n,
        n % base < base,
{
    assert(n >= base ==> n / base < n) by (nonlinear_arith)
        requires
            2 <= base,
    ;
    assert(n < base ==> n % base == n) by (nonlinear_arith)
        requires
            2 <= base,
    ;
    assert(n % base < base) by (nonlinear_arith)
        requires
            2 <= base,
    ;
}

/// Appends `n` written to the base `base`, without leading zeros.
pub fn push_numeral(s: &mut String, n: u16, base: u16)
    requires
        2 <= base <= 16,
    ensures
        final(s)@ == old(s)@ + numeral(n as nat, base as nat),
    decreases n,
{
    proof {
        lemma_quotient_is_less(n as nat, base as nat);
    }
    if n >= base {
        push_numeral(s, n / base, base);
    }
    let d = (n % base) as u8;
    let c = if d < 10 {
        (48 + d) as char
    } else {
        (87 + d) as char
    };
    let ghost before = s@;
    s.push(c);
    proof {
        if n >= base {
            assert(before.push(c) =~= old(s)@ + numeral(n as nat / base as nat, base as nat).push(
                digit_char(n as nat % base as nat),
            ));
        } else {
            assert(before.push(c) =~= old(s)@ + seq![digit_char(n as nat)]);
        }
    }
}

/// An IPv4 address: four octets.
#[derive(Debug, Clone, Copy, PartialEq, Eq)]
pub struct Ipv4Addr {
    pub a: u8,
    pub b: u8,
    pub c: u8,
    pub d: u8,
}

impl Ipv4Addr {
    /// The address with these four octets.
    pub fn new(a: u8, b: u8, c: u8, d: u8) -> (r: Self)
        ensures
            r == (Ipv4Addr { a, b, c, d }),
    {
        Ipv4Addr { a, b, c, d }
    }

    /// The four octets, the first one first.
    pub open spec fn spec_octets(self) -> Seq<u8> {
        seq![self.a, self.b, self.c, self.d]
    }

    /// The four octets, the first one first.
    pub fn octets(&self) -> (r: [u8; 4])
        ensures
            r@ == self.spec_octets(),
    {
        let r = [self.a, self.b, self.c, self.d];
        assert(r@ =~= self.spec_octets());
        r
    }
}

/// An IPv6 address: eight segments of 16 bits.
#[derive(Debug, Clone, Copy, PartialEq, Eq)]
pub struct Ipv6Addr {
    pub a: u16,
    pub b: u16,
    pub c: u16,
    pub d: u16,
    pub e: u16,
    pub f: u16,
    pub g: u16,
    pub h: u16,
}

impl Ipv6Addr {
    /// The address with these eight segments.
    pub fn new(a: u16, b: u16, c: u16, d: u16, e: u16, f: u16, g: u16, h: u16) -> (r: Self)
        ensures
            r == (Ipv6Addr { a, b, c, d, e, f, g, h }),
    {
        Ipv6Addr { a, b, c, d, e, f, g, h }
    }

    /// The eight segments, the first one first.
    pub open spec fn spec_segments(self) -> Seq<u16> {
        seq![self.a, self.b, self.c, self.d, self.e, self.f, self.g, self.h]
    }

    /// The eight segments, the first one first.
    pub fn segments(&self) -> (r: [u16; 8])
        ensures
            r@ == self.spec_segments(),
    {
        let r = [self.a, self.b, self.c, self.d, self.e, self.f, self.g, self.h];
        assert(r@ =~= self.spec_segments());
        r
    }
}

/// An address of either family.
#[derive(Debug, Clone, Copy, PartialEq, Eq)]
pub enum IpAddr {
    V4(Ipv4Addr),
    V6(Ipv6Addr),
}

impl Ipv4Addr {
    /// The address as text: its four octets in decimal with dots between them.
    pub open spec fn spec_text(self) -> Seq<char> {
        numeral(self.a as nat, 10) + seq!['.'] + numeral(self.b as nat, 10) + seq!['.'] + numeral(
            self.c as nat,
            10,
        ) + seq!['.'] + numeral(self.d as nat, 10)
    }

    /// Appends the address as text.
    pub fn push_text(&self, s: &mut String)
        ensures
            final(s)@ == old(s)@ + self.spec_text(),
    {
        push_numeral(s, self.a as u16, 10);
        s.push('.');
        push_numeral(s, self.b as u16, 10);
        s.push('.');
        push_numeral(s, self.c as u16, 10);
        s.push('.');
        push_numeral(s, self.d as u16, 10);
        proof {
            assert(s@ =~= old(s)@ + self.spec_text());
        }
    }
}

impl Ipv6Addr {
    /// The address as text: its eight segments in hexadecimal with colons
    /// between them. Runs of zero segments are written out.
    pub open spec fn spec_text(self) -> Seq<char> {
        numeral(self.a as nat, 16) + seq![':'] + numeral(self.b as nat, 16) + seq![':'] + numeral(
            self.c as nat,
            16,
        ) + seq![':'] + numeral(self.d as nat, 16) + seq![':'] + numeral(self.e as nat, 16)
            + seq![':'] + numeral(self.f as nat, 16) + seq![':'] + numeral(self.g as nat, 16)
            + seq![':'] + numeral(self.h as nat, 16)
    }

    /// Appends the address as text.
    pub fn push_text(&self, s: &mut String)
        ensures
            final(s)@ == old(s)@ + self.spec_text(),
    {
        push_numeral(s, self.a, 16);
        s.push(':');
        push_numeral(s, self.b, 16);
        s.push(':');
        push_numeral(s, self.c, 16);
        s.push(':');
        push_numeral(s, self.d, 16);
        s.push(':');
        push_numeral(s, self.e, 16);
        s.push(':');
        push_numeral(s, self.f, 16);
        s.push(':');
        push_numeral(s, self.g, 16);
        s.push(':');
        push_numeral(s, self.h, 16);
        proof {
            assert(s@ =~= old(s)@ + self.spec_text());
        }
    }
}

impl IpAddr {
    /// The address as text.
    pub open spec fn spec_text(self) -> Seq<char> {
        match self {
            IpAddr::V4(address) => address.spec_text(),
            IpAddr::V6(address) => address.spec_text(),
        }
    }

    /// Appends the address as text.
    pub fn push_text(&self, s: &mut String)
        ensures
            final(s)@ == old(s)@ + self.spec_text(),
    {
        match self {
            IpAddr::V4(address) => address.push_text(s),
            IpAddr::V6(address) => address.push_text(s),
        }
    }

    /// The address as text.
    pub fn text(&self) -> (r: String)
        ensures
            r@ == self.spec_text(),
    {
        let mut s = String::new();
        self.push_text(&mut s);
        proof {
            assert(Seq::<char>::empty() + self.spec_text() =~= self.spec_text());
        }
        s
    }
}

} // verus!
