//! IPv4 addresses as the 32 bits they are on the wire.

use crate::text::{decimal, push_decimal};
use crate::wire::be32;
use vstd::prelude::*;

verus! {

/// An IPv4 address. `bits` holds the four octets, the first one highest.
#[derive(Clone, Copy, Debug, PartialEq, Eq, Structural)]
pub struct Ipv4Addr {
    pub bits: u32,
}

impl Ipv4Addr {
    /// The four octets in the order they are written and sent.
    pub open spec fn spec_octets(self) -> Seq<u8> {
        be32(self.bits)
    }

    /// The address in dotted decimal.
    pub open spec fn spec_text(self) -> Seq<char> {
        let octets = self.spec_octets();
        decimal(octets[0] as nat) + seq!['.'] + decimal(octets[1] as nat) + seq!['.'] + decimal(
            octets[2] as nat,
        ) + seq!['.'] + decimal(octets[3] as nat)
    }

    /// The address `a.b.c.d`.
    pub fn new(a: u8, b: u8, c: u8, d: u8) -> (addr: Ipv4Addr)
        ensures
            addr.spec_octets() == seq![a, b, c, d],
            addr.bits == a * 0x100_0000 + b * 0x1_0000 + c * 0x100 + d,
    {
        let bits: u32 = ((a as u32) << 24) | ((b as u32) << 16) | ((c as u32) << 8) | (d as u32);
        assert(bits == a * 0x100_0000 + b * 0x1_0000 + c * 0x100 + d && bits / 0x100_0000 == a
            && bits / 0x1_0000 % 0x100 == b && bits / 0x100 % 0x100 == c && bits % 0x100 == d)
            by (bit_vector)
            requires
                bits == ((a as u32) << 24) | ((b as u32) << 16) | ((c as u32) << 8) | (d as u32),
        ;
        assert(be32(bits) =~= seq![a, b, c, d]);
        Ipv4Addr { bits }
    }

    /// The address whose octets are the bytes of `bits`, highest first.
    pub fn from_bits(bits: u32) -> (addr: Ipv4Addr)
        ensures
            addr.bits == bits,
    {
        Ipv4Addr { bits }
    }

    /// The octets as one number, the first octet highest.
    pub fn to_bits(&self) -> (bits: u32)
        ensures
            bits == self.bits,
    {
        self.bits
    }

    /// Appends the address in dotted decimal to `text`.
    pub fn push_text(&self, text: &mut String)
        ensures
            final(text)@ == old(text)@ + self.spec_text(),
    {
        let octets = self.octets();
        proof {
            reveal_strlit(".");
        }
        push_decimal(text, octets[0] as u32);
        text.append(".");
        push_decimal(text, octets[1] as u32);
        text.append(".");
        push_decimal(text, octets[2] as u32);
        text.append(".");
        push_decimal(text, octets[3] as u32);
        assert(text@ == old(text)@ + self.spec_text());
    }

    /// The address in dotted decimal.
    pub fn to_string(&self) -> (text: String)
        ensures
            text@ == self.spec_text(),
    {
        let mut text = String::new();
        self.push_text(&mut text);
        assert(text@ == self.spec_text());
        text
    }

    /// The four octets, first to last.
    pub fn octets(&self) -> (octets: [u8; 4])
        ensures
            octets@ == self.spec_octets(),
    {
        let bits = self.bits;
        assert(bits >> 24 == bits / 0x100_0000 && (bits >> 16) & 0xff == bits / 0x1_0000 % 0x100
            && (bits >> 8) & 0xff == bits / 0x100 % 0x100 && bits & 0xff == bits % 0x100)
            by (bit_vector);
        [
            (bits >> 24) as u8,
            ((bits >> 16) & 0xff) as u8,
            ((bits >> 8) & 0xff) as u8,
            (bits & 0xff) as u8,
        ]
    }
}

} // verus!
