//! The Internet checksum: the one's-complement sum of 16-bit words,
//! complemented.
//!
//! The sums themselves are computed by `pnet`. What this module adds is
//! their statement, which the layers' own contracts are proved from.

use crate::addr::Ipv4Addr;
use crate::wire::{be16, overwrite};
use pnet::packet::ipv4::Ipv4Packet;
use pnet::packet::tcp::TcpPacket;
use vstd::prelude::*;

verus! {

/// The protocol number that stands for TCP in a pseudo-header.
pub const TCP_PROTOCOL: u8 = 6;

/// The longest TCP segment whose length fits the 16 bits a pseudo-header
/// has for it.
pub const MAX_SEGMENT: usize = 0xffff;

/// The sum of the 16-bit words of `data`, each read high byte first. A last
/// byte without a partner counts as the high byte of a word.
pub open spec fn word_sum(data: Seq<u8>) -> nat
    decreases data.len(),
{
    if data.len() == 0 {
        0
    } else if data.len() == 1 {
        data[0] as nat * 0x100
    } else {
        (data[0] as nat * 0x100 + data[1] as nat) + word_sum(data.skip(2))
    }
}

/// `sum` with everything above 16 bits added back in, until nothing is
/// left above.
pub open spec fn fold_carries(sum: nat) -> nat
    decreases sum,
{
    if sum < 0x1_0000 {
        sum
    } else {
        fold_carries(sum / 0x1_0000 + sum % 0x1_0000)
    }
}

/// The checksum that belongs to a sum of words.
pub open spec fn complement(sum: nat) -> u16 {
    (0xffff - fold_carries(sum)) as u16
}

/// `data` with the two bytes of its checksum field, at `at`, taken as zero.
pub open spec fn with_zero_field(data: Seq<u8>, at: int) -> Seq<u8> {
    overwrite(data, at, seq![0u8, 0u8])
}

/// The number of bytes that an IPv4 header says it has: four for each word
/// counted in the lower half of its first byte.
pub open spec fn declared_header_len(packet: Seq<u8>) -> int {
    4 * (packet[0] as int % 16)
}

/// The checksum of an IPv4 header, given as all of its bytes. The checksum
/// field, bytes 10 and 11, does not count.
pub open spec fn ipv4_checksum_of(header: Seq<u8>) -> u16 {
    complement(word_sum(with_zero_field(header, 10)))
}

/// What a pseudo-header adds to the sum of a TCP segment: both addresses,
/// the protocol number and the length of the segment.
pub open spec fn pseudo_header_sum(source: u32, destination: u32, length: nat) -> nat {
    (source / 0x1_0000 + source % 0x1_0000 + destination / 0x1_0000 + destination % 0x1_0000
        + TCP_PROTOCOL + length) as nat
}

/// The checksum of a TCP segment, header and payload, between two IPv4
/// addresses. The checksum field, bytes 16 and 17, does not count.
pub open spec fn tcp_checksum_of(segment: Seq<u8>, source: u32, destination: u32) -> u16 {
    complement(
        pseudo_header_sum(source, destination, segment.len()) + word_sum(
            with_zero_field(segment, 16),
        ),
    )
}

/// Calls `pnet::packet::ipv4::checksum` on a packet that starts at the first
/// byte of `packet`.
///
/// Trusted: that function sums the 16-bit words of the header, as long as
/// the packet's first byte declares it, leaves out the word of the checksum
/// field, folds the carries and complements. The declared length has to lie
/// between the 20 bytes of a bare header and the end of `packet`; `pnet`
/// would otherwise sum another range.
#[verifier::external_body]
pub(crate) fn pnet_ipv4_checksum(packet: &[u8]) -> (sum: u16)
    requires
        20 <= declared_header_len(packet@) <= packet@.len(),
    ensures
        sum == ipv4_checksum_of(packet@.take(declared_header_len(packet@))),
{
    match Ipv4Packet::new(packet) {
        Some(view) => pnet::packet::ipv4::checksum(&view),
        None => 0,
    }
}

/// Calls `pnet::packet::tcp::ipv4_checksum` on a segment that fills
/// `segment`.
///
/// Trusted: that function adds the words of both addresses, the protocol
/// number 6, the length of `segment` and the words of `segment` but for its
/// checksum field, folds the carries and complements. It adds in 32 bits,
/// which a segment of at most 65535 bytes cannot overflow.
#[verifier::external_body]
pub(crate) fn pnet_tcp_checksum(segment: &[u8], source: u32, destination: u32) -> (sum: u16)
    requires
        20 <= segment@.len() <= MAX_SEGMENT,
    ensures
        sum == tcp_checksum_of(segment@, source, destination),
{
    match TcpPacket::new(segment) {
        Some(view) => pnet::packet::tcp::ipv4_checksum(&view, &source.into(), &destination.into()),
        None => 0,
    }
}

/// The checksum of the IPv4 header at the start of `packet`, or nothing
/// where `packet` does not hold the whole header that its first byte
/// declares.
pub fn ipv4_checksum(packet: &[u8]) -> (sum: Option<u16>)
    ensures
        sum == if packet@.len() > 0 && 20 <= declared_header_len(packet@) <= packet@.len() {
            Some(ipv4_checksum_of(packet@.take(declared_header_len(packet@))))
        } else {
            None
        },
{
    if packet.len() == 0 {
        return None;
    }
    let first = packet[0];
    assert(first & 0x0f == first % 16) by (bit_vector);
    let declared: usize = 4 * ((first & 0x0f) as usize);
    if declared < 20 || declared > packet.len() {
        return None;
    }
    Some(pnet_ipv4_checksum(packet))
}

/// The checksum of the TCP segment that fills `segment`, sent from `source`
/// to `destination`, or nothing where `segment` is shorter than a TCP
/// header or longer than a pseudo-header can say.
pub fn tcp_checksum(segment: &[u8], source: Ipv4Addr, destination: Ipv4Addr) -> (sum: Option<u16>)
    ensures
        sum == if 20 <= segment@.len() <= MAX_SEGMENT {
            Some(tcp_checksum_of(segment@, source.bits, destination.bits))
        } else {
            None
        },
{
    if segment.len() < 20 || segment.len() > MAX_SEGMENT {
        return None;
    }
    Some(pnet_tcp_checksum(segment, source.bits, destination.bits))
}

/// The sum of words goes by parts, where the first part has an even number
/// of bytes.
pub proof fn lemma_word_sum_split(data: Seq<u8>, at: int)
    requires
        0 <= at <= data.len(),
        at % 2 == 0,
    ensures
        word_sum(data) == word_sum(data.take(at)) + word_sum(data.skip(at)),
    decreases at,
{
    if at == 0 {
        assert(data.skip(0) == data);
    } else {
        let rest = data.skip(2);
        lemma_word_sum_split(rest, at - 2);
        assert(rest.take(at - 2) == data.take(at).skip(2));
        assert(rest.skip(at - 2) == data.skip(at));
        assert(data.take(at)[0] == data[0] && data.take(at)[1] == data[1]);
    }
}

/// A word written into its own place adds its value to the sum of the
/// other words.
pub proof fn lemma_word_sum_field(data: Seq<u8>, at: int, value: u16)
    requires
        0 <= at,
        at + 2 <= data.len(),
        at % 2 == 0,
    ensures
        word_sum(overwrite(data, at, be16(value))) == word_sum(with_zero_field(data, at)) + value,
{
    let written = overwrite(data, at, be16(value));
    let blank = with_zero_field(data, at);
    lemma_word_sum_split(written, at);
    lemma_word_sum_split(blank, at);
    assert(written.take(at) == blank.take(at));
    assert(written.skip(at).skip(2) == data.skip(at + 2));
    assert(blank.skip(at).skip(2) == data.skip(at + 2));
    assert(written.skip(at)[0] == be16(value)[0] && written.skip(at)[1] == be16(value)[1]);
    assert(blank.skip(at)[0] == 0 && blank.skip(at)[1] == 0);
}

/// Folding keeps a sum below 16 bits, keeps what it is modulo 0xffff, and
/// makes nothing but zero into zero.
pub proof fn lemma_fold_carries(sum: nat)
    ensures
        fold_carries(sum) <= 0xffff,
        fold_carries(sum) % 0xffff == sum % 0xffff,
        sum > 0 ==> fold_carries(sum) > 0,
    decreases sum,
{
    if sum >= 0x1_0000 {
        let high = sum / 0x1_0000;
        let low = sum % 0x1_0000;
        lemma_fold_carries(high + low);
        assert(sum == high * 0xffff + (high + low));
        assert((high * 0xffff + (high + low)) % 0xffff == (high + low) % 0xffff) by {
            vstd::arithmetic::div_mod::lemma_mod_multiples_vanish(
                high as int,
                (high + low) as int,
                0xffff,
            );
        }
    }
}

/// Summed together with its checksum, data gives the all-ones word: what
/// a receiver tests.
pub proof fn lemma_complement_validates(sum: nat)
    ensures
        fold_carries(sum + complement(sum) as nat) == 0xffff,
{
    lemma_fold_carries(sum);
    let folded = fold_carries(sum);
    let total = (sum + 0xffff - folded) as nat;
    lemma_fold_carries(total);
    assert(total % 0xffff == 0) by {
        let quotient = sum as int / 0xffff - folded as int / 0xffff;
        assert(sum - folded == 0xffff * quotient);
        vstd::arithmetic::div_mod::lemma_mod_multiples_vanish(quotient + 1, 0, 0xffff);
        assert((0xffff * (quotient + 1) + 0) % 0xffff == 0int % 0xffff);
        assert(total == 0xffff * (quotient + 1) + 0);
    }
}

/// An IPv4 header with its checksum in place sums to the all-ones word.
pub proof fn lemma_ipv4_checksum_validates(header: Seq<u8>)
    requires
        header.len() >= 12,
    ensures
        fold_carries(word_sum(overwrite(header, 10, be16(ipv4_checksum_of(header)))))
            == 0xffff,
{
    lemma_word_sum_field(header, 10, ipv4_checksum_of(header));
    lemma_complement_validates(word_sum(with_zero_field(header, 10)));
}

/// A TCP segment with its checksum in place sums, together with its
/// pseudo-header, to the all-ones word.
pub proof fn lemma_tcp_checksum_validates(segment: Seq<u8>, source: u32, destination: u32)
    requires
        segment.len() >= 18,
    ensures
        fold_carries(
            pseudo_header_sum(source, destination, segment.len()) + word_sum(
                overwrite(segment, 16, be16(tcp_checksum_of(segment, source, destination))),
            ),
        ) == 0xffff,
{
    lemma_word_sum_field(segment, 16, tcp_checksum_of(segment, source, destination));
    lemma_complement_validates(
        pseudo_header_sum(source, destination, segment.len()) + word_sum(
            with_zero_field(segment, 16),
        ),
    );
}

} // verus!
