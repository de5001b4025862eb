//! The IPv4 layer: its header as a record, and the header on the wire.

use crate::addr::Ipv4Addr;
use crate::checksum::{
    declared_header_len, fold_carries, ipv4_checksum_of, lemma_ipv4_checksum_validates,
    pnet_ipv4_checksum, word_sum, TCP_PROTOCOL,
};
use crate::layer::{Layer, LayerType, SerializeError};
use crate::options::{
    duplicate_records, encoded, lemma_encoded_len, lemma_split_covers, put_records, split,
    split_records, total_len, total_size_within, views, OptionRecord,
};
use crate::text::{decimal, push_decimal};
use crate::wire::{
    be16, be16_at, be32, be32_at, get_be16, get_be32, lemma_be16_inverse, lemma_be32_inverse,
    lemma_packed_inverse, lower_field, overwrite, pack_3_5, pack_4_4, pack_6_2, packed, put_be16,
    put_be32, unpack_3_5, unpack_4_4, unpack_6_2, upper_field,
};
use vstd::prelude::*;

verus! {

/// The flag that forbids fragmenting a packet.
pub const DONT_FRAGMENT: u8 = 0b010;

/// The flag of every fragment but the last.
pub const MORE_FRAGMENTS: u8 = 0b001;

/// The protocol number of UDP.
pub const UDP_PROTOCOL: u8 = 17;

/// The size of a header without options.
pub const BASE_SIZE: usize = 20;

/// The most 32-bit words a header can say it has.
pub const MAX_HEADER_WORDS: usize = 15;

/// The most bytes a packet can say it has.
pub const MAX_TOTAL_LENGTH: usize = 0xffff;

/// The hops a fresh packet may take.
pub const DEFAULT_TTL: u8 = 128;

/// The fields of an IPv4 header. A field narrower than its type keeps only
/// its lower bits on the wire. `header_length`, `total_length` and
/// `checksum` are what a captured packet said; they are counted anew when
/// the header is written. `payload` is carried along and never written:
/// the bytes behind a header are handed to the layer that writes them.
#[derive(Clone, Debug)]
pub struct Ipv4Header {
    pub version: u8,
    pub header_length: u8,
    pub dscp: u8,
    pub ecn: u8,
    pub total_length: u16,
    pub identification: u16,
    pub flags: u8,
    pub fragment_offset: u16,
    pub ttl: u8,
    pub next_level_protocol: u8,
    pub checksum: u16,
    pub source: Ipv4Addr,
    pub destination: Ipv4Addr,
    pub options: Vec<OptionRecord>,
    pub payload: Vec<u8>,
}

/// An IPv4 header as a mathematical value.
#[verifier::ext_equal]
pub struct Ipv4Fields {
    pub version: u8,
    pub header_length: u8,
    pub dscp: u8,
    pub ecn: u8,
    pub total_length: u16,
    pub identification: u16,
    pub flags: u8,
    pub fragment_offset: u16,
    pub ttl: u8,
    pub next_level_protocol: u8,
    pub checksum: u16,
    pub source: Ipv4Addr,
    pub destination: Ipv4Addr,
    pub options: Seq<Seq<u8>>,
    pub payload: Seq<u8>,
}

impl View for Ipv4Header {
    type V = Ipv4Fields;

    open spec fn view(&self) -> Ipv4Fields {
        Ipv4Fields {
            version: self.version,
            header_length: self.header_length,
            dscp: self.dscp,
            ecn: self.ecn,
            total_length: self.total_length,
            identification: self.identification,
            flags: self.flags,
            fragment_offset: self.fragment_offset,
            ttl: self.ttl,
            next_level_protocol: self.next_level_protocol,
            checksum: self.checksum,
            source: self.source,
            destination: self.destination,
            options: views(self.options@),
            payload: self.payload@,
        }
    }
}

/// The protocol number by which an IPv4 header names the layer above it.
/// Only TCP and UDP can ride on a header built here.
pub open spec fn upper_protocol(t: LayerType) -> Option<u8> {
    match t {
        LayerType::Tcp => Some(TCP_PROTOCOL),
        LayerType::Udp => Some(UDP_PROTOCOL),
        _ => None,
    }
}

/// The end of the option area of a captured packet: where the header ends
/// by its own word, but neither before the fixed fields end nor behind the
/// last byte captured.
pub open spec fn options_end(raw: Seq<u8>) -> int {
    let declared = declared_header_len(raw);
    if declared < BASE_SIZE as int {
        BASE_SIZE as int
    } else if declared > raw.len() {
        raw.len() as int
    } else {
        declared
    }
}

impl Ipv4Fields {
    /// The header of a packet that is no fragment and has no options.
    pub open spec fn fresh(
        identification: u16,
        protocol: u8,
        source: Ipv4Addr,
        destination: Ipv4Addr,
    ) -> Ipv4Fields {
        Ipv4Fields {
            version: 4,
            header_length: 5,
            dscp: 0,
            ecn: 0,
            total_length: 0,
            identification,
            flags: 0,
            fragment_offset: 0,
            ttl: DEFAULT_TTL,
            next_level_protocol: protocol,
            checksum: 0,
            source,
            destination,
            options: Seq::empty(),
            payload: Seq::empty(),
        }
    }

    /// Whether more fragments follow this one.
    pub open spec fn is_more_fragment(self) -> bool {
        self.flags & MORE_FRAGMENTS != 0
    }

    /// Whether the packet is a piece of a larger one.
    pub open spec fn is_fragment(self) -> bool {
        self.is_more_fragment() || self.fragment_offset > 0
    }

    /// The header of the whole packet that this fragment belongs to: the same
    /// header, but no fragment, with its checksum still to come and no
    /// payload.
    pub open spec fn defragged(self) -> Ipv4Fields {
        Ipv4Fields {
            flags: 0,
            fragment_offset: 0,
            checksum: 0,
            payload: Seq::empty(),
            ..self
        }
    }

    /// The encoded size of the header: its fixed fields and every option.
    pub open spec fn size(self) -> nat {
        BASE_SIZE as nat + encoded(self.options).len()
    }

    /// The 20 bytes of the fixed fields, with the three derived fields as
    /// given.
    pub open spec fn fixed_bytes(self, header_words: u8, total_length: u16, checksum: u16) -> Seq<
        u8,
    > {
        seq![packed(self.version, header_words, 16), packed(self.dscp, self.ecn, 4)] + be16(
            total_length,
        ) + be16(self.identification) + seq![
            packed(self.flags, (self.fragment_offset / 0x100) as u8, 32),
            (self.fragment_offset % 0x100) as u8,
            self.ttl,
            self.next_level_protocol,
        ] + be16(checksum) + be32(self.source.bits) + be32(self.destination.bits)
    }

    /// The whole header with a given checksum: the fixed fields, with the
    /// header length counted in words of four bytes, then the options.
    pub open spec fn image(self, total_length: u16, checksum: u16) -> Seq<u8> {
        self.fixed_bytes((self.size() / 4) as u8, total_length, checksum) + encoded(self.options)
    }

    /// The checksum of the header. It covers the bytes that the header length
    /// field declares: all of the header where its size is a multiple of
    /// four, else all but the last one to three bytes.
    pub open spec fn checksum_for(self, total_length: u16) -> u16 {
        ipv4_checksum_of(self.image(total_length, 0).take(4 * (self.size() as int / 4)))
    }

    /// The header as it is written, for a packet of `total_length` bytes.
    pub open spec fn wire(self, total_length: u16) -> Seq<u8> {
        self.image(total_length, self.checksum_for(total_length))
    }

    /// The header that the first bytes of a captured packet hold.
    pub open spec fn parsed(raw: Seq<u8>) -> Ipv4Fields {
        Ipv4Fields {
            version: upper_field(raw[0], 16),
            header_length: lower_field(raw[0], 16),
            dscp: upper_field(raw[1], 4),
            ecn: lower_field(raw[1], 4),
            total_length: be16_at(raw, 2),
            identification: be16_at(raw, 4),
            flags: upper_field(raw[6], 32),
            fragment_offset: (lower_field(raw[6], 32) as int * 0x100 + raw[7] as int) as u16,
            ttl: raw[8],
            next_level_protocol: raw[9],
            checksum: be16_at(raw, 10),
            source: Ipv4Addr { bits: be32_at(raw, 12) },
            destination: Ipv4Addr { bits: be32_at(raw, 16) },
            options: split(raw.subrange(BASE_SIZE as int, options_end(raw)), 32),
            payload: Seq::empty(),
        }
    }

    /// The text the layer is shown by.
    pub open spec fn text(self) -> Seq<char> {
        LayerType::Ipv4.spec_name() + ": "@ + self.source.spec_text() + " -> "@
            + self.destination.spec_text() + ", Length = "@ + decimal(self.total_length as nat) + (
        if self.is_fragment() {
            ", Fragment = "@ + decimal(self.fragment_offset as nat * 8)
        } else {
            Seq::empty()
        })
    }
}

/// The protocol number by which an IPv4 header names the layer above it.
pub fn protocol_number(t: LayerType) -> (number: Option<u8>)
    ensures
        number == upper_protocol(t),
{
    match t {
        LayerType::Tcp => Some(TCP_PROTOCOL),
        LayerType::Udp => Some(UDP_PROTOCOL),
        _ => None,
    }
}

/// Writes the fixed fields of `header` at the start of `buffer`, with the
/// three derived fields as given.
fn put_fixed(
    buffer: &mut [u8],
    header: &Ipv4Header,
    header_words: u8,
    total_length: u16,
    checksum: u16,
)
    requires
        old(buffer)@.len() >= BASE_SIZE,
    ensures
        final(buffer)@ == overwrite(
            old(buffer)@,
            0,
            header@.fixed_bytes(header_words, total_length, checksum),
        ),
{
    let offset = header.fragment_offset;
    assert((offset >> 8) as u8 == (offset / 0x100) as u8 && (offset & 0xff) as u8 == (offset
        % 0x100) as u8) by (bit_vector);
    buffer[0] = pack_4_4(header.version, header_words);
    buffer[1] = pack_6_2(header.dscp, header.ecn);
    put_be16(buffer, 2, total_length);
    put_be16(buffer, 4, header.identification);
    buffer[6] = pack_3_5(header.flags, (offset >> 8) as u8);
    buffer[7] = (offset & 0xff) as u8;
    buffer[8] = header.ttl;
    buffer[9] = header.next_level_protocol;
    put_be16(buffer, 10, checksum);
    put_be32(buffer, 12, header.source.bits);
    put_be32(buffer, 16, header.destination.bits);
    assert(buffer@ =~= overwrite(
        old(buffer)@,
        0,
        header@.fixed_bytes(header_words, total_length, checksum),
    ));
}

/// An IPv4 layer.
#[derive(Clone, Debug)]
pub struct Ipv4 {
    layer: Ipv4Header,
}

impl View for Ipv4 {
    type V = Ipv4Fields;

    closed spec fn view(&self) -> Ipv4Fields {
        self.layer@
    }
}

impl Ipv4 {
    /// The header of a packet that is no fragment and has no options. No
    /// header is built for a layer that cannot ride on IPv4 here.
    pub fn new(identification: u16, t: LayerType, src: Ipv4Addr, dst: Ipv4Addr) -> (ipv4: Option<
        Ipv4,
    >)
        ensures
            match ipv4 {
                Some(ipv4) => upper_protocol(t) matches Some(protocol) && ipv4@
                    == Ipv4Fields::fresh(identification, protocol, src, dst),
                None => upper_protocol(t) is None,
            },
    {
        let next_level_protocol = match protocol_number(t) {
            Some(protocol) => protocol,
            None => return None,
        };
        let ipv4 = Ipv4 {
            layer: Ipv4Header {
                version: 4,
                header_length: 5,
                dscp: 0,
                ecn: 0,
                total_length: 0,
                identification,
                flags: 0,
                fragment_offset: 0,
                ttl: DEFAULT_TTL,
                next_level_protocol,
                checksum: 0,
                source: src,
                destination: dst,
                options: Vec::new(),
                payload: Vec::new(),
            },
        };
        assert(ipv4@ =~~= Ipv4Fields::fresh(identification, next_level_protocol, src, dst));
        Some(ipv4)
    }

    /// The header of a fragment that others follow, `fragment_offset` units
    /// of eight bytes into its packet.
    pub fn new_more_fragment(
        identification: u16,
        t: LayerType,
        fragment_offset: u16,
        src: Ipv4Addr,
        dst: Ipv4Addr,
    ) -> (ipv4: Option<Ipv4>)
        ensures
            match ipv4 {
                Some(ipv4) => upper_protocol(t) matches Some(protocol) && ipv4@ == (Ipv4Fields {
                    flags: MORE_FRAGMENTS,
                    fragment_offset,
                    ..Ipv4Fields::fresh(identification, protocol, src, dst)
                }) && ipv4@.is_more_fragment() && ipv4@.is_fragment(),
                None => upper_protocol(t) is None,
            },
    {
        match Ipv4::new(identification, t, src, dst) {
            Some(mut ipv4) => {
                ipv4.layer.flags = MORE_FRAGMENTS;
                ipv4.layer.fragment_offset = fragment_offset;
                assert(MORE_FRAGMENTS & MORE_FRAGMENTS != 0) by (bit_vector);
                Some(ipv4)
            },
            None => None,
        }
    }

    /// The header of the last fragment of a packet, `fragment_offset` units
    /// of eight bytes into it.
    pub fn new_last_fragment(
        identification: u16,
        t: LayerType,
        fragment_offset: u16,
        src: Ipv4Addr,
        dst: Ipv4Addr,
    ) -> (ipv4: Option<Ipv4>)
        ensures
            match ipv4 {
                Some(ipv4) => upper_protocol(t) matches Some(protocol) && ipv4@ == (Ipv4Fields {
                    fragment_offset,
                    ..Ipv4Fields::fresh(identification, protocol, src, dst)
                }) && !ipv4@.is_more_fragment() && (ipv4@.is_fragment() <==> fragment_offset > 0),
                None => upper_protocol(t) is None,
            },
    {
        match Ipv4::new(identification, t, src, dst) {
            Some(mut ipv4) => {
                ipv4.layer.fragment_offset = fragment_offset;
                assert(0u8 & MORE_FRAGMENTS == 0) by (bit_vector);
                Some(ipv4)
            },
            None => None,
        }
    }

    /// The layer with the given header.
    pub fn from(ipv4: Ipv4Header) -> (layer: Ipv4)
        ensures
            layer@ == ipv4@,
    {
        Ipv4 { layer: ipv4 }
    }

    /// The header at the start of a captured packet, or nothing where fewer
    /// than the 20 bytes of the fixed fields were captured. The options are
    /// cut into their records. The payload is left out.
    pub fn parse(raw: &[u8]) -> (ipv4: Option<Ipv4>)
        ensures
            match ipv4 {
                Some(ipv4) => {
                    &&& raw@.len() >= BASE_SIZE
                    &&& ipv4@ == Ipv4Fields::parsed(raw@)
                    &&& ipv4@.size() == options_end(raw@) <= raw@.len()
                },
                None => raw@.len() < BASE_SIZE,
            },
    {
        if raw.len() < BASE_SIZE {
            return None;
        }
        let (version, header_length) = unpack_4_4(raw[0]);
        let (dscp, ecn) = unpack_6_2(raw[1]);
        let (flags, offset_high) = unpack_3_5(raw[6]);
        let declared: usize = 4 * (header_length as usize);
        let end: usize = if declared < BASE_SIZE {
            BASE_SIZE
        } else if declared > raw.len() {
            raw.len()
        } else {
            declared
        };
        let offset_low = raw[7];
        assert(((offset_high as u16) << 8) | (offset_low as u16) == offset_high * 0x100
            + offset_low) by (bit_vector);
        let ipv4 = Ipv4 {
            layer: Ipv4Header {
                version,
                header_length,
                dscp,
                ecn,
                total_length: get_be16(raw, 2),
                identification: get_be16(raw, 4),
                flags,
                fragment_offset: ((offset_high as u16) << 8) | (offset_low as u16),
                ttl: raw[8],
                next_level_protocol: raw[9],
                checksum: get_be16(raw, 10),
                source: Ipv4Addr::from_bits(get_be32(raw, 12)),
                destination: Ipv4Addr::from_bits(get_be32(raw, 16)),
                options: split_records(raw, BASE_SIZE, end, 32),
                payload: Vec::new(),
            },
        };
        proof {
            lemma_split_covers(raw@.subrange(BASE_SIZE as int, end as int), 32);
        }
        assert(ipv4@ =~~= Ipv4Fields::parsed(raw@));
        Some(ipv4)
    }

    /// The header of the whole packet that a fragment belongs to.
    pub fn defrag(ipv4: &Ipv4) -> (whole: Ipv4)
        ensures
            whole@ == ipv4@.defragged(),
            !whole@.is_fragment(),
    {
        let whole = Ipv4 {
            layer: Ipv4Header {
                version: ipv4.layer.version,
                header_length: ipv4.layer.header_length,
                dscp: ipv4.layer.dscp,
                ecn: ipv4.layer.ecn,
                total_length: ipv4.layer.total_length,
                identification: ipv4.get_identification(),
                flags: 0,
                fragment_offset: 0,
                ttl: ipv4.layer.ttl,
                next_level_protocol: ipv4.layer.next_level_protocol,
                checksum: 0,
                source: ipv4.get_src(),
                destination: ipv4.get_dst(),
                options: duplicate_records(&ipv4.layer.options),
                payload: Vec::new(),
            },
        };
        assert(0u8 & MORE_FRAGMENTS == 0) by (bit_vector);
        assert(whole@ =~~= ipv4@.defragged());
        whole
    }

    /// The length of the whole packet, as the header has it.
    pub fn get_total_length(&self) -> (length: u16)
        ensures
            length == self@.total_length,
    {
        self.layer.total_length
    }

    /// The number that the fragments of one packet share.
    pub fn get_identification(&self) -> (identification: u16)
        ensures
            identification == self@.identification,
    {
        self.layer.identification
    }

    /// Whether more fragments follow this one.
    pub fn is_more_fragment(&self) -> (more: bool)
        ensures
            more == self@.is_more_fragment(),
    {
        self.layer.flags & MORE_FRAGMENTS != 0
    }

    /// Where the fragment lies in its packet, in units of eight bytes.
    pub fn get_fragment_offset(&self) -> (offset: u16)
        ensures
            offset == self@.fragment_offset,
    {
        self.layer.fragment_offset
    }

    /// Whether the packet is a piece of a larger one: more fragments follow
    /// it, or it does not start at the beginning.
    pub fn is_fragment(&self) -> (fragment: bool)
        ensures
            fragment == self@.is_fragment(),
            fragment <==> self@.is_more_fragment() || self@.fragment_offset > 0,
    {
        self.is_more_fragment() || self.get_fragment_offset() > 0
    }

    /// The address the packet comes from.
    pub fn get_src(&self) -> (src: Ipv4Addr)
        ensures
            src == self@.source,
    {
        self.layer.source
    }

    /// The address the packet goes to.
    pub fn get_dst(&self) -> (dst: Ipv4Addr)
        ensures
            dst == self@.destination,
    {
        self.layer.destination
    }

    /// The text the layer is shown by: both addresses and the length, and
    /// for a fragment its offset in bytes.
    pub fn to_string(&self) -> (text: String)
        ensures
            text@ == self@.text(),
    {
        let mut text = String::from_str(LayerType::Ipv4.name());
        text.append(": ");
        self.layer.source.push_text(&mut text);
        text.append(" -> ");
        self.layer.destination.push_text(&mut text);
        text.append(", Length = ");
        push_decimal(&mut text, self.layer.total_length as u32);
        if self.is_fragment() {
            text.append(", Fragment = ");
            push_decimal(&mut text, self.layer.fragment_offset as u32 * 8);
        }
        assert(text@ == self@.text());
        text
    }

    /// The encoded size of the header where that is at most `limit`, else
    /// nothing.
    pub fn size_within(&self, limit: usize) -> (size: Option<usize>)
        ensures
            size == if self@.size() <= limit {
                Some(self@.size() as usize)
            } else {
                None
            },
    {
        if limit < BASE_SIZE {
            return None;
        }
        match total_size_within(&self.layer.options, limit - BASE_SIZE) {
            Some(options) => Some(BASE_SIZE + options),
            None => None,
        }
    }
}

impl Layer for Ipv4 {
    open spec fn spec_size(&self) -> nat {
        self@.size()
    }

    open spec fn spec_type(&self) -> LayerType {
        LayerType::Ipv4
    }

    fn get_type(&self) -> (tag: LayerType) {
        LayerType::Ipv4
    }

    /// The encoded size of the header: 20 bytes and the size of every
    /// option.
    fn get_size(&self) -> (size: usize) {
        let options = total_size_within(&self.layer.options, usize::MAX - BASE_SIZE);
        BASE_SIZE + options.unwrap()
    }

    /// Writes the header, options included, at the start of `buffer`, for a
    /// packet of `n` bytes in all. The header length is counted anew and
    /// the checksum computed. Returns the size of the header.
    ///
    /// The call is refused, in this order: where the buffer is shorter than
    /// the header; where the header has more words of four bytes than its
    /// 4-bit length field can count; where `n` does not fit 16 bits.
    fn serialize(&self, buffer: &mut [u8], n: usize) -> (written: Result<usize, SerializeError>)
        ensures
            match written {
                Ok(size) => {
                    &&& size == self@.size() <= old(buffer)@.len()
                    &&& self@.size() / 4 <= MAX_HEADER_WORDS
                    &&& n <= MAX_TOTAL_LENGTH
                    &&& final(buffer)@ == overwrite(old(buffer)@, 0, self@.wire(n as u16))
                },
                Err(SerializeError::BufferTooSmall) => old(buffer)@.len() < self@.size(),
                Err(SerializeError::HeaderTooLarge) => {
                    &&& self@.size() <= old(buffer)@.len()
                    &&& self@.size() / 4 > MAX_HEADER_WORDS
                },
                Err(SerializeError::TotalLengthTooLarge) => {
                    &&& self@.size() <= old(buffer)@.len()
                    &&& self@.size() / 4 <= MAX_HEADER_WORDS
                    &&& n > MAX_TOTAL_LENGTH
                },
            },
    {
        let size = match self.size_within(buffer.len()) {
            Some(size) => size,
            None => return Err(SerializeError::BufferTooSmall),
        };
        if size / 4 > MAX_HEADER_WORDS {
            return Err(SerializeError::HeaderTooLarge);
        }
        if n > MAX_TOTAL_LENGTH {
            return Err(SerializeError::TotalLengthTooLarge);
        }
        let header_words = (size / 4) as u8;
        let total_length = n as u16;
        put_fixed(buffer, &self.layer, header_words, total_length, 0);
        put_records(buffer, BASE_SIZE, &self.layer.options);
        let ghost blank = self@.image(total_length, 0);
        assert(buffer@ =~= overwrite(old(buffer)@, 0, blank));
        proof {
            lemma_packed_inverse(self.layer.version, header_words, 16);
            assert(declared_header_len(buffer@) == 4 * (size as int / 4));
            assert(buffer@.take(4 * (size as int / 4)) =~= blank.take(4 * (size as int / 4)));
        }
        let checksum = pnet_ipv4_checksum(buffer);
        put_be16(buffer, 10, checksum);
        assert(buffer@ =~= overwrite(old(buffer)@, 0, self@.wire(total_length)));
        Ok(size)
    }

    /// As `serialize`: the payload of an IPv4 packet is written by the layer
    /// that rides on it, and `payload` is not read.
    fn serialize_with_payload(&self, buffer: &mut [u8], payload: &[u8], n: usize) -> (written:
        Result<usize, SerializeError>)
        ensures
            match written {
                Ok(size) => {
                    &&& size == self@.size() <= old(buffer)@.len()
                    &&& self@.size() / 4 <= MAX_HEADER_WORDS
                    &&& n <= MAX_TOTAL_LENGTH
                    &&& final(buffer)@ == overwrite(old(buffer)@, 0, self@.wire(n as u16))
                },
                Err(SerializeError::BufferTooSmall) => old(buffer)@.len() < self@.size(),
                Err(SerializeError::HeaderTooLarge) => {
                    &&& self@.size() <= old(buffer)@.len()
                    &&& self@.size() / 4 > MAX_HEADER_WORDS
                },
                Err(SerializeError::TotalLengthTooLarge) => {
                    &&& self@.size() <= old(buffer)@.len()
                    &&& self@.size() / 4 <= MAX_HEADER_WORDS
                    &&& n > MAX_TOTAL_LENGTH
                },
            },
    {
        self.serialize(buffer, n)
    }
}

/// The size of a header is the 20 bytes of its fixed fields and the sizes
/// of its option records added up.
pub proof fn lemma_size_counts_options(header: Ipv4Fields)
    ensures
        header.size() == BASE_SIZE + total_len(header.options),
{
    lemma_encoded_len(header.options);
}

/// A header without options, written and read back, is the header it was:
/// each field comes back with the bits that fit its width on the wire, and
/// the three derived fields come back as they were written.
pub proof fn lemma_parse_inverts_serialize(header: Ipv4Fields, total_length: u16, rest: Seq<u8>)
    requires
        header.options.len() == 0,
    ensures
        ({
            let back = Ipv4Fields::parsed(header.wire(total_length) + rest);
            &&& back.version == header.version % 16
            &&& back.dscp == header.dscp % 64
            &&& back.ecn == header.ecn % 4
            &&& back.identification == header.identification
            &&& back.flags == header.flags % 8
            &&& back.fragment_offset == header.fragment_offset % 0x2000
            &&& back.ttl == header.ttl
            &&& back.next_level_protocol == header.next_level_protocol
            &&& back.source == header.source
            &&& back.destination == header.destination
            &&& back.options == header.options
            &&& back.payload == Seq::<u8>::empty()
            &&& back.header_length == 5
            &&& back.total_length == total_length
            &&& back.checksum == header.checksum_for(total_length)
        }),
{
    let checksum = header.checksum_for(total_length);
    let raw = header.wire(total_length) + rest;
    let back = Ipv4Fields::parsed(raw);
    assert(encoded(header.options) =~= Seq::<u8>::empty());
    assert(header.size() == 20);
    assert(raw.len() >= 20);
    lemma_packed_inverse(header.version, 5, 16);
    lemma_packed_inverse(header.dscp, header.ecn, 4);
    lemma_packed_inverse(header.flags, (header.fragment_offset / 0x100) as u8, 32);
    lemma_be16_inverse(total_length);
    lemma_be16_inverse(header.identification);
    lemma_be16_inverse(checksum);
    lemma_be32_inverse(header.source.bits);
    lemma_be32_inverse(header.destination.bits);
    assert(raw[0] == packed(header.version, 5, 16));
    assert(raw[6] == packed(header.flags, (header.fragment_offset / 0x100) as u8, 32));
    assert(raw[7] == (header.fragment_offset % 0x100) as u8);
    assert(options_end(raw) == 20);
    assert(raw.subrange(20, 20) =~= Seq::<u8>::empty());
    assert(back.options =~= header.options);
}

/// With options that fill whole words of four bytes, and no more of them
/// than a header can declare, the options come back byte for byte.
pub proof fn lemma_parse_keeps_option_bytes(header: Ipv4Fields, total_length: u16, rest: Seq<u8>)
    requires
        header.size() % 4 == 0,
        header.size() / 4 <= MAX_HEADER_WORDS,
    ensures
        encoded(Ipv4Fields::parsed(header.wire(total_length) + rest).options) == encoded(
            header.options,
        ),
{
    let raw = header.wire(total_length) + rest;
    let words = (header.size() / 4) as u8;
    lemma_packed_inverse(header.version, words, 16);
    assert(raw[0] == packed(header.version, words, 16));
    assert(options_end(raw) == header.size());
    let area = raw.subrange(BASE_SIZE as int, options_end(raw));
    assert(area =~= encoded(header.options));
    lemma_split_covers(area, 32);
}

/// A header as it is written carries a checksum that a receiver accepts:
/// the words that the header length field declares, the checksum among
/// them, sum to the all-ones word.
pub proof fn lemma_wire_checksum_validates(header: Ipv4Fields, total_length: u16)
    ensures
        fold_carries(word_sum(header.wire(total_length).take(4 * (header.size() as int / 4))))
            == 0xffff,
{
    let declared = 4 * (header.size() as int / 4);
    let blank = header.image(total_length, 0).take(declared);
    let checksum = header.checksum_for(total_length);
    lemma_ipv4_checksum_validates(blank);
    assert(header.wire(total_length).take(declared) =~= overwrite(blank, 10, be16(checksum)));
}

/// What defragmenting yields is no fragment, and it is the packet the
/// fragment belonged to: identification, addresses, protocol and the hops
/// left are kept.
pub proof fn lemma_defragged_is_whole(header: Ipv4Fields)
    ensures
        !header.defragged().is_fragment(),
        header.defragged().identification == header.identification,
        header.defragged().source == header.source,
        header.defragged().destination == header.destination,
        header.defragged().next_level_protocol == header.next_level_protocol,
        header.defragged().ttl == header.ttl,
        header.defragged().options == header.options,
{
    assert(0u8 & MORE_FRAGMENTS == 0) by (bit_vector);
}

} // verus!
