//! The TCP layer: its header as a record, bound to the two IPv4 addresses
//! it travels between, and the header on the wire.

use crate::addr::Ipv4Addr;
use crate::checksum::{
    fold_carries, lemma_tcp_checksum_validates, pnet_tcp_checksum, pseudo_header_sum,
    tcp_checksum_of, word_sum, MAX_SEGMENT,
};
use crate::layer::{Layer, LayerType, SerializeError};
use crate::options::{
    encoded, lemma_encoded_len, lemma_split_covers, put_records, split, split_records, total_len,
    total_size_within, views, OptionRecord,
};
use crate::text::{decimal, push_decimal};
use crate::wire::{
    be16, be16_at, be32, be32_at, get_be16, get_be32, lemma_be16_inverse, lemma_be32_inverse,
    lemma_packed_inverse, lower_field, overwrite, pack_4_4, packed, put_be16, put_be32,
    put_bytes, unpack_4_4, upper_field,
};
use vstd::prelude::*;
use vstd::slice::slice_subrange;

verus! {

/// No more data from the sender.
pub const FIN: u8 = 0b0000_0001;

/// Synchronize sequence numbers.
pub const SYN: u8 = 0b0000_0010;

/// Reset the connection.
pub const RST: u8 = 0b0000_0100;

/// Push the data on to the application.
pub const PSH: u8 = 0b0000_1000;

/// The acknowledgement number counts.
pub const ACK: u8 = 0b0001_0000;

/// The urgent pointer counts.
pub const URG: u8 = 0b0010_0000;

/// The size of a header without options.
pub const BASE_SIZE: usize = 20;

/// The most 32-bit words a header can say it has.
pub const MAX_HEADER_WORDS: usize = 15;

/// The fields of a TCP header. A field narrower than its type keeps only
/// its lower bits on the wire. `data_offset` and `checksum` are what a
/// captured segment said; they are counted anew when the header is
/// written. `payload` is carried along and never written: the bytes behind
/// a header are handed over when it is written.
#[derive(Clone, Debug)]
pub struct TcpHeader {
    pub source: u16,
    pub destination: u16,
    pub sequence: u32,
    pub acknowledgement: u32,
    pub data_offset: u8,
    pub reserved: u8,
    pub flags: u8,
    pub window: u16,
    pub checksum: u16,
    pub urgent_ptr: u16,
    pub options: Vec<OptionRecord>,
    pub payload: Vec<u8>,
}

/// A TCP header as a mathematical value.
#[verifier::ext_equal]
pub struct TcpFields {
    pub source: u16,
    pub destination: u16,
    pub sequence: u32,
    pub acknowledgement: u32,
    pub data_offset: u8,
    pub reserved: u8,
    pub flags: u8,
    pub window: u16,
    pub checksum: u16,
    pub urgent_ptr: u16,
    pub options: Seq<Seq<u8>>,
    pub payload: Seq<u8>,
}

impl View for TcpHeader {
    type V = TcpFields;

    open spec fn view(&self) -> TcpFields {
        TcpFields {
            source: self.source,
            destination: self.destination,
            sequence: self.sequence,
            acknowledgement: self.acknowledgement,
            data_offset: self.data_offset,
            reserved: self.reserved,
            flags: self.flags,
            window: self.window,
            checksum: self.checksum,
            urgent_ptr: self.urgent_ptr,
            options: views(self.options@),
            payload: self.payload@,
        }
    }
}

/// A TCP layer as a mathematical value: the header and the two addresses.
#[verifier::ext_equal]
pub struct TcpSegment {
    pub layer: TcpFields,
    pub src: Ipv4Addr,
    pub dst: Ipv4Addr,
}

/// The end of the option area of a captured segment: where the header ends
/// by its own word, but neither before the fixed fields end nor behind the
/// last byte captured.
pub open spec fn options_end(raw: Seq<u8>) -> int {
    let declared = 4 * (raw[12] as int / 16);
    if declared < BASE_SIZE as int {
        BASE_SIZE as int
    } else if declared > raw.len() {
        raw.len() as int
    } else {
        declared
    }
}

impl TcpFields {
    /// The header of a bare acknowledgement: no options, no flag but `ACK`.
    pub open spec fn fresh(
        source: u16,
        destination: u16,
        sequence: u32,
        acknowledgement: u32,
        window: u16,
    ) -> TcpFields {
        TcpFields {
            source,
            destination,
            sequence,
            acknowledgement,
            data_offset: 5,
            reserved: 0,
            flags: ACK,
            window,
            checksum: 0,
            urgent_ptr: 0,
            options: Seq::empty(),
            payload: Seq::empty(),
        }
    }

    /// The encoded size of the header: its fixed fields and every option.
    pub open spec fn size(self) -> nat {
        BASE_SIZE as nat + encoded(self.options).len()
    }

    /// The 20 bytes of the fixed fields, with the two derived fields as
    /// given.
    pub open spec fn fixed_bytes(self, data_offset: u8, checksum: u16) -> Seq<u8> {
        be16(self.source) + be16(self.destination) + be32(self.sequence) + be32(
            self.acknowledgement,
        ) + seq![packed(data_offset, self.reserved, 16), self.flags] + be16(self.window) + be16(
            checksum,
        ) + be16(self.urgent_ptr)
    }

    /// The text of the flags: `S`, `R`, `F` and `.` for `ACK`, in this
    /// order, each only where the flag is set, in square brackets.
    pub open spec fn flag_text(self) -> Seq<char> {
        seq!['['] + (if self.flags & SYN != 0 {
            seq!['S']
        } else {
            Seq::empty()
        }) + (if self.flags & RST != 0 {
            seq!['R']
        } else {
            Seq::empty()
        }) + (if self.flags & FIN != 0 {
            seq!['F']
        } else {
            Seq::empty()
        }) + (if self.flags & ACK != 0 {
            seq!['.']
        } else {
            Seq::empty()
        }) + seq![']']
    }

    /// The header that the first bytes of a captured segment hold.
    pub open spec fn parsed(raw: Seq<u8>) -> TcpFields {
        TcpFields {
            source: be16_at(raw, 0),
            destination: be16_at(raw, 2),
            sequence: be32_at(raw, 4),
            acknowledgement: be32_at(raw, 8),
            data_offset: upper_field(raw[12], 16),
            reserved: lower_field(raw[12], 16),
            flags: raw[13],
            window: be16_at(raw, 14),
            checksum: be16_at(raw, 16),
            urgent_ptr: be16_at(raw, 18),
            options: split(raw.subrange(BASE_SIZE as int, options_end(raw)), 256),
            payload: Seq::empty(),
        }
    }
}

impl TcpSegment {
    /// Whether the acknowledgement number counts.
    pub open spec fn is_ack(self) -> bool {
        self.layer.flags & ACK != 0
    }

    /// Whether the segment resets the connection.
    pub open spec fn is_rst(self) -> bool {
        self.layer.flags & RST != 0
    }

    /// Whether the segment synchronizes sequence numbers.
    pub open spec fn is_syn(self) -> bool {
        self.layer.flags & SYN != 0
    }

    /// Whether the sender has no more data.
    pub open spec fn is_fin(self) -> bool {
        self.layer.flags & FIN != 0
    }

    /// The encoded size of the header.
    pub open spec fn size(self) -> nat {
        self.layer.size()
    }

    /// The whole segment with a given checksum: the fixed fields, with the
    /// header length counted in words of four bytes, the options, and the
    /// payload.
    pub open spec fn image(self, payload: Seq<u8>, checksum: u16) -> Seq<u8> {
        self.layer.fixed_bytes((self.size() / 4) as u8, checksum) + encoded(self.layer.options)
            + payload
    }

    /// The checksum of the segment with `payload`: over the pseudo-header of
    /// both addresses, the protocol and the length of the segment, and over
    /// header, options and payload.
    pub open spec fn checksum_for(self, payload: Seq<u8>) -> u16 {
        tcp_checksum_of(self.image(payload, 0), self.src.bits, self.dst.bits)
    }

    /// The segment as it is written, header first, `payload` behind it.
    pub open spec fn wire(self, payload: Seq<u8>) -> Seq<u8> {
        self.image(payload, self.checksum_for(payload))
    }

    /// The text the layer is shown by.
    pub open spec fn text(self) -> Seq<char> {
        LayerType::Tcp.spec_name() + ": "@ + decimal(self.layer.source as nat) + " -> "@ + decimal(
            self.layer.destination as nat,
        ) + " "@ + self.layer.flag_text()
    }
}

/// Writes the fixed fields of `header` at the start of `buffer`, with the
/// two derived fields as given.
fn put_fixed(buffer: &mut [u8], header: &TcpHeader, data_offset: u8, checksum: u16)
    requires
        old(buffer)@.len() >= BASE_SIZE,
    ensures
        final(buffer)@ == overwrite(old(buffer)@, 0, header@.fixed_bytes(data_offset, checksum)),
{
    put_be16(buffer, 0, header.source);
    put_be16(buffer, 2, header.destination);
    put_be32(buffer, 4, header.sequence);
    put_be32(buffer, 8, header.acknowledgement);
    buffer[12] = pack_4_4(data_offset, header.reserved);
    buffer[13] = header.flags;
    put_be16(buffer, 14, header.window);
    put_be16(buffer, 16, checksum);
    put_be16(buffer, 18, header.urgent_ptr);
    assert(buffer@ =~= overwrite(old(buffer)@, 0, header@.fixed_bytes(data_offset, checksum)));
}

/// A TCP layer: the header, and the IPv4 addresses the segment travels
/// between. The addresses are not sent with the header, but its checksum
/// covers them.
#[derive(Clone, Debug)]
pub struct Tcp {
    pub layer: TcpHeader,
    pub src: Ipv4Addr,
    pub dst: Ipv4Addr,
}

impl View for Tcp {
    type V = TcpSegment;

    open spec fn view(&self) -> TcpSegment {
        TcpSegment { layer: self.layer@, src: self.src, dst: self.dst }
    }
}

impl Tcp {
    /// A bare acknowledgement: no flag but `ACK`.
    pub fn new_ack(
        src_ip_addr: Ipv4Addr,
        dst_ip_addr: Ipv4Addr,
        src: u16,
        dst: u16,
        sequence: u32,
        acknowledgement: u32,
        window: u16,
    ) -> (tcp: Tcp)
        ensures
            tcp@ == (TcpSegment {
                layer: TcpFields::fresh(src, dst, sequence, acknowledgement, window),
                src: src_ip_addr,
                dst: dst_ip_addr,
            }),
            tcp@.is_ack() && !tcp@.is_syn() && !tcp@.is_rst() && !tcp@.is_fin(),
    {
        let tcp = Tcp {
            layer: TcpHeader {
                source: src,
                destination: dst,
                sequence,
                acknowledgement,
                data_offset: 5,
                reserved: 0,
                flags: ACK,
                window,
                checksum: 0,
                urgent_ptr: 0,
                options: Vec::new(),
                payload: Vec::new(),
            },
            src: src_ip_addr,
            dst: dst_ip_addr,
        };
        assert(ACK & ACK != 0 && ACK & SYN == 0 && ACK & RST == 0 && ACK & FIN == 0)
            by (bit_vector);
        assert(tcp@ =~~= (TcpSegment {
            layer: TcpFields::fresh(src, dst, sequence, acknowledgement, window),
            src: src_ip_addr,
            dst: dst_ip_addr,
        }));
        tcp
    }

    /// The answer to a connection request: `ACK` and `SYN`.
    pub fn new_ack_syn(
        src_ip_addr: Ipv4Addr,
        dst_ip_addr: Ipv4Addr,
        src: u16,
        dst: u16,
        sequence: u32,
        acknowledgement: u32,
        window: u16,
    ) -> (tcp: Tcp)
        ensures
            tcp@ == (TcpSegment {
                layer: TcpFields {
                    flags: 0b0001_0010,
                    ..TcpFields::fresh(src, dst, sequence, acknowledgement, window)
                },
                src: src_ip_addr,
                dst: dst_ip_addr,
            }),
            tcp@.is_ack() && tcp@.is_syn() && !tcp@.is_rst() && !tcp@.is_fin(),
    {
        let mut tcp = Tcp::new_ack(
            src_ip_addr,
            dst_ip_addr,
            src,
            dst,
            sequence,
            acknowledgement,
            window,
        );
        tcp.layer.flags |= SYN;
        assert(ACK | SYN == 0b0001_0010 && (ACK | SYN) & ACK != 0 && (ACK | SYN) & SYN != 0 && (ACK
            | SYN) & RST == 0 && (ACK | SYN) & FIN == 0) by (bit_vector);
        tcp
    }

    /// A reset that acknowledges: `RST` and `ACK`.
    pub fn new_ack_rst(
        src_ip_addr: Ipv4Addr,
        dst_ip_addr: Ipv4Addr,
        src: u16,
        dst: u16,
        sequence: u32,
        acknowledgement: u32,
        window: u16,
    ) -> (tcp: Tcp)
        ensures
            tcp@ == (TcpSegment {
                layer: TcpFields {
                    flags: 0b0001_0100,
                    ..TcpFields::fresh(src, dst, sequence, acknowledgement, window)
                },
                src: src_ip_addr,
                dst: dst_ip_addr,
            }),
            tcp@.is_rst() && tcp@.is_ack() && !tcp@.is_syn() && !tcp@.is_fin(),
    {
        let mut tcp = Tcp::new_rst(
            src_ip_addr,
            dst_ip_addr,
            src,
            dst,
            sequence,
            acknowledgement,
            window,
        );
        tcp.layer.flags |= ACK;
        assert(RST | ACK == 0b0001_0100 && (RST | ACK) & ACK != 0 && (RST | ACK) & RST != 0 && (RST
            | ACK) & SYN == 0 && (RST | ACK) & FIN == 0) by (bit_vector);
        tcp
    }

    /// The end of the sender's data, acknowledging: `ACK` and `FIN`.
    pub fn new_ack_fin(
        src_ip_addr: Ipv4Addr,
        dst_ip_addr: Ipv4Addr,
        src: u16,
        dst: u16,
        sequence: u32,
        acknowledgement: u32,
        window: u16,
    ) -> (tcp: Tcp)
        ensures
            tcp@ == (TcpSegment {
                layer: TcpFields {
                    flags: 0b0001_0001,
                    ..TcpFields::fresh(src, dst, sequence, acknowledgement, window)
                },
                src: src_ip_addr,
                dst: dst_ip_addr,
            }),
            tcp@.is_ack() && tcp@.is_fin() && !tcp@.is_syn() && !tcp@.is_rst(),
    {
        let mut tcp = Tcp::new_ack(
            src_ip_addr,
            dst_ip_addr,
            src,
            dst,
            sequence,
            acknowledgement,
            window,
        );
        tcp.layer.flags |= FIN;
        assert(ACK | FIN == 0b0001_0001 && (ACK | FIN) & ACK != 0 && (ACK | FIN) & FIN != 0 && (ACK
            | FIN) & SYN == 0 && (ACK | FIN) & RST == 0) by (bit_vector);
        tcp
    }

    /// A reset: no flag but `RST`. It does not acknowledge.
    pub fn new_rst(
        src_ip_addr: Ipv4Addr,
        dst_ip_addr: Ipv4Addr,
        src: u16,
        dst: u16,
        sequence: u32,
        acknowledgement: u32,
        window: u16,
    ) -> (tcp: Tcp)
        ensures
            tcp@ == (TcpSegment {
                layer: TcpFields {
                    flags: RST,
                    ..TcpFields::fresh(src, dst, sequence, acknowledgement, window)
                },
                src: src_ip_addr,
                dst: dst_ip_addr,
            }),
            tcp@.is_rst() && !tcp@.is_ack() && !tcp@.is_syn() && !tcp@.is_fin(),
    {
        let mut tcp = Tcp::new_ack(
            src_ip_addr,
            dst_ip_addr,
            src,
            dst,
            sequence,
            acknowledgement,
            window,
        );
        tcp.layer.flags = RST;
        assert(RST & RST != 0 && RST & ACK == 0 && RST & SYN == 0 && RST & FIN == 0)
            by (bit_vector);
        tcp
    }

    /// The layer with the given header, between the given addresses.
    pub fn from(tcp: TcpHeader, src: Ipv4Addr, dst: Ipv4Addr) -> (layer: Tcp)
        ensures
            layer@ == (TcpSegment { layer: tcp@, src, dst }),
    {
        Tcp { layer: tcp, src, dst }
    }

    /// The header at the start of a captured segment that travelled from
    /// `src` to `dst`, or nothing where fewer than the 20 bytes of the fixed
    /// fields were captured. The options are cut into their records. The
    /// payload is left out.
    pub fn parse(raw: &[u8], src: Ipv4Addr, dst: Ipv4Addr) -> (tcp: Option<Tcp>)
        ensures
            match tcp {
                Some(tcp) => {
                    &&& raw@.len() >= BASE_SIZE
                    &&& tcp@ == (TcpSegment { layer: TcpFields::parsed(raw@), src, dst })
                    &&& tcp@.size() == options_end(raw@) <= raw@.len()
                },
                None => raw@.len() < BASE_SIZE,
            },
    {
        if raw.len() < BASE_SIZE {
            return None;
        }
        let (data_offset, reserved) = unpack_4_4(raw[12]);
        let declared: usize = 4 * (data_offset as usize);
        let end: usize = if declared < BASE_SIZE {
            BASE_SIZE
        } else if declared > raw.len() {
            raw.len()
        } else {
            declared
        };
        let tcp = Tcp {
            layer: TcpHeader {
                source: get_be16(raw, 0),
                destination: get_be16(raw, 2),
                sequence: get_be32(raw, 4),
                acknowledgement: get_be32(raw, 8),
                data_offset,
                reserved,
                flags: raw[13],
                window: get_be16(raw, 14),
                checksum: get_be16(raw, 16),
                urgent_ptr: get_be16(raw, 18),
                options: split_records(raw, BASE_SIZE, end, 256),
                payload: Vec::new(),
            },
            src,
            dst,
        };
        proof {
            lemma_split_covers(raw@.subrange(BASE_SIZE as int, end as int), 256);
        }
        assert(tcp@ =~~= (TcpSegment { layer: TcpFields::parsed(raw@), src, dst }));
        Some(tcp)
    }

    /// The IPv4 address the segment comes from.
    pub fn get_src_ip_addr(&self) -> (addr: Ipv4Addr)
        ensures
            addr == self@.src,
    {
        self.src
    }

    /// The IPv4 address the segment goes to.
    pub fn get_dst_ip_addr(&self) -> (addr: Ipv4Addr)
        ensures
            addr == self@.dst,
    {
        self.dst
    }

    /// The port the segment comes from.
    pub fn get_src(&self) -> (port: u16)
        ensures
            port == self@.layer.source,
    {
        self.layer.source
    }

    /// The port the segment goes to.
    pub fn get_dst(&self) -> (port: u16)
        ensures
            port == self@.layer.destination,
    {
        self.layer.destination
    }

    /// The sequence number.
    pub fn get_sequence(&self) -> (sequence: u32)
        ensures
            sequence == self@.layer.sequence,
    {
        self.layer.sequence
    }

    /// The acknowledgement number.
    pub fn get_acknowledgement(&self) -> (acknowledgement: u32)
        ensures
            acknowledgement == self@.layer.acknowledgement,
    {
        self.layer.acknowledgement
    }

    /// The flags as text: `S`, `R`, `F` and `.` for `ACK`, in this order,
    /// each only where the flag is set, in square brackets.
    pub fn get_flag_string(&self) -> (flags: String)
        ensures
            flags@ == self@.layer.flag_text(),
    {
        proof {
            reveal_strlit("[");
            reveal_strlit("S");
            reveal_strlit("R");
            reveal_strlit("F");
            reveal_strlit(".");
            reveal_strlit("]");
        }
        let mut flags = String::from_str("[");
        if self.is_syn() {
            flags.append("S");
        }
        if self.is_rst() {
            flags.append("R");
        }
        if self.is_fin() {
            flags.append("F");
        }
        if self.is_ack() {
            flags.append(".");
        }
        flags.append("]");
        assert(flags@ == self@.layer.flag_text());
        flags
    }

    /// The window the sender offers.
    pub fn get_window(&self) -> (window: u16)
        ensures
            window == self@.layer.window,
    {
        self.layer.window
    }

    /// Whether the acknowledgement number counts.
    pub fn is_ack(&self) -> (ack: bool)
        ensures
            ack == self@.is_ack(),
    {
        self.layer.flags & ACK != 0
    }

    /// Whether the segment acknowledges and ends the sender's data.
    pub fn is_ack_fin(&self) -> (ack_fin: bool)
        ensures
            ack_fin == (self@.is_ack() && self@.is_fin()),
    {
        self.is_ack() && self.is_fin()
    }

    /// Whether the segment resets the connection.
    pub fn is_rst(&self) -> (rst: bool)
        ensures
            rst == self@.is_rst(),
    {
        self.layer.flags & RST != 0
    }

    /// Whether the segment synchronizes sequence numbers.
    pub fn is_syn(&self) -> (syn: bool)
        ensures
            syn == self@.is_syn(),
    {
        self.layer.flags & SYN != 0
    }

    /// Whether the sender has no more data.
    pub fn is_fin(&self) -> (fin: bool)
        ensures
            fin == self@.is_fin(),
    {
        self.layer.flags & FIN != 0
    }

    /// Whether the segment resets the connection or ends the sender's data.
    pub fn is_rst_or_fin(&self) -> (rst_or_fin: bool)
        ensures
            rst_or_fin == (self@.is_rst() || self@.is_fin()),
    {
        self.is_rst() || self.is_fin()
    }

    /// Whether the sender offers no window.
    pub fn is_zero_window(&self) -> (zero: bool)
        ensures
            zero == (self@.layer.window == 0),
    {
        self.layer.window == 0
    }

    /// The text the layer is shown by: both ports and the flags.
    pub fn to_string(&self) -> (text: String)
        ensures
            text@ == self@.text(),
    {
        let mut text = String::from_str(LayerType::Tcp.name());
        text.append(": ");
        push_decimal(&mut text, self.layer.source as u32);
        text.append(" -> ");
        push_decimal(&mut text, self.layer.destination as u32);
        text.append(" ");
        let flags = self.get_flag_string();
        text.append(flags.as_str());
        assert(text@ == self@.text());
        text
    }

    /// The encoded size of the header where that is at most `limit`, else
    /// nothing.
    pub fn size_within(&self, limit: usize) -> (size: Option<usize>)
        ensures
            size == if self@.size() <= limit {
                Some(self@.size() as usize)
            } else {
                None
            },
    {
        if limit < BASE_SIZE {
            return None;
        }
        match total_size_within(&self.layer.options, limit - BASE_SIZE) {
            Some(options) => Some(BASE_SIZE + options),
            None => None,
        }
    }
}

impl Layer for Tcp {
    open spec fn spec_size(&self) -> nat {
        self@.size()
    }

    open spec fn spec_type(&self) -> LayerType {
        LayerType::Tcp
    }

    fn get_type(&self) -> (tag: LayerType) {
        LayerType::Tcp
    }

    /// The encoded size of the header: 20 bytes and the size of every
    /// option.
    fn get_size(&self) -> (size: usize) {
        let options = total_size_within(&self.layer.options, usize::MAX - BASE_SIZE);
        BASE_SIZE + options.unwrap()
    }

    /// Writes the header, options included, at the start of `buffer`, as
    /// the header of a segment without payload: the checksum covers the
    /// header alone. The data offset is counted anew. Returns the size of
    /// the header. `n` is not read.
    ///
    /// The call is refused, in this order: where the buffer is shorter than
    /// the header; where the header has more words of four bytes than its
    /// 4-bit data offset can count.
    fn serialize(&self, buffer: &mut [u8], n: usize) -> (written: Result<usize, SerializeError>)
        ensures
            match written {
                Ok(size) => {
                    &&& size == self@.size() <= old(buffer)@.len()
                    &&& self@.size() / 4 <= MAX_HEADER_WORDS
                    &&& final(buffer)@ == overwrite(old(buffer)@, 0, self@.wire(Seq::empty()))
                },
                Err(SerializeError::BufferTooSmall) => old(buffer)@.len() < self@.size(),
                Err(SerializeError::HeaderTooLarge) => {
                    &&& self@.size() <= old(buffer)@.len()
                    &&& self@.size() / 4 > MAX_HEADER_WORDS
                },
                Err(SerializeError::TotalLengthTooLarge) => false,
            },
    {
        let size = match self.size_within(buffer.len()) {
            Some(size) => size,
            None => return Err(SerializeError::BufferTooSmall),
        };
        if size / 4 > MAX_HEADER_WORDS {
            return Err(SerializeError::HeaderTooLarge);
        }
        put_fixed(buffer, &self.layer, (size / 4) as u8, 0);
        put_records(buffer, BASE_SIZE, &self.layer.options);
        let ghost blank = self@.image(Seq::empty(), 0);
        assert(buffer@ =~= overwrite(old(buffer)@, 0, blank));
        let header = slice_subrange(buffer, 0, size);
        assert(header@ =~= blank);
        let checksum = pnet_tcp_checksum(header, self.src.bits, self.dst.bits);
        put_be16(buffer, 16, checksum);
        assert(buffer@ =~= overwrite(old(buffer)@, 0, self@.wire(Seq::empty())));
        Ok(size)
    }

    /// Writes the header, options included, at the start of `buffer` and
    /// `payload` right behind it. The data offset is counted anew, and the
    /// checksum covers header, options and payload. Returns the size of
    /// header and payload together. `n` is not read.
    ///
    /// The call is refused, in this order: where the buffer is shorter than
    /// header and payload; where the header has more words of four bytes
    /// than its 4-bit data offset can count, or the segment more bytes than
    /// the 16 bits of a pseudo-header can count.
    fn serialize_with_payload(&self, buffer: &mut [u8], payload: &[u8], n: usize) -> (written:
        Result<usize, SerializeError>)
        ensures
            match written {
                Ok(size) => {
                    &&& size == self@.size() + payload@.len() <= old(buffer)@.len()
                    &&& self@.size() / 4 <= MAX_HEADER_WORDS
                    &&& size <= MAX_SEGMENT
                    &&& final(buffer)@ == overwrite(old(buffer)@, 0, self@.wire(payload@))
                },
                Err(SerializeError::BufferTooSmall) => old(buffer)@.len() < self@.size()
                    + payload@.len(),
                Err(SerializeError::HeaderTooLarge) => {
                    &&& self@.size() + payload@.len() <= old(buffer)@.len()
                    &&& (self@.size() / 4 > MAX_HEADER_WORDS || self@.size() + payload@.len()
                        > MAX_SEGMENT)
                },
                Err(SerializeError::TotalLengthTooLarge) => false,
            },
    {
        let size = match self.size_within(buffer.len()) {
            Some(size) => size,
            None => return Err(SerializeError::BufferTooSmall),
        };
        if payload.len() > buffer.len() - size {
            return Err(SerializeError::BufferTooSmall);
        }
        let length = size + payload.len();
        if size / 4 > MAX_HEADER_WORDS || length > MAX_SEGMENT {
            return Err(SerializeError::HeaderTooLarge);
        }
        put_fixed(buffer, &self.layer, (size / 4) as u8, 0);
        put_records(buffer, BASE_SIZE, &self.layer.options);
        put_bytes(buffer, size, payload);
        let ghost blank = self@.image(payload@, 0);
        assert(buffer@ =~= overwrite(old(buffer)@, 0, blank));
        let segment = slice_subrange(buffer, 0, length);
        assert(segment@ =~= blank);
        let checksum = pnet_tcp_checksum(segment, self.src.bits, self.dst.bits);
        put_be16(buffer, 16, checksum);
        assert(buffer@ =~= overwrite(old(buffer)@, 0, self@.wire(payload@)));
        Ok(length)
    }
}

/// The size of a header is the 20 bytes of its fixed fields and the sizes
/// of its option records added up.
pub proof fn lemma_size_counts_options(header: TcpFields)
    ensures
        header.size() == BASE_SIZE + total_len(header.options),
{
    lemma_encoded_len(header.options);
}

/// A segment without options, written and read back, is the segment it
/// was, whatever its payload: ports, sequence and acknowledgement numbers,
/// flags, window and urgent pointer come back, the reserved bits cut to
/// their width, and the two derived fields as they were written.
pub proof fn lemma_parse_inverts_serialize(segment: TcpSegment, payload: Seq<u8>, rest: Seq<u8>)
    requires
        segment.layer.options.len() == 0,
    ensures
        ({
            let back = TcpFields::parsed(segment.wire(payload) + rest);
            &&& back.source == segment.layer.source
            &&& back.destination == segment.layer.destination
            &&& back.sequence == segment.layer.sequence
            &&& back.acknowledgement == segment.layer.acknowledgement
            &&& back.reserved == segment.layer.reserved % 16
            &&& back.flags == segment.layer.flags
            &&& back.window == segment.layer.window
            &&& back.urgent_ptr == segment.layer.urgent_ptr
            &&& back.options == segment.layer.options
            &&& back.payload == Seq::<u8>::empty()
            &&& back.data_offset == 5
            &&& back.checksum == segment.checksum_for(payload)
        }),
{
    let header = segment.layer;
    let checksum = segment.checksum_for(payload);
    let raw = segment.wire(payload) + rest;
    let back = TcpFields::parsed(raw);
    assert(encoded(header.options) =~= Seq::<u8>::empty());
    assert(segment.size() == 20);
    lemma_packed_inverse(5, header.reserved, 16);
    lemma_be16_inverse(header.source);
    lemma_be16_inverse(header.destination);
    lemma_be32_inverse(header.sequence);
    lemma_be32_inverse(header.acknowledgement);
    lemma_be16_inverse(header.window);
    lemma_be16_inverse(checksum);
    lemma_be16_inverse(header.urgent_ptr);
    assert(raw[12] == packed(5, header.reserved, 16));
    assert(options_end(raw) == 20);
    assert(raw.subrange(20, 20) =~= Seq::<u8>::empty());
    assert(back.options =~= header.options);
}

/// A segment as it is written carries a checksum that a receiver accepts:
/// the words of the pseudo-header and of the segment, the checksum among
/// them, sum to the all-ones word.
pub proof fn lemma_wire_checksum_validates(segment: TcpSegment, payload: Seq<u8>)
    ensures
        fold_carries(
            pseudo_header_sum(segment.src.bits, segment.dst.bits, segment.wire(payload).len())
                + word_sum(segment.wire(payload)),
        ) == 0xffff,
{
    let blank = segment.image(payload, 0);
    let checksum = segment.checksum_for(payload);
    lemma_tcp_checksum_validates(blank, segment.src.bits, segment.dst.bits);
    assert(segment.wire(payload) =~= overwrite(blank, 16, be16(checksum)));
}

/// With options that fill whole words of four bytes, and no more of them
/// than a header can declare, the options come back byte for byte.
pub proof fn lemma_parse_keeps_option_bytes(segment: TcpSegment, payload: Seq<u8>, rest: Seq<u8>)
    requires
        segment.size() % 4 == 0,
        segment.size() / 4 <= MAX_HEADER_WORDS,
    ensures
        encoded(TcpFields::parsed(segment.wire(payload) + rest).options) == encoded(
            segment.layer.options,
        ),
{
    let raw = segment.wire(payload) + rest;
    let words = (segment.size() / 4) as u8;
    lemma_packed_inverse(words, segment.layer.reserved, 16);
    assert(raw[12] == packed(words, segment.layer.reserved, 16));
    assert(options_end(raw) == segment.size());
    let area = raw.subrange(BASE_SIZE as int, options_end(raw));
    assert(area =~= encoded(segment.layer.options));
    lemma_split_covers(area, 256);
}

} // verus!
