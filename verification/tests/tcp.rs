use packet_layer::checksum::tcp_checksum;
use packet_layer::tcp::{ACK, FIN, PSH, RST, SYN, URG};
use packet_layer::{Ipv4Addr, Layer, LayerType, OptionRecord, SerializeError, Tcp, TcpHeader};
use pnet::packet::tcp::{MutableTcpPacket, TcpPacket};

fn pseudo_sum(bytes: &[u8], src: Ipv4Addr, dst: Ipv4Addr) -> u16 {
    let mut sum: u32 = 6 + bytes.len() as u32;
    for addr in [src, dst] {
        sum += (addr.to_bits() >> 16) + (addr.to_bits() & 0xffff);
    }
    for pair in bytes.chunks(2) {
        let low = if pair.len() == 2 { pair[1] as u32 } else { 0 };
        sum += ((pair[0] as u32) << 8) | low;
    }
    while sum > 0xffff {
        sum = (sum >> 16) + (sum & 0xffff);
    }
    sum as u16
}

fn near() -> Ipv4Addr {
    Ipv4Addr::new(10, 0, 0, 1)
}

fn far() -> Ipv4Addr {
    Ipv4Addr::new(10, 0, 0, 2)
}

fn header_with(flags: u8, options: Vec<OptionRecord>) -> TcpHeader {
    TcpHeader {
        source: 49511,
        destination: 9000,
        sequence: 0x9037d2b8,
        acknowledgement: 0x944bb276,
        data_offset: 5,
        reserved: 0,
        flags,
        window: 4015,
        checksum: 0,
        urgent_ptr: 0,
        options,
        payload: vec![],
    }
}

#[test]
fn ack_carries_ack_alone() {
    let tcp = Tcp::new_ack(near(), far(), 1234, 80, 1000, 2000, 512);
    assert_eq!(tcp.get_type(), LayerType::Tcp);
    assert_eq!(tcp.get_size(), 20);
    assert_eq!(tcp.get_src_ip_addr(), near());
    assert_eq!(tcp.get_dst_ip_addr(), far());
    assert_eq!(tcp.get_src(), 1234);
    assert_eq!(tcp.get_dst(), 80);
    assert_eq!(tcp.get_sequence(), 1000);
    assert_eq!(tcp.get_acknowledgement(), 2000);
    assert_eq!(tcp.get_window(), 512);
    assert_eq!(tcp.layer.flags, ACK);
    assert!(tcp.is_ack());
    assert!(!tcp.is_syn());
    assert!(!tcp.is_rst());
    assert!(!tcp.is_fin());
    assert!(!tcp.is_ack_fin());
    assert!(!tcp.is_rst_or_fin());
    assert!(!tcp.is_zero_window());
    assert_eq!(tcp.get_flag_string(), "[.]");
}

#[test]
fn ack_syn_carries_both() {
    let tcp = Tcp::new_ack_syn(near(), far(), 1234, 80, 1000, 0, 65535);
    assert_eq!(tcp.layer.flags, ACK | SYN);
    assert!(tcp.is_ack());
    assert!(tcp.is_syn());
    assert!(!tcp.is_rst());
    assert!(!tcp.is_fin());
    assert_eq!(tcp.get_flag_string(), "[S.]");
}

#[test]
fn rst_does_not_acknowledge() {
    let tcp = Tcp::new_rst(near(), far(), 1234, 80, 1000, 0, 0);
    assert_eq!(tcp.layer.flags, RST);
    assert!(tcp.is_rst());
    assert!(!tcp.is_ack());
    assert!(tcp.is_rst_or_fin());
    assert!(tcp.is_zero_window());
    assert_eq!(tcp.get_flag_string(), "[R]");
}

#[test]
fn ack_rst_carries_both() {
    let tcp = Tcp::new_ack_rst(near(), far(), 1234, 80, 1000, 7, 0);
    assert_eq!(tcp.layer.flags, RST | ACK);
    assert!(tcp.is_rst());
    assert!(tcp.is_ack());
    assert!(!tcp.is_syn());
    assert!(!tcp.is_ack_fin());
    assert_eq!(tcp.get_flag_string(), "[R.]");
}

#[test]
fn ack_fin_carries_both() {
    let tcp = Tcp::new_ack_fin(near(), far(), 1234, 80, 1000, 7, 9);
    assert_eq!(tcp.layer.flags, ACK | FIN);
    assert!(tcp.is_ack());
    assert!(tcp.is_fin());
    assert!(tcp.is_ack_fin());
    assert!(tcp.is_rst_or_fin());
    assert!(!tcp.is_rst());
    assert_eq!(tcp.get_flag_string(), "[F.]");
}

#[test]
fn flag_string_keeps_its_order() {
    let text = |flags: u8| Tcp::from(header_with(flags, vec![]), near(), far()).get_flag_string();
    assert_eq!(text(0), "[]");
    assert_eq!(text(SYN), "[S]");
    assert_eq!(text(ACK), "[.]");
    assert_eq!(text(SYN | ACK), "[S.]");
    assert_eq!(text(RST | ACK), "[R.]");
    assert_eq!(text(FIN), "[F]");
    assert_eq!(text(FIN | SYN | RST | ACK), "[SRF.]");
    assert_eq!(text(PSH | URG), "[]");
    assert_eq!(text(0xff), "[SRF.]");
    assert_eq!(text(PSH | ACK), "[.]");
}

#[test]
fn text_names_ports_and_flags() {
    let tcp = Tcp::new_ack_syn(near(), far(), 1234, 80, 1000, 0, 65535);
    assert_eq!(tcp.to_string(), "TCP: 1234 -> 80 [S.]");
    let tcp = Tcp::new_rst(near(), far(), 0, 65535, 0, 0, 0);
    assert_eq!(tcp.to_string(), "TCP: 0 -> 65535 [R]");
}

#[test]
fn tcp_serialize_writes_the_header_of_the_handshake() {
    let tcp = Tcp::new_ack_syn(near(), far(), 1234, 80, 1000, 0, 65535);
    let mut buffer = [0xeeu8; 22];
    assert_eq!(tcp.serialize(&mut buffer, 0), Ok(20));
    let expected: [u8; 22] = [
        0x04, 0xd2, 0x00, 0x50, 0x00, 0x00, 0x03, 0xe8, 0x00, 0x00, 0x00, 0x00, 0x50, 0x12, 0xff,
        0xff, 0x92, 0xc6, 0x00, 0x00, 0xee, 0xee,
    ];
    assert_eq!(buffer, expected);
    assert_eq!(pseudo_sum(&buffer[..20], near(), far()), 0xffff);
}

#[test]
fn serialize_ignores_what_lies_behind_the_header() {
    let tcp = Tcp::new_ack(near(), far(), 1, 2, 3, 4, 5);
    let mut exact = [0u8; 20];
    let mut longer = [0x55u8; 64];
    assert_eq!(tcp.serialize(&mut exact, 20), Ok(20));
    assert_eq!(tcp.serialize(&mut longer, 99), Ok(20));
    assert_eq!(&longer[..20], &exact);
    assert_eq!(&longer[20..], &[0x55u8; 44]);
}

#[test]
fn tcp_serialize_refuses_a_buffer_one_byte_short() {
    let tcp = Tcp::new_ack(near(), far(), 1, 2, 3, 4, 5);
    let mut buffer = [3u8; 19];
    assert_eq!(
        tcp.serialize(&mut buffer, 0),
        Err(SerializeError::BufferTooSmall)
    );
    assert_eq!(buffer, [3u8; 19]);
    let mut buffer = [3u8; 24];
    assert_eq!(
        tcp.serialize_with_payload(&mut buffer, &[1, 2, 3, 4, 5], 5),
        Err(SerializeError::BufferTooSmall)
    );
    assert_eq!(buffer, [3u8; 24]);
    assert_eq!(
        tcp.serialize_with_payload(&mut buffer, &[1, 2, 3, 4], 4),
        Ok(24)
    );
}

#[test]
fn serialize_with_payload_writes_the_reference_segment() {
    let timestamp = vec![0x08, 0x0a, 0x2c, 0x57, 0xcd, 0xa5, 0x02, 0xa0, 0x41, 0x92];
    let options = vec![
        OptionRecord::new(vec![1]),
        OptionRecord::new(vec![1]),
        OptionRecord::new(timestamp),
    ];
    let tcp = Tcp::from(
        header_with(PSH | ACK, options),
        Ipv4Addr::new(192, 168, 2, 1),
        Ipv4Addr::new(192, 168, 111, 51),
    );
    assert_eq!(tcp.get_size(), 32);
    let mut buffer = [0u8; 36];
    assert_eq!(tcp.serialize_with_payload(&mut buffer, b"test", 4), Ok(36));
    let expected: [u8; 36] = [
        0xc1, 0x67, 0x23, 0x28, 0x90, 0x37, 0xd2, 0xb8, 0x94, 0x4b, 0xb2, 0x76, 0x80, 0x18, 0x0f,
        0xaf, 0xc0, 0x31, 0x00, 0x00, 0x01, 0x01, 0x08, 0x0a, 0x2c, 0x57, 0xcd, 0xa5, 0x02, 0xa0,
        0x41, 0x92, 0x74, 0x65, 0x73, 0x74,
    ];
    assert_eq!(buffer, expected);
}

#[test]
fn serialize_with_payload_covers_an_odd_payload() {
    let tcp = Tcp::new_ack(near(), far(), 1234, 80, 1, 2, 3);
    let mut buffer = [0xaau8; 30];
    assert_eq!(tcp.serialize_with_payload(&mut buffer, b"hello", 5), Ok(25));
    assert_eq!(&buffer[20..25], b"hello");
    assert_eq!(&buffer[25..], &[0xaau8; 5]);
    assert_eq!(pseudo_sum(&buffer[..25], near(), far()), 0xffff);
    let mut plain = [0u8; 20];
    assert_eq!(tcp.serialize(&mut plain, 0), Ok(20));
    assert_ne!(&plain[16..18], &buffer[16..18]);
}

#[test]
fn serialize_refuses_more_words_than_the_data_offset_counts() {
    let widest = Tcp::from(
        header_with(ACK, vec![OptionRecord::new(vec![1; 40])]),
        near(),
        far(),
    );
    let mut buffer = [0u8; 64];
    assert_eq!(widest.serialize(&mut buffer, 0), Ok(60));
    assert_eq!(buffer[12], 0xf0);
    let too_wide = Tcp::from(
        header_with(ACK, vec![OptionRecord::new(vec![1; 44])]),
        near(),
        far(),
    );
    assert_eq!(too_wide.get_size(), 64);
    assert_eq!(
        too_wide.serialize(&mut buffer, 0),
        Err(SerializeError::HeaderTooLarge)
    );
    assert_eq!(
        too_wide.serialize_with_payload(&mut buffer, &[], 0),
        Err(SerializeError::HeaderTooLarge)
    );
    let mut short = [0u8; 63];
    assert_eq!(
        too_wide.serialize(&mut short, 0),
        Err(SerializeError::BufferTooSmall)
    );
}

#[test]
fn serialize_refuses_a_segment_above_16_bits() {
    let tcp = Tcp::new_ack(near(), far(), 1, 2, 3, 4, 5);
    let mut buffer = vec![0u8; 70000];
    let payload = vec![0x5au8; 65516];
    assert_eq!(
        tcp.serialize_with_payload(&mut buffer, &payload, 65516),
        Err(SerializeError::HeaderTooLarge)
    );
    assert!(buffer.iter().all(|byte| *byte == 0));
    assert_eq!(
        tcp.serialize_with_payload(&mut buffer, &payload[1..], 65515),
        Ok(65535)
    );
    assert_eq!(pseudo_sum(&buffer[..65535], near(), far()), 0xffff);
    assert!(buffer[65535..].iter().all(|byte| *byte == 0));
}

#[test]
fn tcp_serialize_writes_what_pnet_populates() {
    let mut header = header_with(SYN | ACK, vec![]);
    header.reserved = 0x3a;
    header.urgent_ptr = 0x0102;
    let tcp = Tcp::from(header.clone(), near(), far());
    let mut ours = [0u8; 23];
    assert_eq!(
        tcp.serialize_with_payload(&mut ours, &[7, 8, 9], 3),
        Ok(23)
    );

    let mut theirs = [0u8; 23];
    let mut packet = MutableTcpPacket::new(&mut theirs).unwrap();
    packet.set_source(header.source);
    packet.set_destination(header.destination);
    packet.set_sequence(header.sequence);
    packet.set_acknowledgement(header.acknowledgement);
    packet.set_data_offset(5);
    packet.set_reserved(header.reserved);
    packet.set_flags(header.flags);
    packet.set_window(header.window);
    packet.set_urgent_ptr(header.urgent_ptr);
    packet.set_payload(&[7, 8, 9]);
    let checksum = pnet::packet::tcp::ipv4_checksum(
        &packet.to_immutable(),
        &near().to_bits().into(),
        &far().to_bits().into(),
    );
    packet.set_checksum(checksum);
    assert_eq!(ours, theirs);
    assert_eq!(ours[12], 0x5a);
}

#[test]
fn tcp_parse_reads_every_field() {
    let raw: [u8; 36] = [
        0xc1, 0x67, 0x23, 0x28, 0x90, 0x37, 0xd2, 0xb8, 0x94, 0x4b, 0xb2, 0x76, 0x80, 0x18, 0x0f,
        0xaf, 0xc0, 0x31, 0x00, 0x00, 0x01, 0x01, 0x08, 0x0a, 0x2c, 0x57, 0xcd, 0xa5, 0x02, 0xa0,
        0x41, 0x92, 0x74, 0x65, 0x73, 0x74,
    ];
    let src = Ipv4Addr::new(192, 168, 2, 1);
    let dst = Ipv4Addr::new(192, 168, 111, 51);
    let tcp = Tcp::parse(&raw, src, dst).unwrap();
    assert_eq!(tcp.get_src_ip_addr(), src);
    assert_eq!(tcp.get_dst_ip_addr(), dst);
    assert_eq!(tcp.get_src(), 49511);
    assert_eq!(tcp.get_dst(), 9000);
    assert_eq!(tcp.get_sequence(), 0x9037d2b8);
    assert_eq!(tcp.get_acknowledgement(), 0x944bb276);
    assert_eq!(tcp.get_window(), 4015);
    assert_eq!(tcp.layer.data_offset, 8);
    assert_eq!(tcp.layer.reserved, 0);
    assert_eq!(tcp.layer.flags, PSH | ACK);
    assert_eq!(tcp.layer.checksum, 0xc031);
    assert_eq!(tcp.layer.urgent_ptr, 0);
    assert!(tcp.layer.payload.is_empty());
    assert_eq!(tcp.get_flag_string(), "[.]");
    assert_eq!(tcp.get_size(), 32);
    let sizes: Vec<usize> = tcp.layer.options.iter().map(|o| o.size()).collect();
    assert_eq!(sizes, vec![1, 1, 10]);
    let theirs = TcpPacket::new(&raw).unwrap().get_options();
    assert_eq!(theirs.len(), 3);
    assert_eq!(tcp.layer.options[2].bytes[0], theirs[2].number.0);
    assert_eq!(&tcp.layer.options[2].bytes[2..], &theirs[2].data[..]);

    let mut buffer = [0u8; 36];
    assert_eq!(
        tcp.serialize_with_payload(&mut buffer, &raw[32..], 4),
        Ok(36)
    );
    assert_eq!(buffer, raw);
}

#[test]
fn tcp_parse_reads_what_serialize_wrote() {
    let tcp = Tcp::new_ack_fin(near(), far(), 40000, 443, 0xfffffffe, 0x80000001, 1460);
    let mut buffer = [0u8; 20];
    assert_eq!(tcp.serialize(&mut buffer, 0), Ok(20));
    let back = Tcp::parse(&buffer, near(), far()).unwrap();
    assert_eq!(back.get_src(), 40000);
    assert_eq!(back.get_dst(), 443);
    assert_eq!(back.get_sequence(), 0xfffffffe);
    assert_eq!(back.get_acknowledgement(), 0x80000001);
    assert_eq!(back.get_window(), 1460);
    assert_eq!(back.layer.flags, ACK | FIN);
    assert!(back.is_ack_fin());
    assert_eq!(back.get_size(), 20);
}

#[test]
fn parse_cuts_options_that_run_out_of_bytes() {
    let mut raw = [0u8; 24];
    raw[12] = 0x60;
    raw[20] = 2;
    raw[21] = 8;
    let tcp = Tcp::parse(&raw, near(), far()).unwrap();
    let sizes: Vec<usize> = tcp.layer.options.iter().map(|o| o.size()).collect();
    assert_eq!(sizes, vec![4]);
    assert_eq!(tcp.get_size(), 24);

    raw[12] = 0xa0;
    assert!(Tcp::parse(&raw[..19], near(), far()).is_none());
    let tcp = Tcp::parse(&raw[..20], near(), far()).unwrap();
    assert_eq!(tcp.get_size(), 20);
    assert!(tcp.layer.options.is_empty());

    let mut raw = [0u8; 28];
    raw[12] = 0x70;
    raw[20..28].copy_from_slice(&[3, 1, 0, 1, 4, 2, 9, 0]);
    let tcp = Tcp::parse(&raw, near(), far()).unwrap();
    let sizes: Vec<usize> = tcp.layer.options.iter().map(|o| o.size()).collect();
    assert_eq!(sizes, vec![2, 1, 1, 2, 2]);
    let theirs = TcpPacket::new(&raw).unwrap().get_options_iter().count();
    assert_eq!(theirs, 5);
}

#[test]
fn checksum_of_a_known_segment() {
    let segment: [u8; 36] = [
        0xc1, 0x67, 0x23, 0x28, 0x90, 0x37, 0xd2, 0xb8, 0x94, 0x4b, 0xb2, 0x76, 0x80, 0x18, 0x0f,
        0xaf, 0x00, 0x00, 0x00, 0x00, 0x01, 0x01, 0x08, 0x0a, 0x2c, 0x57, 0xcd, 0xa5, 0x02, 0xa0,
        0x41, 0x92, 0x74, 0x65, 0x73, 0x74,
    ];
    let src = Ipv4Addr::new(192, 168, 2, 1);
    let dst = Ipv4Addr::new(192, 168, 111, 51);
    assert_eq!(tcp_checksum(&segment, src, dst), Some(0xc031));
    assert_ne!(tcp_checksum(&segment, dst, Ipv4Addr::new(1, 1, 1, 1)), Some(0xc031));
    assert_eq!(tcp_checksum(&segment[..19], src, dst), None);
    assert_eq!(tcp_checksum(&vec![0u8; 65536], src, dst), None);
    assert!(tcp_checksum(&vec![0xffu8; 65535], src, dst).is_some());
}
