use packet_layer::{Ipv4, Ipv4Addr, Layer, LayerType, Tcp};

fn folded_sum(start: u32, bytes: &[u8]) -> u16 {
    let mut sum = start;
    for pair in bytes.chunks(2) {
        let low = if pair.len() == 2 { pair[1] as u32 } else { 0 };
        sum += ((pair[0] as u32) << 8) | low;
    }
    while sum > 0xffff {
        sum = (sum >> 16) + (sum & 0xffff);
    }
    sum as u16
}

#[test]
fn handshake_answer_end_to_end() {
    let src = Ipv4Addr::new(10, 0, 0, 1);
    let dst = Ipv4Addr::new(10, 0, 0, 2);
    let ipv4 = Ipv4::new(0x1234, LayerType::Tcp, src, dst).unwrap();
    let tcp = Tcp::new_ack_syn(src, dst, 1234, 80, 1000, 0, 65535);
    let total = ipv4.get_size() + tcp.get_size();
    assert_eq!(total, 40);

    let mut packet = [0u8; 40];
    let (network, transport) = packet.split_at_mut(20);
    assert_eq!(ipv4.serialize(network, total), Ok(20));
    assert_eq!(tcp.serialize(transport, total - 20), Ok(20));

    assert_eq!(&packet[2..4], &[0, 40]);
    assert_eq!(packet[0], 0x45);
    assert_eq!(&packet[4..6], &[0x12, 0x34]);
    assert_eq!(packet[9], 6);
    assert_eq!(folded_sum(0, &packet[..20]), 0xffff);

    let pseudo = 0x0a00 + 0x0001 + 0x0a00 + 0x0002 + 6 + 20;
    assert_eq!(folded_sum(pseudo, &packet[20..]), 0xffff);
    assert_eq!(packet[32], 0x50);
    assert_eq!(packet[33], 0x12);
    assert_eq!(tcp.get_flag_string(), "[S.]");

    let seen = Ipv4::parse(&packet).unwrap();
    assert_eq!(seen.get_total_length(), 40);
    assert_eq!(seen.get_identification(), 0x1234);
    let carried = Tcp::parse(&packet[20..], seen.get_src(), seen.get_dst()).unwrap();
    assert!(carried.is_syn());
    assert!(carried.is_ack());
    assert_eq!(carried.get_src(), 1234);
    assert_eq!(carried.get_dst(), 80);
    assert_eq!(carried.get_sequence(), 1000);
    assert_eq!(carried.get_window(), 65535);
    assert_eq!(carried.to_string(), "TCP: 1234 -> 80 [S.]");
    assert_eq!(seen.to_string(), "IPv4: 10.0.0.1 -> 10.0.0.2, Length = 40");
}
