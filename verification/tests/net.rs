use faf_dns_bench::net::{
    htonl, htons, in_addr, linger, sockaddr_in, socket_address, UdpSocket, AF_INET,
    SOCKADDR_IN_LEN,
};

#[test]
fn htons_gives_network_order_in_memory() {
    assert_eq!(htons(0x1234).to_ne_bytes(), [0x12, 0x34]);
    assert_eq!(htons(53).to_ne_bytes(), [0, 53]);
    assert_eq!(htons(0), 0);
    assert_eq!(htons(0xffff), 0xffff);
    assert_eq!(htons(htons(0xbeef)), 0xbeef);
}

#[test]
fn htonl_gives_network_order_in_memory() {
    assert_eq!(htonl(0x12345678).to_ne_bytes(), [0x12, 0x34, 0x56, 0x78]);
    assert_eq!(htonl(0x7f000001).to_ne_bytes(), [127, 0, 0, 1]);
    assert_eq!(htonl(0), 0);
    assert_eq!(htonl(htonl(0xdeadbeef)), 0xdeadbeef);
}

#[test]
fn socket_address_is_built_from_its_parts() {
    let addr = sockaddr_in::new(2, 0x3500, 0x0100007f);
    assert_eq!(addr.sin_family, 2);
    assert_eq!(addr.sin_port, 0x3500);
    assert_eq!(addr.sin_addr, in_addr { s_addr: 0x0100007f });
    assert_eq!(addr.sin_zero, [0u8; 8]);
}

#[test]
fn socket_address_of_host_and_port_is_in_network_order() {
    let addr = socket_address(0x7f000001, 59233);
    assert_eq!(addr.sin_family, AF_INET);
    assert_eq!(addr.sin_port.to_ne_bytes(), 59233u16.to_be_bytes());
    assert_eq!(addr.sin_addr.s_addr.to_ne_bytes(), [127, 0, 0, 1]);
    assert_eq!(addr.sin_zero, [0u8; 8]);
    assert_eq!(SOCKADDR_IN_LEN, 16);
}

#[test]
fn socket_records_hold_their_fields() {
    let addr = socket_address(0, 53);
    let socket = UdpSocket { fd: 7, addr };
    assert_eq!(socket.fd, 7);
    assert_eq!(socket.addr, addr);
    let option = linger { l_onoff: 1, l_linger: 0 };
    assert_eq!((option.l_onoff, option.l_linger), (1, 0));
}
