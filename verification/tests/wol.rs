use wololo::mac::MacAddress;
use wololo::wol::magic_packet;

#[test]
fn magic_packet_holds_the_header_and_sixteen_address_copies() {
    let mac = MacAddress::try_from("00:01:02:03:04:05").unwrap();
    let packet = magic_packet(&mac);
    assert_eq!(packet.len(), 102);
    assert_eq!(&packet[0..6], &[0xff; 6]);
    for rep in 0..16 {
        let start = 6 + 6 * rep;
        assert_eq!(&packet[start..start + 6], &[0x00, 0x01, 0x02, 0x03, 0x04, 0x05]);
    }
}

#[test]
fn magic_packet_carries_the_exact_address_bytes() {
    let mac = MacAddress::try_from("aa-bb-cc-dd-ee-ff").unwrap();
    let packet = magic_packet(&mac);
    assert_eq!(&packet[6..12], &[0xaa, 0xbb, 0xcc, 0xdd, 0xee, 0xff]);
    assert_eq!(&packet[96..102], &[0xaa, 0xbb, 0xcc, 0xdd, 0xee, 0xff]);
}
