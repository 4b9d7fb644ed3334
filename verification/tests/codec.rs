use wololo::codec::{decode_devices, encode_devices};
use wololo::device::Device;

#[test]
fn decode_inverts_encode() {
    let devices = vec![
        Device::try_from(("pc1", "00:01:02:03:04:05")).unwrap(),
        Device::try_from(("pc2", "aa:bb:cc:dd:ee:ff")).unwrap(),
        Device::try_from(("", "11:11:11:11:11:11")).unwrap(),
    ];
    let text = encode_devices(&devices);
    let back = decode_devices(&text).unwrap();
    assert_eq!(back, devices);
}

#[test]
fn decode_of_empty_text_is_the_empty_list() {
    assert_eq!(decode_devices("").unwrap().len(), 0);
}

#[test]
fn decode_rejects_text_after_the_last_line_break() {
    assert!(decode_devices("pc1 00:01:02:03:04:05\nxx").is_none());
}

#[test]
fn decode_rejects_a_line_without_a_space() {
    assert!(decode_devices("pc1\n").is_none());
}
