use wololo::device::{Device, DeviceError, DeviceName};
use wololo::mac::MacAddressError;

#[test]
fn name_accepts_alphanumeric_text() {
    let name = DeviceName::try_from("pc1").unwrap();
    assert_eq!(name.as_ref(), "pc1");
    assert_eq!(name.to_string(), "pc1");
}

#[test]
fn name_accepts_letters_beyond_ascii() {
    let name = DeviceName::try_from("pcé").unwrap();
    assert_eq!(name.as_ref(), "pcé");
}

#[test]
fn name_rejects_separators_and_punctuation() {
    assert_eq!(DeviceName::try_from("pc 1"), Err(DeviceError::InvalidName));
    assert_eq!(DeviceName::try_from("pc-1"), Err(DeviceError::InvalidName));
    assert_eq!(DeviceName::try_from("pc\n1"), Err(DeviceError::InvalidName));
}

#[test]
fn empty_name_is_vacuously_accepted() {
    let name = DeviceName::try_from("").unwrap();
    assert_eq!(name.as_ref(), "");
}

#[test]
fn device_is_built_from_validated_parts() {
    let d = Device::try_from(("pc1", "00:01:02:03:04:05")).unwrap();
    assert_eq!(d.name.as_ref(), "pc1");
    assert_eq!(d.mac.to_string(), "00:01:02:03:04:05");
}

#[test]
fn device_rejects_bad_name_before_bad_mac() {
    assert_eq!(
        Device::try_from(("pc 1", "zz:01:02:03:04:05")),
        Err(DeviceError::InvalidName)
    );
    assert_eq!(
        Device::try_from(("pc1", "zz:01:02:03:04:05")),
        Err(DeviceError::InvalidMac(MacAddressError::Format))
    );
}
