//! Validated device identities: a name and a hardware address.

use vstd::prelude::*;
use crate::mac::{mac_parse_result, MacAddressError};
pub use crate::mac::MacAddress;

verus! {

/// What `char::is_alphanumeric` returns; it depends on the character
/// alone.
pub uninterp spec fn char_alphanumeric(c: char) -> bool;

/// Relies on char::is_alphanumeric. The result depends on the character
/// alone, and the documented alphanumeric categories hold letters and
/// digits only, never a space or a line break.
#[verifier::external_body]
fn is_alphanumeric_char(c: char) -> (r: bool)
    ensures
        r == char_alphanumeric(c),
        r ==> c != ' ' && c != '\n',
{
    c.is_alphanumeric()
}

/// A character accepted in a device name: alphanumeric, and so in
/// particular never a space or a line break.
pub open spec fn is_name_char(c: char) -> bool {
    char_alphanumeric(c) && c != ' ' && c != '\n'
}

/// A valid device name: every character alphanumeric. The empty name is
/// vacuously valid and is accepted.
pub open spec fn valid_name(s: Seq<char>) -> bool {
    forall|i: int| 0 <= i < s.len() ==> is_name_char(#[trigger] s[i])
}

/// Why a device was rejected at the validation boundary.
#[derive(Debug, PartialEq, Eq, Structural, Clone, Copy)]
pub enum DeviceError {
    /// The name holds a character that is not alphanumeric.
    InvalidName,
    /// The hardware address text was rejected.
    InvalidMac(MacAddressError),
}

/// A device name, validated once at the boundary: only alphanumeric
/// characters.
#[derive(Debug)]
pub struct DeviceName(String);

impl View for DeviceName {
    type V = Seq<char>;

    closed spec fn view(&self) -> Seq<char> {
        self.0@
    }
}

impl DeviceName {
    #[verifier::type_invariant]
    pub(crate) open spec fn name_validated(self) -> bool {
        valid_name(self@)
    }

    /// Accepts a name made of alphanumeric characters only.
    pub fn try_from(name: &str) -> (r: Result<DeviceName, DeviceError>)
        ensures
            match r {
                Ok(n) => valid_name(name@) && n@ == name@,
                Err(e) => !valid_name(name@) && e == DeviceError::InvalidName,
            },
    {
        let n = name.unicode_len();
        let mut i: usize = 0;
        while i < n
            invariant
                n == name@.len(),
                i <= n,
                forall|j: int| 0 <= j < i ==> is_name_char(#[trigger] name@[j]),
            decreases n - i,
        {
            if !is_alphanumeric_char(name.get_char(i)) {
                return Err(DeviceError::InvalidName);
            }
            i += 1;
        }
        Ok(DeviceName(name.to_owned()))
    }

    /// The name as text.
    pub fn as_ref(&self) -> (r: &str)
        ensures
            r@ == self@,
    {
        self.0.as_str()
    }

    /// The name as an owned string.
    pub fn to_string(&self) -> (r: String)
        ensures
            r@ == self@,
    {
        self.0.clone()
    }

}

impl Clone for DeviceName {
    fn clone(&self) -> (r: Self)
        ensures
            r == *self,
    {
        proof {
            use_type_invariant(self);
        }
        DeviceName(self.0.clone())
    }
}

impl PartialEq for DeviceName {
    fn eq(&self, other: &Self) -> (r: bool)
    {
        self.0 == other.0
    }
}

impl vstd::std_specs::cmp::PartialEqSpecImpl for DeviceName {
    open spec fn obeys_eq_spec() -> bool {
        true
    }

    open spec fn eq_spec(&self, other: &Self) -> bool {
        self@ == other@
    }
}

impl Eq for DeviceName {

}

/// The model of one device record: its name and its hardware address.
pub ghost struct DeviceRecord {
    pub name: Seq<char>,
    pub mac: Seq<u8>,
}

/// The records that a sequence of devices stands for.
pub open spec fn seq_models(s: Seq<Device>) -> Seq<DeviceRecord> {
    s.map_values(|d: Device| d@)
}

/// One more device stands for one more record.
pub proof fn lemma_seq_models_push(s: Seq<Device>, d: Device)
    ensures
        seq_models(s.push(d)) == seq_models(s).push(d@),
{
    assert(seq_models(s.push(d)) =~= seq_models(s).push(d@));
}

/// A named device with its hardware address.
#[derive(Debug)]
pub struct Device {
    pub name: DeviceName,
    pub mac: MacAddress,
}

impl View for Device {
    type V = DeviceRecord;

    open spec fn view(&self) -> DeviceRecord {
        DeviceRecord { name: self.name@, mac: self.mac@ }
    }
}

impl Device {
    /// Builds a device from its two textual parts, validating both; the
    /// name is checked first.
    pub fn try_from(name_mac: (&str, &str)) -> (r: Result<Device, DeviceError>)
        ensures
            match r {
                Ok(d) => valid_name(name_mac.0@) && d@.name == name_mac.0@ && mac_parse_result(
                    name_mac.1@,
                ) == Ok::<Seq<u8>, MacAddressError>(d@.mac),
                Err(DeviceError::InvalidName) => !valid_name(name_mac.0@),
                Err(DeviceError::InvalidMac(e)) => valid_name(name_mac.0@) && mac_parse_result(
                    name_mac.1@,
                ) == Err::<Seq<u8>, MacAddressError>(e),
            },
    {
        let name = match DeviceName::try_from(name_mac.0) {
            Ok(n) => n,
            Err(e) => {
                return Err(e);
            },
        };
        let mac = match MacAddress::try_from(name_mac.1) {
            Ok(m) => m,
            Err(e) => {
                return Err(DeviceError::InvalidMac(e));
            },
        };
        Ok(Device { name, mac })
    }
}

impl Clone for Device {
    fn clone(&self) -> (r: Self)
        ensures
            r == *self,
    {
        Device { name: self.name.clone(), mac: self.mac.clone() }
    }
}

impl PartialEq for Device {
    fn eq(&self, other: &Self) -> (r: bool)
    {
        self.name == other.name && self.mac == other.mac
    }
}

impl vstd::std_specs::cmp::PartialEqSpecImpl for Device {
    open spec fn obeys_eq_spec() -> bool {
        true
    }

    open spec fn eq_spec(&self, other: &Self) -> bool {
        self@ == other@
    }
}

impl Eq for Device {

}

} // verus!
