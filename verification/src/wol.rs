//! The magic packet that wakes a device: the datagram payload is pure
//! computation and is built here; sending it is left to the caller.

use vstd::prelude::*;
use crate::mac::{lemma_mac_address_len, MacAddress};

verus! {

/// The bytes of a wake-on-LAN magic packet: six `0xff` bytes, then the
/// six address octets sixteen times over.
pub open spec fn magic_packet_bytes(mac: Seq<u8>) -> Seq<u8>
    recommends
        mac.len() == 6,
{
    Seq::new(102, |i: int| if i < 6 { 0xffu8 } else { mac[(i - 6) % 6] })
}

/// Builds the magic packet of the address.
pub fn magic_packet(mac: &MacAddress) -> (r: Vec<u8>)
    ensures
        r@ == magic_packet_bytes(mac@),
{
    proof {
        lemma_mac_address_len(mac);
    }
    let bytes = mac.as_bytes();
    let mut v: Vec<u8> = Vec::new();
    let mut i: usize = 0;
    while i < 6
        invariant
            i <= 6,
            v@.len() == i,
            forall|j: int| 0 <= j < i ==> v@[j] == 0xffu8,
        decreases 6 - i,
    {
        v.push(0xff);
        i += 1;
    }
    let mut rep: usize = 0;
    while rep < 16
        invariant
            bytes@ == mac@,
            mac@.len() == 6,
            rep <= 16,
            v@.len() == 6 + 6 * rep,
            forall|j: int| 0 <= j < v@.len() ==> v@[j] == (if j < 6 {
                0xffu8
            } else {
                mac@[(j - 6) % 6]
            }),
        decreases 16 - rep,
    {
        let mut k: usize = 0;
        while k < 6
            invariant
                bytes@ == mac@,
                mac@.len() == 6,
                rep < 16,
                k <= 6,
                v@.len() == 6 + 6 * rep + k,
                forall|j: int| 0 <= j < v@.len() ==> v@[j] == (if j < 6 {
                    0xffu8
                } else {
                    mac@[(j - 6) % 6]
                }),
            decreases 6 - k,
        {
            v.push(bytes[k]);
            proof {
                assert((6 * rep + k) % 6 == k) by (nonlinear_arith)
                    requires
                        0 <= k < 6,
                        0 <= rep,
                ;
            }
            k += 1;
        }
        rep += 1;
    }
    proof {
        assert(v@ =~= magic_packet_bytes(mac@));
    }
    v
}

} // verus!
