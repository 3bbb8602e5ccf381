//! Identity lifecycle: the fixed prekey ids of the initial prekey set, the
//! registration id rule, and the pre-key bundle this device exports. The
//! key material itself comes from the Signal protocol library and is
//! opaque bytes here.

use vstd::prelude::*;

use crate::pairing::bundle::{bundle_fields_fit, serialize, spec_bundle_bytes, BundleData, BundleView};

verus! {

/// Id of the signed EC prekey generated at initialization.
pub const SIGNED_PREKEY_ID: u32 = 1;

/// Id of the (last-resort) Kyber prekey generated at initialization.
pub const KYBER_PREKEY_ID: u32 = 1;

/// Id of the one-time prekey generated at initialization.
pub const ONETIME_PREKEY_ID: u32 = 1;

/// The only device id (multi-device linking is out of scope).
pub const DEVICE_ID: u32 = 1;

/// Registration ids are 14 bits wide.
pub const REGISTRATION_ID_MASK: u32 = 0x3FFF;

/// A registration id from a random 32-bit candidate: its low 14 bits, or
/// none when those are all zero (the caller draws again).
pub fn registration_id_from(candidate: u32) -> (r: Option<u32>)
    ensures
        r == (if candidate & REGISTRATION_ID_MASK != 0 {
            Some(candidate & REGISTRATION_ID_MASK)
        } else {
            None::<u32>
        }),
        r matches Some(id) ==> 0 < id < 0x4000,
{
    let id = candidate & REGISTRATION_ID_MASK;
    assert(id <= REGISTRATION_ID_MASK) by (bit_vector)
        requires
            id == candidate & 0x3FFFu32,
    ;
    if id != 0 {
        Some(id)
    } else {
        None
    }
}

/// The bundle of this device's initial prekey set, by its public parts.
pub open spec fn local_bundle_view(
    address_name: Seq<char>,
    registration_id: u32,
    identity_key: Seq<u8>,
    signed_prekey_pub: Seq<u8>,
    signed_prekey_sig: Seq<u8>,
    kyber_prekey_pub: Seq<u8>,
    kyber_prekey_sig: Seq<u8>,
    onetime_prekey_pub: Seq<u8>,
) -> BundleView {
    BundleView {
        address_name,
        registration_id,
        device_id: DEVICE_ID,
        identity_key,
        signed_prekey_id: SIGNED_PREKEY_ID,
        signed_prekey_pub,
        signed_prekey_sig,
        kyber_prekey_id: KYBER_PREKEY_ID,
        kyber_prekey_pub,
        kyber_prekey_sig,
        onetime_prekey: Some((ONETIME_PREKEY_ID, onetime_prekey_pub)),
    }
}

/// The serialized pre-key bundle carried by the pairing QR or link, built
/// from the stored identity's public parts: the fixed device and prekey
/// ids, and the one-time prekey always present.
pub fn export_local_bundle(
    address_name: String,
    registration_id: u32,
    identity_key: Vec<u8>,
    signed_prekey_pub: Vec<u8>,
    signed_prekey_sig: Vec<u8>,
    kyber_prekey_pub: Vec<u8>,
    kyber_prekey_sig: Vec<u8>,
    onetime_prekey_pub: Vec<u8>,
) -> (out: Vec<u8>)
    requires
        bundle_fields_fit(
            local_bundle_view(
                address_name@,
                registration_id,
                identity_key@,
                signed_prekey_pub@,
                signed_prekey_sig@,
                kyber_prekey_pub@,
                kyber_prekey_sig@,
                onetime_prekey_pub@,
            ),
        ),
    ensures
        out@ == spec_bundle_bytes(
            local_bundle_view(
                address_name@,
                registration_id,
                identity_key@,
                signed_prekey_pub@,
                signed_prekey_sig@,
                kyber_prekey_pub@,
                kyber_prekey_sig@,
                onetime_prekey_pub@,
            ),
        ),
{
    let ghost v = local_bundle_view(
        address_name@,
        registration_id,
        identity_key@,
        signed_prekey_pub@,
        signed_prekey_sig@,
        kyber_prekey_pub@,
        kyber_prekey_sig@,
        onetime_prekey_pub@,
    );
    let data = BundleData {
        address_name,
        registration_id,
        device_id: DEVICE_ID,
        identity_key,
        signed_prekey_id: SIGNED_PREKEY_ID,
        signed_prekey_pub,
        signed_prekey_sig,
        kyber_prekey_id: KYBER_PREKEY_ID,
        kyber_prekey_pub,
        kyber_prekey_sig,
        onetime_prekey: Some((ONETIME_PREKEY_ID, onetime_prekey_pub)),
    };
    assert(data@ == v);
    serialize(&data)
}

} // verus!
