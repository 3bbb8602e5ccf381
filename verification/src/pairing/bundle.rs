//! The pre-key bundle framing (v1). Pure serialization: the key material
//! inside is opaque bytes here.
//!
//! ```text
//! 0x01 | var(address utf8) | registration_id u32 | device_id u32 | var(identity_key)
//!      | signed_prekey_id u32 | var(signed_prekey_pub) | var(signed_prekey_sig)
//!      | kyber_prekey_id u32 | var(kyber_prekey_pub) | var(kyber_prekey_sig)
//!      | onetime_id u32 (0xFFFFFFFF = none) | var(onetime_pub)
//! ```
//! where `var(x)` is `len u16 BE | x`.

use vstd::prelude::*;
use vstd::seq_lib::lemma_concat_associative;
use vstd::utf8::{decode_utf8, encode_utf8, valid_utf8};

use crate::codec::{be32, push_be32};
use crate::error::{CoreError, Result};
use crate::pairing::cursor::{
    lemma_field_ext, lemma_u32_ext, lemma_u8_ext, read_ext,
    lemma_field_front, lemma_field_split, lemma_var_then, lemma_u32_front, lemma_u32_split, lemma_u8_front,
    lemma_u8_split, put_bytes, rd_field, rd_u32, rd_u8, var, var_then, Cursor,
};

verus! {

/// Bundle format version.
pub const FORMAT_VERSION: u8 = 1;

/// The one-time prekey id that stands for "no one-time prekey".
pub const ABSENT_ID: u32 = 0xFFFF_FFFF;

/// Decoded pairing bundle fields (the byte fields are serialized keys).
#[derive(Debug)]
pub struct BundleData {
    pub address_name: String,
    pub registration_id: u32,
    pub device_id: u32,
    pub identity_key: Vec<u8>,
    pub signed_prekey_id: u32,
    pub signed_prekey_pub: Vec<u8>,
    pub signed_prekey_sig: Vec<u8>,
    pub kyber_prekey_id: u32,
    pub kyber_prekey_pub: Vec<u8>,
    pub kyber_prekey_sig: Vec<u8>,
    pub onetime_prekey: Option<(u32, Vec<u8>)>,
}

/// The mathematical content of a bundle.
pub ghost struct BundleView {
    pub address_name: Seq<char>,
    pub registration_id: u32,
    pub device_id: u32,
    pub identity_key: Seq<u8>,
    pub signed_prekey_id: u32,
    pub signed_prekey_pub: Seq<u8>,
    pub signed_prekey_sig: Seq<u8>,
    pub kyber_prekey_id: u32,
    pub kyber_prekey_pub: Seq<u8>,
    pub kyber_prekey_sig: Seq<u8>,
    pub onetime_prekey: Option<(u32, Seq<u8>)>,
}

impl View for BundleData {
    type V = BundleView;

    open spec fn view(&self) -> BundleView {
        BundleView {
            address_name: self.address_name@,
            registration_id: self.registration_id,
            device_id: self.device_id,
            identity_key: self.identity_key@,
            signed_prekey_id: self.signed_prekey_id,
            signed_prekey_pub: self.signed_prekey_pub@,
            signed_prekey_sig: self.signed_prekey_sig@,
            kyber_prekey_id: self.kyber_prekey_id,
            kyber_prekey_pub: self.kyber_prekey_pub@,
            kyber_prekey_sig: self.kyber_prekey_sig@,
            onetime_prekey: match self.onetime_prekey {
                Some((id, k)) => Some((id, k@)),
                None => None,
            },
        }
    }
}

/// The one-time prekey id written on the wire.
pub open spec fn onetime_id(v: BundleView) -> u32 {
    match v.onetime_prekey {
        Some((id, _)) => id,
        None => ABSENT_ID,
    }
}

/// The one-time prekey bytes written on the wire.
pub open spec fn onetime_key(v: BundleView) -> Seq<u8> {
    match v.onetime_prekey {
        Some((_, k)) => k,
        None => Seq::empty(),
    }
}

/// Every variable-length field fits its `u16` length prefix.
pub open spec fn bundle_fields_fit(v: BundleView) -> bool {
    &&& encode_utf8(v.address_name).len() <= u16::MAX
    &&& v.identity_key.len() <= u16::MAX
    &&& v.signed_prekey_pub.len() <= u16::MAX
    &&& v.signed_prekey_sig.len() <= u16::MAX
    &&& v.kyber_prekey_pub.len() <= u16::MAX
    &&& v.kyber_prekey_sig.len() <= u16::MAX
    &&& onetime_key(v).len() <= u16::MAX
}

/// The bytes after the kyber prekey id.
pub open spec fn bundle_tail(v: BundleView) -> Seq<u8> {
    var_then(
        v.kyber_prekey_pub,
        var_then(v.kyber_prekey_sig, be32(onetime_id(v)) + var(onetime_key(v))),
    )
}

/// The bytes after the identity key.
pub open spec fn bundle_middle(v: BundleView) -> Seq<u8> {
    be32(v.signed_prekey_id) + var_then(
        v.signed_prekey_pub,
        var_then(v.signed_prekey_sig, be32(v.kyber_prekey_id) + bundle_tail(v)),
    )
}

/// The serialized bundle.
pub open spec fn spec_bundle_bytes(v: BundleView) -> Seq<u8> {
    seq![FORMAT_VERSION] + var_then(
        encode_utf8(v.address_name),
        be32(v.registration_id) + (be32(v.device_id) + var_then(v.identity_key, bundle_middle(v))),
    )
}

/// What parsing the fields after the kyber prekey id gives, with
/// everything before already read.
#[verifier::opaque]
pub open spec fn spec_parse_bundle_tail(
    r: Seq<u8>,
    p: int,
    head: BundleView,
) -> core::result::Result<BundleView, CoreError> {
    match rd_field(r, p) {
        Err(e) => Err(e),
        Ok((kyber_prekey_pub, r, p)) => match rd_field(r, p) {
            Err(e) => Err(e),
            Ok((kyber_prekey_sig, r, p)) => if kyber_prekey_pub.len() == 0 {
                Err(CoreError::Malformed("bundle lacks post-quantum prekey"))
            } else {
                match rd_u32(r, p) {
                    Err(e) => Err(e),
                    Ok((oid, r, p)) => match rd_field(r, p) {
                        Err(e) => Err(e),
                        Ok((okey, r, p)) => if r.len() != 0 {
                            Err(CoreError::Malformed("trailing bytes in pairing bundle"))
                        } else {
                            Ok(
                                BundleView {
                                    kyber_prekey_pub,
                                    kyber_prekey_sig,
                                    onetime_prekey: if oid == ABSENT_ID {
                                        None
                                    } else {
                                        Some((oid, okey))
                                    },
                                    ..head
                                },
                            )
                        },
                    },
                }
            },
        },
    }
}

/// What parsing the fields after the identity key gives.
#[verifier::opaque]
pub open spec fn spec_parse_bundle_middle(
    r: Seq<u8>,
    p: int,
    head: BundleView,
) -> core::result::Result<BundleView, CoreError> {
    match rd_u32(r, p) {
        Err(e) => Err(e),
        Ok((signed_prekey_id, r, p)) => match rd_field(r, p) {
            Err(e) => Err(e),
            Ok((signed_prekey_pub, r, p)) => match rd_field(r, p) {
                Err(e) => Err(e),
                Ok((signed_prekey_sig, r, p)) => match rd_u32(r, p) {
                    Err(e) => Err(e),
                    Ok((kyber_prekey_id, r, p)) => spec_parse_bundle_tail(
                        r,
                        p,
                        BundleView {
                            signed_prekey_id,
                            signed_prekey_pub,
                            signed_prekey_sig,
                            kyber_prekey_id,
                            ..head
                        },
                    ),
                },
            },
        },
    }
}

/// What parsing a pairing bundle gives.
pub open spec fn spec_parse_bundle(b: Seq<u8>) -> core::result::Result<BundleView, CoreError> {
    match rd_u8(b, 0) {
        Err(e) => Err(e),
        Ok((version, r, p)) => if version != FORMAT_VERSION {
            Err(CoreError::Malformed("unknown pairing bundle version"))
        } else {
            match rd_field(r, p) {
                Err(e) => Err(e),
                Ok((addr, r, p)) => if !valid_utf8(addr) {
                    Err(CoreError::Malformed("bundle address is not UTF-8"))
                } else {
                    match rd_u32(r, p) {
                        Err(e) => Err(e),
                        Ok((registration_id, r, p)) => match rd_u32(r, p) {
                            Err(e) => Err(e),
                            Ok((device_id, r, p)) => if device_id != 1 {
                                Err(CoreError::Malformed("unsupported device id in v1"))
                            } else {
                                match rd_field(r, p) {
                                    Err(e) => Err(e),
                                    Ok((identity_key, r, p)) => spec_parse_bundle_middle(
                                        r,
                                        p,
                                        BundleView {
                                            address_name: decode_utf8(addr),
                                            registration_id,
                                            device_id,
                                            identity_key,
                                            signed_prekey_id: 0,
                                            signed_prekey_pub: Seq::empty(),
                                            signed_prekey_sig: Seq::empty(),
                                            kyber_prekey_id: 0,
                                            kyber_prekey_pub: Seq::empty(),
                                            kyber_prekey_sig: Seq::empty(),
                                            onetime_prekey: None,
                                        },
                                    ),
                                }
                            },
                        },
                    }
                },
            }
        },
    }
}

/// The serialized bundle, written as a left-to-right concatenation.
pub open spec fn bundle_flat(v: BundleView) -> Seq<u8> {
    seq![FORMAT_VERSION] + var(encode_utf8(v.address_name)) + be32(v.registration_id) + be32(
        v.device_id,
    ) + var(v.identity_key) + be32(v.signed_prekey_id) + var(v.signed_prekey_pub) + var(
        v.signed_prekey_sig,
    ) + be32(v.kyber_prekey_id) + var(v.kyber_prekey_pub) + var(v.kyber_prekey_sig) + be32(
        onetime_id(v),
    ) + var(onetime_key(v))
}

proof fn lemma_bundle_flat(v: BundleView)
    ensures
        bundle_flat(v) == spec_bundle_bytes(v),
{
    let a = seq![FORMAT_VERSION];
    let b = var(encode_utf8(v.address_name));
    let c = be32(v.registration_id);
    let d = be32(v.device_id);
    let e = var(v.identity_key);
    let f = be32(v.signed_prekey_id);
    let g = var(v.signed_prekey_pub);
    let h = var(v.signed_prekey_sig);
    let i = be32(v.kyber_prekey_id);
    let j = var(v.kyber_prekey_pub);
    let k = var(v.kyber_prekey_sig);
    let l = be32(onetime_id(v));
    let m = var(onetime_key(v));
    lemma_var_then(v.kyber_prekey_sig, l + m);
    lemma_var_then(v.kyber_prekey_pub, k + (l + m));
    lemma_var_then(v.signed_prekey_sig, i + (j + (k + (l + m))));
    lemma_var_then(v.signed_prekey_pub, h + (i + (j + (k + (l + m)))));
    lemma_var_then(v.identity_key, f + (g + (h + (i + (j + (k + (l + m)))))));
    let r = c + (d + (e + (f + (g + (h + (i + (j + (k + (l + m)))))))));
    lemma_var_then(encode_utf8(v.address_name), r);
    assert(spec_bundle_bytes(v) == a + (b + r));
    lemma_concat_associative(a, b, r);
    lemma_concat_associative(a + b, c, d + (e + (f + (g + (h + (i + (j + (k + (l + m)))))))));
    lemma_concat_associative(a + b + c, d, e + (f + (g + (h + (i + (j + (k + (l + m))))))));
    lemma_concat_associative(a + b + c + d, e, f + (g + (h + (i + (j + (k + (l + m)))))));
    lemma_concat_associative(a + b + c + d + e, f, g + (h + (i + (j + (k + (l + m))))));
    lemma_concat_associative(a + b + c + d + e + f, g, h + (i + (j + (k + (l + m)))));
    lemma_concat_associative(a + b + c + d + e + f + g, h, i + (j + (k + (l + m))));
    lemma_concat_associative(a + b + c + d + e + f + g + h, i, j + (k + (l + m)));
    lemma_concat_associative(a + b + c + d + e + f + g + h + i, j, k + (l + m));
    lemma_concat_associative(a + b + c + d + e + f + g + h + i + j, k, l + m);
    lemma_concat_associative(a + b + c + d + e + f + g + h + i + j + k, l, m);
}

/// Serializes a bundle.
pub fn serialize(data: &BundleData) -> (out: Vec<u8>)
    requires
        bundle_fields_fit(data@),
    ensures
        out@ == spec_bundle_bytes(data@),
{
    let mut out: Vec<u8> = Vec::new();
    out.push(FORMAT_VERSION);
    put_bytes(&mut out, data.address_name.as_str().as_bytes());
    push_be32(&mut out, data.registration_id);
    push_be32(&mut out, data.device_id);
    put_bytes(&mut out, data.identity_key.as_slice());
    push_be32(&mut out, data.signed_prekey_id);
    put_bytes(&mut out, data.signed_prekey_pub.as_slice());
    put_bytes(&mut out, data.signed_prekey_sig.as_slice());
    push_be32(&mut out, data.kyber_prekey_id);
    put_bytes(&mut out, data.kyber_prekey_pub.as_slice());
    put_bytes(&mut out, data.kyber_prekey_sig.as_slice());
    match &data.onetime_prekey {
        Some((id, key)) => {
            push_be32(&mut out, *id);
            put_bytes(&mut out, key.as_slice());
        },
        None => {
            push_be32(&mut out, ABSENT_ID);
            let empty: [u8; 0] = [];
            assert(empty@ =~= Seq::<u8>::empty());
            put_bytes(&mut out, &empty);
        },
    }
    proof {
        lemma_bundle_flat(data@);
    }
    out
}

/// Parses the fields after the kyber prekey id.
fn parse_tail(c: &mut Cursor, head: BundleData) -> (r: Result<BundleData>)
    requires
        old(c).wf(),
    ensures
        match spec_parse_bundle_tail(old(c).rest(), old(c).pos as int, head@) {
            Ok(v) => r matches Ok(d) && d@ == v,
            Err(e) => r matches Err(e2) && e2 == e,
        },
{
    reveal(spec_parse_bundle_tail);
    let kyber_prekey_pub = match c.bytes_field() {
        Ok(s) => vstd::slice::slice_to_vec(s),
        Err(e) => return Err(e),
    };
    let kyber_prekey_sig = match c.bytes_field() {
        Ok(s) => vstd::slice::slice_to_vec(s),
        Err(e) => return Err(e),
    };
    if kyber_prekey_pub.len() == 0 {
        return Err(CoreError::Malformed("bundle lacks post-quantum prekey"));
    }
    let oid = match c.u32() {
        Ok(v) => v,
        Err(e) => return Err(e),
    };
    let okey = match c.bytes_field() {
        Ok(s) => vstd::slice::slice_to_vec(s),
        Err(e) => return Err(e),
    };
    if !c.at_end() {
        return Err(CoreError::Malformed("trailing bytes in pairing bundle"));
    }
    let onetime_prekey = if oid == ABSENT_ID {
        None
    } else {
        Some((oid, okey))
    };
    Ok(BundleData { kyber_prekey_pub, kyber_prekey_sig, onetime_prekey, ..head })
}

/// Parses the fields after the identity key.
fn parse_middle(c: &mut Cursor, head: BundleData) -> (r: Result<BundleData>)
    requires
        old(c).wf(),
    ensures
        match spec_parse_bundle_middle(old(c).rest(), old(c).pos as int, head@) {
            Ok(v) => r matches Ok(d) && d@ == v,
            Err(e) => r matches Err(e2) && e2 == e,
        },
{
    reveal(spec_parse_bundle_middle);
    let signed_prekey_id = match c.u32() {
        Ok(v) => v,
        Err(e) => return Err(e),
    };
    let signed_prekey_pub = match c.bytes_field() {
        Ok(s) => vstd::slice::slice_to_vec(s),
        Err(e) => return Err(e),
    };
    let signed_prekey_sig = match c.bytes_field() {
        Ok(s) => vstd::slice::slice_to_vec(s),
        Err(e) => return Err(e),
    };
    let kyber_prekey_id = match c.u32() {
        Ok(v) => v,
        Err(e) => return Err(e),
    };
    parse_tail(
        c,
        BundleData { signed_prekey_id, signed_prekey_pub, signed_prekey_sig, kyber_prekey_id, ..head },
    )
}

/// Parses a pairing bundle.
pub fn parse(bytes: &[u8]) -> (r: Result<BundleData>)
    ensures
        match spec_parse_bundle(bytes@) {
            Ok(v) => r matches Ok(d) && d@ == v,
            Err(e) => r matches Err(e2) && e2 == e,
        },
{
    let mut c = Cursor::new(bytes);
    let version = match c.u8() {
        Ok(v) => v,
        Err(e) => return Err(e),
    };
    if version != FORMAT_VERSION {
        return Err(CoreError::Malformed("unknown pairing bundle version"));
    }
    let addr = match c.bytes_field() {
        Ok(s) => s,
        Err(e) => return Err(e),
    };
    let address_name = match crate::text::utf8_string(addr) {
        Some(s) => s,
        None => return Err(CoreError::Malformed("bundle address is not UTF-8")),
    };
    let registration_id = match c.u32() {
        Ok(v) => v,
        Err(e) => return Err(e),
    };
    let device_id = match c.u32() {
        Ok(v) => v,
        Err(e) => return Err(e),
    };
    if device_id != 1 {
        return Err(CoreError::Malformed("unsupported device id in v1"));
    }
    let identity_key = match c.bytes_field() {
        Ok(s) => vstd::slice::slice_to_vec(s),
        Err(e) => return Err(e),
    };
    parse_middle(
        &mut c,
        BundleData {
            address_name,
            registration_id,
            device_id,
            identity_key,
            signed_prekey_id: 0,
            signed_prekey_pub: Vec::new(),
            signed_prekey_sig: Vec::new(),
            kyber_prekey_id: 0,
            kyber_prekey_pub: Vec::new(),
            kyber_prekey_sig: Vec::new(),
            onetime_prekey: None,
        },
    )
}

/// The one-time prekey, when present, does not use the id reserved for
/// "absent".
pub open spec fn onetime_wf(v: BundleView) -> bool {
    v.onetime_prekey matches Some((id, _)) ==> id != ABSENT_ID
}

/// What parsing a serialized bundle gives: the bundle back, unless the
/// receiver rules (device id 1, a post-quantum prekey) reject it.
pub open spec fn bundle_verdict(v: BundleView) -> core::result::Result<BundleView, CoreError> {
    if v.device_id != 1 {
        Err(CoreError::Malformed("unsupported device id in v1"))
    } else if v.kyber_prekey_pub.len() == 0 {
        Err(CoreError::Malformed("bundle lacks post-quantum prekey"))
    } else {
        Ok(v)
    }
}

proof fn lemma_tail_roundtrip(v: BundleView, head: BundleView, p: int)
    requires
        bundle_fields_fit(v),
        onetime_wf(v),
        0 <= p,
        p + bundle_tail(v).len() <= usize::MAX,
        head.address_name == v.address_name,
        head.registration_id == v.registration_id,
        head.device_id == v.device_id,
        head.identity_key == v.identity_key,
        head.signed_prekey_id == v.signed_prekey_id,
        head.signed_prekey_pub == v.signed_prekey_pub,
        head.signed_prekey_sig == v.signed_prekey_sig,
        head.kyber_prekey_id == v.kyber_prekey_id,
    ensures
        spec_parse_bundle_tail(bundle_tail(v), p, head) == (if v.kyber_prekey_pub.len() == 0 {
            Err(CoreError::Malformed("bundle lacks post-quantum prekey"))
        } else {
            Ok::<_, CoreError>(v)
        }),
{
    reveal(spec_parse_bundle_tail);
    let ok = onetime_key(v);
    let last = be32(onetime_id(v)) + var(ok);
    let t1 = var_then(v.kyber_prekey_sig, last);
    lemma_field_front(v.kyber_prekey_pub, t1, p);
    let p1 = p + 2 + v.kyber_prekey_pub.len();
    lemma_field_front(v.kyber_prekey_sig, last, p1);
    let p2 = p1 + 2 + v.kyber_prekey_sig.len();
    lemma_u32_front(onetime_id(v), var(ok), p2);
    assert(var_then(ok, Seq::<u8>::empty()) =~= var(ok));
    lemma_field_front(ok, Seq::<u8>::empty(), p2 + 4);
}

proof fn lemma_middle_roundtrip(v: BundleView, head: BundleView, p: int)
    requires
        bundle_fields_fit(v),
        onetime_wf(v),
        0 <= p,
        p + bundle_middle(v).len() <= usize::MAX,
        head.address_name == v.address_name,
        head.registration_id == v.registration_id,
        head.device_id == v.device_id,
        head.identity_key == v.identity_key,
    ensures
        spec_parse_bundle_middle(bundle_middle(v), p, head) == (if v.kyber_prekey_pub.len() == 0 {
            Err(CoreError::Malformed("bundle lacks post-quantum prekey"))
        } else {
            Ok::<_, CoreError>(v)
        }),
{
    reveal(spec_parse_bundle_middle);
    let t = bundle_tail(v);
    let m1 = be32(v.kyber_prekey_id) + t;
    let m2 = var_then(v.signed_prekey_sig, m1);
    let m3 = var_then(v.signed_prekey_pub, m2);
    lemma_u32_front(v.signed_prekey_id, m3, p);
    lemma_field_front(v.signed_prekey_pub, m2, p + 4);
    let p1 = p + 4 + 2 + v.signed_prekey_pub.len();
    lemma_field_front(v.signed_prekey_sig, m1, p1);
    let p2 = p1 + 2 + v.signed_prekey_sig.len();
    lemma_u32_front(v.kyber_prekey_id, t, p2);
    let head2 = BundleView {
        signed_prekey_id: v.signed_prekey_id,
        signed_prekey_pub: v.signed_prekey_pub,
        signed_prekey_sig: v.signed_prekey_sig,
        kyber_prekey_id: v.kyber_prekey_id,
        ..head
    };
    lemma_tail_roundtrip(v, head2, p2 + 4);
}

/// Parsing a serialized bundle gives the bundle back, or the receiver
/// rule's error: a device id other than 1, or no post-quantum prekey.
pub proof fn law_bundle_roundtrip(v: BundleView)
    requires
        bundle_fields_fit(v),
        onetime_wf(v),
        spec_bundle_bytes(v).len() <= usize::MAX,
    ensures
        spec_parse_bundle(spec_bundle_bytes(v)) == bundle_verdict(v),
{
    let addr = encode_utf8(v.address_name);
    let m = bundle_middle(v);
    let h1 = var_then(v.identity_key, m);
    let h2 = be32(v.device_id) + h1;
    let h3 = be32(v.registration_id) + h2;
    lemma_u8_front(FORMAT_VERSION, var_then(addr, h3), 0);
    lemma_field_front(addr, h3, 1);
    vstd::utf8::encode_utf8_valid_utf8(v.address_name);
    vstd::utf8::encode_utf8_decode_utf8(v.address_name);
    let p1: int = 3int + addr.len();
    lemma_u32_front(v.registration_id, h2, p1);
    lemma_u32_front(v.device_id, h1, p1 + 4);
    if v.device_id == 1 {
        lemma_field_front(v.identity_key, m, p1 + 8);
        let p2: int = p1 + 10int + v.identity_key.len();
        let head = BundleView {
            address_name: v.address_name,
            registration_id: v.registration_id,
            device_id: v.device_id,
            identity_key: v.identity_key,
            signed_prekey_id: 0,
            signed_prekey_pub: Seq::empty(),
            signed_prekey_sig: Seq::empty(),
            kyber_prekey_id: 0,
            kyber_prekey_pub: Seq::empty(),
            kyber_prekey_sig: Seq::empty(),
            onetime_prekey: None,
        };
        lemma_middle_roundtrip(v, head, p2);
    }
}

proof fn lemma_tail_canonical(r: Seq<u8>, p: int, head: BundleView)
    requires
        spec_parse_bundle_tail(r, p, head) is Ok,
        spec_parse_bundle_tail(r, p, head)->Ok_0.onetime_prekey is Some,
    ensures
        ({
            let v = spec_parse_bundle_tail(r, p, head)->Ok_0;
            &&& bundle_tail(v) == r
            &&& v == BundleView {
                kyber_prekey_pub: v.kyber_prekey_pub,
                kyber_prekey_sig: v.kyber_prekey_sig,
                onetime_prekey: v.onetime_prekey,
                ..head
            }
            &&& v.kyber_prekey_pub.len() <= u16::MAX
            &&& v.kyber_prekey_sig.len() <= u16::MAX
            &&& onetime_key(v).len() <= u16::MAX
        }),
{
    reveal(spec_parse_bundle_tail);
    lemma_field_split(r, p);
    let (kp, r1, p1) = rd_field(r, p)->Ok_0;
    lemma_field_split(r1, p1);
    let (ks, r2, p2) = rd_field(r1, p1)->Ok_0;
    lemma_u32_split(r2, p2);
    let (oid, r3, p3) = rd_u32(r2, p2)->Ok_0;
    lemma_field_split(r3, p3);
    let (ok, r4, p4) = rd_field(r3, p3)->Ok_0;
    assert(r3 =~= var(ok));
}

proof fn lemma_middle_canonical(r: Seq<u8>, p: int, head: BundleView)
    requires
        spec_parse_bundle_middle(r, p, head) is Ok,
        spec_parse_bundle_middle(r, p, head)->Ok_0.onetime_prekey is Some,
    ensures
        ({
            let v = spec_parse_bundle_middle(r, p, head)->Ok_0;
            &&& bundle_middle(v) == r
            &&& v.address_name == head.address_name
            &&& v.registration_id == head.registration_id
            &&& v.device_id == head.device_id
            &&& v.identity_key == head.identity_key
            &&& v.signed_prekey_pub.len() <= u16::MAX
            &&& v.signed_prekey_sig.len() <= u16::MAX
            &&& v.kyber_prekey_pub.len() <= u16::MAX
            &&& v.kyber_prekey_sig.len() <= u16::MAX
            &&& onetime_key(v).len() <= u16::MAX
        }),
{
    reveal(spec_parse_bundle_middle);
    lemma_u32_split(r, p);
    let (spid, r1, p1) = rd_u32(r, p)->Ok_0;
    lemma_field_split(r1, p1);
    let (spp, r2, p2) = rd_field(r1, p1)->Ok_0;
    lemma_field_split(r2, p2);
    let (sps, r3, p3) = rd_field(r2, p2)->Ok_0;
    lemma_u32_split(r3, p3);
    let (kid, r4, p4) = rd_u32(r3, p3)->Ok_0;
    let head2 = BundleView {
        signed_prekey_id: spid,
        signed_prekey_pub: spp,
        signed_prekey_sig: sps,
        kyber_prekey_id: kid,
        ..head
    };
    lemma_tail_canonical(r4, p4, head2);
}

/// A bundle that parses, with a one-time prekey, is exactly the
/// serialization of what it parses to.
pub proof fn law_bundle_canonical(b: Seq<u8>)
    requires
        spec_parse_bundle(b) is Ok,
        spec_parse_bundle(b)->Ok_0.onetime_prekey is Some,
    ensures
        bundle_fields_fit(spec_parse_bundle(b)->Ok_0),
        spec_bundle_bytes(spec_parse_bundle(b)->Ok_0) == b,
{
    lemma_u8_split(b, 0);
    let (ver, r1, p1) = rd_u8(b, 0)->Ok_0;
    lemma_field_split(r1, p1);
    let (addr, r2, p2) = rd_field(r1, p1)->Ok_0;
    vstd::utf8::decode_utf8_encode_utf8(addr);
    lemma_u32_split(r2, p2);
    let (reg, r3, p3) = rd_u32(r2, p2)->Ok_0;
    lemma_u32_split(r3, p3);
    let (dev, r4, p4) = rd_u32(r3, p3)->Ok_0;
    lemma_field_split(r4, p4);
    let (ik, r5, p5) = rd_field(r4, p4)->Ok_0;
    let head = BundleView {
        address_name: decode_utf8(addr),
        registration_id: reg,
        device_id: dev,
        identity_key: ik,
        signed_prekey_id: 0,
        signed_prekey_pub: Seq::empty(),
        signed_prekey_sig: Seq::empty(),
        kyber_prekey_id: 0,
        kyber_prekey_pub: Seq::empty(),
        kyber_prekey_sig: Seq::empty(),
        onetime_prekey: None,
    };
    lemma_middle_canonical(r5, p5, head);
}

proof fn lemma_tail_ext(r: Seq<u8>, p: int, head: BundleView, t: Seq<u8>)
    ensures
        spec_parse_bundle_tail(r, p, head) matches Err(e) ==> e matches CoreError::Malformed(_),
        spec_parse_bundle_tail(r, p, head) is Ok && t.len() > 0 ==> spec_parse_bundle_tail(
            r + t,
            p,
            head,
        ) is Err,
{
    reveal(spec_parse_bundle_tail);
    lemma_field_ext(r, t, p);
    if rd_field(r, p) is Ok {
        let (kp, r1, p1) = rd_field(r, p)->Ok_0;
        lemma_field_ext(r1, t, p1);
        if rd_field(r1, p1) is Ok {
            let (ks, r2, p2) = rd_field(r1, p1)->Ok_0;
            lemma_u32_ext(r2, t, p2);
            if rd_u32(r2, p2) is Ok {
                let (oid, r3, p3) = rd_u32(r2, p2)->Ok_0;
                lemma_field_ext(r3, t, p3);
                if rd_field(r3, p3) is Ok {
                    let (ok, r4, p4) = rd_field(r3, p3)->Ok_0;
                    assert(read_ext(rd_field(r3, p3), t) == Ok::<_, CoreError>((ok, r4 + t, p4)));
                    assert(t.len() > 0 ==> (r4 + t).len() != 0);
                }
            }
        }
    }
}

proof fn lemma_middle_ext(r: Seq<u8>, p: int, head: BundleView, t: Seq<u8>)
    ensures
        spec_parse_bundle_middle(r, p, head) matches Err(e) ==> e matches CoreError::Malformed(_),
        spec_parse_bundle_middle(r, p, head) is Ok && t.len() > 0 ==> spec_parse_bundle_middle(
            r + t,
            p,
            head,
        ) is Err,
{
    reveal(spec_parse_bundle_middle);
    lemma_u32_ext(r, t, p);
    if rd_u32(r, p) is Ok {
        let (spid, r1, p1) = rd_u32(r, p)->Ok_0;
        lemma_field_ext(r1, t, p1);
        if rd_field(r1, p1) is Ok {
            let (spp, r2, p2) = rd_field(r1, p1)->Ok_0;
            lemma_field_ext(r2, t, p2);
            if rd_field(r2, p2) is Ok {
                let (sps, r3, p3) = rd_field(r2, p2)->Ok_0;
                lemma_u32_ext(r3, t, p3);
                if rd_u32(r3, p3) is Ok {
                    let (kid, r4, p4) = rd_u32(r3, p3)->Ok_0;
                    let head2 = BundleView {
                        signed_prekey_id: spid,
                        signed_prekey_pub: spp,
                        signed_prekey_sig: sps,
                        kyber_prekey_id: kid,
                        ..head
                    };
                    lemma_tail_ext(r4, p4, head2, t);
                }
            }
        }
    }
}

/// Every refusal is `Malformed`, and bytes that parse stop parsing once
/// anything follows them.
proof fn lemma_bundle_ext(b: Seq<u8>, t: Seq<u8>)
    ensures
        spec_parse_bundle(b) matches Err(e) ==> e matches CoreError::Malformed(_),
        spec_parse_bundle(b) is Ok && t.len() > 0 ==> spec_parse_bundle(b + t) is Err,
{
    lemma_u8_ext(b, t, 0);
    if rd_u8(b, 0) is Ok {
        let (ver, r1, p1) = rd_u8(b, 0)->Ok_0;
        lemma_field_ext(r1, t, p1);
        if ver == FORMAT_VERSION && rd_field(r1, p1) is Ok {
            let (addr, r2, p2) = rd_field(r1, p1)->Ok_0;
            lemma_u32_ext(r2, t, p2);
            if valid_utf8(addr) && rd_u32(r2, p2) is Ok {
                let (reg, r3, p3) = rd_u32(r2, p2)->Ok_0;
                lemma_u32_ext(r3, t, p3);
                if rd_u32(r3, p3) is Ok {
                    let (dev, r4, p4) = rd_u32(r3, p3)->Ok_0;
                    lemma_field_ext(r4, t, p4);
                    if dev == 1 && rd_field(r4, p4) is Ok {
                        let (ik, r5, p5) = rd_field(r4, p4)->Ok_0;
                        let head = BundleView {
                            address_name: decode_utf8(addr),
                            registration_id: reg,
                            device_id: dev,
                            identity_key: ik,
                            signed_prekey_id: 0,
                            signed_prekey_pub: Seq::empty(),
                            signed_prekey_sig: Seq::empty(),
                            kyber_prekey_id: 0,
                            kyber_prekey_pub: Seq::empty(),
                            kyber_prekey_sig: Seq::empty(),
                            onetime_prekey: None,
                        };
                        lemma_middle_ext(r5, p5, head, t);
                    }
                }
            }
        }
    }
}

/// A serialized bundle is refused as `Malformed` with anything after it,
/// and so is every strict prefix of it: a bundle parses only at its exact
/// length.
pub proof fn law_bundle_exact_length(v: BundleView, s: Seq<u8>, n: int)
    requires
        bundle_fields_fit(v),
        onetime_wf(v),
        spec_bundle_bytes(v).len() <= usize::MAX,
        bundle_verdict(v) is Ok,
        s.len() > 0,
        0 <= n < spec_bundle_bytes(v).len(),
    ensures
        spec_parse_bundle(spec_bundle_bytes(v) + s) matches Err(e) && e matches CoreError::Malformed(_),
        spec_parse_bundle(spec_bundle_bytes(v).take(n)) matches Err(e) && e matches CoreError::Malformed(_),
{
    let b = spec_bundle_bytes(v);
    law_bundle_roundtrip(v);
    lemma_bundle_ext(b, s);
    lemma_bundle_ext(b + s, s);
    let pre = b.take(n);
    let rest = b.skip(n);
    assert(pre + rest =~= b);
    lemma_bundle_ext(pre, rest);
}

} // verus!
